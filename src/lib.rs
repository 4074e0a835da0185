//! Decision core of a QUIC endpoint driver: one UDP socket shared by many
//! connections. The socket, the QUIC protocol machines and the task wakeups
//! are driven from outside; every choice about routing, queueing, timers,
//! shutdown and the bounding of work is made, and proved, here.
pub mod addr;
pub mod limiter;
pub mod recv;
pub mod conn;
pub mod incoming;
pub mod endpoint;
