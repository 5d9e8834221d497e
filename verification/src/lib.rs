//! Line-oriented serial echo service for a cooperative, single-threaded
//! executor: frame detection, text validation and trimming, the echo reply,
//! and the state machines of the receive and heartbeat tasks.

pub mod config;
pub mod text;
pub mod frame;
pub mod trigger;
pub mod receive;
pub mod heartbeat;
pub mod scheduler;
