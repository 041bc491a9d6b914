//! Queues of raw messages that other programs send to the controllers through
//! this one.

pub mod command_queue;
pub mod config_stage;
pub mod debug_log;
pub mod entry;
pub mod laws;
pub mod mcu_state;
pub mod notify;
pub mod receive_window;
pub mod router;
pub mod stats;
