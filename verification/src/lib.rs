//! Host-side runtime for motion controllers: the message protocol, the
//! sequence window and its reactor, the passthrough queues, and the endpoint
//! logic of the EtherCAT drive.

pub mod bytes;
pub mod clock;
pub mod clock_sync;
pub mod credit;
pub mod endstop;
pub mod ethercat;
pub mod fault;
pub mod host_io;
pub mod ordered_map;
pub mod passthrough_queue;
pub mod producer;
pub mod rounding;
pub mod text;
pub mod text_laws;
pub mod transport;
