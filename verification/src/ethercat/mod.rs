//! The endpoint of an EtherCAT drive.

pub mod capture;
pub mod claim;
pub mod curves;
pub mod endpoint;
pub mod frames;
pub mod laws;
pub mod scale;
pub mod telemetry;
pub mod torque;
pub mod wire;
