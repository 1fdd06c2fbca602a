//! Arbitration core for a serial threshold device: the line protocol the
//! device speaks, the named-profile configuration store, the command
//! dispatcher that keeps the two synchronized, and the persisted form
//! of the configuration.

pub mod amap;
pub mod broadcast;
pub mod command;
pub mod device;
pub mod dispatch;
pub mod persist;
pub mod protocol;
pub mod store;
pub mod text;
