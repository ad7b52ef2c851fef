//! A network traffic monitor: from captured packets to snapshots, limits, alerts and the
//! state of the monitor window. Reading from and writing to the outside is left to the
//! program around this library.

pub mod address;
pub mod aggregate;
pub mod aggregator;
pub mod alert;
pub mod capture;
pub mod chart;
mod clock;
pub mod data;
pub mod export;
pub mod filter;
pub mod history;
pub mod ipc;
pub mod ipc_cmd;
pub mod monitor;
pub mod number;
pub mod order;
pub mod output;
pub mod parser;
pub mod proc_attr;
pub mod process_control;
pub mod table;
pub mod text;
pub mod view;
