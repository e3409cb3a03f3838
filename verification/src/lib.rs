//! Packet engine of a LAN scanner: frame codec, scan planning, host
//! bookkeeping and sliding-window traffic statistics, with machine-checked
//! contracts.

pub mod error;
pub mod text;
pub mod maps;
pub mod net;
pub mod speed;
pub mod sums;
pub mod traffic;
pub mod tally;
pub mod window;
pub mod averages;
pub mod connections;
pub mod stats_aggregator;
pub mod interface;
pub mod host;
pub mod frame;
pub mod event;
pub mod scanner;
pub mod app;
pub mod hosts_table;
