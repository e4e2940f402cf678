//! Hourly per-address aggregation of network flow records, and the planning
//! of their merge-add upserts into month-partitioned storage tables.
//!
//! A processing cycle runs through the modules in this order:
//!
//! - [`netflow`] decodes the JSON output of the flow decoder into flow
//!   records;
//! - [`classify`] tells the direction of each flow from the side of the
//!   monitored network that its two addresses lie on;
//! - [`cache`] counts the bytes of each flow under an address, a day and an
//!   hour ([`key`]), in one cache or in one cache for each shard of the flows;
//! - [`upsert`] turns a cache into rows, chunks of rows and statements, and
//!   [`flush`] gives the storage one command after the other, depending on
//!   what it made of the commands before;
//! - [`partition`] sees to it that the month tables exist.
//!
//! [`model`], [`totals`] and [`store`] hold the mathematics: what a cache
//! is, that its counters are the sums of the bytes counted, and what flushes
//! leave in the storage.
//!
//! Nothing here talks to a database, a file or a clock: statements are handed
//! out as text with their parameters, and outcomes are handed in.

pub mod address;
pub mod cache;
pub mod classify;
pub mod counters;
pub mod date;
pub mod flush;
pub mod key;
pub mod model;
pub mod netflow;
pub mod partition;
pub mod pattern;
pub mod record;
pub mod store;
pub mod text;
pub mod totals;
pub mod upsert;

pub use cache::{cache_data, cache_data_mt, AggregationCache};
pub use classify::{get_netflow_type, Direction};
pub use counters::FlowCount;
pub use flush::Flush;
pub use netflow::{parse_data, NetflowV4, NetflowV6};
pub use partition::{check_dbtable, Upkeep};
pub use pattern::{get_all_netflow_file, Pattern};
pub use upsert::{store_cache_chunked, store_cache_mt, update_flow, update_flow_mt};
