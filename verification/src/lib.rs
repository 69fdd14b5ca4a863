//! Verified core of the shared application layer: loopback admission, product scope,
//! refresh bookkeeping and supervision, prepared-serving publication tickets, filter-option
//! dictionaries, and WAL maintenance.

pub mod text;
pub mod host;
pub mod admission;
pub mod wal_maintenance;
pub mod wal_signal;
pub mod target;
pub mod product_scope;
pub mod publication;
pub mod rebuild_queue;
pub mod refresh_registry;
pub mod refresh_schedule;
pub mod workflow;
pub mod query_targets;
pub mod product_routes;
pub mod discovery_selection;
pub mod product_targets;
pub mod clock;
pub mod supervisor;
pub mod supervisor_book;
pub mod catalog_workflow;
pub mod option_text;
pub mod filter_options;
pub mod prepared_options;
pub mod fts_query;
pub mod open_evidence;
