pub mod async_task;
pub mod attribute_cache;
pub mod benchmark;
pub mod error;
pub mod index;
pub mod log;
pub mod metric;
pub mod query;
pub mod storage;
pub mod table;
pub mod utils;

pub use async_task::Executor;
