use vstd::prelude::*;

pub mod config;
pub mod load;
pub mod query;
pub mod schemas;
pub mod tables;
pub mod txn_result;
pub mod workload;

pub use txn_result::TpccResults;

verus! {

pub const DISTRICT_SCALE: usize = 10;
pub const CUSTOMER_SCALE: usize = 3000;
pub const ITEM_SCALE: usize = 100000;
pub const CARRIER_NULL: usize = 0;

} // verus!
