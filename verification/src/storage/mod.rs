pub mod oid_array;
pub mod table_storage;

pub use table_storage::Storage;
