//! A separate-chaining hash table with a fixed number of buckets.
pub mod key;
pub mod laws;
pub mod table;

pub use key::HashKey;
pub use table::HashTable;
