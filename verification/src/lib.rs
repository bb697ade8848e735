pub mod bump;
pub mod hashmap;
