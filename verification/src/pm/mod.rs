pub mod error;
pub mod from_prima;
pub mod mapping;
