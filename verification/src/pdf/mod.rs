pub mod browser;
pub mod cdp;
pub mod count;
pub mod error;
pub mod paged;
