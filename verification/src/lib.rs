pub mod chunks;
pub mod error;
pub mod inflate;
pub mod png;
pub mod utils;
