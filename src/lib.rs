pub mod config;
pub mod pool;
pub mod text;

pub use config::{matching_lines, Config};
pub use text::{search, search_case_insensitive};
