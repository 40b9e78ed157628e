pub mod text;
pub mod order;
pub mod agent;
pub mod stream;
pub mod config;
pub mod utils;
pub mod constants;
pub mod tools;
pub mod publisher;
pub mod headers;
