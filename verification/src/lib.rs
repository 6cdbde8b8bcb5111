pub mod errors;
pub mod types;
pub mod codec_laws;
pub mod key_order;
pub mod decoder;
pub mod numparse;
pub mod sqlast;
pub mod schema;
pub mod mem;
pub mod transaction;
pub mod table;
pub mod table_manager;
pub mod session;
pub mod expression;
pub mod config;
pub mod common;
pub mod planner;
pub mod executor;
