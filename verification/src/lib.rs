pub mod codec;
pub mod config;
pub mod strutil;
pub mod validate;
