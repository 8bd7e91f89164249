pub mod config;
pub mod download;
pub mod s3;
pub mod script;
