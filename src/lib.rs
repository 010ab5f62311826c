pub mod error;
pub mod paths;
pub mod archive;
pub mod store;
pub mod source;
pub mod perms;
pub mod banner;
pub mod config;
pub mod registry;
pub mod workspace;
