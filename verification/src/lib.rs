//! Verified core of a git-like command line client for Nextcloud.

pub mod text;
pub mod paths;
pub mod ignore;
pub mod url;
pub mod hash;
pub mod tree;
pub mod head;
pub mod index;
pub mod config;
pub mod gconfig;
pub mod blob;
pub mod status;
pub mod push;
pub mod props;
pub mod remote;
pub mod request_manager;
pub mod clone;
pub mod downloader;
pub mod add;
pub mod init;
pub mod api;
