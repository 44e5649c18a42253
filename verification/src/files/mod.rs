pub mod catalog;
pub mod downloader;
pub mod filter;
pub mod order;
