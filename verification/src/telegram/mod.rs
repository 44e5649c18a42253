pub mod client;
pub mod poller;
pub mod types;
