pub mod display;
pub mod progress;
pub mod selector;
pub mod setup;
