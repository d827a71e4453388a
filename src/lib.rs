pub mod aggregator;
pub mod format;
pub mod frame;
pub mod game;
pub mod progress;
pub mod system_atlas;
mod text;
pub mod worker;
