pub mod events;
pub mod stats;
pub mod summary;
