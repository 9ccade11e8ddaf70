pub mod generator;
pub mod topology;
