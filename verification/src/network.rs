pub mod swarm;
pub mod topics;
