pub mod global_aggregator;
pub mod local_aggregator;
pub mod state;
pub mod traffic;
pub mod validator;
