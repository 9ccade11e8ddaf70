pub mod codec;
pub mod wire;
