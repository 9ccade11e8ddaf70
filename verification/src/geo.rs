pub mod latency;
