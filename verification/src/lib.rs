//! Verified core of the llama.cpp admin monitor.
pub mod applog;
pub mod text;
pub mod server_args;
pub mod diagnose;
pub mod system;
pub mod gpu;
pub mod launch;
pub mod builds;
pub mod models;
pub mod gguf;
pub mod update;
pub mod web;
pub mod bench;
pub mod metrics;
pub mod dsh;
pub mod pi;
pub mod hf;
pub mod order;
pub mod doc;
pub mod server;
