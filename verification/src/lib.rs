//! IronClaw: the policy core of a sandbox for running trading strategies.
//!
//! The library decides what a sandbox configuration allows, checks it
//! against the hard limits (512 MB of memory, 300 seconds of runtime, at
//! least one read-only path), and describes the bubblewrap command that
//! confines a Python backtest.
pub mod confluence;
pub mod decimal;
pub mod sandbox;

pub use sandbox::SandboxConfig;
