//! Verified core of the VoidMetrics monitoring agent.
//!
//! The agent connects to its core over a WebSocket, sends host metrics and
//! process lists, and answers the core's commands. This library holds the
//! agent's decisions and text handling; the program around it reads the
//! machine, the environment and the network.
//!
//! - `text`: trimming, case folding, decimal numbers, lines and words.
//! - `ids`: UUID text and the agent id kept on disk.
//! - `cli`: the command line.
//! - `settings`: settings from the command line and the environment.
//! - `metrics`: disk and network totals.
//! - `processes`: the process list of a metrics batch.
//! - `commands`: server frames, commands and their replies.
pub mod cli;
pub mod commands;
pub mod ids;
pub mod metrics;
pub mod processes;
pub mod settings;
pub mod text;
