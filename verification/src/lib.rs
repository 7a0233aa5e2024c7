//! Verified core of the OpenClaw manager's utilities: the shell environment
//! file (`export KEY="VALUE"` lines), gateway tokens, the npm registry and
//! `PATH` that child processes get, how their outcomes are reported, and the
//! search for the `openclaw` tool.
//!
//! Every function here computes on plain values; reading files, reading the
//! environment and starting processes are left to the caller.

pub mod text;
pub mod order;
pub mod envfile;
pub mod env_laws;
pub mod token;
pub mod registry;
pub mod command;
pub mod openclaw;
pub mod paths;
pub mod probe;
pub mod gateway_token;
