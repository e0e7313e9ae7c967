//! The logic of `rj`, a command line client for the Jenkins REST API.

pub mod browser;
pub mod chrome;
pub mod cli;
pub mod client;
pub mod commands;
pub mod headers;
pub mod http;
pub mod json;
pub mod output;
pub mod text;
pub mod xml;
