use vstd::prelude::*;

pub mod text;
pub mod vercmp;
pub mod model;
pub mod db;
pub mod deps;
pub mod config;
pub mod policy;
pub mod date;
pub mod output;
pub mod error;
pub mod apply;
pub mod http;
pub mod publication;
pub mod discovery;
pub mod cache;
pub mod cli;
pub mod logging;
pub mod progress;
pub mod load;
pub mod run;
