//! Verified core of Integration Changelog Watch: the rules that turn vendor
//! feeds into action cards, validate watches, limit request rates and keep the
//! deployment topology durable.

pub mod text;
pub mod config;
pub mod net;
pub mod limiter;
pub mod digest;
pub mod notices;
pub mod watch;
pub mod matching;
pub mod cli;
pub mod topology;
pub mod site;
