//! exsync: the verified core of a one-shot folder sync tool for external
//! drives (mirror and move modes), with its strict configuration parser.

pub mod hash;
pub mod text;
pub mod config;
pub mod config_model;
pub mod paths;
pub mod matcher;
pub mod log;
pub mod manifest;
pub mod notify;
pub mod cli;
pub mod dispatch;
pub mod rules;
pub mod copy;
pub mod order;
pub mod steps;
pub mod flow;
