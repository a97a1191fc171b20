//! ClipFarmer: an evidence-first pipeline that turns stream evidence into short vertical clips.
//!
//! This crate holds the pipeline's decisions, validation rules, timelines and text formats,
//! each stated by a contract and proved.
mod digest;
pub mod accounts;
pub mod adapters;
pub mod chat;
pub mod cli;
pub mod cli_config;
pub mod config;
pub mod domain;
pub mod editorial;
pub mod evidence;
pub mod jobs;
pub mod json;
pub mod manifest;
pub mod models;
pub mod pipeline;
pub mod production;
pub mod progress;
pub mod publishers;
pub mod text;
pub mod timeline;
pub mod vocabulary;
