//! A content addressed cache for the output of Halide generators, shared between machines.
//!
//! - `address`, `key`, `strip`, `order`: what the address of an output is made of.
//! - `lager`, `operations`, `compression`: the store, as machines that ask for file system
//!   work.
//! - `lru`, `pass`: what is evicted from a store, and in which order.
//! - `model`, `exchange`: what the operations do as a whole, on one machine and between two.
//! - `faults`, `turns`: what they do when something fails, when they are stopped, and when
//!   several run at the same time.
//! - `client`, `flow`, `remote`: the course of an invocation.
//! - `http`, `extract`, `blobs`, `eviction`, `config`: the server.
//! - `metrics`, `history`, `clients`, `ages`, `stats`: what the server counts and reports.
//! - `text`, `error`: what the others share.

#![allow(unused_imports)]

pub mod address;
pub mod ages;
pub mod blobs;
pub mod client;
pub mod clients;
pub mod compression;
pub mod config;
pub mod error;
pub mod eviction;
pub mod exchange;
pub mod extract;
pub mod faults;
pub mod flow;
pub mod history;
pub mod http;
pub mod key;
pub mod lager;
pub mod lru;
pub mod metrics;
pub mod model;
pub mod operations;
pub mod order;
pub mod pass;
pub mod remote;
pub mod stats;
pub mod strip;
pub mod text;
pub mod turns;
