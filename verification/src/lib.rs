//! A poll lifecycle and voting engine with a live results broadcaster.
//!
//! The store of polls and options is held in memory; every state
//! transition (create, vote, close, reset, delete) is specified by a
//! mathematical transition function over that store and proved to match
//! it, including the consistency invariant that the vote counts of a
//! poll's options always sum to the number of recorded voters.

pub mod app_config;
pub mod clock;
pub mod db;
pub mod json_responder;
pub mod jwt;
pub mod laws;
pub mod listings;
pub mod model;
pub mod options_repo;
pub mod poll_api_model;
pub mod poll_routes;
pub mod polls_repo;
pub mod sse;
