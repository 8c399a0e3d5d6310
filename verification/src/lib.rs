//! Verified core of a cross-exchange lead-lag trading runtime.

pub mod ab_portfolio;
pub mod arith;
pub mod assignment;
pub mod candidates;
pub mod catalog;
pub mod clock_offset;
pub mod config;
pub mod drained;
pub mod fingerprint;
pub mod fleet_patch;
pub mod forward_job;
pub mod guards;
pub mod health;
pub mod health_check;
pub mod health_state;
pub mod ingest;
pub mod models;
pub mod portfolio;
pub mod portfolio_history;
pub mod records;
pub mod runner;
pub mod runtime;
pub mod servers;
pub mod sorting;
pub mod symbol_cache;
pub mod symbols;
pub mod text;
pub mod timestamps;
