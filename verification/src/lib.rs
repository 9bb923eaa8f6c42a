//! A deterministic, event-sourced trading engine.
//!
//! Every state change is an event with a global sequence number, and replaying the same
//! events always gives the same state.
pub mod backtest;
pub mod binance;
pub mod book;
pub mod clock;
pub mod codec;
pub mod config;
pub mod connector;
pub mod dashboard;
pub mod error;
pub mod event;
pub mod execution;
pub mod feed;
pub mod gateway;
pub mod hotpath;
pub mod inventory;
pub mod json;
pub mod ledger;
pub mod log;
pub mod market_maker;
pub mod metrics;
pub mod microprice;
pub mod node;
pub mod normalizer;
pub mod num;
pub mod player;
pub mod protocol;
pub mod recovery;
pub mod replay;
pub mod replication;
pub mod ring;
pub mod risk;
pub mod router;
pub mod sequencer;
pub mod snapshot;
pub mod strategy;
pub mod symbols;
pub mod synthetic;
pub mod text;
pub mod toxicity;
pub mod trading;
pub mod types;
pub mod wire;
