//! Decision core of a market maker for binary (YES/NO) prediction markets.

pub mod bits;
pub mod book_laws;
pub mod book_side;
pub mod clock;
pub mod config;
pub mod dotenv;
pub mod dotenv_laws;
pub mod message_laws;
pub mod numbers;
pub mod order_book;
pub mod outcome_laws;
pub mod pairs;
pub mod pairs_laws;
pub mod quoting;
pub mod quoting_laws;
pub mod rate;
pub mod reconcile;
pub mod rest;
pub mod rotation;
pub mod session;
pub mod session_laws;
pub mod sweep;
pub mod sweep_laws;
pub mod text;
pub mod tracker;
pub mod tracker_laws;
