//! The logic of a market maker for crypto derivatives: order books, the order management system,
//! the messages to the exchange, and what is done about each event. Every function states what it
//! returns or changes, and Verus proves it.

pub mod auth;
pub mod binancefeed;
pub mod binary64;
pub mod decimal;
pub mod eventbucket;
pub mod instrument_names;
pub mod json;
pub mod kraken;
pub mod kraken_level3;
pub mod ladder;
pub mod marketmaker;
pub mod oms;
pub mod oms_model;
pub mod order_book;
pub mod orderhandler;
pub mod portfolio;
pub mod rpc;
pub mod seqs;
pub mod session;
pub mod shared_state;
pub mod sharedstate;
pub mod string_map;
pub mod text;
pub mod volatility;
