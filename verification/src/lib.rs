//! Per-key token spend ceilings over a fixed window.
//!
//! [`filter`] decides on requests and charges responses, [`ledger`] keeps the
//! usage of each key, and [`config`] holds the rules a configuration has to
//! meet. The modules named after laws state what holds across calls.

pub mod call_laws;
pub mod clock;
pub mod config;
pub mod config_laws;
pub mod filter;
pub mod filter_laws;
pub mod headers;
pub mod ledger;
pub mod ledger_laws;
pub mod ordered_map;
pub mod rejection;
pub mod text;
