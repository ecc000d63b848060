//! Verified core of the trading-bootcamp exchange backend: order matching,
//! exposure and portfolio arithmetic, settlement, transfers, owner credits,
//! and the validation rules of the websocket and REST API.

pub mod admin_api;
pub mod auth;
pub mod db;
pub mod global_db;
pub mod money;
pub mod numbers;
pub mod random;
pub mod session;
pub mod showcase;
pub mod single_player;
pub mod text;
