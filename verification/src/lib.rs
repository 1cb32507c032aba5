//! Trade Edge: the decision logic of a trading bot, its referee server and its
//! live dashboard, verified with Verus.

pub mod bot;
pub mod dashboard;
pub mod server;
pub mod sse;
pub mod trade;
pub mod user_map;
pub mod word;
