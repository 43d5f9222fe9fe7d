pub mod cli;
pub mod config;
pub mod ip;
pub mod metrics;
pub mod model;
pub mod nft;
pub mod probe;
pub mod text;
pub mod tui;
pub mod ufw;
