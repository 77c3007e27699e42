//! Routing and protocol logic of a local SOCKS5 proxy that carries Telegram
//! traffic through WebSocket tunnels, with the helpers of its desktop front end.
pub mod text;
pub mod ipv4;
pub mod telegram;
pub mod ipv6;
pub mod socks5;
pub mod relay;
pub mod diagnostics;
pub mod stats;
pub mod frontend;
pub mod bypass;
