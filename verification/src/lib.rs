//! Request-line scanning and header extraction for a small forwarding HTTP proxy.

pub mod text;
pub mod line;
pub mod query;
pub mod http;
pub mod relay;
pub mod proxy;
pub mod proxyssl;
