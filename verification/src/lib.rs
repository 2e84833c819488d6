//! Verified core of the Daml IDE bridge and the Zed extension's server logic.

pub mod text;
pub mod json;
pub mod table;
pub mod intercept;
pub mod server;
pub mod page;
pub mod ids;
pub mod resources;
pub mod http;
pub mod bridge;
pub mod trace;
pub mod numbers;
pub mod framing;
pub mod results;
pub mod extension;
