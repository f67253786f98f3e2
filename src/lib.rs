//! A prefix-routed HTTP reverse proxy core: route configuration, the pool of
//! outbound transports, path rewriting, and the translation of one exchange.
pub mod config;
pub mod exchange;
pub mod fault;
pub mod headers;
pub mod path;
pub mod transport;

pub use config::{Config, EndpointConfig, ServerConfig};
pub use exchange::{
    conclude, InboundResponse, OutboundRequest, ProxyService, UpstreamReply, UpstreamResponse,
};
pub use fault::Fault;
pub use path::extract_path;
pub use transport::{ConfigurationError, Transport, TransportPool};
