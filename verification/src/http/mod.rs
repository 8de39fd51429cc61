pub mod header;
pub mod host;
pub mod query;
pub mod request;
pub mod trusted_proxies;

pub use header::Header;
pub use host::{is_default_port, strip_default_port, without_default_port};
pub use query::{PathAndQueryWithSkipped, sanitize_url};
pub use request::Request;
pub use trusted_proxies::TrustedProxies;
