//! Human rendering of observations, and the certificate checks it shares with
//! the diagnostic engine.

pub mod cert;
pub mod date;
pub mod diagnosis;
pub mod dns;
pub mod http;
pub mod laws;
pub mod layout;
pub mod plain;
pub mod repeat;
pub mod route;
pub mod transport;

pub use cert::{cert_covers_hostname, presented_name_differs};
pub use date::days_until_from_rfc3339;
pub use diagnosis::render_diagnoses;
pub use dns::render_dns;
pub use http::{render_http, render_http_plain};
pub use repeat::{render_dns_repeat, render_probe};
pub use route::{render_route, render_route_repeat};
pub use transport::{render_tcp, render_tls};
