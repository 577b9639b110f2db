//! Certificate bookkeeping for a TLS-terminating reverse proxy.
//!
//! - `pem`, `text`: locating certificate blocks in PEM text, string slicing.
//! - `certificate`: one certificate bundle, with its derived intermediate and
//!   validity queries; `x509` holds the calls into `x509_parser` it relies on.
//! - `host_config`: the routing table and its loader.
//! - `store`: hostnames and aliases bound to shared record slots.
//! - `cert_handler`: certificate selection during the TLS handshake.
//! - `plaintext`, `forwarding`: the plaintext listener's answers, and request
//!   rewriting on the TLS data plane.
//! - `acme`: the ACME order state machine and the record built from an
//!   issued chain; `scheduler`: renewal timing and per-host exclusion.
//! - `import`: records from a directory of the common "live" layout.
//! - `paths`, `config`: file layout and listener settings.
pub mod pem;
pub mod text;
pub mod host_config;
pub mod x509;
pub mod certificate;
pub mod store;
pub mod cert_handler;
pub mod plaintext;
pub mod acme;
pub mod paths;
pub mod import;
pub mod forwarding;
pub mod config;
pub mod scheduler;
