//! Where the proxy keeps its files, below the data directory.
use vstd::prelude::*;
use crate::text::concat;

verus! {

/// The directory of the ACME challenge token files.
pub fn acme_challenge_path(data_path: &str) -> (r: String)
    ensures
        r@ == data_path@ + "/acme-challenge"@,
{
    concat(data_path, "/acme-challenge")
}

/// The directory of the ACME account data.
pub fn acme_path(data_path: &str) -> (r: String)
    ensures
        r@ == data_path@ + "/acme"@,
{
    concat(data_path, "/acme")
}

/// The directory of the certificate records: the override when one is
/// set, else `certs` below the data directory.
pub fn cert_path(data_path: &str, cert_path_override: Option<&str>) -> (r: String)
    ensures
        r@ == match cert_path_override {
            Some(p) => p@,
            None => data_path@ + "/certs"@,
        },
{
    match cert_path_override {
        Some(p) => p.to_owned(),
        None => concat(data_path, "/certs"),
    }
}

/// The record file of a primary hostname: `<cert_path>/<host>/cert.json`.
pub fn cert_file_path(cert_path: &str, host_name: &str) -> (r: String)
    ensures
        r@ == cert_path@ + "/"@ + host_name@ + "/cert.json"@,
{
    let a = concat(cert_path, "/");
    let b = concat(a.as_str(), host_name);
    concat(b.as_str(), "/cert.json")
}

/// The file of a challenge token: `<acme_challenge_path>/<token>`.
pub fn challenge_file_path(challenge_path: &str, token: &str) -> (r: String)
    ensures
        r@ == challenge_path@ + "/"@ + token@,
{
    let a = concat(challenge_path, "/");
    concat(a.as_str(), token)
}

} // verus!
