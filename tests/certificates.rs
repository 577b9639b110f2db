use mproxy::certificate::{CertError, Certificate};
use mproxy::pem::{count_blocks, first_block_text, last_block_text};

const LEAF_A: &str = "\
-----BEGIN CERTIFICATE-----\n\
MIIBUTCB+KADAgECAgECMAoGCCqGSM49BAMCMBwxGjAYBgNVBAMMEVRlc3QgSW50\n\
ZXJtZWRpYXRlMB4XDTI0MDEwMTAwMDAwMFoXDTM0MDEwMTAwMDAwMFowGDEWMBQG\n\
A1UEAwwNYS5leGFtcGxlLmNvbTBZMBMGByqGSM49AgEGCCqGSM49AwEHA0IABGim\n\
c2EjJ23QdleKegfPBz1fual9YS25fhx9Z533TqLsSbqmR4K6BKrloiJOEBHUacoh\n\
0W+YSgSoWv7LpluPP86jLzAtMCsGA1UdEQQkMCKCDWEuZXhhbXBsZS5jb22CEXd3\n\
dy5hLmV4YW1wbGUuY29tMAoGCCqGSM49BAMCA0gAMEUCIQDXJW6p4RsaE52Tj0g9\n\
jRHG2dirTipYGdMN1HiODxclzQIgKyeFaoTuzKUbj+R2F78Mi2v7L6RYO2vsvHFc\n\
/VX4p90=\n\
-----END CERTIFICATE-----\n\
";

const INTER: &str = "\
-----BEGIN CERTIFICATE-----\n\
MIIBIzCBy6ADAgECAgEBMAoGCCqGSM49BAMCMBwxGjAYBgNVBAMMEVRlc3QgSW50\n\
ZXJtZWRpYXRlMB4XDTI0MDEwMTAwMDAwMFoXDTM0MDEwMTAwMDAwMFowHDEaMBgG\n\
A1UEAwwRVGVzdCBJbnRlcm1lZGlhdGUwWTATBgcqhkjOPQIBBggqhkjOPQMBBwNC\n\
AAT5n+Hlj8RjzWD8/MHxbnwzq2uykf3Raq4dTU9v6Kconu6LyKAD7nkrE+OiOYO+\n\
UVd/UMHO8EUMi79eWUPj49wWMAoGCCqGSM49BAMCA0cAMEQCIC7jT55ChKa7YJRT\n\
b1jvcyIUQc0hJBY1M3Tj5BDd0eVLAiBcvGCkalSHHfC9PgY6X3BuXcF2yZj5yNFb\n\
gCENKloBLQ==\n\
-----END CERTIFICATE-----\n\
";

const LEAF_B: &str = "\
-----BEGIN CERTIFICATE-----\n\
MIIBSDCB76ADAgECAgEDMAoGCCqGSM49BAMCMBwxGjAYBgNVBAMMEVRlc3QgSW50\n\
ZXJtZWRpYXRlMB4XDTI0MDEwMTAwMDAwMFoXDTM0MDEwMTAwMDAwMFowDzENMAsG\n\
A1UECgwEVGVzdDBZMBMGByqGSM49AgEGCCqGSM49AwEHA0IABNwVLHHRSlcUYgua\n\
rPCAzxBlgctQEfAgYU5wZ1+Ci+dPjKCSjZplU0YS9cn3lDUrm5Lx70GWG0erAaYR\n\
ZA8nOBKjLzAtMCsGA1UdEQQkMCKCDWIuZXhhbXBsZS5jb22CEWFwaS5iLmV4YW1w\n\
bGUuY29tMAoGCCqGSM49BAMCA0gAMEUCIGg/1+GJv1VUHLHL0PA44pBv0U76Gda3\n\
7VQNHsSL3tTiAiEAhqqAf89CsSiNzo4rcD/x16uq1OEDug6wL8FipPRBSfM=\n\
-----END CERTIFICATE-----\n\
";

const LEAF_OLD: &str = "\
-----BEGIN CERTIFICATE-----\n\
MIIBITCByaADAgECAgEEMAoGCCqGSM49BAMCMBwxGjAYBgNVBAMMEVRlc3QgSW50\n\
ZXJtZWRpYXRlMB4XDTIwMDEwMTAwMDAwMFoXDTIxMDEwMTAwMDAwMFowGjEYMBYG\n\
A1UEAwwPb2xkLmV4YW1wbGUuY29tMFkwEwYHKoZIzj0CAQYIKoZIzj0DAQcDQgAE\n\
9a2OzXGLCkxHOI5oLmZvachZpbJ5I1SEMoaSA5LAx8RrUj90mdY+C0tRSzpgATly\n\
KI4n6W5RxTfrGqqnpkoHNzAKBggqhkjOPQQDAgNHADBEAiBWtOY4lGj2R6KMR33F\n\
WdeilVi0G+XBn4bnc1h3gbgxbAIgfpplm3ikGA9hCA7gQD7sgtr7Y7gLkg22LNmd\n\
b3z7RNg=\n\
-----END CERTIFICATE-----\n\
";

const KEY_A: &str = "\
SECRET-REDACTED\n\
";

const VALID_FROM: i64 = 1704067200;
const VALID_UNTIL: i64 = 2019686400;

fn chain_a() -> String {
    format!("{}{}", LEAF_A, INTER)
}

fn record_a() -> Certificate {
    let mut c = Certificate::new("a.example.com".to_string());
    c.set_private_key(KEY_A.to_string());
    c.set_certificate(LEAF_A.to_string());
    c.set_full_chain(chain_a());
    c.set_host_names(vec!["www.a.example.com".to_string()]);
    c
}

#[test]
fn new_record_is_empty() {
    let c = Certificate::new("a.example.com".to_string());
    assert_eq!(c.get_host_name(), "a.example.com");
    assert!(c.host_names.is_none());
    assert!(c.private_key_pem.is_none());
    assert!(c.certificate_pem.is_none());
    assert!(c.full_chain.is_none());
    assert!(c.host_config.is_none());
    assert!(c.parsed_cert_der.is_none());
    assert!(c.parsed_inter_cert.is_none());
}

#[test]
fn intermediate_is_last_block_of_chain() {
    let c = record_a();
    let expected = der_of(INTER);
    assert_eq!(c.parsed_inter_cert, Some(expected));
}

#[test]
fn single_block_chain_has_no_intermediate() {
    let mut c = Certificate::new("a.example.com".to_string());
    c.set_full_chain(LEAF_A.to_string());
    assert!(c.parsed_inter_cert.is_none());
}

#[test]
fn extract_inter_cert_str_returns_last_block() {
    let chain = chain_a();
    assert_eq!(Certificate::extract_inter_cert_str(&chain), Some(INTER.trim_end()));
    assert_eq!(Certificate::extract_inter_cert_str(LEAF_A), Some(LEAF_A.trim_end()));
    assert_eq!(Certificate::extract_inter_cert_str("no pem here"), None);
    assert_eq!(Certificate::extract_inter_cert_str(""), None);
}

#[test]
fn trailing_unclosed_block_is_ignored() {
    let chain = format!("{}{}-----BEGIN CERTIFICATE-----\nAAAA\n", LEAF_A, INTER);
    assert_eq!(Certificate::extract_inter_cert_str(&chain), Some(INTER.trim_end()));
    assert_eq!(count_blocks(chain.as_bytes()), 2);
    assert_eq!(first_block_text(&chain), Some(LEAF_A.trim_end()));
    let mut c = Certificate::new("a.example.com".to_string());
    c.set_full_chain(chain);
    assert_eq!(c.parsed_inter_cert, Some(der_of(INTER)));
}

#[test]
fn last_block_starts_at_its_last_begin_marker() {
    let chain = format!("{}-----BEGIN CERTIFICATE-----\n{}", LEAF_A, INTER);
    assert_eq!(count_blocks(chain.as_bytes()), 2);
    assert_eq!(Certificate::extract_inter_cert_str(&chain), Some(INTER.trim_end()));
}

#[test]
fn blocks_are_counted_and_found() {
    let chain = format!("subject=leaf\n{}issuer=ca\n{}", LEAF_A, INTER);
    assert_eq!(count_blocks(chain.as_bytes()), 2);
    assert_eq!(first_block_text(&chain), Some(LEAF_A.trim_end()));
    assert_eq!(last_block_text(&chain), Some(INTER.trim_end()));
    assert_eq!(count_blocks(b"nothing"), 0);
}

#[test]
fn aliases_leave_out_the_primary_name() {
    let mut c = Certificate::new("a.example.com".to_string());
    c.set_host_names(vec![
        "a.example.com".to_string(),
        "www.a.example.com".to_string(),
        "a.example.com".to_string(),
        "m.a.example.com".to_string(),
    ]);
    assert_eq!(
        c.host_names,
        Some(vec!["www.a.example.com".to_string(), "m.a.example.com".to_string()])
    );
    c.set_host_name("www.a.example.com".to_string());
    assert_eq!(c.host_name, "www.a.example.com");
    assert_eq!(c.host_names, Some(vec!["m.a.example.com".to_string()]));
}

#[test]
fn validity_timestamps_of_leaf() {
    let c = record_a();
    assert_eq!(c.get_valid_from_unix_timestamp(), Ok(VALID_FROM));
    assert_eq!(c.get_valid_until_unix_timestamp(), Ok(VALID_UNTIL));
}

#[test]
fn expiry_is_relative_to_now() {
    let c = record_a();
    assert_eq!(c.is_expired(VALID_FROM), Ok(false));
    assert_eq!(c.is_expired(VALID_UNTIL), Ok(false));
    assert_eq!(c.is_expired(VALID_UNTIL + 1), Ok(true));
}

#[test]
fn renewal_threshold_in_days() {
    let c = record_a();
    let day: i64 = 86400;
    assert_eq!(c.needs_renewal(VALID_UNTIL - 31 * day, 30), Ok(false));
    assert_eq!(c.needs_renewal(VALID_UNTIL - 30 * day, 30), Ok(false));
    assert_eq!(c.needs_renewal(VALID_UNTIL - 30 * day + 1, 30), Ok(true));
    assert_eq!(c.needs_renewal(VALID_UNTIL, 0), Ok(false));
}

#[test]
fn validity_errors() {
    let empty = Certificate::new("a.example.com".to_string());
    assert_eq!(empty.get_valid_until_unix_timestamp(), Err(CertError::MissingCertificate));
    let mut garbage = Certificate::new("a.example.com".to_string());
    garbage.set_certificate("not a pem".to_string());
    assert_eq!(garbage.get_valid_from_unix_timestamp(), Err(CertError::MalformedPem));
    let mut not_cert = Certificate::new("a.example.com".to_string());
    not_cert.set_certificate("-----BEGIN CERTIFICATE-----\nAAAA\n-----END CERTIFICATE-----\n".to_string());
    assert_eq!(not_cert.is_expired(0), Err(CertError::InvalidCertificate));
}

#[test]
fn parse_cert_keeps_the_der() {
    let mut c = record_a();
    assert_eq!(c.parse_cert(), Ok(()));
    let der = c.parsed_cert_der.clone().expect("decoded leaf");
    assert!(der.len() > 100);
    assert_eq!(der[0], 0x30);
    assert_eq!(c.get_valid_until_unix_timestamp(), Ok(VALID_UNTIL));
    let mut empty = Certificate::new("x.test".to_string());
    assert_eq!(empty.parse_cert(), Err(CertError::MissingCertificate));
    assert!(empty.parsed_cert_der.is_none());
}

#[test]
fn from_struct_keeps_persisted_fields() {
    let mut stored = record_a();
    stored.parsed_inter_cert = None;
    stored.parsed_cert_der = Some(vec![1, 2, 3]);
    let rebuilt = Certificate::from_struct(stored.clone());
    assert_eq!(rebuilt.host_name, stored.host_name);
    assert_eq!(rebuilt.host_names, stored.host_names);
    assert_eq!(rebuilt.private_key_pem, stored.private_key_pem);
    assert_eq!(rebuilt.certificate_pem, stored.certificate_pem);
    assert_eq!(rebuilt.full_chain, stored.full_chain);
    assert_eq!(rebuilt.host_config, stored.host_config);
    assert!(rebuilt.parsed_cert_der.is_none());
    assert_eq!(rebuilt.parsed_inter_cert, Some(der_of(INTER)));
}

#[test]
fn expired_leaf_reports_expired() {
    let mut c = Certificate::new("old.example.com".to_string());
    c.set_certificate(LEAF_OLD.to_string());
    assert_eq!(c.get_valid_from_unix_timestamp(), Ok(1577836800));
    assert_eq!(c.get_valid_until_unix_timestamp(), Ok(1609459200));
    assert_eq!(c.is_expired(1704067200), Ok(true));
    let _ = LEAF_B;
}

fn der_of(pem: &str) -> Vec<u8> {
    let der = x509_parser::pem::parse_x509_pem(pem.as_bytes()).expect("pem").1.contents;
    assert_eq!(der[0], 0x30);
    der
}
