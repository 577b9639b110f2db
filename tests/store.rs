use mproxy::cert_handler::{CertHandler, HandshakeError};
use mproxy::certificate::Certificate;
use mproxy::host_config::{HostConfig, HostConfigList, HostsConfigLoader};
use mproxy::store::{CertStore, RouteError};

const LEAF_A: &str = "\
-----BEGIN CERTIFICATE-----\n\
MIIBUTCB+KADAgECAgECMAoGCCqGSM49BAMCMBwxGjAYBgNVBAMMEVRlc3QgSW50\n\
ZXJtZWRpYXRlMB4XDTI0MDEwMTAwMDAwMFoXDTM0MDEwMTAwMDAwMFowGDEWMBQG\n\
A1UEAwwNYS5leGFtcGxlLmNvbTBZMBMGByqGSM49AgEGCCqGSM49AwEHA0IABGim\n\
c2EjJ23QdleKegfPBz1fual9YS25fhx9Z533TqLsSbqmR4K6BKrloiJOEBHUacoh\n\
0W+YSgSoWv7LpluPP86jLzAtMCsGA1UdEQQkMCKCDWEuZXhhbXBsZS5jb22CEXd3\n\
dy5hLmV4YW1wbGUuY29tMAoGCCqGSM49BAMCA0gAMEUCIQDXJW6p4RsaE52Tj0g9\n\
jRHG2dirTipYGdMN1HiODxclzQIgKyeFaoTuzKUbj+R2F78Mi2v7L6RYO2vsvHFc\n\
/VX4p90=\n\
-----END CERTIFICATE-----\n\
";

const INTER: &str = "\
-----BEGIN CERTIFICATE-----\n\
MIIBIzCBy6ADAgECAgEBMAoGCCqGSM49BAMCMBwxGjAYBgNVBAMMEVRlc3QgSW50\n\
ZXJtZWRpYXRlMB4XDTI0MDEwMTAwMDAwMFoXDTM0MDEwMTAwMDAwMFowHDEaMBgG\n\
A1UEAwwRVGVzdCBJbnRlcm1lZGlhdGUwWTATBgcqhkjOPQIBBggqhkjOPQMBBwNC\n\
AAT5n+Hlj8RjzWD8/MHxbnwzq2uykf3Raq4dTU9v6Kconu6LyKAD7nkrE+OiOYO+\n\
UVd/UMHO8EUMi79eWUPj49wWMAoGCCqGSM49BAMCA0cAMEQCIC7jT55ChKa7YJRT\n\
b1jvcyIUQc0hJBY1M3Tj5BDd0eVLAiBcvGCkalSHHfC9PgY6X3BuXcF2yZj5yNFb\n\
gCENKloBLQ==\n\
-----END CERTIFICATE-----\n\
";

const KEY_A: &str = "\
SECRET-REDACTED\n\
";

fn record(host: &str, aliases: &[&str]) -> Certificate {
    let mut c = Certificate::new(host.to_string());
    c.set_host_names(aliases.iter().map(|a| a.to_string()).collect());
    c
}

fn serveable(host: &str, aliases: &[&str]) -> Certificate {
    let mut c = record(host, aliases);
    c.set_private_key(KEY_A.to_string());
    c.set_certificate(LEAF_A.to_string());
    c.set_full_chain(format!("{}{}", LEAF_A, INTER));
    c
}

fn entry(host: &str, aliases: Option<&[&str]>, upstream: &str) -> HostConfig {
    HostConfig {
        host_name: host.to_string(),
        aliases: aliases.map(|v| v.iter().map(|a| a.to_string()).collect()),
        upstream_address: upstream.to_string(),
    }
}

#[test]
fn empty_store_finds_nothing() {
    let store = CertStore::new();
    assert!(store.get_cert("a.example.com").is_none());
    assert!(store.hostnames().is_empty());
}

#[test]
fn install_binds_primary_and_aliases_to_one_record() {
    let mut store = CertStore::new();
    let r = record("a.example.com", &["www.a.example.com", "m.a.example.com"]);
    store.install(r.clone());
    let by_primary = store.get_cert("a.example.com").expect("primary");
    let by_alias = store.get_cert("www.a.example.com").expect("alias");
    let by_other = store.get_cert("m.a.example.com").expect("alias");
    assert_eq!(*by_primary, r);
    assert_eq!(*by_alias, r);
    assert_eq!(*by_other, r);
    assert!(std::ptr::eq(by_primary, by_alias));
    assert!(store.get_cert("b.example.com").is_none());
}

#[test]
fn reinstall_replaces_record_under_every_old_name() {
    let mut store = CertStore::new();
    store.install(record("a.example.com", &["old.a.example.com"]));
    let mut newer = record("a.example.com", &["new.a.example.com"]);
    newer.set_private_key("key".to_string());
    store.install(newer.clone());
    assert_eq!(*store.get_cert("a.example.com").unwrap(), newer);
    assert_eq!(*store.get_cert("old.a.example.com").unwrap(), newer);
    assert_eq!(*store.get_cert("new.a.example.com").unwrap(), newer);
}

#[test]
fn later_install_takes_a_shared_alias() {
    let mut store = CertStore::new();
    let a = record("a.example.com", &["shared.example.com"]);
    let b = record("b.example.com", &["shared.example.com"]);
    store.install(a.clone());
    store.install(b.clone());
    assert_eq!(*store.get_cert("shared.example.com").unwrap(), b);
    assert_eq!(*store.get_cert("a.example.com").unwrap(), a);
}

#[test]
fn set_cert_binds_one_name() {
    let mut store = CertStore::new();
    store.install(record("a.example.com", &["www.a.example.com"]));
    let other = record("x.example.com", &[]);
    store.set_cert("www.a.example.com", other.clone());
    assert_eq!(*store.get_cert("www.a.example.com").unwrap(), other);
    assert_eq!(store.get_cert("a.example.com").unwrap().host_name, "a.example.com");
}

#[test]
fn missing_record_file_installs_placeholder() {
    let mut store = CertStore::new();
    store.host_config_to_cert(entry("a.example.com", Some(&["www.a.example.com"]), "10.0.0.5:8080"), None);
    let c = store.get_cert("www.a.example.com").expect("placeholder");
    assert_eq!(c.host_name, "a.example.com");
    assert!(c.full_chain.is_none());
    assert!(c.private_key_pem.is_none());
    assert_eq!(c.host_config.as_ref().unwrap().upstream_address, "10.0.0.5:8080");
    assert_eq!(store.upstream_for("a.example.com"), Ok("10.0.0.5:8080".to_string()));
}

#[test]
fn loaded_record_carries_its_routing_entry() {
    let mut store = CertStore::new();
    let loaded = serveable("a.example.com", &["www.a.example.com"]);
    store.host_config_to_cert(entry("a.example.com", None, "10.0.0.5:8080"), Some(loaded.clone()));
    let c = store.get_cert("www.a.example.com").expect("alias of the record");
    assert_eq!(c.full_chain, loaded.full_chain);
    assert_eq!(c.host_config, Some(entry("a.example.com", None, "10.0.0.5:8080")));
}

#[test]
fn routing_errors() {
    let mut store = CertStore::new();
    store.install(record("a.example.com", &[]));
    assert_eq!(store.upstream_for("a.example.com"), Err(RouteError::NoRouting));
    assert_eq!(store.upstream_for("b.example.com"), Err(RouteError::UnknownHost));
}

#[test]
fn load_whole_table() {
    let list = HostConfigList {
        host_configs: vec![
            entry("a.example.com", Some(&["www.a.example.com"]), "10.0.0.5:8080"),
            entry("b.example.com", None, "10.0.0.6:8080"),
        ],
    };
    let mut store = CertStore::new();
    store.load_certs_from_host_config_list(&list, vec![None, Some(serveable("b.example.com", &[]))]);
    assert_eq!(store.upstream_for("www.a.example.com"), Ok("10.0.0.5:8080".to_string()));
    assert_eq!(store.upstream_for("b.example.com"), Ok("10.0.0.6:8080".to_string()));
    assert_eq!(
        store.hostnames(),
        vec!["a.example.com".to_string(), "www.a.example.com".to_string(), "b.example.com".to_string()]
    );
}

#[test]
fn refresh_keeps_table_when_reload_fails() {
    let first = HostConfigList { host_configs: vec![entry("a.example.com", None, "1.1.1.1:80")] };
    let second = HostConfigList { host_configs: vec![entry("b.example.com", None, "2.2.2.2:80")] };
    let mut loader = HostsConfigLoader::new(first.clone());
    loader.refresh_hosts_config(None);
    assert_eq!(loader.load(), first);
    loader.refresh_hosts_config(Some(second.clone()));
    assert_eq!(loader.load(), second);

    let mut store = CertStore::new();
    store.refresh_hosts(Some(second.clone()), vec![None]);
    assert!(store.get_cert("b.example.com").is_none());
    store.set_host_config_loader(HostsConfigLoader::new(first.clone()));
    store.refresh_hosts(None, vec![]);
    assert!(store.get_cert("b.example.com").is_none());
    store.refresh_hosts(Some(second), vec![Some(serveable("b.example.com", &[]))]);
    let b = store.get_cert("b.example.com").expect("newly listed host");
    assert_eq!(b.host_config.as_ref().unwrap().upstream_address, "2.2.2.2:80");
    assert!(b.full_chain.is_some());
}

#[test]
fn alias_of_other_record_does_not_take_its_slot() {
    let mut store = CertStore::new();
    let a = record("a.example.com", &["b.example.com"]);
    store.install(a.clone());
    let b = record("b.example.com", &[]);
    store.install(b.clone());
    assert_eq!(*store.get_cert("a.example.com").unwrap(), a);
    assert_eq!(*store.get_cert("b.example.com").unwrap(), b);
}

#[test]
fn renewal_candidates_by_expiry() {
    let mut store = CertStore::new();
    store.install(serveable("a.example.com", &[]));
    store.install(record("b.example.com", &[]));
    let until: i64 = 2019686400;
    assert!(store.renewal_candidates(until - 31 * 86400, 30).is_empty());
    assert_eq!(store.renewal_candidates(until - 29 * 86400, 30), vec!["a.example.com".to_string()]);
}

#[test]
fn sni_hit_installs_leaf_intermediate_and_key() {
    let mut handler = CertHandler::new();
    handler.cert_store.install(serveable("a.example.com", &[]));
    let m = handler.select_certificate(Some("a.example.com")).expect("handshake material");
    assert_eq!(m.leaf_pem, LEAF_A.trim_end().as_bytes().to_vec());
    assert_eq!(m.intermediate_der, Some(der_of(INTER)));
    assert_eq!(m.key_pem, KEY_A.as_bytes().to_vec());
}

#[test]
fn sni_alias_gets_same_certificate() {
    let mut handler = CertHandler::new();
    handler.cert_store.install(serveable("a.example.com", &["www.a.example.com"]));
    let primary = handler.select_certificate(Some("a.example.com")).unwrap();
    let alias = handler.select_certificate(Some("www.a.example.com")).unwrap();
    assert_eq!(primary.leaf_pem, alias.leaf_pem);
    assert_eq!(primary.key_pem, alias.key_pem);
}

#[test]
fn sni_miss_aborts_without_side_effect() {
    let handler = CertHandler::new();
    assert_eq!(handler.select_certificate(Some("unknown.test")).unwrap_err(), HandshakeError::UnknownHost);
    assert!(handler.find_cert("unknown.test").is_none());
    assert!(handler.cert_store.hostnames().is_empty());
}

#[test]
fn sni_name_is_lowercased() {
    let mut handler = CertHandler::new();
    handler.cert_store.install(serveable("a.example.com", &[]));
    assert!(handler.select_certificate(Some("A.Example.COM")).is_ok());
    assert!(handler.find_cert("A.Example.COM").is_none());
}

#[test]
fn unserveable_records_abort() {
    let mut handler = CertHandler::new();
    handler.cert_store.install(record("a.example.com", &[]));
    assert_eq!(handler.select_certificate(Some("a.example.com")).unwrap_err(), HandshakeError::Unserveable);
    let mut no_key = serveable("b.example.com", &[]);
    no_key.private_key_pem = None;
    handler.cert_store.install(no_key);
    assert_eq!(handler.select_certificate(Some("b.example.com")).unwrap_err(), HandshakeError::Unserveable);
    assert_eq!(handler.select_certificate(None).unwrap_err(), HandshakeError::NoServerName);
}

fn der_of(pem: &str) -> Vec<u8> {
    let der = x509_parser::pem::parse_x509_pem(pem.as_bytes()).expect("pem").1.contents;
    assert_eq!(der[0], 0x30);
    der
}
