use mproxy::acme::{
    directory_for, issued_record, order_identifiers, renewal_aliases, AcmeAction, AcmeDirectory, AcmeErrorKind,
    AcmeEvent, AcmeOrder, AcmePhase, IssueError, INITIAL_BACKOFF_MS, MAX_BACKOFF_MS, PHASE_DEADLINE_MS,
};
use mproxy::certificate::{CertError, Certificate};

const LEAF_A: &str = "\
-----BEGIN CERTIFICATE-----\n\
MIIBUTCB+KADAgECAgECMAoGCCqGSM49BAMCMBwxGjAYBgNVBAMMEVRlc3QgSW50\n\
ZXJtZWRpYXRlMB4XDTI0MDEwMTAwMDAwMFoXDTM0MDEwMTAwMDAwMFowGDEWMBQG\n\
A1UEAwwNYS5leGFtcGxlLmNvbTBZMBMGByqGSM49AgEGCCqGSM49AwEHA0IABGim\n\
c2EjJ23QdleKegfPBz1fual9YS25fhx9Z533TqLsSbqmR4K6BKrloiJOEBHUacoh\n\
0W+YSgSoWv7LpluPP86jLzAtMCsGA1UdEQQkMCKCDWEuZXhhbXBsZS5jb22CEXd3\n\
dy5hLmV4YW1wbGUuY29tMAoGCCqGSM49BAMCA0gAMEUCIQDXJW6p4RsaE52Tj0g9\n\
jRHG2dirTipYGdMN1HiODxclzQIgKyeFaoTuzKUbj+R2F78Mi2v7L6RYO2vsvHFc\n\
/VX4p90=\n\
-----END CERTIFICATE-----\n\
";

const INTER: &str = "\
-----BEGIN CERTIFICATE-----\n\
MIIBIzCBy6ADAgECAgEBMAoGCCqGSM49BAMCMBwxGjAYBgNVBAMMEVRlc3QgSW50\n\
ZXJtZWRpYXRlMB4XDTI0MDEwMTAwMDAwMFoXDTM0MDEwMTAwMDAwMFowHDEaMBgG\n\
A1UEAwwRVGVzdCBJbnRlcm1lZGlhdGUwWTATBgcqhkjOPQIBBggqhkjOPQMBBwNC\n\
AAT5n+Hlj8RjzWD8/MHxbnwzq2uykf3Raq4dTU9v6Kconu6LyKAD7nkrE+OiOYO+\n\
UVd/UMHO8EUMi79eWUPj49wWMAoGCCqGSM49BAMCA0cAMEQCIC7jT55ChKa7YJRT\n\
b1jvcyIUQc0hJBY1M3Tj5BDd0eVLAiBcvGCkalSHHfC9PgY6X3BuXcF2yZj5yNFb\n\
gCENKloBLQ==\n\
-----END CERTIFICATE-----\n\
";

const KEY_A: &str = "\
SECRET-REDACTED\n\
";

const LEAF_OLD: &str = "\
-----BEGIN CERTIFICATE-----\n\
MIIBITCByaADAgECAgEEMAoGCCqGSM49BAMCMBwxGjAYBgNVBAMMEVRlc3QgSW50\n\
ZXJtZWRpYXRlMB4XDTIwMDEwMTAwMDAwMFoXDTIxMDEwMTAwMDAwMFowGjEYMBYG\n\
A1UEAwwPb2xkLmV4YW1wbGUuY29tMFkwEwYHKoZIzj0CAQYIKoZIzj0DAQcDQgAE\n\
9a2OzXGLCkxHOI5oLmZvachZpbJ5I1SEMoaSA5LAx8RrUj90mdY+C0tRSzpgATly\n\
KI4n6W5RxTfrGqqnpkoHNzAKBggqhkjOPQQDAgNHADBEAiBWtOY4lGj2R6KMR33F\n\
WdeilVi0G+XBn4bnc1h3gbgxbAIgfpplm3ikGA9hCA7gQD7sgtr7Y7gLkg22LNmd\n\
b3z7RNg=\n\
-----END CERTIFICATE-----\n\
";

#[test]
fn happy_path_reaches_done() {
    let (o, a) = AcmeOrder::start();
    assert_eq!(a, AcmeAction::PlaceOrder);
    assert_eq!(o.phase, AcmePhase::NewOrder);
    let (o, a) = o.step(AcmeEvent::OrderPlaced);
    assert_eq!((o.phase, a), (AcmePhase::Authorizing, AcmeAction::ConfirmAfter(0)));
    let (o, a) = o.step(AcmeEvent::ValidationsPending);
    assert_eq!(a, AcmeAction::SubmitChallenges);
    let (o, a) = o.step(AcmeEvent::ChallengesSubmitted);
    assert_eq!(a, AcmeAction::ConfirmAfter(INITIAL_BACKOFF_MS));
    assert_eq!(o.phase_elapsed_ms, 1000);
    assert_eq!(o.backoff_ms, 2000);
    let (o, a) = o.step(AcmeEvent::ValidationsConfirmed);
    assert_eq!((o.phase, a), (AcmePhase::Finalizing, AcmeAction::Finalize));
    let (o, a) = o.step(AcmeEvent::CertificatePending);
    assert_eq!(a, AcmeAction::PollCertificateAfter(1000));
    let (o, a) = o.step(AcmeEvent::CertificateReady);
    assert_eq!((o.phase, a), (AcmePhase::Download, AcmeAction::Download));
    let (o, a) = o.step(AcmeEvent::Downloaded);
    assert_eq!((o.phase, a), (AcmePhase::Install, AcmeAction::Install));
    let (o, a) = o.step(AcmeEvent::Installed);
    assert_eq!((o.phase, a), (AcmePhase::Done, AcmeAction::Stop));
    let (o2, a) = o.step(AcmeEvent::OrderPlaced);
    assert_eq!((o2, a), (o, AcmeAction::Stop));
}

#[test]
fn invalid_authorization_abandons_order() {
    let (o, _) = AcmeOrder::start();
    let (o, _) = o.step(AcmeEvent::OrderPlaced);
    let (o, a) = o.step(AcmeEvent::AuthorizationInvalid);
    assert_eq!((o.phase, a), (AcmePhase::Failed(AcmeErrorKind::AuthorizationFailed), AcmeAction::Stop));
    let (o, a) = o.step(AcmeEvent::Downloaded);
    assert_eq!((o.phase, a), (AcmePhase::Failed(AcmeErrorKind::AuthorizationFailed), AcmeAction::Stop));
}

#[test]
fn polling_backs_off_and_times_out() {
    let (o, _) = AcmeOrder::start();
    let (mut o, _) = o.step(AcmeEvent::OrderPlaced);
    let mut waits: Vec<u64> = Vec::new();
    loop {
        let (next, a) = o.step(AcmeEvent::ChallengesSubmitted);
        match a {
            AcmeAction::ConfirmAfter(ms) => waits.push(ms),
            AcmeAction::Stop => {
                assert_eq!(next.phase, AcmePhase::Failed(AcmeErrorKind::Timeout));
                break;
            }
            other => panic!("unexpected action {:?}", other),
        }
        o = next;
    }
    assert_eq!(&waits[..5], &[1000, 2000, 4000, 8000, 10000]);
    assert!(waits.iter().all(|w| *w <= MAX_BACKOFF_MS));
    assert_eq!(waits.iter().sum::<u64>(), 115000);
    assert!(waits.iter().sum::<u64>() <= PHASE_DEADLINE_MS);
}

#[test]
fn failures_of_calls_and_files() {
    let (o, _) = AcmeOrder::start();
    let (f, a) = o.step(AcmeEvent::NetworkError);
    assert_eq!((f.phase, a), (AcmePhase::Failed(AcmeErrorKind::Network), AcmeAction::Stop));
    let (o, _) = o.step(AcmeEvent::OrderPlaced);
    let (f, _) = o.step(AcmeEvent::IoError);
    assert_eq!(f.phase, AcmePhase::Failed(AcmeErrorKind::Io));
    let (o, _) = o.step(AcmeEvent::ValidationsConfirmed);
    let (f, _) = o.step(AcmeEvent::FinalizeRejected);
    assert_eq!(f.phase, AcmePhase::Failed(AcmeErrorKind::FinalizeRejected));
}

#[test]
fn staging_selects_staging_directory() {
    assert_eq!(directory_for(true), AcmeDirectory::LetsEncryptStaging);
    assert_eq!(directory_for(false), AcmeDirectory::LetsEncrypt);
}

#[test]
fn identifiers_domain_first() {
    let ids = order_identifiers(&"a.example.com".to_string(), &vec!["www.a.example.com".to_string(), "m.a.example.com".to_string()]);
    assert_eq!(ids, vec!["a.example.com", "www.a.example.com", "m.a.example.com"]);
}

#[test]
fn renewal_uses_record_aliases() {
    assert_eq!(renewal_aliases(None), None);
    let mut c = Certificate::new("a.example.com".to_string());
    assert_eq!(renewal_aliases(Some(&c)), Some(vec![]));
    c.set_host_names(vec!["www.a.example.com".to_string()]);
    assert_eq!(renewal_aliases(Some(&c)), Some(vec!["www.a.example.com".to_string()]));
}

#[test]
fn issued_chain_becomes_record() {
    let chain = format!("{}{}", LEAF_A, INTER);
    let now: i64 = 1800000000;
    let c = issued_record(
        &"a.example.com".to_string(),
        &vec!["www.a.example.com".to_string(), "a.example.com".to_string()],
        chain.clone(),
        KEY_A.to_string(),
        now,
    )
    .expect("record");
    assert_eq!(c.host_name, "a.example.com");
    assert_eq!(c.host_names, Some(vec!["www.a.example.com".to_string()]));
    assert_eq!(c.certificate_pem.as_deref(), Some(LEAF_A.trim_end()));
    assert_eq!(c.full_chain, Some(chain));
    assert_eq!(c.private_key_pem.as_deref(), Some(KEY_A));
    assert_eq!(c.parsed_inter_cert, Some(der_of(INTER)));
    let from = c.get_valid_from_unix_timestamp().unwrap();
    let until = c.get_valid_until_unix_timestamp().unwrap();
    assert!(from <= now && now <= until);
}

#[test]
fn issued_chain_errors() {
    let key = KEY_A.to_string();
    assert_eq!(
        issued_record(&String::new(), &vec![], LEAF_A.to_string(), key.clone(), 1800000000).unwrap_err(),
        IssueError::EmptyDomain
    );
    assert_eq!(
        issued_record(&"a.example.com".to_string(), &vec![], "junk".to_string(), key.clone(), 1800000000).unwrap_err(),
        IssueError::NoCertificate
    );
    assert_eq!(
        issued_record(&"old.example.com".to_string(), &vec![], LEAF_OLD.to_string(), key.clone(), 1800000000).unwrap_err(),
        IssueError::NotCurrentlyValid
    );
    assert_eq!(
        issued_record(&"a.example.com".to_string(), &vec![], LEAF_A.to_string(), key, 1000).unwrap_err(),
        IssueError::NotCurrentlyValid
    );
    assert_eq!(
        issued_record(
            &"a.example.com".to_string(),
            &vec![],
            "-----BEGIN CERTIFICATE-----\nAAAA\n-----END CERTIFICATE-----\n".to_string(),
            KEY_A.to_string(),
            1800000000
        )
        .unwrap_err(),
        IssueError::Unreadable(CertError::InvalidCertificate)
    );
}

fn der_of(pem: &str) -> Vec<u8> {
    let der = x509_parser::pem::parse_x509_pem(pem.as_bytes()).expect("pem").1.contents;
    assert_eq!(der[0], 0x30);
    der
}

#[test]
fn refused_chain_fails_the_order() {
    let (o, _) = AcmeOrder::start();
    let (o, _) = o.step(AcmeEvent::OrderPlaced);
    let (o, _) = o.step(AcmeEvent::ValidationsConfirmed);
    let (o, _) = o.step(AcmeEvent::CertificateReady);
    let (o, a) = o.step(AcmeEvent::Downloaded);
    assert_eq!(a, AcmeAction::Install);
    let (o, a) = o.step(AcmeEvent::ChainRefused);
    assert_eq!((o.phase, a), (AcmePhase::Failed(AcmeErrorKind::ChainRefused), AcmeAction::Stop));
}
