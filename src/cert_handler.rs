//! Certificate selection during the TLS handshake, keyed by the SNI name.
use vstd::prelude::*;
use crate::certificate::{opt_bytes, Certificate};
use crate::pem::{copy_range, first_block, first_block_text};
use crate::store::CertStore;
use crate::text::{ascii_lower, lowercase_ascii, utf8};

verus! {

/// Why a handshake cannot be completed.
#[derive(Debug, Clone, Copy, PartialEq, Eq, Structural)]
pub enum HandshakeError {
    /// The client sent no server name.
    NoServerName,
    /// No record is bound to the server name.
    UnknownHost,
    /// The record lacks a full chain, a private key, or a certificate block.
    Unserveable,
}

/// What the TLS layer installs for one handshake: the leaf (also the first
/// chain certificate), the intermediate if the record has one, and the key;
/// the leaf and the key as PEM text, the intermediate as DER.
#[derive(Debug)]
pub struct HandshakeMaterial {
    pub leaf_pem: Vec<u8>,
    pub intermediate_der: Option<Vec<u8>>,
    pub key_pem: Vec<u8>,
}

/// The material for a server name, over the record that it reaches once
/// lower-cased.
pub open spec fn handshake_plan(store: CertStore, server_name: Option<Seq<char>>) -> Result<
    (Seq<u8>, Option<Seq<u8>>, Seq<u8>),
    HandshakeError,
> {
    match server_name {
        None => Err(HandshakeError::NoServerName),
        Some(n) => match store.lookup(ascii_lower(n)) {
            None => Err(HandshakeError::UnknownHost),
            Some(c) => match (c.full_chain, c.private_key_pem) {
                (Some(fc), Some(k)) => match first_block(utf8(fc@)) {
                    Some(leaf) => Ok((leaf, opt_bytes(c.parsed_inter_cert), utf8(k@))),
                    None => Err(HandshakeError::Unserveable),
                },
                _ => Err(HandshakeError::Unserveable),
            },
        },
    }
}

/// Answers the handshake callback from the certificate store.
#[derive(Debug)]
pub struct CertHandler {
    pub cert_store: CertStore,
}

/// A copy of a string's bytes.
fn text_bytes(s: &str) -> (r: Vec<u8>)
    ensures
        r@ == utf8(s@),
{
    let b = s.as_bytes();
    let r = copy_range(b, 0, b.len());
    assert(r@ =~= utf8(s@));
    r
}

impl CertHandler {
    /// A handler over an empty store.
    pub fn new() -> (r: Box<CertHandler>)
        ensures
            r.cert_store.wf(),
            forall|n: Seq<char>| #[trigger] r.cert_store.lookup(n).is_none(),
    {
        Box::new(CertHandler { cert_store: CertStore::new() })
    }

    /// The record reached under a server name, as given.
    pub fn find_cert(&self, server_name: &str) -> (r: Option<&Certificate>)
        ensures
            match r {
                Some(c) => self.cert_store.lookup(server_name@) == Some(*c),
                None => self.cert_store.lookup(server_name@).is_none(),
            },
    {
        self.cert_store.get_cert(server_name)
    }

    /// The certificate material for a ClientHello's server name: the
    /// handshake goes on only with `Ok`, and the store is left untouched.
    pub fn select_certificate(&self, server_name: Option<&str>) -> (r: Result<HandshakeMaterial, HandshakeError>)
        ensures
            match (r, handshake_plan(self.cert_store, match server_name {
                Some(n) => Some(n@),
                None => None::<Seq<char>>,
            })) {
                (Ok(m), Ok(p)) => m.leaf_pem@ == p.0 && opt_bytes(m.intermediate_der) == p.1
                    && m.key_pem@ == p.2,
                (Err(e), Err(f)) => e == f,
                _ => false,
            },
    {
        let name = match server_name {
            None => return Err(HandshakeError::NoServerName),
            Some(n) => lowercase_ascii(n),
        };
        let cert = match self.find_cert(name.as_str()) {
            None => return Err(HandshakeError::UnknownHost),
            Some(c) => c,
        };
        let (chain, key) = match (&cert.full_chain, &cert.private_key_pem) {
            (Some(fc), Some(k)) => (fc, k),
            _ => return Err(HandshakeError::Unserveable),
        };
        let leaf = match first_block_text(chain.as_str()) {
            None => return Err(HandshakeError::Unserveable),
            Some(t) => text_bytes(t),
        };
        let intermediate = match &cert.parsed_inter_cert {
            None => None,
            Some(b) => {
                let c = copy_range(b.as_slice(), 0, b.len());
                assert(c@ =~= b@);
                Some(c)
            },
        };
        Ok(HandshakeMaterial { leaf_pem: leaf, intermediate_der: intermediate, key_pem: text_bytes(key.as_str()) })
    }
}

} // verus!
