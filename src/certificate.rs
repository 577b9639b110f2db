//! One certificate bundle: the primary hostname and its aliases, the private
//! key, the leaf certificate, the full chain and the routing entry, plus two
//! derived fields: the DER of the leaf and the last block of the chain.
use vstd::prelude::*;
use crate::host_config::{copy_names, opt_names, HostConfig};
use crate::pem::{block_count, last_block, last_block_text, count_blocks, copy_range};
use crate::text::utf8;
use crate::x509::{pem_object_of, read_pem, read_validity, validity_of};

verus! {

/// Why a validity query on a record failed.
#[derive(Debug, Clone, Copy, PartialEq, Eq, Structural)]
pub enum CertError {
    /// The record holds no leaf certificate.
    MissingCertificate,
    /// The leaf text holds no readable PEM object.
    MalformedPem,
    /// The PEM object does not decode to an X.509 certificate.
    InvalidCertificate,
}

/// A certificate bundle for one primary hostname.
#[derive(Debug, Clone, PartialEq, Eq)]
pub struct Certificate {
    pub host_name: String,
    pub host_names: Option<Vec<String>>,
    pub private_key_pem: Option<String>,
    pub certificate_pem: Option<String>,
    pub full_chain: Option<String>,
    pub host_config: Option<HostConfig>,
    /// DER of the leaf, once decoded.
    pub parsed_cert_der: Option<Vec<u8>>,
    /// DER of the last certificate block of the full chain (the issuing
    /// intermediate), when the chain holds more than one block.
    pub parsed_inter_cert: Option<Vec<u8>>,
}

/// The bytes of an optional byte vector.
pub open spec fn opt_bytes(v: Option<Vec<u8>>) -> Option<Seq<u8>> {
    match v {
        Some(b) => Some(b@),
        None => None,
    }
}

/// The DER in a PEM block, as `x509_parser` decodes it.
pub open spec fn block_der(block: Option<Seq<u8>>) -> Option<Seq<u8>> {
    match block {
        Some(bl) => match pem_object_of(bl) {
            Some(o) => Some(o.1),
            None => None,
        },
        None => None,
    }
}

/// The intermediate derived from a full chain: the DER of its last block,
/// when it holds two blocks or more.
pub open spec fn intermediate_of(full_chain: Option<String>) -> Option<Seq<u8>> {
    match full_chain {
        Some(fc) => if block_count(utf8(fc@)) >= 2 {
            block_der(last_block(utf8(fc@)))
        } else {
            None
        },
        None => None,
    }
}

/// The DER of the leaf, decoded from its PEM text.
pub open spec fn leaf_der_of(pem: Option<String>) -> Result<Seq<u8>, CertError> {
    match pem {
        None => Err(CertError::MissingCertificate),
        Some(p) => match pem_object_of(utf8(p@)) {
            None => Err(CertError::MalformedPem),
            Some(o) => Ok(o.1),
        },
    }
}

/// The validity window of a DER leaf.
pub open spec fn validity_from_der(der: Result<Seq<u8>, CertError>) -> Result<(i64, i64), CertError> {
    match der {
        Err(e) => Err(e),
        Ok(d) => match validity_of(d) {
            None => Err(CertError::InvalidCertificate),
            Some(v) => Ok(v),
        },
    }
}

/// `names` without the entries whose text equals that of `n`, order kept.
pub open spec fn without_name(names: Seq<String>, n: String) -> Seq<String>
    decreases names.len(),
{
    if names.len() == 0 {
        Seq::empty()
    } else {
        let r = without_name(names.drop_last(), n);
        if names.last()@ == n@ {
            r
        } else {
            r.push(names.last())
        }
    }
}

proof fn lemma_without_name_excludes(names: Seq<String>, n: String)
    ensures
        forall|i: int|
            0 <= i < without_name(names, n).len() ==> (#[trigger] without_name(names, n)[i])@ != n@,
    decreases names.len(),
{
    if names.len() > 0 {
        lemma_without_name_excludes(names.drop_last(), n);
        let r = without_name(names.drop_last(), n);
        if names.last()@ != n@ {
            assert forall|i: int| 0 <= i < r.push(names.last()).len() implies (#[trigger] r.push(
                names.last(),
            )[i])@ != n@ by {
                if i < r.len() {
                    assert(r.push(names.last())[i] == r[i]);
                }
            }
        }
    }
}

/// Leaving out a name that none of `names` has changes nothing: the aliases
/// of a record built from an order whose aliases exclude its domain are
/// exactly those aliases.
pub proof fn lemma_without_absent_name(names: Seq<String>, n: String)
    requires
        forall|i: int| 0 <= i < names.len() ==> (#[trigger] names[i])@ != n@,
    ensures
        without_name(names, n) == names,
    decreases names.len(),
{
    if names.len() > 0 {
        lemma_without_absent_name(names.drop_last(), n);
        assert(names.drop_last().push(names.last()) =~= names);
    }
}

/// `names` without the entries equal to `n`.
pub fn remove_name(names: &Vec<String>, n: &String) -> (r: Vec<String>)
    ensures
        r@ == without_name(names@, *n),
{
    let mut r: Vec<String> = Vec::new();
    let mut i: usize = 0;
    while i < names.len()
        invariant
            i <= names@.len(),
            r@ == without_name(names@.subrange(0, i as int), *n),
        decreases names@.len() - i,
    {
        assert(names@.subrange(0, i + 1).drop_last() =~= names@.subrange(0, i as int));
        assert(names@.subrange(0, i + 1).last() == names@[i as int]);
        if names[i] != *n {
            r.push(names[i].clone());
        }
        i = i + 1;
    }
    assert(names@.subrange(0, names@.len() as int) =~= names@);
    r
}

impl Certificate {
    /// The fields that the on-disk record holds.
    pub open spec fn persisted(&self) -> (
        String,
        Option<Vec<String>>,
        Option<String>,
        Option<String>,
        Option<String>,
        Option<HostConfig>,
    ) {
        (
            self.host_name,
            self.host_names,
            self.private_key_pem,
            self.certificate_pem,
            self.full_chain,
            self.host_config,
        )
    }

    /// The aliases, empty when absent.
    pub open spec fn aliases(&self) -> Seq<String> {
        opt_names(self.host_names)
    }

    /// No alias has the text of the primary name.
    pub open spec fn aliases_exclude_primary(&self) -> bool {
        forall|i: int| 0 <= i < self.aliases().len() ==> (#[trigger] self.aliases()[i])@ != self.host_name@
    }

    /// The record's invariant: a non-empty primary name that is not among the
    /// aliases, and derived fields that agree with the texts they come from.
    pub open spec fn wf(&self) -> bool {
        &&& self.host_name@.len() > 0
        &&& self.aliases_exclude_primary()
        &&& opt_bytes(self.parsed_inter_cert) == intermediate_of(self.full_chain)
        &&& match self.parsed_cert_der {
            Some(d) => leaf_der_of(self.certificate_pem) == Ok::<Seq<u8>, CertError>(d@),
            None => true,
        }
    }

    /// The DER of the leaf: the decoded one if present, else decoded from the
    /// leaf text.
    pub open spec fn leaf_der(&self) -> Result<Seq<u8>, CertError> {
        match self.parsed_cert_der {
            Some(d) => Ok(d@),
            None => leaf_der_of(self.certificate_pem),
        }
    }

    /// The `(valid_from, valid_until)` UNIX timestamps of the leaf text.
    pub open spec fn validity(&self) -> Result<(i64, i64), CertError> {
        validity_from_der(leaf_der_of(self.certificate_pem))
    }

    /// An empty record for a hostname.
    pub fn new(host_name: String) -> (r: Certificate)
        ensures
            r.host_name == host_name,
            r.host_names.is_none(),
            r.private_key_pem.is_none(),
            r.certificate_pem.is_none(),
            r.full_chain.is_none(),
            r.host_config.is_none(),
            r.parsed_cert_der.is_none(),
            r.parsed_inter_cert.is_none(),
            host_name@.len() > 0 ==> r.wf(),
    {
        Certificate {
            host_name,
            host_names: None,
            private_key_pem: None,
            certificate_pem: None,
            full_chain: None,
            host_config: None,
            parsed_cert_der: None,
            parsed_inter_cert: None,
        }
    }

    /// Rebuilds a record from its persisted fields, deriving the intermediate
    /// afresh and dropping any decoded leaf.
    pub fn from_struct(cert: Certificate) -> (r: Certificate)
        ensures
            r.persisted() == cert.persisted(),
            r.parsed_cert_der.is_none(),
            opt_bytes(r.parsed_inter_cert) == intermediate_of(r.full_chain),
            cert.host_name@.len() > 0 && cert.aliases_exclude_primary() ==> r.wf(),
    {
        let mut r = Certificate {
            host_name: cert.host_name,
            host_names: cert.host_names,
            private_key_pem: cert.private_key_pem,
            certificate_pem: cert.certificate_pem,
            full_chain: cert.full_chain,
            host_config: cert.host_config,
            parsed_cert_der: None,
            parsed_inter_cert: None,
        };
        r.parse_inter_cert();
        assert(r.aliases() == cert.aliases());
        r
    }

    /// Derives the intermediate from the full chain.
    pub fn parse_inter_cert(&mut self)
        ensures
            opt_bytes(final(self).parsed_inter_cert) == intermediate_of(final(self).full_chain),
            final(self).persisted() == old(self).persisted(),
            final(self).parsed_cert_der == old(self).parsed_cert_der,
    {
        let mut inter: Option<Vec<u8>> = None;
        if let Some(fc) = &self.full_chain {
            if count_blocks(fc.as_str().as_bytes()) >= 2 {
                if let Some(t) = Certificate::extract_inter_cert_str(fc.as_str()) {
                    if let Some((_, der)) = read_pem(t.as_bytes()) {
                        inter = Some(der);
                    }
                }
            }
        }
        self.parsed_inter_cert = inter;
    }

    /// The last complete block of a PEM chain, from its last begin marker to
    /// its end marker; `None` when the chain holds no complete block.
    pub fn extract_inter_cert_str(pem_chain: &str) -> (r: Option<&str>)
        ensures
            match r {
                Some(t) => last_block(utf8(pem_chain@)) == Some(utf8(t@)),
                None => last_block(utf8(pem_chain@)).is_none(),
            },
    {
        last_block_text(pem_chain)
    }

    /// The primary hostname.
    pub fn get_host_name(&self) -> (r: String)
        ensures
            r == self.host_name,
    {
        self.host_name.clone()
    }

    /// Renames the record; the new name leaves the alias list.
    pub fn set_host_name(&mut self, host_name: String)
        requires
            host_name@.len() > 0,
        ensures
            final(self).host_name == host_name,
            match old(self).host_names {
                Some(v) => final(self).host_names matches Some(w) && w@ == without_name(v@, host_name),
                None => final(self).host_names.is_none(),
            },
            final(self).private_key_pem == old(self).private_key_pem,
            final(self).certificate_pem == old(self).certificate_pem,
            final(self).full_chain == old(self).full_chain,
            final(self).host_config == old(self).host_config,
            final(self).parsed_cert_der == old(self).parsed_cert_der,
            final(self).parsed_inter_cert == old(self).parsed_inter_cert,
            old(self).wf() ==> final(self).wf(),
    {
        let aliases = match &self.host_names {
            Some(v) => Some(remove_name(v, &host_name)),
            None => None,
        };
        proof {
            if let Some(v) = old(self).host_names {
                lemma_without_name_excludes(v@, host_name);
            }
        }
        self.host_names = aliases;
        self.host_name = host_name;
    }

    /// Sets the aliases; the primary name is left out of them.
    pub fn set_host_names(&mut self, host_names: Vec<String>)
        ensures
            final(self).host_names matches Some(w) && w@ == without_name(host_names@, old(self).host_name),
            final(self).host_name == old(self).host_name,
            final(self).private_key_pem == old(self).private_key_pem,
            final(self).certificate_pem == old(self).certificate_pem,
            final(self).full_chain == old(self).full_chain,
            final(self).host_config == old(self).host_config,
            final(self).parsed_cert_der == old(self).parsed_cert_der,
            final(self).parsed_inter_cert == old(self).parsed_inter_cert,
            old(self).wf() ==> final(self).wf(),
    {
        let aliases = remove_name(&host_names, &self.host_name);
        proof {
            lemma_without_name_excludes(host_names@, self.host_name);
        }
        self.host_names = Some(aliases);
    }

    /// Sets the private key.
    pub fn set_private_key(&mut self, private_key: String)
        ensures
            final(self).private_key_pem == Some(private_key),
            final(self).host_name == old(self).host_name,
            final(self).host_names == old(self).host_names,
            final(self).certificate_pem == old(self).certificate_pem,
            final(self).full_chain == old(self).full_chain,
            final(self).host_config == old(self).host_config,
            final(self).parsed_cert_der == old(self).parsed_cert_der,
            final(self).parsed_inter_cert == old(self).parsed_inter_cert,
            old(self).wf() ==> final(self).wf(),
    {
        self.private_key_pem = Some(private_key);
        assert(self.aliases() == old(self).aliases());
    }

    /// Sets the leaf certificate; a previously decoded leaf is dropped.
    pub fn set_certificate(&mut self, certificate: String)
        ensures
            final(self).certificate_pem == Some(certificate),
            final(self).parsed_cert_der.is_none(),
            final(self).host_name == old(self).host_name,
            final(self).host_names == old(self).host_names,
            final(self).private_key_pem == old(self).private_key_pem,
            final(self).full_chain == old(self).full_chain,
            final(self).host_config == old(self).host_config,
            final(self).parsed_inter_cert == old(self).parsed_inter_cert,
            old(self).wf() ==> final(self).wf(),
    {
        self.certificate_pem = Some(certificate);
        self.parsed_cert_der = None;
        assert(self.aliases() == old(self).aliases());
    }

    /// Sets the full chain and derives its intermediate.
    pub fn set_full_chain(&mut self, full_chain: String)
        ensures
            final(self).full_chain == Some(full_chain),
            opt_bytes(final(self).parsed_inter_cert) == intermediate_of(Some(full_chain)),
            final(self).host_name == old(self).host_name,
            final(self).host_names == old(self).host_names,
            final(self).private_key_pem == old(self).private_key_pem,
            final(self).certificate_pem == old(self).certificate_pem,
            final(self).host_config == old(self).host_config,
            final(self).parsed_cert_der == old(self).parsed_cert_der,
            old(self).wf() ==> final(self).wf(),
    {
        self.full_chain = Some(full_chain);
        self.parse_inter_cert();
        assert(self.aliases() == old(self).aliases());
    }

    /// Sets the routing entry.
    pub fn set_host_config(&mut self, host_config: HostConfig)
        ensures
            final(self).host_config == Some(host_config),
            final(self).host_name == old(self).host_name,
            final(self).host_names == old(self).host_names,
            final(self).private_key_pem == old(self).private_key_pem,
            final(self).certificate_pem == old(self).certificate_pem,
            final(self).full_chain == old(self).full_chain,
            final(self).parsed_cert_der == old(self).parsed_cert_der,
            final(self).parsed_inter_cert == old(self).parsed_inter_cert,
            old(self).wf() ==> final(self).wf(),
    {
        self.host_config = Some(host_config);
        assert(self.aliases() == old(self).aliases());
    }

    /// The DER of the leaf, decoded from its text unless already decoded.
    fn leaf_der_bytes(&self) -> (r: Result<Vec<u8>, CertError>)
        ensures
            match r {
                Ok(d) => self.leaf_der() == Ok::<Seq<u8>, CertError>(d@),
                Err(e) => self.leaf_der() == Err::<Seq<u8>, CertError>(e),
            },
    {
        if let Some(d) = &self.parsed_cert_der {
            let b = d.as_slice();
            let c = copy_range(b, 0, b.len());
            assert(c@ =~= d@);
            return Ok(c);
        }
        match &self.certificate_pem {
            None => Err(CertError::MissingCertificate),
            Some(p) => match read_pem(p.as_str().as_bytes()) {
                None => Err(CertError::MalformedPem),
                Some((_, der)) => Ok(der),
            },
        }
    }

    /// Decodes the leaf and keeps its DER, after checking that it is an X.509
    /// certificate.
    pub fn parse_cert(&mut self) -> (r: Result<(), CertError>)
        ensures
            match validity_from_der(leaf_der_of(old(self).certificate_pem)) {
                Ok(_) => r is Ok && opt_bytes(final(self).parsed_cert_der) == match leaf_der_of(
                    old(self).certificate_pem,
                ) {
                    Ok(d) => Some(d),
                    Err(_) => None::<Seq<u8>>,
                },
                Err(e) => r == Err::<(), CertError>(e) && final(self).parsed_cert_der
                    == old(self).parsed_cert_der,
            },
            final(self).persisted() == old(self).persisted(),
            final(self).parsed_inter_cert == old(self).parsed_inter_cert,
            old(self).wf() ==> final(self).wf(),
    {
        let der = match &self.certificate_pem {
            None => return Err(CertError::MissingCertificate),
            Some(p) => match read_pem(p.as_str().as_bytes()) {
                None => return Err(CertError::MalformedPem),
                Some((_, der)) => der,
            },
        };
        if read_validity(der.as_slice()).is_none() {
            return Err(CertError::InvalidCertificate);
        }
        self.parsed_cert_der = Some(der);
        assert(self.aliases() == old(self).aliases());
        Ok(())
    }

    /// The leaf's validity window, through the decoded leaf when present.
    fn validity_window(&self) -> (r: Result<(i64, i64), CertError>)
        requires
            self.wf(),
        ensures
            r == self.validity(),
    {
        let der = self.leaf_der_bytes()?;
        match read_validity(der.as_slice()) {
            None => Err(CertError::InvalidCertificate),
            Some(v) => Ok(v),
        }
    }

    /// The end of the leaf's validity, as a UNIX timestamp.
    pub fn get_valid_until_unix_timestamp(&self) -> (r: Result<i64, CertError>)
        requires
            self.wf(),
        ensures
            match self.validity() {
                Ok(v) => r == Ok::<i64, CertError>(v.1),
                Err(e) => r == Err::<i64, CertError>(e),
            },
    {
        let (_, until) = self.validity_window()?;
        Ok(until)
    }

    /// The start of the leaf's validity, as a UNIX timestamp.
    pub fn get_valid_from_unix_timestamp(&self) -> (r: Result<i64, CertError>)
        requires
            self.wf(),
        ensures
            match self.validity() {
                Ok(v) => r == Ok::<i64, CertError>(v.0),
                Err(e) => r == Err::<i64, CertError>(e),
            },
    {
        let (from, _) = self.validity_window()?;
        Ok(from)
    }

    /// Whether the leaf has expired at time `now` (a UNIX timestamp).
    pub fn is_expired(&self, now: i64) -> (r: Result<bool, CertError>)
        requires
            self.wf(),
        ensures
            match self.validity() {
                Ok(v) => r == Ok::<bool, CertError>(now > v.1),
                Err(e) => r == Err::<bool, CertError>(e),
            },
    {
        let (_, until) = self.validity_window()?;
        Ok(now > until)
    }

    /// The leaf's validity window, decoded afresh from the leaf text (the
    /// decoded leaf kept in the record is not used), so any record can be
    /// asked.
    pub fn leaf_validity(&self) -> (r: Result<(i64, i64), CertError>)
        ensures
            r == self.validity(),
    {
        let der = match &self.certificate_pem {
            None => return Err(CertError::MissingCertificate),
            Some(p) => match read_pem(p.as_str().as_bytes()) {
                None => return Err(CertError::MalformedPem),
                Some((_, der)) => der,
            },
        };
        match read_validity(der.as_slice()) {
            None => Err(CertError::InvalidCertificate),
            Some(v) => Ok(v),
        }
    }

    /// Whether the leaf expires within `threshold_days` days after `now`;
    /// the leaf text is decoded afresh.
    pub fn needs_renewal(&self, now: i64, threshold_days: u32) -> (r: Result<bool, CertError>)
        ensures
            match self.validity() {
                Ok(v) => r == Ok::<bool, CertError>(v.1 < now + threshold_days * 86400),
                Err(e) => r == Err::<bool, CertError>(e),
            },
    {
        let (_, until) = self.leaf_validity()?;
        let horizon: i128 = now as i128 + threshold_days as i128 * 86400;
        Ok((until as i128) < horizon)
    }
}

} // verus!
