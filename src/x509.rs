//! The calls into `x509_parser` that certificate records rely on.
use vstd::prelude::*;
use x509_parser::extensions::GeneralName;

verus! {

/// What `x509_parser::pem::parse_x509_pem` reads from the given bytes: the
/// label and the decoded contents of the first PEM object.
pub uninterp spec fn pem_object_of(data: Seq<u8>) -> Option<(Seq<char>, Seq<u8>)>;

/// The `(not_before, not_after)` UNIX timestamps of a DER certificate, as
/// `x509_parser` reads them.
pub uninterp spec fn validity_of(der: Seq<u8>) -> Option<(i64, i64)>;

/// The subject of a DER certificate, in `x509_parser`'s text form.
pub uninterp spec fn subject_text_of(der: Seq<u8>) -> Option<Seq<char>>;

/// The subject-alternative-name entries of a DER certificate: the name of
/// each DNS entry, `None` for an entry of another kind.
pub uninterp spec fn san_entries_of(der: Seq<u8>) -> Option<Seq<Option<Seq<char>>>>;

/// The views of a sequence of optional strings.
pub open spec fn opt_texts(v: Seq<Option<String>>) -> Seq<Option<Seq<char>>> {
    v.map_values(
        |o: Option<String>|
            match o {
                Some(t) => Some(t@),
                None => None,
            },
    )
}

/// Relies on `x509_parser::pem::parse_x509_pem`: the label and decoded
/// contents of the first PEM object in `data`, or `None` when it reads none.
#[verifier::external_body]
pub(crate) fn read_pem(data: &[u8]) -> (r: Option<(String, Vec<u8>)>)
    ensures
        match r {
            Some(p) => pem_object_of(data@) == Some((p.0@, p.1@)),
            None => pem_object_of(data@).is_none(),
        },
{
    match x509_parser::pem::parse_x509_pem(data) {
        Ok((_, pem)) => Some((pem.label, pem.contents)),
        Err(_) => None,
    }
}

/// Relies on `x509_parser::parse_x509_certificate` and `ASN1Time::timestamp`:
/// the validity window of a DER certificate, `None` when it does not parse.
#[verifier::external_body]
pub(crate) fn read_validity(der: &[u8]) -> (r: Option<(i64, i64)>)
    ensures
        r == validity_of(der@),
{
    match x509_parser::parse_x509_certificate(der) {
        Ok((_, c)) => Some((c.validity().not_before.timestamp(), c.validity().not_after.timestamp())),
        Err(_) => None,
    }
}

/// Relies on `x509_parser::parse_x509_certificate` and the `Display` of
/// `X509Name`: the subject of a DER certificate as text, such as `CN=a.test`.
#[verifier::external_body]
pub(crate) fn read_subject(der: &[u8]) -> (r: Option<String>)
    ensures
        match r {
            Some(t) => subject_text_of(der@) == Some(t@),
            None => subject_text_of(der@).is_none(),
        },
{
    match x509_parser::parse_x509_certificate(der) {
        Ok((_, c)) => Some(c.subject().to_string()),
        Err(_) => None,
    }
}

/// Relies on `X509Certificate::subject_alternative_name`: the entries of the
/// extension in order, `None` when the certificate does not parse or has no
/// such extension.
#[verifier::external_body]
pub(crate) fn read_san_entries(der: &[u8]) -> (r: Option<Vec<Option<String>>>)
    ensures
        match r {
            Some(v) => san_entries_of(der@) == Some(opt_texts(v@)),
            None => san_entries_of(der@).is_none(),
        },
{
    match x509_parser::parse_x509_certificate(der) {
        Ok((_, c)) => match c.subject_alternative_name() {
            Ok(Some(ext)) => Some(ext.value.general_names.iter().map(|g| match g {
                GeneralName::DNSName(n) => Some(n.to_string()),
                _ => None,
            }).collect()),
            Ok(None) => None,
            Err(_) => None,
        },
        Err(_) => None,
    }
}

} // verus!
