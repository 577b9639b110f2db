//! Building a record from a directory of the common "live" layout
//! (`cert.pem`, `privkey.pem`, `fullchain.pem`), and deciding whether it
//! replaces the record already on disk.
use vstd::prelude::*;
use crate::certificate::{without_name, Certificate, CertError};
use crate::pem::{find_from, first_occurrence, lemma_first_occurrence_bounds, occurs_at, occurs_here};
use crate::text::{slice_between, utf8};
use crate::x509::{opt_texts, pem_object_of, read_pem, read_san_entries, read_subject, san_entries_of, subject_text_of};

verus! {

/// Why a directory yields no record.
#[derive(Debug, Clone, Copy, PartialEq, Eq, Structural)]
pub enum ImportError {
    /// No `cert.pem` holding a readable `CERTIFICATE` object.
    NoLeaf,
    /// The leaf names no host: no common name and no DNS alternative name.
    NoHostName,
}

/// The kinds of file of a live directory.
#[derive(Debug, Clone, Copy, PartialEq, Eq, Structural)]
pub enum LiveFile {
    /// A name ending in `fullchain.pem`.
    Chain,
    /// `privkey.pem`.
    Key,
    /// `cert.pem`.
    Leaf,
}

/// `suf` ends `s`.
pub open spec fn has_suffix(s: Seq<u8>, suf: Seq<u8>) -> bool {
    suf.len() <= s.len() && s.subrange(s.len() - suf.len(), s.len() as int) == suf
}

/// A file name is of the given kind.
pub open spec fn is_kind(name: Seq<char>, k: LiveFile) -> bool {
    match k {
        LiveFile::Chain => has_suffix(utf8(name), utf8("fullchain.pem"@)),
        LiveFile::Key => name == "privkey.pem"@,
        LiveFile::Leaf => name == "cert.pem"@,
    }
}

/// The content of the last file of the given kind, from `(name, content)`
/// pairs.
pub open spec fn last_file(files: Seq<(String, String)>, k: LiveFile) -> Option<String>
    decreases files.len(),
{
    if files.len() == 0 {
        None
    } else if is_kind(files.last().0@, k) {
        Some(files.last().1)
    } else {
        last_file(files.drop_last(), k)
    }
}

/// `, `, which separates the components of a subject text.
pub open spec fn component_sep() -> Seq<u8> {
    seq![44u8, 32u8]
}

/// `CN=`, which opens a common-name component.
pub open spec fn cn_prefix() -> Seq<u8> {
    seq![67u8, 78u8, 61u8]
}

/// The value of the first `CN=` component of the subject text `b`, looking
/// at the components from byte `pos` on; empty when there is none.
pub open spec fn cn_from(b: Seq<u8>, pos: int) -> Seq<u8>
    decreases b.len() + 1 - pos,
{
    if pos < 0 || pos > b.len() {
        Seq::empty()
    } else {
        let next = first_occurrence(b, component_sep(), pos);
        let end = match next {
            Some(e) => e,
            None => b.len() as int,
        };
        if occurs_at(b, cn_prefix(), pos) && pos + 3 <= end {
            b.subrange(pos + 3, end)
        } else {
            match next {
                Some(e) => if pos < e + 2 <= b.len() {
                    cn_from(b, e + 2)
                } else {
                    Seq::empty()
                },
                None => Seq::empty(),
            }
        }
    }
}

/// The common name in a subject text such as `C=US, CN=a.test, O=Org`: the
/// value of its first `CN=` component; empty when it has none.
pub open spec fn cn_of(subject: Seq<char>) -> Seq<u8> {
    cn_from(utf8(subject), 0)
}

/// The DNS names among alternative-name entries, in order.
pub open spec fn dns_names(entries: Seq<Option<Seq<char>>>) -> Seq<Seq<char>>
    decreases entries.len(),
{
    if entries.len() == 0 {
        Seq::empty()
    } else {
        let r = dns_names(entries.drop_last());
        match entries.last() {
            Some(n) => r.push(n),
            None => r,
        }
    }
}

/// The texts of a list of names.
pub open spec fn texts(v: Seq<String>) -> Seq<Seq<char>> {
    v.map_values(|s: String| s@)
}

/// `names` without the texts equal to `n`, order kept.
pub open spec fn remove_text(names: Seq<Seq<char>>, n: Seq<char>) -> Seq<Seq<char>>
    decreases names.len(),
{
    if names.len() == 0 {
        Seq::empty()
    } else {
        let r = remove_text(names.drop_last(), n);
        if names.last() == n {
            r
        } else {
            r.push(names.last())
        }
    }
}

proof fn lemma_without_name_texts(names: Seq<String>, n: String)
    ensures
        texts(without_name(names, n)) == remove_text(texts(names), n@),
    decreases names.len(),
{
    if names.len() > 0 {
        lemma_without_name_texts(names.drop_last(), n);
        assert(texts(names).drop_last() =~= texts(names.drop_last()));
        let r = without_name(names.drop_last(), n);
        assert(texts(r.push(names.last())) =~= texts(r).push(names.last()@));
    }
}

/// The leaf file and its DER, when the last `cert.pem` holds a
/// `CERTIFICATE` object.
pub open spec fn leaf_of(files: Seq<(String, String)>) -> Option<(String, Seq<u8>)> {
    match last_file(files, LiveFile::Leaf) {
        Some(t) => match pem_object_of(utf8(t@)) {
            Some(o) => if o.0 == "CERTIFICATE"@ {
                Some((t, o.1))
            } else {
                None
            },
            None => None,
        },
        None => None,
    }
}

/// The DNS alternative names of a DER leaf (none when it has no such
/// extension).
pub open spec fn leaf_dns_names(der: Seq<u8>) -> Seq<Seq<char>> {
    match san_entries_of(der) {
        Some(e) => dns_names(e),
        None => Seq::empty(),
    }
}

/// The host of a leaf: its common name, else its first DNS alternative name.
pub open spec fn import_host(der: Seq<u8>) -> Option<Seq<u8>> {
    let cn = match subject_text_of(der) {
        Some(s) => cn_of(s),
        None => Seq::empty(),
    };
    if cn.len() > 0 {
        Some(cn)
    } else if leaf_dns_names(der).len() > 0 {
        Some(utf8(leaf_dns_names(der)[0]))
    } else {
        None
    }
}

/// `s` ends with `suf`.
fn ends_with_bytes(s: &[u8], suf: &[u8]) -> (r: bool)
    ensures
        r == has_suffix(s@, suf@),
{
    if suf.len() > s.len() {
        return false;
    }
    let off = s.len() - suf.len();
    let n: usize = s.len();
    let mut i: usize = 0;
    while i < suf.len()
        invariant
            n == s@.len(),
            off + suf@.len() == s@.len(),
            i <= suf@.len(),
            forall|k: int| 0 <= k < i ==> s@[off + k] == suf@[k],
        decreases suf@.len() - i,
    {
        if s[off + i] != suf[i] {
            assert(s@.subrange(off as int, s@.len() as int)[i as int] != suf@[i as int]);
            return false;
        }
        i = i + 1;
    }
    assert(s@.subrange(off as int, s@.len() as int) =~= suf@);
    true
}

/// Whether a file name is of the given kind.
fn file_is(name: &String, k: LiveFile) -> (r: bool)
    ensures
        r == is_kind(name@, k),
{
    match k {
        LiveFile::Chain => ends_with_bytes(name.as_str().as_bytes(), "fullchain.pem".as_bytes()),
        LiveFile::Key => *name == "privkey.pem".to_owned(),
        LiveFile::Leaf => *name == "cert.pem".to_owned(),
    }
}

/// The content of the last file of the given kind.
pub fn find_last_file(files: &Vec<(String, String)>, k: LiveFile) -> (r: Option<&String>)
    ensures
        match r {
            Some(c) => last_file(files@, k) == Some(*c),
            None => last_file(files@, k).is_none(),
        },
{
    let mut j: usize = files.len();
    assert(files@.subrange(0, j as int) =~= files@);
    while j > 0
        invariant
            j <= files@.len(),
            last_file(files@, k) == last_file(files@.subrange(0, j as int), k),
        decreases j,
    {
        let ghost pre = files@.subrange(0, j as int);
        assert(pre.last() == files@[j - 1]);
        if file_is(&files[j - 1].0, k) {
            return Some(&files[j - 1].1);
        }
        assert(pre.drop_last() =~= files@.subrange(0, j - 1));
        j = j - 1;
    }
    None
}

/// The common name in a subject text, as `x509_parser` prints subjects
/// (components separated by `, `): the value of the first `CN=` component,
/// empty when there is none.
pub fn parse_hostname(in_str: &str) -> (r: String)
    ensures
        utf8(r@) == cn_of(in_str@),
{
    let b = in_str.as_bytes();
    let sep: Vec<u8> = vec![44u8, 32u8];
    let cn: Vec<u8> = vec![67u8, 78u8, 61u8];
    assert(sep@ =~= component_sep());
    assert(cn@ =~= cn_prefix());
    let n: usize = b.len();
    let mut pos: usize = 0;
    loop
        invariant
            n == b@.len(),
            b@ == utf8(in_str@),
            sep@ == component_sep(),
            cn@ == cn_prefix(),
            pos <= b@.len(),
            cn_from(b@, 0) == cn_from(b@, pos as int),
        decreases b@.len() - pos,
    {
        let found = find_from(b, sep.as_slice(), pos);
        proof {
            lemma_first_occurrence_bounds(b@, component_sep(), pos as int);
        }
        let end = match found {
            Some(e) => e,
            None => b.len(),
        };
        if occurs_here(b, cn.as_slice(), pos) && end - pos >= 3 {
            proof {
                assert(b@[pos + 2] == b@.subrange(pos as int, pos + 3)[2]);
                if let Some(e) = found {
                    assert(b@[e as int] == b@.subrange(e as int, e + 2)[0]);
                }
            }
            return slice_between(in_str, pos + 3, end).to_owned();
        }
        match found {
            Some(e) => {
                if e + 2 > pos && e + 2 <= b.len() {
                    pos = e + 2;
                } else {
                    return String::new();
                }
            },
            None => {
                return String::new();
            },
        }
    }
}

/// The DNS names among alternative-name entries.
pub fn dns_names_of(entries: &Vec<Option<String>>) -> (r: Vec<String>)
    ensures
        texts(r@) == dns_names(opt_texts(entries@)),
{
    let mut r: Vec<String> = Vec::new();
    let mut i: usize = 0;
    while i < entries.len()
        invariant
            i <= entries@.len(),
            texts(r@) == dns_names(opt_texts(entries@.subrange(0, i as int))),
        decreases entries@.len() - i,
    {
        let ghost pre = opt_texts(entries@.subrange(0, i + 1));
        assert(pre.drop_last() =~= opt_texts(entries@.subrange(0, i as int)));
        if let Some(n) = &entries[i] {
            r.push(n.clone());
        }
        assert(texts(r@) =~= dns_names(pre));
        i = i + 1;
    }
    assert(entries@.subrange(0, entries@.len() as int) =~= entries@);
    r
}

/// The record of a live directory, from its files as `(name, content)`
/// pairs: the leaf text from the last `cert.pem`, the chain from the last
/// file ending in `fullchain.pem`, the key from the last `privkey.pem`; the
/// host from the leaf's common name, else its first DNS alternative name;
/// the aliases from its other DNS alternative names.
pub fn import_record(files: &Vec<(String, String)>) -> (r: Result<Certificate, ImportError>)
    ensures
        match leaf_of(files@) {
            None => r == Err::<Certificate, ImportError>(ImportError::NoLeaf),
            Some((text, der)) => match import_host(der) {
                None => r == Err::<Certificate, ImportError>(ImportError::NoHostName),
                Some(h) => r matches Ok(c) && {
                    &&& utf8(c.host_name@) == h
                    &&& c.certificate_pem == Some(text)
                    &&& c.full_chain == last_file(files@, LiveFile::Chain)
                    &&& c.private_key_pem == last_file(files@, LiveFile::Key)
                    &&& c.host_config.is_none()
                    &&& match san_entries_of(der) {
                        Some(e) => c.host_names matches Some(v) && texts(v@) == remove_text(
                            dns_names(e),
                            c.host_name@,
                        ),
                        None => c.host_names.is_none(),
                    }
                },
            },
        },
{
    let leaf = match find_last_file(files, LiveFile::Leaf) {
        None => return Err(ImportError::NoLeaf),
        Some(t) => t,
    };
    let (label, der) = match read_pem(leaf.as_str().as_bytes()) {
        None => return Err(ImportError::NoLeaf),
        Some(p) => p,
    };
    if label != "CERTIFICATE".to_owned() {
        return Err(ImportError::NoLeaf);
    }
    let cn = match read_subject(der.as_slice()) {
        Some(s) => parse_hostname(s.as_str()),
        None => String::new(),
    };
    let entries = read_san_entries(der.as_slice());
    let dns: Vec<String> = match &entries {
        Some(e) => dns_names_of(e),
        None => Vec::new(),
    };
    proof {
        if entries.is_none() {
            assert(texts(dns@) =~= Seq::<Seq<char>>::empty());
        }
        assert(texts(dns@) == leaf_dns_names(der@));
    }
    let host = if cn.as_str().as_bytes().len() > 0 {
        cn
    } else if dns.len() > 0 {
        assert(texts(dns@)[0] == dns@[0]@);
        dns[0].clone()
    } else {
        return Err(ImportError::NoHostName);
    };
    let mut c = Certificate::new(host);
    c.set_certificate(leaf.clone());
    if let Some(chain) = find_last_file(files, LiveFile::Chain) {
        c.set_full_chain(chain.clone());
    }
    if let Some(key) = find_last_file(files, LiveFile::Key) {
        c.set_private_key(key.clone());
    }
    if entries.is_some() {
        let ghost h = c.host_name;
        c.set_host_names(dns);
        proof {
            lemma_without_name_texts(dns@, h);
        }
    }
    Ok(c)
}

/// Whether an imported record is written over the one on disk: always when
/// there is none; otherwise when the record on disk expires later than the
/// imported one.
pub fn should_write(existing: Option<&Certificate>, incoming: &Certificate) -> (r: Result<bool, CertError>)
    ensures
        match existing {
            None => r == Ok::<bool, CertError>(true),
            Some(e) => match (e.validity(), incoming.validity()) {
                (Ok(a), Ok(b)) => r == Ok::<bool, CertError>(a.1 > b.1),
                (Err(x), _) => r == Err::<bool, CertError>(x),
                (Ok(_), Err(y)) => r == Err::<bool, CertError>(y),
            },
        },
{
    match existing {
        None => Ok(true),
        Some(e) => {
            let (_, a) = e.leaf_validity()?;
            let (_, b) = incoming.leaf_validity()?;
            Ok(a > b)
        },
    }
}

} // verus!
