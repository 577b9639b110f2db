//! Request rewriting on the TLS data plane: the host a request is for, and
//! the headers added before it goes upstream.
use vstd::prelude::*;
use crate::plaintext::request_host;
use crate::text::{ascii_lower, concat, lowercase_ascii};

verus! {

/// `parts` joined with `sep` between each two.
pub open spec fn joined(parts: Seq<Seq<char>>, sep: Seq<char>) -> Seq<char>
    decreases parts.len(),
{
    if parts.len() == 0 {
        Seq::empty()
    } else if parts.len() == 1 {
        parts[0]
    } else {
        joined(parts.drop_last(), sep) + sep + parts.last()
    }
}

/// The texts of a list of strings.
pub open spec fn texts_of(v: Seq<String>) -> Seq<Seq<char>> {
    v.map_values(|s: String| s@)
}

/// The lower-cased host a TLS request is for: the URI authority if present,
/// else the `Host` header.
pub fn request_server_name(authority: Option<&str>, host_header: Option<&str>) -> (r: Option<String>)
    ensures
        match (match authority {
            Some(a) => Some(a@),
            None => match host_header {
                Some(h) => Some(h@),
                None => None::<Seq<char>>,
            },
        }) {
            Some(h) => r matches Some(s) && s@ == ascii_lower(h),
            None => r.is_none(),
        },
{
    match request_host(authority, host_header) {
        Some(h) => Some(lowercase_ascii(h)),
        None => None,
    }
}

/// All `Cookie` header values collapsed into one, joined with `; `.
pub fn collapse_cookies(values: &Vec<String>) -> (r: String)
    ensures
        r@ == joined(texts_of(values@), "; "@),
{
    let mut r = String::new();
    let mut i: usize = 0;
    while i < values.len()
        invariant
            i <= values@.len(),
            r@ == joined(texts_of(values@.subrange(0, i as int)), "; "@),
        decreases values@.len() - i,
    {
        let ghost pre = texts_of(values@.subrange(0, i + 1));
        assert(pre.drop_last() =~= texts_of(values@.subrange(0, i as int)));
        assert(pre.last() == values@[i as int]@);
        if i == 0 {
            r = concat(r.as_str(), values[i].as_str());
            assert(r@ =~= pre[0]);
        } else {
            let with_sep = concat(r.as_str(), "; ");
            r = concat(with_sep.as_str(), values[i].as_str());
        }
        i = i + 1;
    }
    assert(values@.subrange(0, values@.len() as int) =~= values@);
    r
}

/// The headers added to each request sent upstream, as `(name, value)`:
/// the forwarded protocol and scheme, and the client's address when known.
pub fn forwarding_headers(client_ip: Option<&str>) -> (r: Vec<(String, String)>)
    ensures
        r@.len() == if client_ip is Some {
            3int
        } else {
            2int
        },
        r@[0].0@ == "X-Forwarded-Proto"@ && r@[0].1@ == "https"@,
        r@[1].0@ == "X-Forwarded-Scheme"@ && r@[1].1@ == "https"@,
        client_ip matches Some(ip) ==> r@[2].0@ == "X-Real-IP"@ && r@[2].1@ == ip@,
{
    let mut r: Vec<(String, String)> = Vec::new();
    r.push(("X-Forwarded-Proto".to_owned(), "https".to_owned()));
    r.push(("X-Forwarded-Scheme".to_owned(), "https".to_owned()));
    if let Some(ip) = client_ip {
        r.push(("X-Real-IP".to_owned(), ip.to_owned()));
    }
    r
}

} // verus!
