//! The plaintext HTTP service: ACME challenge tokens are served, every other
//! request with a host is redirected to HTTPS.
use vstd::prelude::*;
use crate::text::{concat, slice_between, utf8};

verus! {

/// The path prefix under which challenge tokens are served.
pub open spec fn challenge_prefix() -> Seq<u8> {
    utf8("/.well-known/acme-challenge/"@)
}

/// `p` starts with `prefix`.
pub open spec fn has_prefix(p: Seq<u8>, prefix: Seq<u8>) -> bool {
    prefix.len() <= p.len() && p.subrange(0, prefix.len() as int) == prefix
}

/// The path is under the challenge prefix.
pub open spec fn is_challenge_path(path: Seq<char>) -> bool {
    has_prefix(utf8(path), challenge_prefix())
}

/// The index of the last byte `x` in `b`, or -1.
pub open spec fn last_index_of(b: Seq<u8>, x: u8) -> int
    decreases b.len(),
{
    if b.len() == 0 {
        -1
    } else if b.last() == x {
        b.len() - 1
    } else {
        last_index_of(b.drop_last(), x)
    }
}

proof fn lemma_last_index_bounds(b: Seq<u8>, x: u8)
    ensures
        -1 <= last_index_of(b, x) < b.len(),
        last_index_of(b, x) >= 0 ==> b[last_index_of(b, x)] == x,
    decreases b.len(),
{
    if b.len() > 0 && b.last() != x {
        lemma_last_index_bounds(b.drop_last(), x);
    }
}

/// The final path segment (the bytes after the last `/`) of a challenge
/// path; `None` for a path outside the challenge prefix.
pub open spec fn challenge_token_of(path: Seq<char>) -> Option<Seq<u8>> {
    if is_challenge_path(path) {
        let b = utf8(path);
        Some(b.subrange(last_index_of(b, 47u8) + 1, b.len() as int))
    } else {
        None
    }
}

/// What the plaintext service does with a request.
#[derive(Debug, PartialEq, Eq)]
pub enum PlainAction {
    /// Serve the challenge token file of this name, if it exists.
    ServeToken(String),
    /// Redirect to this HTTPS location.
    Redirect(String),
    /// Answer `404`.
    NotFound,
}

/// The answer of the plaintext service.
#[derive(Debug)]
pub struct PlainResponse {
    pub status: u16,
    pub content_type: Option<String>,
    /// The `Location` header; a response with one has an empty body and
    /// `Content-Length: 0`.
    pub location: Option<String>,
    pub body: String,
}

/// The request's host: the URI authority if present, else the `Host` header.
pub fn request_host<'a>(authority: Option<&'a str>, host_header: Option<&'a str>) -> (r: Option<&'a str>)
    ensures
        r == match authority {
            Some(a) => Some(a),
            None => host_header,
        },
{
    match authority {
        Some(a) => Some(a),
        None => host_header,
    }
}

/// The token named by a challenge path.
pub fn challenge_token(path: &str) -> (r: Option<&str>)
    ensures
        match r {
            Some(t) => challenge_token_of(path@) == Some(utf8(t@)),
            None => challenge_token_of(path@).is_none(),
        },
{
    let b = path.as_bytes();
    let prefix = "/.well-known/acme-challenge/".as_bytes();
    assert(prefix@ == challenge_prefix());
    if prefix.len() > b.len() {
        return None;
    }
    let mut i: usize = 0;
    while i < prefix.len()
        invariant
            prefix@ == challenge_prefix(),
            b@ == utf8(path@),
            prefix@.len() <= b@.len(),
            i <= prefix@.len(),
            forall|k: int| 0 <= k < i ==> b@[k] == prefix@[k],
        decreases prefix@.len() - i,
    {
        if b[i] != prefix[i] {
            assert(b@.subrange(0, prefix@.len() as int)[i as int] != prefix@[i as int]);
            return None;
        }
        i = i + 1;
    }
    assert(b@.subrange(0, prefix@.len() as int) =~= prefix@);
    let mut j: usize = b.len();
    assert(b@.subrange(0, j as int) =~= b@);
    while j > 0 && b[j - 1] != 47
        invariant
            j <= b@.len(),
            last_index_of(b@, 47u8) == last_index_of(b@.subrange(0, j as int), 47u8),
        decreases j,
    {
        assert(b@.subrange(0, j as int).drop_last() =~= b@.subrange(0, j - 1));
        j = j - 1;
    }
    proof {
        if j > 0 {
            assert(b@.subrange(0, j as int).last() == b@[j - 1]);
        }
        assert(last_index_of(b@, 47u8) == j - 1);
    }
    Some(slice_between(path, j, b.len()))
}

/// `a` is what the plaintext service does with a request of this path, path
/// and query, and host.
pub open spec fn action_for(
    path: Seq<char>,
    path_and_query: Option<Seq<char>>,
    host: Option<Seq<char>>,
    a: PlainAction,
) -> bool {
    match challenge_token_of(path) {
        Some(t) => a matches PlainAction::ServeToken(s) && utf8(s@) == t,
        None => match host {
            Some(h) => a matches PlainAction::Redirect(l) && l@ == "https://"@ + h + match path_and_query {
                Some(pq) => pq,
                None => "/"@,
            },
            None => a matches PlainAction::NotFound,
        },
    }
}

/// What to do with a request, given its path, its path and query, and its
/// host. Challenge paths are served whatever the host; other requests with a
/// host are redirected to the same path and query over HTTPS (`/` when the
/// request has none); the rest get `404`.
pub fn plaintext_action(path: &str, path_and_query: Option<&str>, host: Option<&str>) -> (r: PlainAction)
    ensures
        action_for(
            path@,
            match path_and_query {
                Some(pq) => Some(pq@),
                None => None,
            },
            match host {
                Some(h) => Some(h@),
                None => None,
            },
            r,
        ),
{
    if let Some(t) = challenge_token(path) {
        return PlainAction::ServeToken(t.to_owned());
    }
    match host {
        Some(h) => {
            let base = concat("https://", h);
            let rest = match path_and_query {
                Some(pq) => pq,
                None => "/",
            };
            PlainAction::Redirect(concat(base.as_str(), rest))
        },
        None => PlainAction::NotFound,
    }
}

/// The status that an action leads to, given whether the token file was read.
pub open spec fn status_of(a: PlainAction, token_file_read: bool) -> u16 {
    match a {
        PlainAction::ServeToken(_) => if token_file_read {
            200
        } else {
            404
        },
        PlainAction::Redirect(_) => 307,
        PlainAction::NotFound => 404,
    }
}

/// The response for an action; `token_file` is the content of the token's
/// file when it exists and is a regular file.
pub fn plaintext_response(action: PlainAction, token_file: Option<String>) -> (r: PlainResponse)
    ensures
        r.status == status_of(action, token_file is Some),
        match (action, token_file) {
            (PlainAction::ServeToken(_), Some(body)) => (r.content_type matches Some(ct) && ct@
                == "text/plain"@) && r.body == body && r.location.is_none(),
            (PlainAction::Redirect(l), _) => r.location == Some(l) && r.body@.len() == 0
                && r.content_type.is_none(),
            _ => r.location.is_none() && r.content_type.is_none() && r.body@.len() == 0,
        },
{
    match action {
        PlainAction::ServeToken(_) => match token_file {
            Some(body) => PlainResponse {
                status: 200,
                content_type: Some("text/plain".to_owned()),
                location: None,
                body,
            },
            None => PlainResponse { status: 404, content_type: None, location: None, body: String::new() },
        },
        PlainAction::Redirect(l) => PlainResponse {
            status: 307,
            content_type: None,
            location: Some(l),
            body: String::new(),
        },
        PlainAction::NotFound => PlainResponse {
            status: 404,
            content_type: None,
            location: None,
            body: String::new(),
        },
    }
}

/// The plaintext service answers with a success status (2xx) only for a
/// path under the challenge prefix, whatever the host, the query and the
/// token file.
pub proof fn lemma_success_only_for_challenges(
    path: Seq<char>,
    path_and_query: Option<Seq<char>>,
    host: Option<Seq<char>>,
    a: PlainAction,
    token_file_read: bool,
)
    requires
        action_for(path, path_and_query, host, a),
        200 <= status_of(a, token_file_read) < 300,
    ensures
        is_challenge_path(path),
{
}

} // verus!
