//! Locating `CERTIFICATE` blocks in PEM text.
//!
//! A block runs from a `-----BEGIN CERTIFICATE-----` marker to the first
//! `-----END CERTIFICATE-----` marker after it, both markers included. Blocks
//! are found left to right; the search for the next block resumes after the
//! end marker of the previous one.
use vstd::prelude::*;
use crate::text::{slice_between, utf8};

verus! {

/// The bytes of `-----BEGIN CERTIFICATE-----`.
pub open spec fn begin_marker() -> Seq<u8> {
    seq![
        45u8, 45, 45, 45, 45, 66, 69, 71, 73, 78, 32, 67, 69, 82, 84, 73, 70, 73, 67, 65, 84, 69,
        45, 45, 45, 45, 45,
    ]
}

/// The bytes of `-----END CERTIFICATE-----`.
pub open spec fn end_marker() -> Seq<u8> {
    seq![
        45u8, 45, 45, 45, 45, 69, 78, 68, 32, 67, 69, 82, 84, 73, 70, 73, 67, 65, 84, 69, 45, 45,
        45, 45, 45,
    ]
}

/// `pat` occurs in `s` starting at index `i`.
pub open spec fn occurs_at(s: Seq<u8>, pat: Seq<u8>, i: int) -> bool {
    0 <= i && i + pat.len() <= s.len() && s.subrange(i, i + pat.len()) == pat
}

/// The first index at or after `from` where `pat` occurs in `s`.
pub open spec fn first_occurrence(s: Seq<u8>, pat: Seq<u8>, from: int) -> Option<int>
    decreases s.len() + 1 - from,
{
    if from < 0 || from + pat.len() > s.len() {
        None
    } else if occurs_at(s, pat, from) {
        Some(from)
    } else {
        first_occurrence(s, pat, from + 1)
    }
}

/// The blocks found in `s` from index `pos` on, as `(start, stop)` pairs with
/// `stop` one past the end marker, and whether the scan ended cleanly (`false`
/// when a begin marker has no end marker after it).
pub open spec fn scan_blocks(s: Seq<u8>, pos: int) -> (Seq<(int, int)>, bool)
    decreases s.len() + 1 - pos,
{
    match first_occurrence(s, begin_marker(), pos) {
        None => (Seq::empty(), true),
        Some(b) => match first_occurrence(s, end_marker(), b) {
            None => (Seq::empty(), false),
            Some(e) => {
                let stop = e + end_marker().len();
                if stop <= pos || stop > s.len() {
                    (Seq::empty(), true)
                } else {
                    let rest = scan_blocks(s, stop);
                    (seq![(b, stop)] + rest.0, rest.1)
                }
            },
        },
    }
}

/// The last index in `lo..=hi` at which `pat` occurs in `s`.
pub open spec fn last_occurrence_in(s: Seq<u8>, pat: Seq<u8>, lo: int, hi: int) -> Option<int>
    decreases hi - lo + 1,
{
    if hi < lo {
        None
    } else if occurs_at(s, pat, hi) {
        Some(hi)
    } else {
        last_occurrence_in(s, pat, lo, hi - 1)
    }
}

/// Where the last complete block `(b, stop)` of `s` starts: at the last begin
/// marker that lies wholly before `stop` (a begin marker nested inside the
/// block moves the start to it).
pub open spec fn last_block_start(s: Seq<u8>, b: int, stop: int) -> int {
    match last_occurrence_in(s, begin_marker(), b, stop - begin_marker().len()) {
        Some(i) => i,
        None => b,
    }
}

/// The bytes of the last complete block of `s`, from its last begin marker
/// to its end marker; `None` when `s` holds no complete block. A begin
/// marker left unclosed after it does not matter.
pub open spec fn last_block(s: Seq<u8>) -> Option<Seq<u8>> {
    let bl = scan_blocks(s, 0).0;
    if bl.len() > 0 {
        Some(s.subrange(last_block_start(s, bl.last().0, bl.last().1), bl.last().1))
    } else {
        None
    }
}

/// The bytes of the first complete block of `s`, if there is one.
pub open spec fn first_block(s: Seq<u8>) -> Option<Seq<u8>> {
    let bl = scan_blocks(s, 0).0;
    if bl.len() > 0 {
        Some(s.subrange(bl[0].0, bl[0].1))
    } else {
        None
    }
}

/// The number of complete blocks in `s`.
pub open spec fn block_count(s: Seq<u8>) -> nat {
    scan_blocks(s, 0).0.len()
}

proof fn lemma_last_occurrence_bounds(s: Seq<u8>, pat: Seq<u8>, lo: int, hi: int)
    ensures
        match last_occurrence_in(s, pat, lo, hi) {
            Some(i) => lo <= i <= hi && occurs_at(s, pat, i),
            None => true,
        },
    decreases hi - lo + 1,
{
    if hi >= lo && !occurs_at(s, pat, hi) {
        lemma_last_occurrence_bounds(s, pat, lo, hi - 1);
    }
}

pub proof fn lemma_first_occurrence_bounds(s: Seq<u8>, pat: Seq<u8>, from: int)
    ensures
        match first_occurrence(s, pat, from) {
            Some(i) => from <= i && occurs_at(s, pat, i),
            None => true,
        },
    decreases s.len() + 1 - from,
{
    if from < 0 || from + pat.len() > s.len() {
    } else if occurs_at(s, pat, from) {
    } else {
        lemma_first_occurrence_bounds(s, pat, from + 1);
    }
}

/// Every block found from `pos` on lies within `s`, after `pos`, opens with
/// a begin marker and closes with an end marker.
pub proof fn lemma_blocks_in_range(s: Seq<u8>, pos: int)
    requires
        0 <= pos,
    ensures
        forall|k: int|
            0 <= k < scan_blocks(s, pos).0.len() ==> {
                let p = #[trigger] scan_blocks(s, pos).0[k];
                &&& pos <= p.0 < p.1 <= s.len()
                &&& occurs_at(s, begin_marker(), p.0)
                &&& occurs_at(s, end_marker(), p.1 - end_marker().len())
            },
    decreases s.len() + 1 - pos,
{
    lemma_first_occurrence_bounds(s, begin_marker(), pos);
    match first_occurrence(s, begin_marker(), pos) {
        None => {},
        Some(b) => {
            lemma_first_occurrence_bounds(s, end_marker(), b);
            match first_occurrence(s, end_marker(), b) {
                None => {},
                Some(e) => {
                    let stop = e + end_marker().len();
                    if stop <= pos || stop > s.len() {
                    } else {
                        lemma_blocks_in_range(s, stop);
                        let rest = scan_blocks(s, stop);
                        assert forall|k: int| 0 <= k < scan_blocks(s, pos).0.len() implies {
                            let p = #[trigger] scan_blocks(s, pos).0[k];
                            &&& pos <= p.0 < p.1 <= s.len()
                            &&& occurs_at(s, begin_marker(), p.0)
                            &&& occurs_at(s, end_marker(), p.1 - end_marker().len())
                        } by {
                            if k > 0 {
                                assert(scan_blocks(s, pos).0[k] == rest.0[k - 1]);
                            }
                        }
                    }
                },
            }
        },
    }
}

fn begin_bytes() -> (r: Vec<u8>)
    ensures
        r@ == begin_marker(),
{
    let r = vec![
        45u8, 45, 45, 45, 45, 66, 69, 71, 73, 78, 32, 67, 69, 82, 84, 73, 70, 73, 67, 65, 84, 69,
        45, 45, 45, 45, 45,
    ];
    assert(r@ == begin_marker());
    r
}

fn end_bytes() -> (r: Vec<u8>)
    ensures
        r@ == end_marker(),
{
    let r = vec![
        45u8, 45, 45, 45, 45, 69, 78, 68, 32, 67, 69, 82, 84, 73, 70, 73, 67, 65, 84, 69, 45, 45,
        45, 45, 45,
    ];
    assert(r@ == end_marker());
    r
}

/// Whether `pat` occurs in `s` at index `i`.
pub fn occurs_here(s: &[u8], pat: &[u8], i: usize) -> (r: bool)
    ensures
        r == occurs_at(s@, pat@, i as int),
{
    if pat.len() > s.len() || i > s.len() - pat.len() {
        return false;
    }
    let n: usize = s.len();
    let mut j: usize = 0;
    while j < pat.len()
        invariant
            n == s@.len(),
            j <= pat@.len(),
            i + pat@.len() <= s@.len(),
            forall|k: int| 0 <= k < j ==> s@[i + k] == pat@[k],
        decreases pat@.len() - j,
    {
        if s[i + j] != pat[j] {
            assert(s@.subrange(i as int, i + pat@.len())[j as int] != pat@[j as int]);
            return false;
        }
        j = j + 1;
    }
    assert(s@.subrange(i as int, i + pat@.len()) =~= pat@);
    true
}

/// The first index at or after `from` where `pat` occurs in `s`.
pub fn find_from(s: &[u8], pat: &[u8], from: usize) -> (r: Option<usize>)
    requires
        pat@.len() > 0,
    ensures
        r == (match first_occurrence(s@, pat@, from as int) {
            Some(i) => Some(i as usize),
            None => None::<usize>,
        }),
{
    if pat.len() > s.len() || from > s.len() - pat.len() {
        return None;
    }
    let n: usize = s.len();
    let mut i: usize = from;
    while i <= s.len() - pat.len()
        invariant
            n == s@.len(),
            from <= i,
            0 < pat@.len() <= s@.len(),
            i <= s@.len() - pat@.len() + 1,
            first_occurrence(s@, pat@, from as int) == first_occurrence(s@, pat@, i as int),
        decreases s@.len() - i + 1,
    {
        if occurs_here(s, pat, i) {
            return Some(i);
        }
        i = i + 1;
    }
    None
}

/// Scans `s` for blocks: the `(start, stop)` pair of each, and whether the
/// scan ended cleanly.
pub fn scan(s: &[u8]) -> (r: (Vec<(usize, usize)>, bool))
    ensures
        r.0@.len() == scan_blocks(s@, 0).0.len(),
        forall|k: int|
            0 <= k < r.0@.len() ==> (#[trigger] r.0@[k]).0 as int == scan_blocks(s@, 0).0[k].0
                && r.0@[k].1 as int == scan_blocks(s@, 0).0[k].1,
        r.1 == scan_blocks(s@, 0).1,
{
    let begin = begin_bytes();
    let end = end_bytes();
    let mut found: Vec<(usize, usize)> = Vec::new();
    let n: usize = s.len();
    let mut pos: usize = 0;
    loop
        invariant
            n == s@.len(),
            pos <= s@.len(),
            begin@ == begin_marker(),
            end@ == end_marker(),
            scan_blocks(s@, 0).0 =~= found@.map_values(|p: (usize, usize)| (p.0 as int, p.1 as int))
                + scan_blocks(s@, pos as int).0,
            scan_blocks(s@, 0).1 == scan_blocks(s@, pos as int).1,
        decreases s@.len() - pos,
    {
        let ghost found_before = found@;
        match find_from(s, begin.as_slice(), pos) {
            None => {
                assert(scan_blocks(s@, pos as int).0 =~= Seq::<(int, int)>::empty());
                assert(found@.map_values(|p: (usize, usize)| (p.0 as int, p.1 as int))
                    =~= scan_blocks(s@, 0).0);
                return (found, true);
            },
            Some(b) => {
                proof {
                    lemma_first_occurrence_bounds(s@, begin_marker(), pos as int);
                }
                match find_from(s, end.as_slice(), b) {
                    None => {
                        assert(scan_blocks(s@, pos as int).0 =~= Seq::<(int, int)>::empty());
                        assert(found@.map_values(|p: (usize, usize)| (p.0 as int, p.1 as int))
                            =~= scan_blocks(s@, 0).0);
                        return (found, false);
                    },
                    Some(e) => {
                        proof {
                            lemma_first_occurrence_bounds(s@, end_marker(), b as int);
                        }
                        let stop = e + end.len();
                        found.push((b, stop));
                        let ghost rest = scan_blocks(s@, stop as int);
                        assert(scan_blocks(s@, pos as int).0 =~= seq![(b as int, stop as int)]
                            + rest.0);
                        assert(found@.map_values(|p: (usize, usize)| (p.0 as int, p.1 as int))
                            =~= found_before.map_values(
                            |p: (usize, usize)| (p.0 as int, p.1 as int),
                        ).push((b as int, stop as int)));
                        pos = stop;
                    },
                }
            },
        }
    }
}

/// Copies `s[start..stop]`.
pub fn copy_range(s: &[u8], start: usize, stop: usize) -> (r: Vec<u8>)
    requires
        start <= stop <= s@.len(),
    ensures
        r@ == s@.subrange(start as int, stop as int),
{
    let mut r: Vec<u8> = Vec::new();
    let mut i: usize = start;
    while i < stop
        invariant
            start <= i <= stop <= s@.len(),
            r@ == s@.subrange(start as int, i as int),
        decreases stop - i,
    {
        r.push(s[i]);
        assert(r@ =~= s@.subrange(start as int, i + 1));
        i = i + 1;
    }
    r
}

/// The number of complete blocks of a PEM chain.
pub fn count_blocks(s: &[u8]) -> (r: usize)
    ensures
        r == block_count(s@),
{
    let (found, _) = scan(s);
    found.len()
}

/// The last index in `lo..=hi` at which `pat` occurs in `s`.
fn last_occurrence(s: &[u8], pat: &[u8], lo: usize, hi: usize) -> (r: Option<usize>)
    requires
        lo <= hi < s@.len(),
    ensures
        r == (match last_occurrence_in(s@, pat@, lo as int, hi as int) {
            Some(i) => Some(i as usize),
            None => None::<usize>,
        }),
{
    let n: usize = s.len();
    let mut j: usize = hi + 1;
    while j > lo
        invariant
            n == s@.len(),
            lo <= j <= hi + 1,
            hi < s@.len(),
            last_occurrence_in(s@, pat@, lo as int, hi as int) == last_occurrence_in(
                s@,
                pat@,
                lo as int,
                j - 1,
            ),
        decreases j,
    {
        if occurs_here(s, pat, j - 1) {
            return Some(j - 1);
        }
        j = j - 1;
    }
    None
}

/// `s[b..e]` for a block `(b, e)` found in `s`.
fn block_text(s: &str, b: usize, e: usize) -> (r: &str)
    requires
        b < e <= utf8(s@).len(),
        occurs_at(utf8(s@), begin_marker(), b as int),
        occurs_at(utf8(s@), end_marker(), e - end_marker().len()),
    ensures
        utf8(r@) == utf8(s@).subrange(b as int, e as int),
{
    let ghost bytes = utf8(s@);
    assert(bytes[b as int] == bytes.subrange(b as int, b + begin_marker().len())[0]);
    assert(bytes[e - 1] == bytes.subrange(e - end_marker().len(), e as int)[end_marker().len()
        - 1]);
    slice_between(s, b, e)
}

/// The last complete block of a PEM chain, as text, from its last begin
/// marker on.
pub fn last_block_text(s: &str) -> (r: Option<&str>)
    ensures
        match r {
            Some(t) => last_block(utf8(s@)) == Some(utf8(t@)),
            None => last_block(utf8(s@)).is_none(),
        },
{
    let bytes = s.as_bytes();
    let (found, _) = scan(bytes);
    if found.len() == 0 {
        return None;
    }
    proof {
        lemma_blocks_in_range(bytes@, 0);
    }
    let (b, e) = found[found.len() - 1];
    assert(scan_blocks(bytes@, 0).0.last() == scan_blocks(bytes@, 0).0[found@.len() - 1]);
    let begin = begin_bytes();
    let start = if e - b >= begin.len() {
        proof {
            lemma_last_occurrence_bounds(bytes@, begin_marker(), b as int, e - begin_marker().len());
        }
        match last_occurrence(bytes, begin.as_slice(), b, e - begin.len()) {
            Some(i) => i,
            None => b,
        }
    } else {
        b
    };
    Some(block_text(s, start, e))
}

/// The first complete block of a PEM chain, as text.
pub fn first_block_text(s: &str) -> (r: Option<&str>)
    ensures
        match r {
            Some(t) => first_block(utf8(s@)) == Some(utf8(t@)),
            None => first_block(utf8(s@)).is_none(),
        },
{
    let bytes = s.as_bytes();
    let (found, _) = scan(bytes);
    if found.len() == 0 {
        return None;
    }
    proof {
        lemma_blocks_in_range(bytes@, 0);
    }
    let (b, e) = found[0];
    Some(block_text(s, b, e))
}

} // verus!
