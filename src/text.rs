//! Text helpers: UTF-8 byte views of strings, slicing at ASCII delimiters,
//! concatenation and ASCII case folding.
use vstd::prelude::*;
use vstd::string::{StringExecFns, StringSliceAdditionalSpecFns};
use vstd::utf8::*;

verus! {

/// The UTF-8 encoding of a character sequence.
pub open spec fn utf8(s: Seq<char>) -> Seq<u8> {
    encode_utf8(s)
}

/// ASCII lower-casing of one character: `A`..`Z` map to `a`..`z`, all other
/// characters stay as they are.
pub open spec fn ascii_lower_char(c: char) -> char {
    if 'A' <= c && c <= 'Z' {
        ((c as u32) + 32) as char
    } else {
        c
    }
}

/// ASCII lower-casing of a character sequence.
pub open spec fn ascii_lower(s: Seq<char>) -> Seq<char> {
    s.map_values(|c: char| ascii_lower_char(c))
}

/// In valid UTF-8, the index right after an ASCII byte is a character boundary.
pub proof fn lemma_boundary_after_ascii(bytes: Seq<u8>, i: int)
    requires
        valid_utf8(bytes),
        0 < i <= bytes.len(),
        bytes[i - 1] <= 0x7f,
    ensures
        is_char_boundary(bytes, i),
    decreases bytes.len(),
{
    let k = length_of_first_scalar(bytes);
    let rest = pop_first_scalar(bytes);
    assert(rest.len() == bytes.len() - k);
    if i - 1 < k {
        if k == 1 {
            assert(is_char_boundary(rest, 0));
        } else {
            assert(i - 1 >= 1 ==> is_continuation_byte(bytes[i - 1]));
            assert(bytes[0] >= 0xc0);
        }
    } else {
        assert(rest[i - k - 1] == bytes[i - 1]);
        lemma_boundary_after_ascii(rest, i - k);
    }
}

/// In valid UTF-8, the index of an ASCII byte is a character boundary.
pub proof fn lemma_boundary_at_ascii(bytes: Seq<u8>, i: int)
    requires
        valid_utf8(bytes),
        0 <= i < bytes.len(),
        bytes[i] <= 0x7f,
    ensures
        is_char_boundary(bytes, i),
{
    is_char_boundary_iff_not_is_continuation_byte(bytes, i);
}

/// `s[start..stop]`, where each cut is at an end of the text or borders an
/// ASCII byte.
pub fn slice_between(s: &str, start: usize, stop: usize) -> (r: &str)
    requires
        start <= stop <= utf8(s@).len(),
        start == 0 || start == utf8(s@).len() || utf8(s@)[start as int] <= 0x7f
            || utf8(s@)[start - 1] <= 0x7f,
        stop == 0 || stop == utf8(s@).len() || utf8(s@)[stop - 1] <= 0x7f
            || utf8(s@)[stop as int] <= 0x7f,
    ensures
        utf8(r@) == utf8(s@).subrange(start as int, stop as int),
{
    let ghost bytes = utf8(s@);
    proof {
        encode_utf8_valid_utf8(s@);
        is_char_boundary_start_end_of_seq(bytes);
        if start != 0 && start != bytes.len() {
            if bytes[start as int] <= 0x7f {
                lemma_boundary_at_ascii(bytes, start as int);
            } else {
                lemma_boundary_after_ascii(bytes, start as int);
            }
        }
    }
    let (_, tail) = s.split_at(start);
    let ghost tail_bytes = bytes.subrange(start as int, bytes.len() as int);
    assert(tail.spec_bytes() == tail_bytes);
    proof {
        valid_utf8_split(bytes, start as int);
        is_char_boundary_start_end_of_seq(tail_bytes);
        if stop > start && stop < bytes.len() {
            if bytes[stop - 1] <= 0x7f {
                assert(tail_bytes[stop - start - 1] == bytes[stop - 1]);
                lemma_boundary_after_ascii(tail_bytes, stop - start);
            } else {
                assert(tail_bytes[stop - start] == bytes[stop as int]);
                lemma_boundary_at_ascii(tail_bytes, stop - start);
            }
        }
    }
    let (piece, _) = tail.split_at(stop - start);
    assert(piece.spec_bytes() =~= bytes.subrange(start as int, stop as int));
    piece
}

/// Relies on `str::to_ascii_lowercase`: ASCII upper-case letters become
/// lower-case, every other character is kept.
#[verifier::external_body]
pub(crate) fn lowercase_ascii(s: &str) -> (r: String)
    ensures
        r@ == ascii_lower(s@),
{
    s.to_ascii_lowercase()
}

/// The concatenation of two strings.
pub fn concat(a: &str, b: &str) -> (r: String)
    ensures
        r@ == a@ + b@,
{
    let mut r = a.to_owned();
    r.append(b);
    r
}

} // verus!
