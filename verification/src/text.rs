//! The two calls into std's text handling that vstd gives no specification:
//! decoding UTF-8 and comparing without regard to ASCII case. Both are
//! believed, not proved.

use vstd::prelude::*;
use vstd::utf8::{decode_utf8, valid_utf8};

verus! {

/// `c` with an ASCII capital letter replaced by its small letter.
pub open spec fn ascii_lower(c: char) -> char {
    if 'A' <= c && c <= 'Z' {
        ((c as u32) + 32) as char
    } else {
        c
    }
}

/// Two texts have the same length and agree character by character once
/// ASCII capitals are replaced by small letters.
pub open spec fn same_ignoring_ascii_case(a: Seq<char>, b: Seq<char>) -> bool {
    &&& a.len() == b.len()
    &&& forall|i: int| 0 <= i < a.len() ==> ascii_lower(#[trigger] a[i]) == ascii_lower(b[i])
}

/// `c` with an ASCII small letter replaced by its capital letter.
pub open spec fn ascii_upper(c: char) -> char {
    if 'a' <= c && c <= 'z' {
        ((c as u32) - 32) as char
    } else {
        c
    }
}

/// Not regarding ASCII case is an equivalence: every text matches itself, a
/// match holds in both directions, and two texts that match a third match
/// each other.
pub proof fn lemma_ignoring_case_is_equivalence(a: Seq<char>, b: Seq<char>, c: Seq<char>)
    ensures
        same_ignoring_ascii_case(a, a),
        same_ignoring_ascii_case(a, b) == same_ignoring_ascii_case(b, a),
        same_ignoring_ascii_case(a, b) && same_ignoring_ascii_case(b, c)
            ==> same_ignoring_ascii_case(a, c),
{
    if same_ignoring_ascii_case(a, b) {
        assert forall|i: int| 0 <= i < b.len() implies ascii_lower(#[trigger] b[i]) == ascii_lower(
            a[i],
        ) by {
            assert(ascii_lower(a[i]) == ascii_lower(b[i]));
        }
        if same_ignoring_ascii_case(b, c) {
            assert forall|i: int| 0 <= i < a.len() implies ascii_lower(#[trigger] a[i])
                == ascii_lower(c[i]) by {
                assert(ascii_lower(b[i]) == ascii_lower(c[i]));
            }
        }
    }
    if same_ignoring_ascii_case(b, a) {
        assert forall|i: int| 0 <= i < a.len() implies ascii_lower(#[trigger] a[i]) == ascii_lower(
            b[i],
        ) by {
            assert(ascii_lower(b[i]) == ascii_lower(a[i]));
        }
    }
}

/// A text matches itself written in small letters and itself written in
/// capital letters.
pub proof fn lemma_case_does_not_matter(text: Seq<char>)
    ensures
        same_ignoring_ascii_case(text, text.map_values(|c: char| ascii_lower(c))),
        same_ignoring_ascii_case(text, text.map_values(|c: char| ascii_upper(c))),
{
    let lower = text.map_values(|c: char| ascii_lower(c));
    let upper = text.map_values(|c: char| ascii_upper(c));
    assert forall|i: int| 0 <= i < text.len() implies ascii_lower(#[trigger] text[i])
        == ascii_lower(lower[i]) by {
        lemma_folding_one(text[i]);
    }
    assert forall|i: int| 0 <= i < text.len() implies ascii_lower(#[trigger] text[i])
        == ascii_lower(upper[i]) by {
        lemma_folding_one(text[i]);
    }
}

/// Folding a character to either case does not change its small letter.
proof fn lemma_folding_one(c: char)
    ensures
        ascii_lower(ascii_lower(c)) == ascii_lower(c),
        ascii_lower(ascii_upper(c)) == ascii_lower(c),
{
}

/// `String::from_utf8`, with its error dropped: the text that `bytes` encode,
/// or nothing where they are not valid UTF-8.
#[verifier::external_body]
pub(crate) fn string_from_utf8(bytes: Vec<u8>) -> (text: Option<String>)
    ensures
        text is Some <==> valid_utf8(bytes@),
        text matches Some(s) ==> s@ == decode_utf8(bytes@),
{
    String::from_utf8(bytes).ok()
}

/// `str::eq_ignore_ascii_case`: whether the two texts match once the ASCII
/// letters of both are brought to one case; every other character must be
/// equal as it stands.
#[verifier::external_body]
pub(crate) fn eq_ignore_ascii_case(a: &str, b: &str) -> (same: bool)
    ensures
        same == same_ignoring_ascii_case(a@, b@),
{
    a.eq_ignore_ascii_case(b)
}

} // verus!
