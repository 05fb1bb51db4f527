//! The calls this library makes into std functions that vstd leaves
//! unspecified and into outside crates, each behind a trusted item whose
//! contract states what the called function's documentation or source shows.
use rand::Rng;
use regex::Regex;
use vstd::prelude::*;

use crate::text::{ascii_lower, count_char, strip_angles};

verus! {

/// The Unicode lower case of a string, as `str::to_lowercase` computes it.
pub uninterp spec fn unicode_lowercase(s: Seq<char>) -> Seq<char>;

/// Calls `str::to_lowercase`. Trusted: the result is a function of the input
/// alone (named `unicode_lowercase`), and on an ASCII string it is the ASCII
/// lower case (`A`..`Z` become `a`..`z`, all else stays), as the Unicode
/// lower-case mapping that std documents gives it; the tables for the rest
/// of Unicode are not stated.
#[verifier::external_body]
pub(crate) fn lowercase(s: &str) -> (r: String)
    ensures
        r@ == unicode_lowercase(s@),
        (forall|i: int| 0 <= i < s@.len() ==> ((#[trigger] s@[i]) as u32) < 128) ==> r@
            == ascii_lower(s@),
{
    s.to_lowercase()
}

/// The Unicode upper case of a string, as `str::to_uppercase` computes it.
pub uninterp spec fn unicode_uppercase(s: Seq<char>) -> Seq<char>;

/// Calls `str::to_uppercase`. Trusted: the result is a function of the input
/// alone (named `unicode_uppercase`); the Unicode case tables are not stated.
#[verifier::external_body]
pub(crate) fn uppercase(s: &str) -> (r: String)
    ensures
        r@ == unicode_uppercase(s@),
{
    s.to_uppercase()
}

/// The ASCII transliteration of a string, as `unidecode::unidecode` computes
/// it.
pub uninterp spec fn unidecode_text(s: Seq<char>) -> Seq<char>;

/// Calls `unidecode::unidecode`. Trusted: the result is a function of the
/// input alone (named `unidecode_text`), and, as the crate documents, it is
/// ASCII and maps every ASCII character to itself, so that an ASCII string
/// comes back unchanged. The transliteration tables are not stated.
#[verifier::external_body]
pub(crate) fn transliterate(s: &str) -> (r: String)
    ensures
        r@ == unidecode_text(s@),
        forall|i: int| 0 <= i < r@.len() ==> ((#[trigger] r@[i]) as u32) < 128,
        (forall|i: int| 0 <= i < s@.len() ==> ((#[trigger] s@[i]) as u32) < 128) ==> r@ == s@,
{
    unidecode::unidecode(s)
}

/// Calls `rand::Rng::random_range(0..n)` on the thread-local generator of
/// `rand::rng()`. Trusted: the result is some index below `n`; which one is
/// left to chance. `n` must be positive, as the range would be empty.
#[verifier::external_body]
pub(crate) fn random_below(n: usize) -> (r: usize)
    requires
        n > 0,
    ensures
        r < n,
{
    rand::rng().random_range(0..n)
}


/// Calls `rand::random::<u32>()`, a draw from the thread-local generator.
/// Trusted: it returns; any `u32` may come back.
#[verifier::external_body]
pub(crate) fn random_u32() -> u32 {
    rand::random::<u32>()
}

/// The non-overlapping matches, left to right, of the emote pattern
/// `<.*?:\w*:\d*>` in a text, as `Regex::find_iter` reports them.
pub uninterp spec fn emote_pattern_matches(text: Seq<char>) -> Seq<Seq<char>>;

/// Calls `Regex::find_iter` with the pattern `<.*?:\w*:\d*>` (a Discord emote:
/// `<`, anything, `:`, a name, `:`, an id, `>`). Trusted: the matches are a
/// function of the text (named `emote_pattern_matches`), and, as the pattern
/// shows, each holds two `:` outside its `<` and `>`. The regular-expression
/// engine itself is not stated.
#[verifier::external_body]
pub(crate) fn emote_matches(text: &str) -> (r: Vec<String>)
    ensures
        r@.map_values(|m: String| m@) == emote_pattern_matches(text@),
        forall|i: int|
            0 <= i < r@.len() ==> count_char(strip_angles(#[trigger] r@[i]@), ':') >= 2,
{
    let re = Regex::new(r"<.*?:\w*:\d*>").unwrap();
    re.find_iter(text).map(|m| m.as_str().to_string()).collect()
}

} // verus!
