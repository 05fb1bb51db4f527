//! The background routines' decisions: which activity a configured status
//! shows, and which server theme a day of the year takes.
use vstd::prelude::*;

use crate::text::{chars_of, find_char, first_chars, index_of, lemma_index_of, same_chars, string_of};

verus! {

/// The activity a status shows.
#[derive(Debug, Clone, Copy, PartialEq, Eq)]
pub enum ActivityKind {
    Watching,
    Listening,
    Playing,
}

/// The activity and text a configured status shows: before the first `|`
/// the activity (`W` watching, `L` listening, anything else playing), after
/// it the text; a status without `|` shows watching "the world".
pub open spec fn status_spec(s: Seq<char>) -> (ActivityKind, Seq<char>) {
    let k = index_of(s, '|');
    if k < 0 {
        (ActivityKind::Watching, "the world"@)
    } else {
        let a = s.take(k);
        (
            if a == "W"@ {
                ActivityKind::Watching
            } else if a == "L"@ {
                ActivityKind::Listening
            } else {
                ActivityKind::Playing
            },
            s.skip(k + 1),
        )
    }
}

/// Reads a configured status (`W|the world`).
pub fn parse_status(status: &str) -> (r: (ActivityKind, String))
    ensures
        (r.0, r.1@) == status_spec(status@),
{
    let cs = chars_of(status);
    proof {
        lemma_index_of(cs@, '|');
    }
    match find_char(&cs, '|') {
        None => (ActivityKind::Watching, string_of(&chars_of("the world"))),
        Some(k) => {
            assert(k < cs.len());
            let a = first_chars(&cs, k);
            let mut rest: Vec<char> = Vec::new();
            let mut i: usize = k + 1;
            while i < cs.len()
                invariant
                    k < cs.len(),
                    k + 1 <= i <= cs.len(),
                    rest@ == cs@.subrange(k + 1, i as int),
                decreases cs.len() - i,
            {
                rest.push(cs[i]);
                i = i + 1;
            }
            assert(rest@ == cs@.skip(k + 1));
            let kind = if same_chars(&a, &chars_of("W")) {
                ActivityKind::Watching
            } else if same_chars(&a, &chars_of("L")) {
                ActivityKind::Listening
            } else {
                ActivityKind::Playing
            };
            (kind, string_of(&rest))
        },
    }
}

/// The theme a day of the year (from 1) takes, counting ten days ahead.
pub fn theme_index(day_of_year: u32, themes: usize) -> (r: usize)
    requires
        themes > 0,
        day_of_year <= 366,
    ensures
        r == (day_of_year + 10) % (themes as int),
        r < themes,
{
    ((day_of_year as usize) + 10) % themes
}

} // verus!
