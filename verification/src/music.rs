//! The music player's status: durations as clock text and the progress bar.
use vstd::prelude::*;

use crate::text::{decimal, push_decimal, push_repeat, push_str, repeat_char, string_of, zero_pad};

verus! {

/// `n` as at least two digits (`{:02}`).
pub open spec fn two_digits(n: nat) -> Seq<char> {
    zero_pad(decimal(n), 2)
}

/// A duration in whole seconds as a clock: `h:mm:ss` when it reaches an hour,
/// `m:ss` otherwise.
pub open spec fn clock(secs: nat) -> Seq<char> {
    let h = secs / 3600;
    let m = (secs % 3600) / 60;
    let s = secs % 60;
    if h > 0 {
        decimal(h) + ":"@ + two_digits(m) + ":"@ + two_digits(s)
    } else {
        decimal(m) + ":"@ + two_digits(s)
    }
}

/// Appends `n` as at least two digits.
fn push_two_digits(out: &mut Vec<char>, n: u64)
    ensures
        final(out)@ == old(out)@ + two_digits(n as nat),
{
    let mut d: Vec<char> = Vec::new();
    push_decimal(&mut d, n);
    crate::text::push_zero_padded(out, &d, 2);
}

/// Renders a duration in whole seconds as a clock.
pub fn format_duration(secs: u64) -> (r: String)
    ensures
        r@ == clock(secs as nat),
{
    let h = secs / 3600;
    let m = (secs % 3600) / 60;
    let s = secs % 60;
    let mut out: Vec<char> = Vec::new();
    if h > 0 {
        push_decimal(&mut out, h);
        push_str(&mut out, ":");
        push_two_digits(&mut out, m);
        push_str(&mut out, ":");
        push_two_digits(&mut out, s);
    } else {
        push_decimal(&mut out, m);
        push_str(&mut out, ":");
        push_two_digits(&mut out, s);
    }
    string_of(&out)
}

/// How many of the bar's 20 cells are filled: the share of the track played,
/// at most all of it, times 20, rounded half up. A track of no length counts
/// as played.
pub open spec fn filled_cells(pos_ms: nat, total_ms: nat) -> nat {
    if total_ms == 0 || pos_ms >= total_ms {
        20
    } else {
        (40 * pos_ms + total_ms) / (2 * total_ms)
    }
}

/// Before the end of a track, at most all 20 cells are filled.
proof fn lemma_cells_within(p: int, t: int)
    requires
        0 <= p < t,
    ensures
        (40 * p + t) / (2 * t) <= 20,
{
    assert((40 * p + t) / (2 * t) <= 20) by (nonlinear_arith)
        requires
            0 <= p < t,
    {
        vstd::arithmetic::div_mod::lemma_div_is_ordered(40 * p + t, 41 * t, 2 * t);
        vstd::arithmetic::div_mod::lemma_div_by_multiple_is_strongly_ordered(41 * t, 42 * t, 21, 2 * t);
    }
}

/// The bar never overflows and never runs backwards: at most all 20 cells
/// are filled, none at the start of a track, all at its end, and a later
/// position fills at least as many cells as an earlier one.
pub proof fn law_progress_moves_forward(earlier_ms: nat, later_ms: nat, total_ms: nat)
    requires
        earlier_ms <= later_ms,
    ensures
        filled_cells(earlier_ms, total_ms) <= filled_cells(later_ms, total_ms) <= 20,
        total_ms > 0 ==> filled_cells(0, total_ms) == 0,
        later_ms >= total_ms ==> filled_cells(later_ms, total_ms) == 20,
{
    if total_ms > 0 {
        let t = total_ms as int;
        let a = earlier_ms as int;
        let b = later_ms as int;
        assert((0 * 40 + t) / (2 * t) == 0) by (nonlinear_arith)
            requires
                t > 0,
        ;
        if a < t {
            lemma_cells_within(a, t);
        }
        if b < t {
            lemma_cells_within(b, t);
            assert((40 * a + t) / (2 * t) <= (40 * b + t) / (2 * t)) by (nonlinear_arith)
                requires
                    0 <= a <= b,
                    t > 0,
            {
                vstd::arithmetic::div_mod::lemma_div_is_ordered(40 * a + t, 40 * b + t, 2 * t);
            }
        }
    }
}

/// The bar: `=` for the filled cells but the last, `>` for the head, `-` for
/// the rest.
pub open spec fn bar(filled: nat) -> Seq<char> {
    repeat_char(
        '=',
        if filled > 0 {
            (filled - 1) as nat
        } else {
            0
        },
    ) + ">"@ + repeat_char(
        '-',
        if filled < 20 {
            (20 - filled) as nat
        } else {
            0
        },
    )
}

/// The progress line of a playing track, from its position and its length
/// in milliseconds (when known).
pub open spec fn progress_line(pos_ms: nat, total_ms: Option<nat>) -> Seq<char> {
    match total_ms {
        None => "`"@ + clock(pos_ms / 1000) + "` (unknown length)"@,
        Some(t) => "`["@ + bar(filled_cells(pos_ms, t)) + "] "@ + clock(pos_ms / 1000) + " / "@
            + clock(t / 1000) + "`"@,
    }
}

/// Renders the progress of a playing track.
///
/// The share of the track played is computed exactly and rounded half up;
/// the clocks show whole seconds.
pub fn render_progress_bar(pos_ms: u64, total_ms: Option<u64>) -> (r: String)
    ensures
        r@ == progress_line(
            pos_ms as nat,
            match total_ms {
                Some(t) => Some(t as nat),
                None => None,
            },
        ),
{
    let mut out: Vec<char> = Vec::new();
    match total_ms {
        None => {
            push_str(&mut out, "`");
            push_str(&mut out, format_duration(pos_ms / 1000).as_str());
            push_str(&mut out, "` (unknown length)");
        },
        Some(t) => {
            let filled: u64 = if t == 0 || pos_ms >= t {
                20
            } else {
                let p = pos_ms as u128;
                let tt = t as u128;
                assert((40 * p + tt) / (2 * tt) <= 20) by (nonlinear_arith)
                    requires
                        p < tt,
                        tt > 0,
                ;
                ((40 * p + tt) / (2 * tt)) as u64
            };
            push_str(&mut out, "`[");
            let eq_count: usize = if filled > 0 {
                (filled - 1) as usize
            } else {
                0
            };
            let dash_count: usize = if filled < 20 {
                (20 - filled) as usize
            } else {
                0
            };
            push_repeat(&mut out, '=', eq_count);
            push_str(&mut out, ">");
            push_repeat(&mut out, '-', dash_count);
            push_str(&mut out, "] ");
            push_str(&mut out, format_duration(pos_ms / 1000).as_str());
            push_str(&mut out, " / ");
            push_str(&mut out, format_duration(t / 1000).as_str());
            push_str(&mut out, "`");
        },
    }
    string_of(&out)
}

/// The information shown about a track: title, channel and duration, each
/// with a stand-in when unknown.
pub fn track_information(title: Option<&str>, channel: Option<&str>, duration_secs: Option<u64>) -> (r:
    String)
    ensures
        r@ == "**Title**: "@ + match title {
            Some(t) => t@,
            None => "Unknown title"@,
        } + "\n**Channel**: "@ + match channel {
            Some(c) => c@,
            None => "Unknown channel"@,
        } + "\n**Duration**: "@ + match duration_secs {
            Some(d) => clock(d as nat),
            None => "Unknown duration"@,
        },
{
    let mut out: Vec<char> = Vec::new();
    push_str(&mut out, "**Title**: ");
    match title {
        Some(t) => push_str(&mut out, t),
        None => push_str(&mut out, "Unknown title"),
    }
    push_str(&mut out, "\n**Channel**: ");
    match channel {
        Some(c) => push_str(&mut out, c),
        None => push_str(&mut out, "Unknown channel"),
    }
    push_str(&mut out, "\n**Duration**: ");
    match duration_secs {
        Some(d) => push_str(&mut out, format_duration(d).as_str()),
        None => push_str(&mut out, "Unknown duration"),
    }
    string_of(&out)
}

} // verus!
