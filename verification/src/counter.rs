//! The word counter: which configured words a message mentions, and how the
//! per-word leaderboard reads.
//!
//! The configuration is a string of entries separated by `|`, each entry a
//! word, a `:` and its variations separated by `,`
//! (`WORD1:ALT1,ALT2|WORD2:ALT3,ALT4`).
use vstd::prelude::*;

use crate::outside::{lowercase, unicode_lowercase};
use crate::text::{
    ascii_lower, ascii_lower_char, chars_of, contains, count_char, decimal, find_char, first_chars,
    has_infix, join, join_with, lemma_index_of, lemma_split_first, lemma_split_nonempty,
    lower_ascii, push_chars, push_decimal, push_signed, push_str, same_chars, signed_decimal, split,
    split_on, string_of, text_of,
};

verus! {

/// The word an entry configures: what stands before its first `:`.
pub open spec fn entry_main(e: Seq<char>) -> Seq<char> {
    split_on(e, ':')[0]
}

/// The variations an entry configures: what follows its first `:`, split on
/// `,`, each ASCII lower-cased.
pub open spec fn entry_variations(e: Seq<char>) -> Seq<Seq<char>> {
    split_on(e.skip(entry_main(e).len() as int + 1), ',').map_values(|v: Seq<char>| ascii_lower(v))
}

/// Every entry of the configuration holds a `:`.
pub open spec fn word_config_ok(config: Seq<char>) -> bool {
    forall|i: int|
        0 <= i < split_on(config, '|').len() ==> count_char(#[trigger] split_on(config, '|')[i], ':')
            >= 1
}

/// The variations configured for `word` by the raw `entries`: those of the
/// last entry that names it, as repeated insertion into a map leaves them.
pub open spec fn configured(entries: Seq<Seq<char>>, word: Seq<char>) -> Option<Seq<Seq<char>>>
    decreases entries.len(),
{
    if entries.len() == 0 {
        None
    } else if entry_main(entries.last()) == word {
        Some(entry_variations(entries.last()))
    } else {
        configured(entries.drop_last(), word)
    }
}

/// The variations recorded for `word` in a list of (word, variations) pairs.
pub open spec fn lookup(es: Seq<(Seq<char>, Seq<Seq<char>>)>, word: Seq<char>) -> Option<
    Seq<Seq<char>>,
>
    decreases es.len(),
{
    if es.len() == 0 {
        None
    } else if es.last().0 == word {
        Some(es.last().1)
    } else {
        lookup(es.drop_last(), word)
    }
}

/// No word is recorded twice.
pub open spec fn distinct_words(es: Seq<(Seq<char>, Seq<Seq<char>>)>) -> bool {
    forall|i: int, j: int| 0 <= i < es.len() && 0 <= j < es.len() && i != j ==> es[i].0 != es[j].0
}

/// A message (already lower-cased) counts for a word when it mentions the word
/// itself or one of its variations; a word without variations is never counted.
pub open spec fn counts_for(lower: Seq<char>, e: (Seq<char>, Seq<Seq<char>>)) -> bool {
    e.1.len() > 0 && (has_infix(lower, e.0) || exists|k: int|
        0 <= k < e.1.len() && has_infix(lower, #[trigger] e.1[k]))
}

/// The words of `es` that a (lower-cased) message counts for, in order.
pub open spec fn counted(es: Seq<(Seq<char>, Seq<Seq<char>>)>, lower: Seq<char>) -> Seq<Seq<char>>
    decreases es.len(),
{
    if es.len() == 0 {
        Seq::empty()
    } else if counts_for(lower, es.last()) {
        counted(es.drop_last(), lower).push(es.last().0)
    } else {
        counted(es.drop_last(), lower)
    }
}

/// The words that the raw `entries` configure, each once, in the order in
/// which they are first named.
pub open spec fn named_words(entries: Seq<Seq<char>>) -> Seq<Seq<char>>
    decreases entries.len(),
{
    if entries.len() == 0 {
        Seq::empty()
    } else {
        let prev = named_words(entries.drop_last());
        let m = entry_main(entries.last());
        if prev.contains(m) {
            prev
        } else {
            prev.push(m)
        }
    }
}

/// The recorded words, in order.
pub open spec fn word_keys(es: Seq<(Seq<char>, Seq<Seq<char>>)>) -> Seq<Seq<char>> {
    es.map_values(|e: (Seq<char>, Seq<Seq<char>>)| e.0)
}

/// Updating the entry of `word` changes what is recorded for `word` and
/// nothing else.
proof fn lemma_lookup_update(
    es: Seq<(Seq<char>, Seq<Seq<char>>)>,
    j: int,
    v: Seq<Seq<char>>,
    w: Seq<char>,
)
    requires
        0 <= j < es.len(),
        distinct_words(es),
    ensures
        lookup(es.update(j, (es[j].0, v)), w) == if w == es[j].0 {
            Some(v)
        } else {
            lookup(es, w)
        },
    decreases es.len(),
{
    let es2 = es.update(j, (es[j].0, v));
    if j == es.len() - 1 {
        assert(es2.drop_last() == es.drop_last());
    } else {
        assert(es2.drop_last() == es.drop_last().update(j, (es[j].0, v)));
        lemma_lookup_update(es.drop_last(), j, v, w);
        assert(es.last().0 != es[j].0);
    }
}

/// A message never counts twice for one word: the words it counts for are
/// distinct when the recorded words are.
pub proof fn law_counted_once(es: Seq<(Seq<char>, Seq<Seq<char>>)>, lower: Seq<char>)
    requires
        distinct_words(es),
    ensures
        forall|i: int, j: int|
            0 <= i < counted(es, lower).len() && 0 <= j < counted(es, lower).len() && i != j
                ==> counted(es, lower)[i] != counted(es, lower)[j],
        forall|i: int|
            0 <= i < counted(es, lower).len() ==> exists|k: int|
                0 <= k < es.len() && es[k].0 == #[trigger] counted(es, lower)[i],
    decreases es.len(),
{
    if es.len() > 0 {
        let prev = es.drop_last();
        assert(distinct_words(prev)) by {
            assert forall|i: int, j: int|
                0 <= i < prev.len() && 0 <= j < prev.len() && i != j implies prev[i].0
                != prev[j].0 by {
                assert(prev[i] == es[i]);
                assert(prev[j] == es[j]);
            }
        }
        law_counted_once(prev, lower);
        let c = counted(prev, lower);
        assert forall|i: int|
            0 <= i < c.len() implies exists|k: int|
                0 <= k < es.len() && es[k].0 == #[trigger] c[i] by {
            let k = choose|k: int| 0 <= k < prev.len() && prev[k].0 == c[i];
            assert(es[k] == prev[k]);
        }
        if counts_for(lower, es.last()) {
            assert forall|i: int| 0 <= i < c.len() implies #[trigger] c[i] != es.last().0 by {
                let k = choose|k: int| 0 <= k < prev.len() && prev[k].0 == c[i];
                assert(es[k] == prev[k]);
                assert(k != es.len() - 1);
            }
            let c2 = c.push(es.last().0);
            assert forall|i: int| 0 <= i < c2.len() implies exists|k: int|
                0 <= k < es.len() && es[k].0 == #[trigger] c2[i] by {
                if i < c.len() {
                    assert(c2[i] == c[i]);
                } else {
                    assert(es[es.len() - 1].0 == c2[i]);
                }
            }
        }
    }
}

/// Every variation a configuration records is ASCII lower case, so that it
/// is found in the lower-cased message.
pub proof fn law_variations_lower_case(config: Seq<char>, w: Seq<char>)
    ensures
        configured(split_on(config, '|'), w) matches Some(vs) ==> forall|k: int, c: int|
            0 <= k < vs.len() && 0 <= c < vs[k].len() ==> !(65 <= (#[trigger] vs[k][c]) as u32
                <= 90),
{
    lemma_configured_lower(split_on(config, '|'), w);
}

/// The variations configured for a word hold no ASCII upper-case letter.
proof fn lemma_configured_lower(entries: Seq<Seq<char>>, w: Seq<char>)
    ensures
        configured(entries, w) matches Some(vs) ==> forall|k: int, c: int|
            0 <= k < vs.len() && 0 <= c < vs[k].len() ==> !(65 <= (#[trigger] vs[k][c]) as u32
                <= 90),
    decreases entries.len(),
{
    if entries.len() > 0 {
        lemma_configured_lower(entries.drop_last(), w);
        let e = entries.last();
        let vs = entry_variations(e);
        assert forall|k: int, c: int|
            0 <= k < vs.len() && 0 <= c < vs[k].len() implies !(65 <= (#[trigger] vs[k][c]) as u32
            <= 90) by {
            let raw = split_on(e.skip(entry_main(e).len() as int + 1), ',')[k];
            assert(vs[k] == ascii_lower(raw));
            assert(vs[k][c] == ascii_lower_char(raw[c]));
        }
    }
}

/// The configured words, each with its variations, in the order in which the
/// configuration first names them.
pub struct WordLists {
    entries: Vec<(Vec<char>, Vec<Vec<char>>)>,
}

impl WordLists {
    /// Each recorded word with its variations.
    pub closed spec fn view_entries(&self) -> Seq<(Seq<char>, Seq<Seq<char>>)> {
        self.entries@.map_values(
            |e: (Vec<char>, Vec<Vec<char>>)|
                (e.0@, e.1@.map_values(|v: Vec<char>| v@)),
        )
    }

    /// No word is recorded twice.
    pub open spec fn wf(&self) -> bool {
        distinct_words(self.view_entries())
    }

    /// The configured words, in order.
    pub fn words(&self) -> (r: Vec<String>)
        ensures
            r@.len() == self.view_entries().len(),
            forall|i: int| 0 <= i < r@.len() ==> #[trigger] r@[i]@ == self.view_entries()[i].0,
    {
        let mut r: Vec<String> = Vec::new();
        let mut i: usize = 0;
        while i < self.entries.len()
            invariant
                i <= self.entries.len(),
                r@.len() == i,
                forall|k: int| 0 <= k < i ==> #[trigger] r@[k]@ == self.view_entries()[k].0,
            decreases self.entries.len() - i,
        {
            r.push(string_of(&self.entries[i].0));
            i = i + 1;
        }
        r
    }
}

/// The word and the variations of one configuration entry.
fn parse_entry(entry: &Vec<char>) -> (r: (Vec<char>, Vec<Vec<char>>))
    requires
        count_char(entry@, ':') >= 1,
    ensures
        r.0@ == entry_main(entry@),
        r.1@.map_values(|v: Vec<char>| v@) == entry_variations(entry@),
{
    proof {
        lemma_split_first(entry@, ':');
        lemma_split_nonempty(entry@, ':');
        lemma_index_of(entry@, ':');
    }
    let ghost m = split_on(entry@, ':')[0];
    let k: usize = match find_char(entry, ':') {
        Some(k) => k,
        None => {
            assert(entry@[m.len() as int] == ':');
            0
        },
    };
    assert(k as int == m.len()) by {
        if (k as int) < m.len() {
            assert(entry@[k as int] != ':');
        }
        if (k as int) > m.len() {
            assert(entry@[m.len() as int] == ':');
        }
    }
    assert(split_on(entry@, ':').len() > 1);
    assert(k < entry.len());
    let main = first_chars(entry, k);
    let mut rest: Vec<char> = Vec::new();
    let mut p: usize = k + 1;
    while p < entry.len()
        invariant
            k < entry.len(),
            k + 1 <= p <= entry.len(),
            rest@ == entry@.subrange(k + 1, p as int),
        decreases entry.len() - p,
    {
        rest.push(entry[p]);
        p = p + 1;
    }
    assert(rest@ == entry@.skip(k + 1));
    let pieces = split(&rest, ',');
    let mut vars: Vec<Vec<char>> = Vec::new();
    let mut q: usize = 0;
    while q < pieces.len()
        invariant
            q <= pieces.len(),
            vars@.len() == q,
            forall|t: int| 0 <= t < q ==> #[trigger] vars@[t]@ == ascii_lower(pieces@[t]@),
        decreases pieces.len() - q,
    {
        vars.push(lower_ascii(&pieces[q]));
        q = q + 1;
    }
    assert(vars@.map_values(|v: Vec<char>| v@) =~= entry_variations(entry@));
    (main, vars)
}

impl WordLists {
    /// Records `vars` as the variations of `main`, replacing what was recorded
    /// for it before.
    fn insert(&mut self, main: Vec<char>, vars: Vec<Vec<char>>)
        requires
            old(self).wf(),
        ensures
            final(self).wf(),
            forall|w: Seq<char>|
                lookup(final(self).view_entries(), w) == if w == main@ {
                    Some(vars@.map_values(|v: Vec<char>| v@))
                } else {
                    lookup(old(self).view_entries(), w)
                },
            word_keys(final(self).view_entries()) == if word_keys(old(self).view_entries()).contains(
                main@,
            ) {
                word_keys(old(self).view_entries())
            } else {
                word_keys(old(self).view_entries()).push(main@)
            },
    {
        let ghost before = self.view_entries();
        let ghost vv = vars@.map_values(|v: Vec<char>| v@);
        let mut found: Option<usize> = None;
        let mut j: usize = 0;
        while j < self.entries.len()
            invariant
                j <= self.entries.len(),
                before == self.view_entries(),
                found matches Some(f) ==> f < self.entries.len() && before[f as int].0 == main@,
                found is None ==> forall|t: int| 0 <= t < j ==> #[trigger] before[t].0 != main@,
            decreases self.entries.len() - j,
        {
            if found.is_none() && same_chars(&self.entries[j].0, &main) {
                found = Some(j);
            }
            j = j + 1;
        }
        match found {
            Some(f) => {
                let key = self.entries[f].0.clone();
                self.entries.set(f, (key, vars));
                assert(self.view_entries() =~= before.update(f as int, (before[f as int].0, vv)));
                assert forall|w: Seq<char>|
                    lookup(self.view_entries(), w) == if w == main@ {
                        Some(vv)
                    } else {
                        lookup(before, w)
                    } by {
                    lemma_lookup_update(before, f as int, vv, w);
                }
                assert(word_keys(before)[f as int] == main@);
                assert(word_keys(self.view_entries()) =~= word_keys(before));
            },
            None => {
                self.entries.push((main, vars));
                assert(self.view_entries() =~= before.push((main@, vv)));
                assert(self.view_entries().drop_last() =~= before);
                assert(!word_keys(before).contains(main@)) by {
                    if word_keys(before).contains(main@) {
                        let t = choose|t: int| 0 <= t < word_keys(before).len() && word_keys(before)[t] == main@;
                        assert(before[t].0 != main@);
                    }
                }
                assert(word_keys(self.view_entries()) =~= word_keys(before).push(main@));
            },
        }
    }
}

/// Reads the word-list configuration.
///
/// Each entry `WORD:ALT1,ALT2` records `WORD` with the variations `alt1`,
/// `alt2` (ASCII lower-cased); a word named again takes the variations of its
/// last entry. An entry without `:` is rejected by the requirement, as the
/// configuration cannot be read then.
pub fn parse_word_lists(config: &str) -> (r: WordLists)
    requires
        word_config_ok(config@),
    ensures
        r.wf(),
        forall|w: Seq<char>| lookup(r.view_entries(), w) == configured(split_on(config@, '|'), w),
        word_keys(r.view_entries()) == named_words(split_on(config@, '|')),
{
    let cs = chars_of(config);
    let raw = split(&cs, '|');
    let ghost raws = split_on(config@, '|');
    let mut out = WordLists { entries: Vec::new() };
    let mut i: usize = 0;
    while i < raw.len()
        invariant
            i <= raw.len(),
            raw@.len() == raws.len(),
            forall|k: int| 0 <= k < raw@.len() ==> #[trigger] raw@[k]@ == raws[k],
            word_config_ok(config@),
            raws == split_on(config@, '|'),
            out.wf(),
            forall|w: Seq<char>| lookup(out.view_entries(), w) == configured(raws.take(i as int), w),
            word_keys(out.view_entries()) == named_words(raws.take(i as int)),
        decreases raw.len() - i,
    {
        assert(raw@[i as int]@ == raws[i as int]);
        let (main, vars) = parse_entry(&raw[i]);
        let ghost before = out.view_entries();
        out.insert(main, vars);
        assert(raws.take(i as int + 1).drop_last() =~= raws.take(i as int));
        assert(raws.take(i as int + 1).last() == raws[i as int]);
        i = i + 1;
    }
    assert(raws.take(raw@.len() as int) =~= raws);
    out
}

/// The configured words that a message counts for.
///
/// Nothing is counted for a message written by a bot. Otherwise the message is
/// lower-cased (Unicode lower case) and counts for each word that it mentions
/// itself or by one of the word's variations.
pub fn counted_words(lists: &WordLists, content: &str, author_is_bot: bool) -> (r: Vec<String>)
    ensures
        author_is_bot ==> r@.len() == 0,
        !author_is_bot ==> r@.map_values(|s: String| s@) == counted(
            lists.view_entries(),
            unicode_lowercase(content@),
        ),
{
    let mut r: Vec<String> = Vec::new();
    if author_is_bot {
        return r;
    }
    let low = lowercase(content);
    let lc = chars_of(low.as_str());
    let ghost es = lists.view_entries();
    let mut i: usize = 0;
    while i < lists.entries.len()
        invariant
            i <= lists.entries.len(),
            es == lists.view_entries(),
            lc@ == unicode_lowercase(content@),
            r@.map_values(|s: String| s@) == counted(es.take(i as int), lc@),
        decreases lists.entries.len() - i,
    {
        let (ref main, ref vars) = lists.entries[i];
        let ghost e = es[i as int];
        assert(e.0 == main@);
        assert(e.1 == vars@.map_values(|v: Vec<char>| v@));
        let mut hit = false;
        let mut k: usize = 0;
        while k < vars.len()
            invariant
                k <= vars.len(),
                e.1 == vars@.map_values(|v: Vec<char>| v@),
                e.0 == main@,
                hit ==> counts_for(lc@, e),
                !hit ==> forall|t: int| 0 <= t < k ==> !has_infix(lc@, #[trigger] e.1[t]),
                !hit && k > 0 ==> !has_infix(lc@, e.0),
            ensures
                hit == counts_for(lc@, e),
            decreases vars.len() - k,
        {
            if contains(&lc, &vars[k]) || contains(&lc, main) {
                assert(e.1[k as int] == vars@[k as int]@);
                hit = true;
                break;
            }
            k = k + 1;
        }
        assert(hit == counts_for(lc@, e));
        assert(es.take(i as int + 1).drop_last() == es.take(i as int));
        if hit {
            let ghost before = r@.map_values(|s: String| s@);
            r.push(string_of(main));
            assert(r@.map_values(|s: String| s@) == before.push(main@));
        }
        i = i + 1;
    }
    assert(es.take(lists.entries.len() as int) == es);
    r
}

/// One row of a word's leaderboard: who, how many times, and the user's name
/// when the cache knows it.
pub struct CounterRow {
    pub user_id: i64,
    pub count: i64,
    pub username: Option<String>,
}

/// How many rows a leaderboard shows.
pub const LEADERBOARD_LIMIT: usize = 20;

/// The name shown for a row: the cached user name, or `Unknown User (id)`.
pub open spec fn row_name(user_id: i64, username: Option<Seq<char>>) -> Seq<char> {
    match username {
        Some(n) => n,
        None => "Unknown User ("@ + signed_decimal(user_id as int) + ")"@,
    }
}

/// The leaderboard line for the row at position `i` (counted from 0).
pub open spec fn leaderboard_line(
    i: nat,
    user_id: i64,
    count: i64,
    username: Option<Seq<char>>,
) -> Seq<char> {
    decimal(i + 1) + ". "@ + row_name(user_id, username) + ": "@ + signed_decimal(count as int)
        + " "@ + if count == 1 {
        "time"@
    } else {
        "times"@
    }
}

/// The lines of the first `LEADERBOARD_LIMIT` rows.
pub open spec fn leaderboard_lines(rows: Seq<(i64, i64, Option<Seq<char>>)>) -> Seq<Seq<char>> {
    Seq::new(
        if rows.len() < 20 {
            rows.len()
        } else {
            20
        },
        |i: int| leaderboard_line(i as nat, rows[i].0, rows[i].1, rows[i].2),
    )
}

/// The plain values of the rows.
pub open spec fn row_values(rows: Seq<CounterRow>) -> Seq<(i64, i64, Option<Seq<char>>)> {
    rows.map_values(
        |r: CounterRow|
            (
                r.user_id,
                r.count,
                match r.username {
                    Some(n) => Some(n@),
                    None => None,
                },
            ),
    )
}

/// The leaderboard text: the lines of the first twenty rows, one per line,
/// inside a code block. The users of those rows must have valid ids
/// (positive), as a user is looked up by each.
pub fn leaderboard(rows: &Vec<CounterRow>) -> (r: String)
    requires
        forall|i: int| 0 <= i < rows@.len() && i < 20 ==> #[trigger] rows@[i].user_id > 0,
    ensures
        r@ == "```"@ + join(leaderboard_lines(row_values(rows@)), "\n"@) + "```"@,
{
    let ghost lines = leaderboard_lines(row_values(rows@));
    let mut parts: Vec<Vec<char>> = Vec::new();
    let mut i: usize = 0;
    while i < rows.len() && i < LEADERBOARD_LIMIT
        invariant
            i <= rows.len(),
            i <= 20,
            parts@.len() == i,
            forall|k: int| 0 <= k < i ==> #[trigger] parts@[k]@ == lines[k],
            lines == leaderboard_lines(row_values(rows@)),
        decreases rows.len() - i,
    {
        let row = &rows[i];
        let mut line: Vec<char> = Vec::new();
        push_decimal(&mut line, (i + 1) as u64);
        push_str(&mut line, ". ");
        match &row.username {
            Some(n) => push_str(&mut line, n.as_str()),
            None => {
                push_str(&mut line, "Unknown User (");
                push_signed(&mut line, row.user_id);
                push_str(&mut line, ")");
            },
        }
        push_str(&mut line, ": ");
        push_signed(&mut line, row.count);
        push_str(&mut line, " ");
        if row.count == 1 {
            push_str(&mut line, "time");
        } else {
            push_str(&mut line, "times");
        }
        assert(row_values(rows@)[i as int] == (
            row.user_id,
            row.count,
            match row.username {
                Some(n) => Some(n@),
                None => None,
            },
        ));
        assert(line@ =~= lines[i as int]);
        parts.push(line);
        i = i + 1;
    }
    assert(parts@.map_values(|p: Vec<char>| p@) == lines);
    let nl = chars_of("\n");
    let body = join_with(&parts, &nl);
    let mut out: Vec<char> = Vec::new();
    push_str(&mut out, "```");
    push_chars(&mut out, &body);
    push_str(&mut out, "```");
    string_of(&out)
}

/// How many times the user with `author_id` is counted: the count of the first
/// row that belongs to the user, or 0 when none does.
pub fn user_count(rows: &Vec<CounterRow>, author_id: i64) -> (r: i64)
    ensures
        (exists|i: int| 0 <= i < rows@.len() && rows@[i].user_id == author_id) ==> exists|i: int|
            0 <= i < rows@.len() && rows@[i].user_id == author_id && r == rows@[i].count && forall|
                j: int,
            |
                0 <= j < i ==> #[trigger] rows@[j].user_id != author_id,
        (forall|i: int| 0 <= i < rows@.len() ==> #[trigger] rows@[i].user_id != author_id) ==> r
            == 0,
{
    let mut i: usize = 0;
    while i < rows.len()
        invariant
            i <= rows.len(),
            forall|j: int| 0 <= j < i ==> #[trigger] rows@[j].user_id != author_id,
        decreases rows.len() - i,
    {
        if rows[i].user_id == author_id {
            return rows[i].count;
        }
        i = i + 1;
    }
    0
}

/// The title of a word's counter page: `{bot} | {word}-word counter`.
pub fn counter_title(bot_name: &str, word: &str) -> (r: String)
    ensures
        r@ == bot_name@ + " | "@ + word@ + "-word counter"@,
{
    let mut out: Vec<char> = Vec::new();
    push_str(&mut out, bot_name);
    push_str(&mut out, " | ");
    push_str(&mut out, word);
    push_str(&mut out, "-word counter");
    string_of(&out)
}

/// What the author is told of their own count for a word.
pub fn counter_info(word: &str, count: i64) -> (r: String)
    ensures
        r@ == "You have said `"@ + word@ + "` and it's variations for `"@ + signed_decimal(
            count as int,
        ) + "` times!"@,
{
    let mut out: Vec<char> = Vec::new();
    push_str(&mut out, "You have said `");
    push_str(&mut out, word);
    push_str(&mut out, "` and it's variations for `");
    push_signed(&mut out, count);
    push_str(&mut out, "` times!");
    string_of(&out)
}

/// What the counter command answers when no word has a counter.
pub fn no_counters_message() -> (r: String)
    ensures
        r@ == "No counters found."@,
{
    text_of("No counters found.")
}

} // verus!
