//! Server shortcuts: a trigger message answered with one of its responses,
//! the checks on a new shortcut, and the pages that list them.
use vstd::prelude::*;

use crate::outside::{lowercase, random_below, unicode_lowercase};
use crate::text::{
    byte_len, byte_len_capped, chars_of, concat_chars, decimal, join, join_with, lemma_char_width,
    lemma_encode_concat,
    lemma_split_nonempty, push_chars, push_decimal, push_str, same_chars, split, split_on,
    string_of, text_of,
};

verus! {

/// The longest response (in bytes), and the size (in bytes) after which a
/// listing page is closed.
pub const MAX_LENGTH: usize = 1024;

/// A shortcut of a server: the message that triggers it and its response
/// text, whose `,`-separated parts are the responses to pick from.
pub struct Shortcut {
    pub trigger: String,
    pub response: String,
}

/// The responses of a shortcut: its response text split on `,`.
pub open spec fn responses(response: Seq<char>) -> Seq<Seq<char>> {
    split_on(response, ',')
}

/// Splits a shortcut's response text into the responses to pick from.
pub fn shortcut_responses(response: &str) -> (r: Vec<String>)
    ensures
        r@.map_values(|s: String| s@) == responses(response@),
{
    let cs = chars_of(response);
    let parts = split(&cs, ',');
    let mut r: Vec<String> = Vec::new();
    let mut i: usize = 0;
    while i < parts.len()
        invariant
            i <= parts.len(),
            parts@.len() == responses(response@).len(),
            forall|k: int| 0 <= k < parts@.len() ==> #[trigger] parts@[k]@ == responses(response@)[k],
            r@.len() == i,
            forall|k: int| 0 <= k < i ==> #[trigger] r@[k]@ == responses(response@)[k],
        decreases parts.len() - i,
    {
        r.push(string_of(&parts[i]));
        i = i + 1;
    }
    assert(r@.map_values(|s: String| s@) =~= responses(response@));
    r
}

/// The positions of the shortcuts that a message triggers: those whose
/// trigger is exactly the message.
pub open spec fn triggered(shortcuts: Seq<(Seq<char>, Seq<char>)>, content: Seq<char>) -> Seq<int>
    decreases shortcuts.len(),
{
    if shortcuts.len() == 0 {
        Seq::empty()
    } else if shortcuts.last().0 == content {
        triggered(shortcuts.drop_last(), content).push(shortcuts.len() - 1)
    } else {
        triggered(shortcuts.drop_last(), content)
    }
}

/// The plain values of shortcuts.
pub open spec fn shortcut_values(shortcuts: Seq<Shortcut>) -> Seq<(Seq<char>, Seq<char>)> {
    shortcuts.map_values(|s: Shortcut| (s.trigger@, s.response@))
}

/// `r` is one of the responses of the response text `response`.
pub open spec fn is_response_of(response: Seq<char>, r: Seq<char>) -> bool {
    responses(response).contains(r)
}

/// Each reply is a response of the shortcut at the matching position of `t`,
/// and those positions are below `bound`.
pub open spec fn replies_valid(
    sv: Seq<(Seq<char>, Seq<char>)>,
    t: Seq<int>,
    outs: Seq<Seq<char>>,
    bound: int,
) -> bool {
    &&& t.len() == outs.len()
    &&& forall|j: int|
        0 <= j < t.len() ==> 0 <= #[trigger] t[j] < bound && is_response_of(sv[t[j]].1, outs[j])
}

/// Replies stay valid when a response of the next shortcut is added.
proof fn lemma_replies_extend(
    sv: Seq<(Seq<char>, Seq<char>)>,
    t: Seq<int>,
    outs: Seq<Seq<char>>,
    i: int,
    p: Seq<char>,
)
    requires
        replies_valid(sv, t, outs, i),
        0 <= i,
        is_response_of(sv[i].1, p),
    ensures
        replies_valid(sv, t.push(i), outs.push(p), i + 1),
{
    assert forall|j: int| 0 <= j < t.push(i).len() implies 0 <= #[trigger] t.push(i)[j] < i + 1
        && is_response_of(sv[t.push(i)[j]].1, outs.push(p)[j]) by {
        if j < t.len() {
            assert(t.push(i)[j] == t[j]);
            assert(outs.push(p)[j] == outs[j]);
        }
    }
}

/// The replies to a message: for each shortcut it triggers, in order, one of
/// that shortcut's responses, chosen at random. Messages written by bots
/// trigger nothing.
pub fn shortcut_replies(shortcuts: &Vec<Shortcut>, content: &str, author_is_bot: bool) -> (r: Vec<
    String,
>)
    ensures
        author_is_bot ==> r@.len() == 0,
        !author_is_bot ==> replies_valid(
            shortcut_values(shortcuts@),
            triggered(shortcut_values(shortcuts@), content@),
            r@.map_values(|s: String| s@),
            shortcuts@.len() as int,
        ),
{
    let mut out: Vec<String> = Vec::new();
    if author_is_bot {
        return out;
    }
    let ghost sv = shortcut_values(shortcuts@);
    let cs = chars_of(content);
    let mut i: usize = 0;
    assert(out@.map_values(|s: String| s@) =~= Seq::<Seq<char>>::empty());
    while i < shortcuts.len()
        invariant
            i <= shortcuts.len(),
            sv == shortcut_values(shortcuts@),
            cs@ == content@,
            replies_valid(
                sv,
                triggered(sv.take(i as int), content@),
                out@.map_values(|s: String| s@),
                i as int,
            ),
        decreases shortcuts.len() - i,
    {
        let s = &shortcuts[i];
        assert(sv[i as int] == (s.trigger@, s.response@));
        assert(sv.take(i as int + 1).drop_last() == sv.take(i as int));
        assert(sv.take(i as int + 1).last() == sv[i as int]);
        let ghost t_old = triggered(sv.take(i as int), content@);
        let ghost o_old = out@.map_values(|s: String| s@);
        let trig = chars_of(s.trigger.as_str());
        if same_chars(&trig, &cs) {
            assert(triggered(sv.take(i as int + 1), content@) == t_old.push(i as int));
            let rs = shortcut_responses(s.response.as_str());
            proof {
                lemma_split_nonempty(s.response@, ',');
                assert(rs@.map_values(|x: String| x@).len() == rs@.len());
            }
            let k = random_below(rs.len());
            let pick = rs[k].clone();
            assert(rs@.map_values(|x: String| x@)[k as int] == pick@);
            assert(responses(sv[i as int].1)[k as int] == pick@);
            assert(is_response_of(sv[i as int].1, pick@));
            out.push(pick);
            proof {
                assert(out@.map_values(|s: String| s@) =~= o_old.push(pick@));
                lemma_replies_extend(sv, t_old, o_old, i as int, pick@);
            }
        } else {
            assert(triggered(sv.take(i as int + 1), content@) == t_old);
            assert forall|j: int| 0 <= j < t_old.len() implies 0 <= #[trigger] t_old[j] < i + 1
                && is_response_of(sv[t_old[j]].1, o_old[j]) by {}
        }
        i = i + 1;
    }
    assert(sv.take(shortcuts.len() as int) == sv);
    out
}

/// The listing entry of the shortcut at position `n` (from 0): its number,
/// its trigger, and each of its responses on a line of its own.
pub open spec fn shortcut_entry(n: nat, trigger: Seq<char>, response: Seq<char>) -> Seq<char> {
    decimal(n + 1) + ") "@ + trigger + "\n"@ + join(
        responses(response).map_values(|r: Seq<char>| "\t- "@ + r),
        "\n"@,
    ) + "\n"@
}

/// The pages filled so far and the page being filled, after placing `entries`
/// in turn: a page opens with a code fence, and an entry that would take the
/// page past `MAX_LENGTH` bytes closes it and opens the next.
pub open spec fn page_fold(entries: Seq<Seq<char>>) -> (Seq<Seq<char>>, Seq<char>)
    decreases entries.len(),
{
    if entries.len() == 0 {
        (Seq::empty(), "```\n"@)
    } else {
        let (done, cur) = page_fold(entries.drop_last());
        let e = entries.last();
        if byte_len(cur) + byte_len(e) > 1024 {
            (done.push(cur + "```\n"@), "```\n"@ + e)
        } else {
            (done, cur + e)
        }
    }
}

/// The listing pages for some entries: the filled pages and the last one,
/// each closed by a code fence.
pub open spec fn list_pages(entries: Seq<Seq<char>>) -> Seq<Seq<char>> {
    let (done, cur) = page_fold(entries);
    done.push(cur + "```\n"@)
}

/// The listing entries of some shortcuts.
pub open spec fn entries_of(shortcuts: Seq<(Seq<char>, Seq<char>)>) -> Seq<Seq<char>> {
    Seq::new(shortcuts.len(), |i: int| shortcut_entry(i as nat, shortcuts[i].0, shortcuts[i].1))
}

/// The entry of one shortcut.
fn entry_text(n: usize, s: &Shortcut) -> (r: Vec<char>)
    requires
        n < u64::MAX,
    ensures
        r@ == shortcut_entry(n as nat, s.trigger@, s.response@),
{
    let rs = shortcut_responses(s.response.as_str());
    let mut lines: Vec<Vec<char>> = Vec::new();
    let mut i: usize = 0;
    while i < rs.len()
        invariant
            i <= rs.len(),
            rs@.map_values(|x: String| x@) == responses(s.response@),
            lines@.len() == i,
            forall|k: int| 0 <= k < i ==> #[trigger] lines@[k]@ == "\t- "@ + rs@[k]@,
        decreases rs.len() - i,
    {
        let mut line: Vec<char> = Vec::new();
        push_str(&mut line, "\t- ");
        push_str(&mut line, rs[i].as_str());
        lines.push(line);
        i = i + 1;
    }
    assert(lines@.map_values(|l: Vec<char>| l@) =~= responses(s.response@).map_values(
        |r: Seq<char>| "\t- "@ + r,
    ));
    let nl = chars_of("\n");
    let body = join_with(&lines, &nl);
    let mut out: Vec<char> = Vec::new();
    push_decimal(&mut out, n as u64 + 1);
    push_str(&mut out, ") ");
    push_str(&mut out, s.trigger.as_str());
    push_str(&mut out, "\n");
    push_chars(&mut out, &body);
    push_str(&mut out, "\n");
    out
}

/// The pages listing a server's shortcuts, as the listing's pages after its
/// first: entries are placed in order, and an entry that would take a page
/// past 1024 bytes starts the next page. Each page is a code block.
pub fn shortcut_pages(shortcuts: &Vec<Shortcut>) -> (r: Vec<String>)
    requires
        shortcuts@.len() < u64::MAX,
    ensures
        r@.map_values(|p: String| p@) == list_pages(entries_of(shortcut_values(shortcuts@))),
{
    let ghost es = entries_of(shortcut_values(shortcuts@));
    let fence = chars_of("```\n");
    let mut done: Vec<String> = Vec::new();
    let mut cur: Vec<char> = fence.clone();
    let mut i: usize = 0;
    while i < shortcuts.len()
        invariant
            i <= shortcuts.len(),
            shortcuts@.len() < u64::MAX,
            es == entries_of(shortcut_values(shortcuts@)),
            fence@ == "```\n"@,
            done@.map_values(|p: String| p@) == page_fold(es.take(i as int)).0,
            cur@ == page_fold(es.take(i as int)).1,
        decreases shortcuts.len() - i,
    {
        let e = entry_text(i, &shortcuts[i]);
        assert(e@ == es[i as int]);
        assert(es.take(i as int + 1).drop_last() == es.take(i as int));
        assert(es.take(i as int + 1).last() == es[i as int]);
        let a = byte_len_capped(&cur, MAX_LENGTH);
        let b = byte_len_capped(&e, MAX_LENGTH);
        if a + b > MAX_LENGTH {
            let ghost before = done@.map_values(|p: String| p@);
            let closed = concat_chars(&cur, &fence);
            done.push(string_of(&closed));
            assert(done@.map_values(|p: String| p@) == before.push(closed@));
            cur = concat_chars(&fence, &e);
        } else {
            cur = concat_chars(&cur, &e);
        }
        i = i + 1;
    }
    assert(es.take(i as int) == es);
    let ghost before = done@.map_values(|p: String| p@);
    let last = concat_chars(&cur, &fence);
    done.push(string_of(&last));
    assert(done@.map_values(|p: String| p@) == before.push(last@));
    done
}

/// The pieces put one after the other.
pub open spec fn concat_all(pieces: Seq<Seq<char>>) -> Seq<char>
    decreases pieces.len(),
{
    if pieces.len() == 0 {
        Seq::empty()
    } else {
        concat_all(pieces.drop_last()) + pieces.last()
    }
}

/// `p` opens and closes with a code fence.
pub open spec fn fenced(p: Seq<char>) -> bool {
    p.len() >= 8 && p.take(4) == "```\n"@ && p.skip(p.len() - 4) == "```\n"@
}

/// What a page holds between its opening and its closing fence.
pub open spec fn unfenced(p: Seq<char>) -> Seq<char> {
    p.subrange(4, p.len() - 4)
}

/// The fold keeps the entries: the filled pages are fenced, the page being
/// filled opens with a fence, and their contents, in order, are the entries.
proof fn lemma_page_fold_keeps(entries: Seq<Seq<char>>)
    ensures
        forall|i: int| 0 <= i < page_fold(entries).0.len() ==> fenced(#[trigger] page_fold(entries).0[i]),
        page_fold(entries).1.len() >= 4,
        page_fold(entries).1.take(4) == "```\n"@,
        concat_all(page_fold(entries).0.map_values(|p: Seq<char>| unfenced(p))) + page_fold(
            entries,
        ).1.skip(4) == concat_all(entries),
    decreases entries.len(),
{
    reveal_strlit("```\n");
    let fence = "```\n"@;
    if entries.len() == 0 {
        assert(page_fold(entries).0.map_values(|p: Seq<char>| unfenced(p)) =~= Seq::<Seq<char>>::empty());
        assert(fence.skip(4) =~= Seq::<char>::empty());
    } else {
        let prev = entries.drop_last();
        lemma_page_fold_keeps(prev);
        let (done, cur) = page_fold(prev);
        let e = entries.last();
        let f = |p: Seq<char>| unfenced(p);
        if byte_len(cur) + byte_len(e) > 1024 {
            let closed = cur + fence;
            assert(closed.take(4) =~= fence);
            assert(closed.skip(closed.len() - 4) =~= fence);
            assert(unfenced(closed) =~= cur.skip(4));
            assert(done.push(closed).map_values(f) =~= done.map_values(f).push(unfenced(closed)));
            assert(done.map_values(f).push(unfenced(closed)).drop_last() =~= done.map_values(f));
            assert(concat_all(done.push(closed).map_values(f)) == concat_all(done.map_values(f))
                + unfenced(closed));
            assert((fence + e).take(4) =~= fence);
            assert((fence + e).skip(4) =~= e);
            assert(concat_all(entries) == concat_all(prev) + e);
            assert forall|i: int| 0 <= i < done.push(closed).len() implies fenced(
                #[trigger] done.push(closed)[i],
            ) by {
                if i < done.len() {
                    assert(done.push(closed)[i] == done[i]);
                }
            }
        } else {
            assert((cur + e).take(4) =~= cur.take(4));
            assert((cur + e).skip(4) =~= cur.skip(4) + e);
            assert(concat_all(entries) == concat_all(prev) + e);
        }
    }
}

/// Listing the shortcuts loses and reorders nothing: every page is a code
/// block, and the pages' contents, put together, are the entries in order.
pub proof fn law_pages_keep_entries(entries: Seq<Seq<char>>)
    ensures
        forall|i: int| 0 <= i < list_pages(entries).len() ==> fenced(#[trigger] list_pages(entries)[i]),
        concat_all(list_pages(entries).map_values(|p: Seq<char>| unfenced(p))) == concat_all(
            entries,
        ),
{
    reveal_strlit("```\n");
    let fence = "```\n"@;
    lemma_page_fold_keeps(entries);
    let (done, cur) = page_fold(entries);
    let f = |p: Seq<char>| unfenced(p);
    let closed = cur + fence;
    assert(closed.take(4) =~= fence);
    assert(closed.skip(closed.len() - 4) =~= fence);
    assert(unfenced(closed) =~= cur.skip(4));
    assert(list_pages(entries) == done.push(closed));
    assert(done.push(closed).map_values(f) =~= done.map_values(f).push(unfenced(closed)));
    assert(done.map_values(f).push(unfenced(closed)).drop_last() =~= done.map_values(f));
    assert(concat_all(done.push(closed).map_values(f)) == concat_all(done.map_values(f))
        + unfenced(closed));
    assert forall|i: int| 0 <= i < done.push(closed).len() implies fenced(
        #[trigger] done.push(closed)[i],
    ) by {
        if i < done.len() {
            assert(done.push(closed)[i] == done[i]);
        }
    }
}

/// A code fence takes four bytes.
proof fn lemma_fence_bytes()
    ensures
        byte_len("```\n"@) == 4,
{
    reveal_strlit("```\n");
    let t = seq!['`'];
    let n = seq!['\n'];
    assert("```\n"@ =~= t + t + t + n);
    lemma_char_width('`');
    lemma_char_width('\n');
    lemma_encode_concat(t, t);
    lemma_encode_concat(t + t, t);
    lemma_encode_concat(t + t + t, n);
}

/// The fold keeps pages small: a filled page is at most `MAX_LENGTH` bytes
/// and its closing fence, unless it holds a single entry; so is the page
/// being filled, without the closing fence.
proof fn lemma_page_fold_sizes(entries: Seq<Seq<char>>)
    ensures
        forall|i: int|
            0 <= i < page_fold(entries).0.len() ==> byte_len(#[trigger] page_fold(entries).0[i])
                <= 1028 || entries.contains(unfenced(page_fold(entries).0[i])),
        byte_len(page_fold(entries).1) <= 1024 || entries.contains(page_fold(entries).1.skip(4)),
    decreases entries.len(),
{
    reveal_strlit("```\n");
    let fence = "```\n"@;
    lemma_fence_bytes();
    lemma_page_fold_keeps(entries);
    if entries.len() > 0 {
        let prev = entries.drop_last();
        lemma_page_fold_sizes(prev);
        lemma_page_fold_keeps(prev);
        let (done, cur) = page_fold(prev);
        let e = entries.last();
        assert(entries == prev.push(e));
        assert forall|x: Seq<char>| prev.contains(x) implies entries.contains(x) by {
            let k = choose|k: int| 0 <= k < prev.len() && prev[k] == x;
            assert(entries[k] == x);
        }
        assert(entries[entries.len() - 1] == e);
        if byte_len(cur) + byte_len(e) > 1024 {
            let closed = cur + fence;
            lemma_encode_concat(cur, fence);
            assert(unfenced(closed) =~= cur.skip(4));
            assert((fence + e).skip(4) =~= e);
            assert forall|i: int| 0 <= i < done.push(closed).len() implies byte_len(
                #[trigger] done.push(closed)[i],
            ) <= 1028 || entries.contains(unfenced(done.push(closed)[i])) by {
                if i < done.len() {
                    assert(done.push(closed)[i] == done[i]);
                }
            }
        } else {
            lemma_encode_concat(cur, e);
            assert((cur + e).skip(4) =~= cur.skip(4) + e);
        }
    } else {
    }
}

/// Listing the shortcuts keeps pages small: every page is at most
/// `MAX_LENGTH` bytes and its closing fence, unless it holds a single entry
/// that is longer by itself.
pub proof fn law_pages_fit(entries: Seq<Seq<char>>)
    ensures
        forall|i: int|
            0 <= i < list_pages(entries).len() ==> byte_len(#[trigger] list_pages(entries)[i])
                <= 1028 || entries.contains(unfenced(list_pages(entries)[i])),
{
    reveal_strlit("```\n");
    let fence = "```\n"@;
    lemma_fence_bytes();
    lemma_page_fold_sizes(entries);
    lemma_page_fold_keeps(entries);
    let (done, cur) = page_fold(entries);
    let closed = cur + fence;
    lemma_encode_concat(cur, fence);
    assert(unfenced(closed) =~= cur.skip(4));
    assert(list_pages(entries) == done.push(closed));
    assert forall|i: int| 0 <= i < done.push(closed).len() implies byte_len(
        #[trigger] done.push(closed)[i],
    ) <= 1028 || entries.contains(unfenced(done.push(closed)[i])) by {
        if i < done.len() {
            assert(done.push(closed)[i] == done[i]);
        }
    }
}

/// The title of listing page `i` among the pages after the first.
pub fn list_page_title(i: usize) -> (r: &'static str)
    ensures
        r@ == if i == 0 {
            "Shortcuts | List"@
        } else {
            "Shortcuts | List (cont.)"@
        },
{
    if i == 0 {
        "Shortcuts | List"
    } else {
        "Shortcuts | List (cont.)"
    }
}

/// Why a new or updated shortcut is refused.
#[derive(Debug, Clone, Copy, PartialEq, Eq)]
pub enum ShortcutRejection {
    /// The trigger is the name or alias of a bot command.
    CollidesWithCommand,
    /// The response is longer than `MAX_LENGTH` bytes.
    ResponseTooLong,
}

/// A trigger collides with a command when, in Unicode lower case, it is one of
/// the command words (names and aliases of the commands and their
/// subcommands), each lower-cased.
pub open spec fn collides(trigger: Seq<char>, command_words: Seq<Seq<char>>) -> bool {
    exists|i: int|
        0 <= i < command_words.len() && unicode_lowercase(#[trigger] command_words[i])
            == unicode_lowercase(trigger)
}

/// Whether a trigger collides with a command.
pub fn trigger_collides(trigger: &str, command_words: &Vec<String>) -> (r: bool)
    ensures
        r == collides(trigger@, command_words@.map_values(|s: String| s@)),
{
    let ghost ws = command_words@.map_values(|s: String| s@);
    let t = chars_of(lowercase(trigger).as_str());
    let mut i: usize = 0;
    while i < command_words.len()
        invariant
            i <= command_words.len(),
            ws == command_words@.map_values(|s: String| s@),
            t@ == unicode_lowercase(trigger@),
            forall|k: int| 0 <= k < i ==> unicode_lowercase(#[trigger] ws[k]) != unicode_lowercase(trigger@),
        decreases command_words.len() - i,
    {
        assert(ws[i as int] == command_words@[i as int]@);
        let w = chars_of(lowercase(command_words[i].as_str()).as_str());
        if same_chars(&w, &t) {
            return true;
        }
        i = i + 1;
    }
    false
}

/// Whether a response is longer than `MAX_LENGTH` bytes.
pub fn response_too_long(response: &str) -> (r: bool)
    ensures
        r == (byte_len(response@) > 1024),
{
    let cs = chars_of(response);
    byte_len_capped(&cs, MAX_LENGTH) > MAX_LENGTH
}

/// Checks a new shortcut: its trigger must not collide with a command, and
/// then its response must not be too long.
pub fn check_new_shortcut(trigger: &str, response: &str, command_words: &Vec<String>) -> (r: Result<
    (),
    ShortcutRejection,
>)
    ensures
        collides(trigger@, command_words@.map_values(|s: String| s@)) ==> r == Err::<
            (),
            ShortcutRejection,
        >(ShortcutRejection::CollidesWithCommand),
        !collides(trigger@, command_words@.map_values(|s: String| s@)) && byte_len(response@)
            > 1024 ==> r == Err::<(), ShortcutRejection>(ShortcutRejection::ResponseTooLong),
        !collides(trigger@, command_words@.map_values(|s: String| s@)) && byte_len(response@)
            <= 1024 ==> r is Ok,
{
    if trigger_collides(trigger, command_words) {
        return Err(ShortcutRejection::CollidesWithCommand);
    }
    if response_too_long(response) {
        return Err(ShortcutRejection::ResponseTooLong);
    }
    Ok(())
}

/// Checks an updated response: it must not be too long.
pub fn check_updated_response(response: &str) -> (r: Result<(), ShortcutRejection>)
    ensures
        byte_len(response@) > 1024 ==> r == Err::<(), ShortcutRejection>(
            ShortcutRejection::ResponseTooLong,
        ),
        byte_len(response@) <= 1024 ==> r is Ok,
{
    if response_too_long(response) {
        return Err(ShortcutRejection::ResponseTooLong);
    }
    Ok(())
}

/// What the answer to a collision says.
pub fn collision_message(trigger: &str) -> (r: String)
    ensures
        r@ == "The trigger `"@ + trigger@
            + "` collides with an existing bot command. Please choose a different trigger."@,
{
    let mut out: Vec<char> = Vec::new();
    push_str(&mut out, "The trigger `");
    push_str(&mut out, trigger);
    push_str(&mut out, "` collides with an existing bot command. Please choose a different trigger.");
    string_of(&out)
}

/// What the answer to an added shortcut says: the trigger and the response.
pub fn added_info(trigger: &str, response: &str) -> (r: String)
    ensures
        r@ == "**Trigger**: `"@ + trigger@ + "`\n**Response**: `"@ + response@ + "`"@,
{
    let mut out: Vec<char> = Vec::new();
    push_str(&mut out, "**Trigger**: `");
    push_str(&mut out, trigger);
    push_str(&mut out, "`\n**Response**: `");
    push_str(&mut out, response);
    push_str(&mut out, "`");
    string_of(&out)
}

/// What the answer to a removal says: removed, or no such shortcut.
pub fn removal_message(trigger: &str, removed: bool) -> (r: String)
    ensures
        removed ==> r@ == "Shortcut `"@ + trigger@ + "` removed successfully."@,
        !removed ==> r@ == "No shortcut found with the trigger: `"@ + trigger@ + "`"@,
{
    let mut out: Vec<char> = Vec::new();
    if removed {
        push_str(&mut out, "Shortcut `");
        push_str(&mut out, trigger);
        push_str(&mut out, "` removed successfully.");
    } else {
        push_str(&mut out, "No shortcut found with the trigger: `");
        push_str(&mut out, trigger);
        push_str(&mut out, "`");
    }
    string_of(&out)
}

/// What the answer to an update says: updated, or no such shortcut.
pub fn update_message(trigger: &str, response: &str, updated: bool) -> (r: String)
    ensures
        updated ==> r@ == "Shortcut `"@ + trigger@ + "` updated successfully to `"@ + response@
            + "`"@,
        !updated ==> r@ == "No shortcut found with the trigger: `"@ + trigger@ + "`"@,
{
    let mut out: Vec<char> = Vec::new();
    if updated {
        push_str(&mut out, "Shortcut `");
        push_str(&mut out, trigger);
        push_str(&mut out, "` updated successfully to `");
        push_str(&mut out, response);
        push_str(&mut out, "`");
    } else {
        push_str(&mut out, "No shortcut found with the trigger: `");
        push_str(&mut out, trigger);
        push_str(&mut out, "`");
    }
    string_of(&out)
}

/// What is being done to a shortcut.
#[derive(Debug, Clone, Copy, PartialEq, Eq)]
pub enum ShortcutAction {
    Add,
    Remove,
    Update,
}

/// The verb of an action, as the failure messages name it.
pub open spec fn action_verb(action: ShortcutAction) -> Seq<char> {
    match action {
        ShortcutAction::Add => "add"@,
        ShortcutAction::Remove => "remove"@,
        ShortcutAction::Update => "update"@,
    }
}

/// Appends the verb of an action.
fn push_verb(out: &mut Vec<char>, action: ShortcutAction)
    ensures
        final(out)@ == old(out)@ + action_verb(action),
{
    match action {
        ShortcutAction::Add => push_str(out, "add"),
        ShortcutAction::Remove => push_str(out, "remove"),
        ShortcutAction::Update => push_str(out, "update"),
    }
}

/// What the answer to a failed action says: `Failed to {verb} shortcut: {error}`.
pub fn failure_message(action: ShortcutAction, error: &str) -> (r: String)
    ensures
        r@ == "Failed to "@ + action_verb(action) + " shortcut: "@ + error@,
{
    let mut out: Vec<char> = Vec::new();
    push_str(&mut out, "Failed to ");
    push_verb(&mut out, action);
    push_str(&mut out, " shortcut: ");
    push_str(&mut out, error);
    string_of(&out)
}

/// What the answer to a refused shortcut says: the collision, or that the
/// response is longer than `MAX_LENGTH` (for the action refused).
pub fn rejection_message(rejection: ShortcutRejection, trigger: &str, action: ShortcutAction) -> (r:
    String)
    ensures
        rejection == ShortcutRejection::CollidesWithCommand ==> r@ == "The trigger `"@ + trigger@
            + "` collides with an existing bot command. Please choose a different trigger."@,
        rejection == ShortcutRejection::ResponseTooLong ==> r@ == "Failed to "@ + action_verb(
            action,
        ) + " shortcut: Response length exceeds maximum length of "@ + decimal(1024)
            + " characters."@,
{
    match rejection {
        ShortcutRejection::CollidesWithCommand => collision_message(trigger),
        ShortcutRejection::ResponseTooLong => {
            let mut out: Vec<char> = Vec::new();
            push_str(&mut out, "Failed to ");
            push_verb(&mut out, action);
            push_str(&mut out, " shortcut: Response length exceeds maximum length of ");
            push_decimal(&mut out, MAX_LENGTH as u64);
            push_str(&mut out, " characters.");
            string_of(&out)
        },
    }
}

/// Whether a new shortcut may be stored, given the lookup of its trigger
/// (`Ok(true)` when the server already has a shortcut with it, `Err` with
/// the lookup's error): only when no shortcut has the trigger; otherwise the
/// answer to give.
pub fn duplicate_check(lookup: Result<bool, String>) -> (r: Result<(), String>)
    ensures
        lookup matches Ok(false) ==> r is Ok,
        lookup matches Ok(true) ==> (r matches Err(m) && m@
            == "Shortcut with that trigger already exists."@),
        lookup matches Err(e) ==> (r matches Err(m) && m@ == "Failed to "@ + action_verb(
            ShortcutAction::Add,
        ) + " shortcut: "@ + e@),
{
    match lookup {
        Ok(false) => Ok(()),
        Ok(true) => Err(string_of(&chars_of("Shortcut with that trigger already exists."))),
        Err(e) => Err(failure_message(ShortcutAction::Add, e.as_str())),
    }
}

/// What the answer to an added shortcut says first.
pub fn added_message(trigger: &str) -> (r: String)
    ensures
        r@ == "Shortcut `"@ + trigger@ + "` added successfully."@,
{
    let mut out: Vec<char> = Vec::new();
    push_str(&mut out, "Shortcut `");
    push_str(&mut out, trigger);
    push_str(&mut out, "` added successfully.");
    string_of(&out)
}

/// What a shortcut command answers when the database is not connected: the
/// listing says no information could be had; adding, and removing or
/// updating, say they cannot proceed.
pub fn database_missing_message(action: Option<ShortcutAction>) -> (r: String)
    ensures
        action is None ==> r@
            == "Failed to get any info, database is not connected, if this happens in production, report to @rmhakurei."@,
        action == Some(ShortcutAction::Add) ==> r@
            == "Database is not connected, cannot add shortcut."@,
        (action == Some(ShortcutAction::Remove) || action == Some(ShortcutAction::Update)) ==> r@
            == "Database is not connected, cannot remove shortcut."@,
{
    match action {
        None => text_of(
            "Failed to get any info, database is not connected, if this happens in production, report to @rmhakurei.",
        ),
        Some(ShortcutAction::Add) => text_of("Database is not connected, cannot add shortcut."),
        Some(_) => text_of("Database is not connected, cannot remove shortcut."),
    }
}


/// A message triggers exactly the shortcuts whose trigger is the whole
/// message: a shortcut is among the triggered ones if and only if its
/// trigger equals the message (a message that only starts with a trigger
/// triggers nothing), each triggered shortcut once, in order.
pub proof fn law_exact_trigger(shortcuts: Seq<(Seq<char>, Seq<char>)>, content: Seq<char>)
    ensures
        forall|i: int|
            0 <= i < shortcuts.len() ==> (triggered(shortcuts, content).contains(i)
                <==> #[trigger] shortcuts[i].0 == content),
        forall|j: int|
            0 <= j < triggered(shortcuts, content).len() ==> 0 <= #[trigger] triggered(
                shortcuts,
                content,
            )[j] < shortcuts.len() && shortcuts[triggered(shortcuts, content)[j]].0 == content,
        forall|j: int, k: int|
            0 <= j < k < triggered(shortcuts, content).len() ==> #[trigger] triggered(
                shortcuts,
                content,
            )[j] < #[trigger] triggered(shortcuts, content)[k],
    decreases shortcuts.len(),
{
    if shortcuts.len() > 0 {
        let prev = shortcuts.drop_last();
        law_exact_trigger(prev, content);
        let tp = triggered(prev, content);
        let t = triggered(shortcuts, content);
        let n = shortcuts.len() - 1;
        assert forall|i: int| 0 <= i < shortcuts.len() implies (t.contains(i)
            <==> #[trigger] shortcuts[i].0 == content) by {
            if i < n {
                assert(shortcuts[i] == prev[i]);
                if shortcuts.last().0 == content {
                    assert(t == tp.push(n));
                    if tp.contains(i) {
                        let j = choose|j: int| 0 <= j < tp.len() && tp[j] == i;
                        assert(t[j] == i);
                    }
                    if t.contains(i) {
                        let j = choose|j: int| 0 <= j < t.len() && t[j] == i;
                        assert(j < tp.len());
                        assert(tp[j] == i);
                    }
                }
            } else {
                if shortcuts.last().0 == content {
                    assert(t[tp.len() as int] == n);
                } else {
                    if t.contains(i) {
                        let j = choose|j: int| 0 <= j < t.len() && t[j] == i;
                        assert(tp[j] < prev.len());
                    }
                }
            }
        }
        assert forall|j: int| 0 <= j < t.len() implies 0 <= #[trigger] t[j] < shortcuts.len()
            && shortcuts[t[j]].0 == content by {
            if j < tp.len() {
                assert(t[j] == tp[j]);
                assert(shortcuts[tp[j]] == prev[tp[j]]);
            }
        }
        assert forall|j: int, k: int| 0 <= j < k < t.len() implies #[trigger] t[j] < #[trigger] t[k] by {
            if k < tp.len() {
                assert(t[j] == tp[j] && t[k] == tp[k]);
            } else {
                assert(t[j] == tp[j]);
            }
        }
    }
}

} // verus!
