//! The Markov text generator: whose messages it learns from, when it speaks up
//! by itself, and how it builds a text out of a user's messages.
use std::collections::HashMap;
use vstd::prelude::*;

use crate::outside::{random_below, random_u32, transliterate, unidecode_text};
use crate::text::{
    all_ws, chars_of, decimal, has_prefix, is_blank, is_whitespace, is_ws, join, join_with,
    push_decimal, push_signed, push_str, signed_decimal, split, split_on, split_words, starts_with,
    string_of, trim, trimmed, words,
};

verus! {

/// The users whose messages the generator learns from and imitates, in the
/// order in which the `markov` command numbers them (from 1).
pub const ALLOWED: [u64; 20] = [
    224785877086240768,
    255365914898333707,
    393201541630394368,
    261815692150571009,
    383468859211907083,
    546976983012212746,
    658976239100362753,
    223367426526412800,
    655023950689992706,
    406463187052134411,
    315116686850129922,
    443022415451127808,
    360256398933753856,
    286438559341215746,
    210065177574375424,
    369858698941693953,
    824537345541799976,
    304512418976104450,
    922423503909687317,
    736223131240497183,
];

/// `id` is one of the allowed users.
pub open spec fn is_allowed(id: u64) -> bool {
    exists|i: int| 0 <= i < 20 && ALLOWED@[i] == id
}

/// Whether `id` is one of the allowed users.
pub fn allowed(id: u64) -> (r: bool)
    ensures
        r == is_allowed(id),
{
    let mut i: usize = 0;
    while i < 20
        invariant
            i <= 20,
            forall|k: int| 0 <= k < i ==> ALLOWED@[k] != id,
        decreases 20 - i,
    {
        if ALLOWED[i] == id {
            return true;
        }
        i = i + 1;
    }
    false
}

/// The number (from 1) under which the command lists `id`, or 1 when `id` is
/// not an allowed user.
pub fn option_for(id: u64) -> (r: i32)
    ensures
        is_allowed(id) ==> 1 <= r <= 20 && ALLOWED@[r - 1] == id && forall|k: int|
            0 <= k < r - 1 ==> ALLOWED@[k] != id,
        !is_allowed(id) ==> r == 1,
{
    let mut i: usize = 0;
    while i < 20
        invariant
            i <= 20,
            forall|k: int| 0 <= k < i ==> ALLOWED@[k] != id,
        decreases 20 - i,
    {
        if ALLOWED[i] == id {
            return (i + 1) as i32;
        }
        i = i + 1;
    }
    1
}

/// The user the `markov` command imitates under option `picked` (from 1), if
/// `picked` names one.
pub open spec fn picked_user(picked: i32) -> Option<u64> {
    if 1 <= picked <= 20 {
        Some(ALLOWED@[picked - 1])
    } else {
        None
    }
}

/// The user that option `picked` names.
pub fn user_for_option(picked: i32) -> (r: Option<u64>)
    ensures
        r == picked_user(picked),
{
    if picked <= 0 || picked > 20 {
        None
    } else {
        Some(ALLOWED[(picked - 1) as usize])
    }
}

/// Prefixes that mark a message as a command to some bot.
pub open spec fn bot_prefixes() -> Seq<Seq<char>> {
    seq![
        ";"@,
        "t!"@,
        "pls "@,
        "please "@,
        "p "@,
        "->"@,
        "!"@,
        "`"@,
        "``"@,
        ";;"@,
        "~>"@,
        ">"@,
        "<"@,
        "$"@,
        "k!"@,
        ".calc"@,
        ".ss"@,
        ".google"@,
        "."@,
    ]
}

/// The prefixes that mark a message as a command to some bot.
fn common_bot_prefixes() -> (r: Vec<&'static str>)
    ensures
        r@.map_values(|s: &str| s@) == bot_prefixes(),
{
    let v = vec![
        ";",
        "t!",
        "pls ",
        "please ",
        "p ",
        "->",
        "!",
        "`",
        "``",
        ";;",
        "~>",
        ">",
        "<",
        "$",
        "k!",
        ".calc",
        ".ss",
        ".google",
        ".",
    ];
    assert(v@.map_values(|s: &str| s@) =~= bot_prefixes());
    v
}

/// A message is learnt when its author is allowed, it does not start with the
/// bot's own prefix, it is not blank, and it starts with no common bot prefix
/// and none of the bot's other prefixes.
pub open spec fn learnable(
    author: u64,
    content: Seq<char>,
    main_prefix: Seq<char>,
    other_prefixes: Seq<Seq<char>>,
) -> bool {
    &&& is_allowed(author)
    &&& !has_prefix(content, main_prefix)
    &&& trim(content).len() > 0
    &&& forall|i: int| 0 <= i < bot_prefixes().len() ==> !has_prefix(content, #[trigger] bot_prefixes()[i])
    &&& forall|i: int|
        0 <= i < other_prefixes.len() ==> !has_prefix(content, #[trigger] other_prefixes[i])
}

/// Whether a message is learnt into its author's Markov data.
pub fn should_learn(
    author: u64,
    content: &str,
    main_prefix: &str,
    other_prefixes: &Vec<String>,
) -> (r: bool)
    ensures
        r == learnable(author, content@, main_prefix@, other_prefixes@.map_values(|s: String| s@)),
{
    let ghost others = other_prefixes@.map_values(|s: String| s@);
    if !allowed(author) {
        return false;
    }
    let cs = chars_of(content);
    let mp = chars_of(main_prefix);
    if starts_with(&cs, &mp) {
        return false;
    }
    let t = trimmed(&cs);
    if t.len() == 0 {
        return false;
    }
    let common = common_bot_prefixes();
    let mut i: usize = 0;
    while i < common.len()
        invariant
            i <= common.len(),
            common@.map_values(|s: &str| s@) == bot_prefixes(),
            cs@ == content@,
            forall|k: int| 0 <= k < i ==> !has_prefix(content@, #[trigger] bot_prefixes()[k]),
        decreases common.len() - i,
    {
        let p = chars_of(common[i]);
        assert(bot_prefixes()[i as int] == common@[i as int]@);
        if starts_with(&cs, &p) {
            return false;
        }
        i = i + 1;
    }
    let mut j: usize = 0;
    while j < other_prefixes.len()
        invariant
            j <= other_prefixes.len(),
            others == other_prefixes@.map_values(|s: String| s@),
            cs@ == content@,
            forall|k: int| 0 <= k < j ==> !has_prefix(content@, #[trigger] others[k]),
        decreases other_prefixes.len() - j,
    {
        let p = chars_of(other_prefixes[j].as_str());
        assert(others[j as int] == other_prefixes@[j as int]@);
        if starts_with(&cs, &p) {
            return false;
        }
        j = j + 1;
    }
    true
}

/// How many messages a channel sees between two chances of a spontaneous text.
pub const MESSAGES_PER_CHANCE: i32 = 10;

/// A channel's message counter after one more message, and whether that
/// message gives the generator its chance.
pub open spec fn tick_spec(count: int) -> (int, bool) {
    if count + 1 < 10 {
        (count + 1, false)
    } else {
        (0, true)
    }
}

/// Counts one more message in a channel: every tenth message gives the
/// generator its chance, and the counter starts over.
pub fn channel_tick(count: i32) -> (r: (i32, bool))
    requires
        count < i32::MAX,
    ensures
        (r.0 as int, r.1) == tick_spec(count as int),
{
    let next = count + 1;
    if next < MESSAGES_PER_CHANCE {
        (next, false)
    } else {
        (0, true)
    }
}

/// The counter and the chance after `n` messages in a fresh channel.
pub open spec fn ticks(n: nat) -> (int, bool)
    decreases n,
{
    if n == 0 {
        (0, false)
    } else {
        tick_spec(ticks((n - 1) as nat).0)
    }
}

/// In a fresh channel, the generator gets its chance exactly at every tenth
/// message, and the counter always holds the messages since the last chance.
pub proof fn law_chance_every_tenth_message(n: nat)
    ensures
        ticks(n).0 == n % 10,
        ticks(n).1 == (n > 0 && n % 10 == 0),
    decreases n,
{
    if n > 0 {
        law_chance_every_tenth_message((n - 1) as nat);
    }
}

/// The count recorded for a channel, 0 when none is.
pub open spec fn count_of(counts: Map<u64, i32>, channel: u64) -> int {
    if counts.contains_key(channel) {
        counts[channel] as int
    } else {
        0
    }
}

/// The counters after one more message in `channel`.
pub open spec fn counted_message(counts: Map<u64, i32>, channel: u64) -> Map<u64, i32> {
    counts.insert(channel, tick_spec(count_of(counts, channel)).0 as i32)
}

/// The counters after the messages of `channels`, in order, one per entry.
pub open spec fn counted_messages(counts: Map<u64, i32>, channels: Seq<u64>) -> Map<u64, i32>
    decreases channels.len(),
{
    if channels.len() == 0 {
        counts
    } else {
        counted_message(counted_messages(counts, channels.drop_last()), channels.last())
    }
}

/// How many of the messages were in `channel`.
pub open spec fn messages_in(channels: Seq<u64>, channel: u64) -> nat
    decreases channels.len(),
{
    if channels.len() == 0 {
        0
    } else {
        messages_in(channels.drop_last(), channel) + if channels.last() == channel {
            1nat
        } else {
            0nat
        }
    }
}

/// Every recorded count is below `MESSAGES_PER_CHANCE`.
pub open spec fn counts_ok(counts: Map<u64, i32>) -> bool {
    forall|c: u64| counts.contains_key(c) ==> 0 <= #[trigger] counts[c] < 10
}

/// Each channel's message counter towards the generator's next chance.
pub struct MessageCounters {
    counts: HashMap<u64, i32>,
    draws: Ghost<Seq<u32>>,
}

impl View for MessageCounters {
    type V = Map<u64, i32>;

    /// The recorded value of each key.
    closed spec fn view(&self) -> Map<u64, i32> {
        self.counts@
    }
}

impl MessageCounters {
    /// Every count is below `MESSAGES_PER_CHANCE`.
    #[verifier::type_invariant]
    spec fn counts_in_range(&self) -> bool {
        counts_ok(self.counts@)
    }

    /// The random draws made so far for spontaneous texts, in order.
    pub closed spec fn draws(&self) -> Seq<u32> {
        self.draws@
    }

    /// No channel has seen a message yet, and no draw has been made.
    pub fn new() -> (c: MessageCounters)
        ensures
            c@ == Map::<u64, i32>::empty(),
            c.draws() == Seq::<u32>::empty(),
    {
        MessageCounters { counts: HashMap::new(), draws: Ghost(Seq::empty()) }
    }

    /// Counts one more message in `channel` and says whether it gives the
    /// generator its chance. Every count stays below `MESSAGES_PER_CHANCE`.
    pub fn tick(&mut self, channel: u64) -> (chance: bool)
        ensures
            counts_ok(old(self)@) && counts_ok(final(self)@),
            final(self)@ == counted_message(old(self)@, channel),
            final(self).draws() == old(self).draws(),
            chance == tick_spec(count_of(old(self)@, channel)).1,
    {
        broadcast use vstd::std_specs::hash::group_hash_axioms;

        proof {
            use_type_invariant(&*self);
        }
        let current: i32 = match self.counts.get(&channel) {
            Some(c) => *c,
            None => 0,
        };
        let (next, chance) = channel_tick(current);
        let mut counts: HashMap<u64, i32> = HashMap::new();
        std::mem::swap(&mut counts, &mut self.counts);
        counts.insert(channel, next);
        self.counts = counts;
        chance
    }
}

/// The chance of a spontaneous text, as the listener draws it: the draw's
/// top 24 bits, over 2^24, are the random `f32` that must stay below 0.05;
/// that is, those bits are at most 838860.
pub open spec fn lucky_draw(draw: u32) -> bool {
    draw < 214748416
}

/// Whether a random draw gives a spontaneous text its 5% chance.
pub fn spontaneous_chance(draw: u32) -> (r: bool)
    ensures
        r == lucky_draw(draw),
{
    draw < 214748416
}

/// Whether the listener speaks up after a message: only on the message that
/// gives the channel its chance, with a lucky draw, in a server.
pub fn speaks(chance: bool, draw: u32, in_guild: bool) -> (r: bool)
    ensures
        r == (chance && lucky_draw(draw) && in_guild),
{
    chance && spontaneous_chance(draw) && in_guild
}

/// The spontaneous-text listener's decision on one message: a bot's message
/// is not counted and never answered; any other message is counted in its
/// channel, and when it gives the channel its chance a random draw is made
/// (and recorded in `draws`); the listener speaks up exactly when that draw
/// is lucky and the message was sent in a server.
pub fn spontaneous_step(counters: &mut MessageCounters, channel: u64, author_is_bot: bool, in_guild: bool) -> (speak: bool)
    ensures
        author_is_bot ==> final(counters)@ == old(counters)@ && final(counters).draws()
            == old(counters).draws() && !speak,
        !author_is_bot ==> final(counters)@ == counted_message(old(counters)@, channel),
        !author_is_bot && !tick_spec(count_of(old(counters)@, channel)).1 ==> final(counters).draws()
            == old(counters).draws() && !speak,
        !author_is_bot && tick_spec(count_of(old(counters)@, channel)).1 ==> final(counters).draws().len()
            == old(counters).draws().len() + 1 && final(counters).draws().drop_last() == old(counters).draws()
            && speak == (lucky_draw(final(counters).draws().last()) && in_guild),
        counts_ok(final(counters)@),
{
    if author_is_bot {
        proof {
            use_type_invariant(&*counters);
        }
        return false;
    }
    let chance = counters.tick(channel);
    if !chance {
        return false;
    }
    let draw = random_u32();
    proof {
        use_type_invariant(&*counters);
    }
    let ghost before = counters.draws@;
    counters.draws = Ghost(before.push(draw));
    assert(counters.draws@.drop_last() =~= before);
    speaks(chance, draw, in_guild)
}

/// The listener speaks on a message exactly when no bot wrote it, the
/// channel had counted nine messages before it, the draw made for it is
/// below 214748416 (a 5% chance: the `f32` made of its top 24 bits is below
/// 0.05), and it was sent in a server.
pub proof fn law_speaks_on_tenth_lucky_message(
    counts: Map<u64, i32>,
    channel: u64,
    author_is_bot: bool,
    draw: u32,
    in_guild: bool,
)
    requires
        counts_ok(counts),
    ensures
        (!author_is_bot && tick_spec(count_of(counts, channel)).1 && lucky_draw(draw) && in_guild)
            <==> (!author_is_bot && count_of(counts, channel) == 9 && draw < 214748416 && in_guild),
{
    if counts.contains_key(channel) {
        assert(0 <= counts[channel] < 10);
    }
}

/// With every count in range, one more message moves a channel's count on by
/// one, wrapping from nine to zero, and gives the chance exactly on the wrap.
pub proof fn law_count_wraps(c: int)
    requires
        0 <= c < 10,
    ensures
        tick_spec(c) == ((c + 1) % 10, c == 9),
{
}

/// Channels are counted apart, each from its first message: after any run
/// of messages, a channel's counter holds the number of messages it has
/// seen modulo ten, and it gave its chance on the last of them exactly when
/// that number is a multiple of ten.
pub proof fn law_channels_counted_apart(counts: Map<u64, i32>, channels: Seq<u64>, channel: u64)
    requires
        !counts.contains_key(channel),
    ensures
        count_of(counted_messages(counts, channels), channel) == messages_in(channels, channel)
            % 10,
        channels.len() > 0 && channels.last() == channel ==> (tick_spec(
            count_of(counted_messages(counts, channels.drop_last()), channel),
        ).1 <==> messages_in(channels, channel) % 10 == 0),
    decreases channels.len(),
{
    if channels.len() > 0 {
        let prev = channels.drop_last();
        law_channels_counted_apart(counts, prev, channel);
        let k = messages_in(prev, channel);
        assert(count_of(counted_messages(counts, prev), channel) == k % 10);
        if channels.last() == channel {
            assert(messages_in(channels, channel) == k + 1);
            assert((k % 10 + 1 < 10) ==> (k + 1) % 10 == k % 10 + 1);
            assert((k % 10 + 1 >= 10) ==> (k + 1) % 10 == 0);
        }
    }
}

/// A recent message of the channel: whether a bot wrote it, and its text.
pub struct RecentMessage {
    pub from_bot: bool,
    pub content: String,
}

/// The message a seed word is taken from: the first one, in the given order,
/// that a person wrote and that is not empty.
pub open spec fn seed_source(recent: Seq<(bool, Seq<char>)>) -> Option<int> {
    if exists|i: int| 0 <= i < recent.len() && !recent[i].0 && recent[i].1.len() > 0 {
        Some(
            choose|i: int|
                0 <= i < recent.len() && !recent[i].0 && recent[i].1.len() > 0 && forall|j: int|
                    0 <= j < i ==> !(!recent[j].0 && recent[j].1.len() > 0),
        )
    } else {
        None
    }
}

/// The plain values of recent messages.
pub open spec fn recent_values(recent: Seq<RecentMessage>) -> Seq<(bool, Seq<char>)> {
    recent.map_values(|m: RecentMessage| (m.from_bot, m.content@))
}

/// `r` is a seed word of the first eligible message of `rv`: one of its words,
/// or nothing when it has none or there is no eligible message.
pub open spec fn seed_result_ok(rv: Seq<(bool, Seq<char>)>, r: Option<Seq<char>>) -> bool {
    match seed_source(rv) {
        None => r is None,
        Some(i) => match r {
            None => words(rv[i].1).len() == 0,
            Some(w) => words(rv[i].1).contains(w),
        },
    }
}

/// Picks the word a spontaneous text starts from: a word, chosen at random,
/// of the first message (in the given, already shuffled, order) that a person
/// wrote and that is not empty. None when there is no such message or it has
/// no word.
pub fn seed_word(recent: &Vec<RecentMessage>) -> (r: Option<String>)
    ensures
        seed_result_ok(
            recent_values(recent@),
            match r {
                Some(w) => Some(w@),
                None => None,
            },
        ),
{
    let ghost rv = recent_values(recent@);
    let mut i: usize = 0;
    while i < recent.len()
        invariant
            i <= recent.len(),
            rv == recent_values(recent@),
            forall|j: int| 0 <= j < i ==> !(!rv[j].0 && rv[j].1.len() > 0),
        decreases recent.len() - i,
    {
        let m = &recent[i];
        assert(rv[i as int] == (m.from_bot, m.content@));
        if !m.from_bot && !m.content.as_str().is_empty() {
            proof {
                assert(0 <= i < rv.len() && !rv[i as int].0 && rv[i as int].1.len() > 0 && forall|j: int|
                    0 <= j < i ==> !(!rv[j].0 && rv[j].1.len() > 0));
                let pick = choose|t: int|
                    0 <= t < rv.len() && !rv[t].0 && rv[t].1.len() > 0 && forall|j: int|
                        0 <= j < t ==> !(!rv[j].0 && rv[j].1.len() > 0);
                assert(0 <= i < rv.len() && !rv[i as int].0 && rv[i as int].1.len() > 0);
                if pick < i {
                } else if pick > i {
                    assert(!(!rv[i as int].0 && rv[i as int].1.len() > 0));
                }
                assert(pick == i);
                assert(seed_source(rv) == Some(i as int));
            }
            let cs = chars_of(m.content.as_str());
            let ws = split_words(&cs);
            if ws.len() == 0 {
                return None;
            }
            let k = random_below(ws.len());
            assert(ws@[k as int]@ == words(recent@[i as int].content@)[k as int]);
            let w = string_of(&ws[k]);
            assert(words(rv[i as int].1)[k as int] == w@);
            return Some(w);
        }
        i = i + 1;
    }
    None
}

/// Picks the user a spontaneous text imitates: one, chosen at random, of the
/// members that are allowed users. None when no member is.
pub fn choose_member(members: &Vec<u64>) -> (r: Option<u64>)
    ensures
        r matches Some(id) ==> is_allowed(id) && members@.contains(id),
        r is None ==> forall|i: int| 0 <= i < members@.len() ==> !is_allowed(#[trigger] members@[i]),
{
    let mut avail: Vec<u64> = Vec::new();
    let mut i: usize = 0;
    while i < members.len()
        invariant
            i <= members.len(),
            forall|k: int| 0 <= k < avail@.len() ==> is_allowed(#[trigger] avail@[k]) && members@.contains(avail@[k]),
            avail@.len() == 0 ==> forall|k: int| 0 <= k < i ==> !is_allowed(#[trigger] members@[k]),
        decreases members.len() - i,
    {
        if allowed(members[i]) {
            avail.push(members[i]);
            assert(avail@[avail@.len() - 1] == members@[i as int]);
        }
        i = i + 1;
    }
    if avail.len() == 0 {
        return None;
    }
    let k = random_below(avail.len());
    Some(avail[k])
}

/// A line of the generator's overview: the option number, the user's name (or
/// id when the cache does not know it) and how many messages are stored.
pub open spec fn stats_line(i: nat, id: u64, name: Option<Seq<char>>, count: i64) -> Seq<char> {
    decimal(i + 1) + ". "@ + match name {
        Some(n) => n,
        None => decimal(id as nat),
    } + " | "@ + signed_decimal(count as int) + " messages"@
}

/// One user of the overview: the cached name, if any, and the stored message count.
pub struct MarkovUserStats {
    pub name: Option<String>,
    pub count: i64,
}

/// The plain values of the overview rows.
pub open spec fn stats_values(rows: Seq<MarkovUserStats>) -> Seq<(Option<Seq<char>>, i64)> {
    rows.map_values(
        |r: MarkovUserStats|
            (
                match r.name {
                    Some(n) => Some(n@),
                    None => None,
                },
                r.count,
            ),
    )
}

/// The overview the `markov` command shows when it generates nothing: one
/// line per allowed user, in order, taking the row of the same position.
pub fn markov_overview(rows: &Vec<MarkovUserStats>) -> (r: String)
    requires
        rows@.len() == 20,
    ensures
        r@ == join(
            Seq::new(
                20,
                |i: int|
                    stats_line(
                        i as nat,
                        ALLOWED@[i],
                        stats_values(rows@)[i].0,
                        stats_values(rows@)[i].1,
                    ),
            ),
            "\n"@,
        ),
{
    let ghost sv = stats_values(rows@);
    let ghost lines = Seq::new(
        20,
        |i: int| stats_line(i as nat, ALLOWED@[i], sv[i].0, sv[i].1),
    );
    let mut parts: Vec<Vec<char>> = Vec::new();
    let mut i: usize = 0;
    while i < 20
        invariant
            i <= 20,
            rows@.len() == 20,
            sv == stats_values(rows@),
            lines == Seq::new(20, |i: int| stats_line(i as nat, ALLOWED@[i], sv[i].0, sv[i].1)),
            parts@.len() == i,
            forall|k: int| 0 <= k < i ==> #[trigger] parts@[k]@ == lines[k],
        decreases 20 - i,
    {
        let row = &rows[i];
        let mut line: Vec<char> = Vec::new();
        push_decimal(&mut line, (i + 1) as u64);
        push_str(&mut line, ". ");
        match &row.name {
            Some(n) => push_str(&mut line, n.as_str()),
            None => push_decimal(&mut line, ALLOWED[i]),
        }
        push_str(&mut line, " | ");
        push_signed(&mut line, row.count);
        push_str(&mut line, " messages");
        assert(sv[i as int] == (
            match row.name {
                Some(n) => Some(n@),
                None => None,
            },
            row.count,
        ));
        assert(line@ =~= lines[i as int]);
        parts.push(line);
        i = i + 1;
    }
    assert(parts@.map_values(|p: Vec<char>| p@) =~= lines);
    let nl = chars_of("\n");
    string_of(&join_with(&parts, &nl))
}

/// The last word of a starter text and the words before it, joined by single
/// spaces. A starter without words has neither.
pub open spec fn starter_split(starter: Seq<char>) -> Option<(Seq<char>, Seq<char>)> {
    let ws = words(starter);
    if ws.len() == 0 {
        None
    } else {
        Some((join(ws.drop_last(), " "@), ws.last()))
    }
}

/// Splits a starter text into the words before its last word and the last word.
pub fn split_starter(starter: &str) -> (r: Option<(String, String)>)
    ensures
        match r {
            None => starter_split(starter@) is None,
            Some((others, last)) => starter_split(starter@) == Some((others@, last@)),
        },
{
    let cs = chars_of(starter);
    let ws = split_words(&cs);
    if ws.len() == 0 {
        return None;
    }
    let n = ws.len();
    let mut firsts: Vec<Vec<char>> = Vec::new();
    let mut i: usize = 0;
    while i + 1 < n
        invariant
            n == ws@.len(),
            n >= 1,
            i < n,
            firsts@.len() == i,
            forall|k: int| 0 <= k < i ==> #[trigger] firsts@[k]@ == ws@[k]@,
        decreases n - i,
    {
        firsts.push(ws[i].clone());
        i = i + 1;
    }
    let sp = chars_of(" ");
    let others = join_with(&firsts, &sp);
    proof {
        assert(firsts@.map_values(|p: Vec<char>| p@) =~= words(starter@).drop_last());
    }
    Some((string_of(&others), string_of(&ws[n - 1])))
}


/// A user's Markov data: the stored messages, one per line.
pub fn join_messages(messages: &Vec<String>) -> (r: String)
    ensures
        r@ == join(messages@.map_values(|m: String| m@), "\n"@),
{
    let mut parts: Vec<Vec<char>> = Vec::new();
    let mut i: usize = 0;
    while i < messages.len()
        invariant
            i <= messages.len(),
            parts@.len() == i,
            forall|k: int| 0 <= k < i ==> #[trigger] parts@[k]@ == messages@[k]@,
        decreases messages.len() - i,
    {
        parts.push(chars_of(messages[i].as_str()));
        i = i + 1;
    }
    assert(parts@.map_values(|p: Vec<char>| p@) =~= messages@.map_values(|m: String| m@));
    let nl = chars_of("\n");
    string_of(&join_with(&parts, &nl))
}

/// What the `markov` command sends: the generated text, or word that the
/// generation failed.
pub fn generated_content(text: Option<String>) -> (r: String)
    ensures
        match text {
            Some(t) => r@ == t@,
            None => r@ == "Generation failed, must've been insufficient data."@,
        },
{
    match text {
        Some(t) => t,
        None => string_of(&chars_of("Generation failed, must've been insufficient data.")),
    }
}

/// `"`, `(`, `)`, `[` or `]`.
pub open spec fn bracket_or_quote(c: char) -> bool {
    c == '"' || c == '(' || c == ')' || c == '[' || c == ']'
}

/// A text the model's sentence filter lets through: without `"`, `(`, `)`,
/// `[` or `]`, not starting or ending with `'`, and with no `'` next to
/// whitespace.
pub open spec fn clean_text(t: Seq<char>) -> bool {
    &&& forall|i: int| 0 <= i < t.len() ==> !bracket_or_quote(#[trigger] t[i])
    &&& !(t.len() > 0 && (t[0] == '\'' || t.last() == '\''))
    &&& forall|i: int|
        0 <= i < t.len() - 1 ==> !(is_ws(#[trigger] t[i]) && t[i + 1] == '\'') && !(t[i] == '\''
            && is_ws(t[i + 1]))
}

/// A line of Markov data that the model takes in as a sentence: not blank,
/// and clean once transliterated to ASCII.
pub open spec fn sentence_line(l: Seq<char>) -> bool {
    !all_ws(l) && clean_text(unidecode_text(l))
}

/// Some line of the data is a sentence the model takes in.
pub open spec fn sentence_source(data: Seq<char>) -> bool {
    exists|i: int|
        0 <= i < split_on(data, '\n').len() && sentence_line(#[trigger] split_on(data, '\n')[i])
}

/// Whether `t` is clean.
fn is_clean(t: &Vec<char>) -> (r: bool)
    ensures
        r == clean_text(t@),
{
    let n = t.len();
    if n > 0 && (t[0] == '\'' || t[n - 1] == '\'') {
        return false;
    }
    let mut i: usize = 0;
    while i < n
        invariant
            n == t@.len(),
            i <= n,
            forall|k: int| 0 <= k < i ==> !bracket_or_quote(#[trigger] t@[k]),
            forall|k: int|
                0 <= k < i && k < n - 1 ==> !(is_ws(#[trigger] t@[k]) && t@[k + 1] == '\'') && !(
                t@[k] == '\'' && is_ws(t@[k + 1])),
        decreases n - i,
    {
        let c = t[i];
        if c == '"' || c == '(' || c == ')' || c == '[' || c == ']' {
            return false;
        }
        if i + 1 < n {
            let d = t[i + 1];
            if (is_whitespace(c) && d == '\'') || (c == '\'' && is_whitespace(d)) {
                return false;
            }
        }
        i = i + 1;
    }
    true
}

/// Whether the model takes `l` in as a sentence.
fn is_sentence_line(l: &Vec<char>) -> (r: bool)
    ensures
        r == sentence_line(l@),
{
    if is_blank(l) {
        return false;
    }
    let decoded = chars_of(transliterate(string_of(l).as_str()).as_str());
    is_clean(&decoded)
}

/// Whether the model takes some line of the data in as a sentence.
fn has_sentence_line(data: &Vec<char>) -> (r: bool)
    ensures
        r == sentence_source(data@),
{
    let lines = split(data, '\n');
    let mut i: usize = 0;
    while i < lines.len()
        invariant
            i <= lines.len(),
            lines@.len() == split_on(data@, '\n').len(),
            forall|k: int| 0 <= k < lines@.len() ==> #[trigger] lines@[k]@ == split_on(data@, '\n')[k],
            forall|k: int| 0 <= k < i ==> !sentence_line(#[trigger] split_on(data@, '\n')[k]),
        decreases lines.len() - i,
    {
        assert(lines@[i as int]@ == split_on(data@, '\n')[i as int]);
        if is_sentence_line(&lines[i]) {
            return true;
        }
        i = i + 1;
    }
    false
}

/// The most words the Markov data may hold. Each weight total the model
/// draws with is at most four times the number of words, so below this
/// bound every total is below 2^24 and exact in the single-precision
/// arithmetic of the draw; beyond 2^24 a draw can round up to the total and
/// pick past the last word, where the crate indexes out of bounds.
pub const MAX_SOURCE_WORDS: usize = 4194304;

/// The data is small enough for the model's draws.
pub open spec fn source_fits(data: Seq<char>) -> bool {
    words(data).len() < MAX_SOURCE_WORDS
}

/// `t` is a text drawn from the model of `data`: between `lo` and `hi`
/// words, each of them a word of the data.
pub open spec fn drawn_text(data: Seq<char>, t: Seq<char>, lo: int, hi: int) -> bool {
    &&& lo <= words(t).len() <= hi
    &&& forall|k: int| 0 <= k < words(t).len() ==> #[trigger] words(data).contains(words(t)[k])
}

/// The Markov model type of `marukov`, which Verus sees as opaque.
#[verifier::external_type_specification]
#[verifier::external_body]
pub struct ExMarkovText(marukov::Text);

/// A Markov model, with the data it was built from. The chain it holds is
/// opaque; what a draw from it gives is stated by the calls that draw.
pub struct MarkovModel {
    text: marukov::Text,
    source: Ghost<Seq<char>>,
    draws: Ghost<Seq<Option<Seq<char>>>>,
}

impl MarkovModel {
    /// The data the model was built from.
    pub closed spec fn source(&self) -> Seq<char> {
        self.source@
    }

    /// What each draw from the model gave so far, in order.
    pub closed spec fn draws(&self) -> Seq<Option<Seq<char>>> {
        self.draws@
    }

    /// Builds a model from the data.
    pub fn new(data: String) -> (m: MarkovModel)
        ensures
            m.source() == data@,
            m.draws() == Seq::<Option<Seq<char>>>::empty(),
    {
        let ghost src = data@;
        MarkovModel { text: build_text(data), source: Ghost(src), draws: Ghost(Seq::empty()) }
    }
}

/// Calls `marukov::Text::new`, which reads each line of the data as a
/// sentence and builds the chain. Trusted: it returns for any data; what the
/// model holds is not stated.
#[verifier::external_body]
fn build_text(data: String) -> marukov::Text {
    marukov::Text::new(data)
}

/// Calls `marukov::Text::generate` with 999 tries, no initial state and the
/// given word bounds. Trusted: it returns (`requires` keeps out the data on
/// which the chain has no first word, where the crate panics, and data
/// whose weight totals could pass 2^24; and bounds that the crate's cast to
/// `usize` would turn around, a negative one); a text, when there is one, is
/// the tokens of a walk of the chain joined by single spaces, so its words
/// are words of the data's lines, at least one (a walk from the start always
/// takes a first word) and at least `min_words`, at most `max_words`. Which
/// text, drawn at random, is not stated.
#[verifier::external_body]
fn generate_text(model: &MarkovModel, min_words: i32, max_words: i32) -> (r: Option<String>)
    requires
        sentence_source(model.source()),
        source_fits(model.source()),
        0 <= min_words,
        1 <= max_words,
    ensures
        r matches Some(t) ==> drawn_text(model.source(), t@, 1, max_words as int) && words(t@).len()
            >= min_words,
{
    model.text.generate(
        marukov::TextOptions { tries: 999, min_words, max_words, ..Default::default() },
    )
}

/// Calls `marukov::Text::generate_with_start` with 999 tries and the given word
/// bounds. Trusted: a text, when there is one, is `start`, a space and a
/// non-empty text drawn as for `generate_text` (as the crate's source
/// formats it); which text, drawn at random, is not stated. `requires` as for
/// `generate_text`.
#[verifier::external_body]
fn generate_text_from(model: &MarkovModel, start: &str, min_words: i32, max_words: i32) -> (r:
    Option<String>)
    requires
        sentence_source(model.source()),
        source_fits(model.source()),
        0 <= min_words,
        1 <= max_words,
    ensures
        r matches Some(t) ==> exists|g: Seq<char>|
            #![trigger drawn_text(model.source(), g, 1, max_words as int)]
            t@ == start@ + " "@ + g && drawn_text(model.source(), g, 1, max_words as int) && words(
                g,
            ).len() >= min_words,
{
    model.text.generate_with_start(
        start,
        marukov::TextOptions { tries: 999, min_words, max_words, ..Default::default() },
    )
}

/// The view of an optional text.
pub open spec fn text_view(t: Option<String>) -> Option<Seq<char>> {
    match t {
        Some(s) => Some(s@),
        None => None,
    }
}

impl MarkovModel {
    /// Draws a text from the model starting at `start`, recording the draw.
    fn draw_from(&mut self, start: &str, min_words: i32, max_words: i32) -> (r: Option<String>)
        requires
            sentence_source(old(self).source()),
            source_fits(old(self).source()),
            0 <= min_words,
            1 <= max_words,
        ensures
            final(self).source() == old(self).source(),
            final(self).draws() == old(self).draws().push(text_view(r)),
            r matches Some(t) ==> exists|g: Seq<char>|
                #![trigger drawn_text(old(self).source(), g, 1, max_words as int)]
                t@ == start@ + " "@ + g && drawn_text(old(self).source(), g, 1, max_words as int),
    {
        let r = generate_text_from(&*self, start, min_words, max_words);
        self.draws = Ghost(self.draws@.push(text_view(r)));
        r
    }

    /// Draws a free text from the model, recording the draw.
    fn draw_free(&mut self, min_words: i32, max_words: i32) -> (r: Option<String>)
        requires
            sentence_source(old(self).source()),
            source_fits(old(self).source()),
            0 <= min_words,
            1 <= max_words,
        ensures
            final(self).source() == old(self).source(),
            final(self).draws() == old(self).draws().push(text_view(r)),
            r matches Some(t) ==> drawn_text(old(self).source(), t@, 1, max_words as int),
    {
        let r = generate_text(&*self, min_words, max_words);
        self.draws = Ghost(self.draws@.push(text_view(r)));
        r
    }
}

/// The text a generation gives, from the draws it made in order: with a
/// starter split into `others` and its last word, the continuation of the
/// first draw (from the last word) when it gave a text, else the second
/// draw (a free one); without a starter, the one free draw.
pub open spec fn chosen_text(
    start: Option<(Seq<char>, Seq<char>)>,
    draws: Seq<Option<Seq<char>>>,
) -> Option<Seq<char>> {
    match start {
        Some((others, _last)) => match draws[0] {
            Some(g) => Some(others + " "@ + g),
            None => draws[1],
        },
        None => draws[0],
    }
}

/// How many draws a generation makes: one free draw without a starter; with
/// one, the draw from its last word, and a free draw only when that gave
/// no text.
pub open spec fn draw_count(start: Option<(Seq<char>, Seq<char>)>, draws: Seq<Option<Seq<char>>>) -> int {
    match start {
        Some(_) => if draws[0] is Some {
            1
        } else {
            2
        },
        None => 1,
    }
}

/// The generation falls back on a free text exactly when the draw from the
/// starter's last word gives none: a text from that draw is always used,
/// prefixed by the starter's other words and a space; when it gives none,
/// the result is what the free draw gave, text or none; without a starter,
/// the result is the free draw.
pub proof fn law_falls_back_to_free_draw(
    others: Seq<char>,
    last: Seq<char>,
    draws: Seq<Option<Seq<char>>>,
)
    requires
        draws.len() >= 2,
    ensures
        draws[0] matches Some(g) ==> chosen_text(Some((others, last)), draws) == Some(others + " "@ + g)
            && draw_count(Some((others, last)), draws) == 1,
        draws[0] is None ==> chosen_text(Some((others, last)), draws) == draws[1] && draw_count(
            Some((others, last)),
            draws,
        ) == 2,
        chosen_text(None, draws) == draws[0] && draw_count(None, draws) == 1,
{
}

/// Generates from a model: from the starter's last word first (the starter
/// given as its other words and its last word), and freely when that gives
/// no text or there is no starter. Each draw is recorded in the model, and
/// the result is the text `chosen_text` picks from the draws made.
pub fn text_from_model(
    model: &mut MarkovModel,
    start: Option<(String, String)>,
    min_words: i32,
    max_words: i32,
) -> (r: Option<String>)
    requires
        sentence_source(old(model).source()),
        source_fits(old(model).source()),
        0 <= min_words,
        1 <= max_words,
    ensures
        final(model).source() == old(model).source(),
        ({
            let start_view = match start {
                Some((o, l)) => Some((o@, l@)),
                None => None,
            };
            let made = final(model).draws().skip(old(model).draws().len() as int);
            &&& final(model).draws().take(old(model).draws().len() as int) == old(model).draws()
            &&& made.len() >= 1
            &&& made.len() == draw_count(start_view, made)
            &&& text_view(r) == chosen_text(start_view, made)
        }),
        r matches Some(t) ==> match start {
            Some((o, l)) => drawn_text(old(model).source(), t@, 1, max_words as int) || exists|
                g: Seq<char>,
            |
                #![trigger drawn_text(old(model).source(), g, 1, max_words as int)]
                drawn_text(old(model).source(), g, 1, max_words as int) && t@ == o@ + " "@ + l@
                    + " "@ + g,
            None => drawn_text(old(model).source(), t@, 1, max_words as int),
        },
{
    let ghost before = model.draws();
    let ghost src = model.source();
    let ghost start_view = match &start {
        Some((o, l)) => Some((o@, l@)),
        None => None,
    };
    match start {
        Some((others, last)) => {
            let attempt = model.draw_from(last.as_str(), min_words, max_words);
            let ghost attempt_view = text_view(attempt);
            match attempt {
                Some(g) => {
                    let t = starter_text(others.as_str(), g.as_str());
                    proof {
                        let made = model.draws().skip(before.len() as int);
                        assert(made =~= seq![attempt_view]);
                        assert(model.draws().take(before.len() as int) =~= before);
                        let gg = choose|gg: Seq<char>|
                            #![trigger drawn_text(src, gg, 1, max_words as int)]
                            g@ == last@ + " "@ + gg && drawn_text(src, gg, 1, max_words as int);
                        assert(t@ =~= others@ + " "@ + last@ + " "@ + gg);
                    }
                    Some(t)
                },
                None => {
                    let r = model.draw_free(min_words, max_words);
                    proof {
                        let made = model.draws().skip(before.len() as int);
                        assert(made =~= seq![attempt_view, text_view(r)]);
                        assert(model.draws().take(before.len() as int) =~= before);
                    }
                    r
                },
            }
        },
        None => {
            let r = model.draw_free(min_words, max_words);
            proof {
                let made = model.draws().skip(before.len() as int);
                assert(made =~= seq![text_view(r)]);
                assert(model.draws().take(before.len() as int) =~= before);
            }
            r
        },
    }
}

/// A text that continues a starter: the starter's other words, a space, then
/// the text generated from its last word.
pub fn starter_text(others: &str, generated: &str) -> (r: String)
    ensures
        r@ == others@ + " "@ + generated@,
{
    let mut out: Vec<char> = Vec::new();
    push_str(&mut out, others);
    push_str(&mut out, " ");
    push_str(&mut out, generated);
    string_of(&out)
}

/// What a generation from the starter's last word leads to: when the
/// attempt gave a text, the starter's other words, a space and that text;
/// when it gave none, nothing, and the generation falls back to a free text.
pub fn continue_starter(others: &str, attempt: Option<String>) -> (r: Option<String>)
    ensures
        match attempt {
            Some(g) => r matches Some(t) && t@ == others@ + " "@ + g@,
            None => r is None,
        },
{
    match attempt {
        Some(g) => Some(starter_text(others, g.as_str())),
        None => None,
    }
}

/// The word bounds a generation asks for, from two draws: at least `low`
/// words (below 10) and at most 50 plus `high` (so 50 to 99).
pub fn word_bounds(low: usize, high: usize) -> (r: (i32, i32))
    requires
        low < 10,
        high < 50,
    ensures
        r.0 == low,
        r.1 == 50 + high,
{
    (low as i32, 50 + high as i32)
}

/// The most words a generated text has: the upper word bound drawn for a
/// generation is below 100.
pub open spec fn max_generated_words() -> int {
    99
}

/// What a generated text `t` is: with a starter that splits into its other
/// words `o` and last word `l`, either `o`, a space, `l`, a space and a text
/// drawn from the data, or (when nothing follows from `l`) a text drawn
/// freely; without a starter, a text drawn freely. A drawn text has one to
/// 99 words, each a word of the data.
pub open spec fn generated_text_ok(starter: Option<Seq<char>>, data: Seq<char>, t: Seq<char>) -> bool {
    let free = drawn_text(data, t, 1, max_generated_words());
    match starter {
        Some(s) => match starter_split(s) {
            Some((o, l)) => free || exists|g: Seq<char>|
                #![trigger drawn_text(data, g, 1, max_generated_words())]
                drawn_text(data, g, 1, max_generated_words()) && t == o + " "@ + l + " "@ + g,
            None => false,
        },
        None => free,
    }
}

/// What `generate` answers: nothing when `picked` names no allowed user, the
/// data is missing or empty, or the starter holds no word; otherwise the
/// user, no text when the model would take in no line of the data as a
/// sentence or the data has too many words, and any text it gives is
/// generated as `generated_text_ok` says.
pub open spec fn generation_ok(
    picked: i32,
    starter: Option<Seq<char>>,
    data: Option<Seq<char>>,
    r: Option<(Option<Seq<char>>, u64)>,
) -> bool {
    match (picked_user(picked), data) {
        (Some(u), Some(d)) => if d.len() == 0 || (starter matches Some(s) && starter_split(
            s,
        ) is None) {
            r is None
        } else {
            r matches Some((text, user)) && user == u && ((!sentence_source(d) || !source_fits(d))
                ==> text is None) && (text matches Some(t) ==> generated_text_ok(starter, d, t))
        },
        _ => r is None,
    }
}

/// Generates a text in the manner of the user under option `picked`, from
/// that user's messages (`data`, one message per line, `None` when they
/// could not be loaded), optionally continuing a starter text.
///
/// Nothing is generated (`None`) when `picked` names no allowed user, when
/// the data could not be loaded or is empty, or when a starter is given that
/// holds no word. Otherwise the result names the user, with the text when one
/// was generated: from the starter's last word, prefixed by the starter's
/// other words, or failing that freely, with between 0 and 9 words asked for
/// at least and between 50 and 99 at most. A text is only attempted on data
/// with a line the model takes in as a sentence (without one its chain has
/// no first word) and with fewer than `MAX_SOURCE_WORDS` words.
///
/// The bounds asked for come from `word_bounds` over two draws; the first
/// attempt is made from the last word that `split_starter` gives; and
/// `continue_starter` turns what that attempt gave into the continuation,
/// or into the fall-back to a free text when it gave none.
pub fn generate(picked: i32, starter: Option<String>, data: Option<String>) -> (r: Option<
    (Option<String>, u64),
>)
    ensures
        generation_ok(
            picked,
            match starter {
                Some(s) => Some(s@),
                None => None,
            },
            match data {
                Some(d) => Some(d@),
                None => None,
            },
            match r {
                Some((Some(t), u)) => Some((Some(t@), u)),
                Some((None, u)) => Some((None, u)),
                None => None,
            },
        ),
{
    let ghost starter_view = match &starter {
        Some(s) => Some(s@),
        None => None,
    };
    let user = match user_for_option(picked) {
        Some(u) => u,
        None => {
            return None;
        },
    };
    let data = match data {
        Some(d) => d,
        None => {
            return None;
        },
    };
    if data.as_str().is_empty() {
        return None;
    }
    let split_start = match &starter {
        Some(s) => match split_starter(s.as_str()) {
            Some(p) => Some(p),
            None => {
                return None;
            },
        },
        None => None,
    };
    let ghost d = data@;
    let cs = chars_of(data.as_str());
    let word_count = split_words(&cs).len();
    if word_count >= MAX_SOURCE_WORDS || !has_sentence_line(&cs) {
        return Some((None, user));
    }
    let mut model = MarkovModel::new(data);
    let (min_words, max_words) = word_bounds(random_below(10), random_below(50));
    let ghost start_view = match &split_start {
        Some((o, l)) => Some((o@, l@)),
        None => None,
    };
    let text = text_from_model(&mut model, split_start, min_words, max_words);
    proof {
        if text is Some {
            let t = text->0;
            if let Some((o, l)) = start_view {
                if !drawn_text(d, t@, 1, max_words as int) {
                    let gg = choose|gg: Seq<char>|
                        #![trigger drawn_text(d, gg, 1, max_words as int)]
                        drawn_text(d, gg, 1, max_words as int) && t@ == o + " "@ + l + " "@ + gg;
                    assert(drawn_text(d, gg, 1, max_generated_words()));
                }
            }
            assert(generated_text_ok(starter_view, d, t@));
        }
    }
    Some((text, user))
}

} // verus!
