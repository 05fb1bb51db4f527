//! The utility commands: search links, Urban Dictionary pages, amounts in
//! shorthand, server overviews, the configuration listing and the invite link.
use vstd::prelude::*;

use crate::emote::{mention, Emote};
use crate::outside::{lowercase, unicode_lowercase, unicode_uppercase, uppercase};
use crate::text::{
    chars_of, decimal, first_chars, join, join_with, push_chars, push_decimal, push_str,
    push_zero_padded, replace_all, replace_char, same_chars, signed_decimal, string_of, take_chars,
    text_of, trim, trimmed, zero_pad,
};

verus! {

/// The Google search link for a query: spaces become `+`.
pub fn google_link(query: &str) -> (r: String)
    ensures
        r@ == "https://www.google.com/search?q="@ + replace_char(query@, ' ', "+"@),
{
    let q = chars_of(query);
    let plus = chars_of("+");
    let mut out: Vec<char> = Vec::new();
    push_str(&mut out, "https://www.google.com/search?q=");
    push_chars(&mut out, &replace_all(&q, ' ', &plus));
    string_of(&out)
}

/// The nhentai link for a code.
pub fn nhentai_link(code: &str) -> (r: String)
    ensures
        r@ == "https://nhentai.net/g/"@ + code@,
{
    let mut out: Vec<char> = Vec::new();
    push_str(&mut out, "https://nhentai.net/g/");
    push_str(&mut out, code);
    string_of(&out)
}

/// The Urban Dictionary query for a term: spaces become `%20`.
pub fn urban_query_url(term: &str) -> (r: String)
    ensures
        r@ == "https://api.urbandictionary.com/v0/define?term="@ + replace_char(term@, ' ', "%20"@),
{
    let t = chars_of(term);
    let sp = chars_of("%20");
    let mut out: Vec<char> = Vec::new();
    push_str(&mut out, "https://api.urbandictionary.com/v0/define?term=");
    push_chars(&mut out, &replace_all(&t, ' ', &sp));
    string_of(&out)
}

/// An Urban Dictionary definition: its text, its example and its likes.
pub struct UrbanEntry {
    pub definition: String,
    pub example: String,
    pub likes: i32,
}

/// The plain values of a definition.
pub open spec fn urban_value(e: UrbanEntry) -> (Seq<char>, Seq<char>, i32) {
    (e.definition@, e.example@, e.likes)
}

/// The plain values of some definitions.
pub open spec fn urban_values(es: Seq<UrbanEntry>) -> Seq<(Seq<char>, Seq<char>, i32)> {
    es.map_values(|e: UrbanEntry| urban_value(e))
}

/// Where a definition goes among definitions sorted by likes: after every one
/// with as many likes or fewer, before the first with more.
pub open spec fn insert_pos(s: Seq<(Seq<char>, Seq<char>, i32)>, likes: i32) -> int
    decreases s.len(),
{
    if s.len() == 0 {
        0
    } else if s[0].2 > likes {
        0
    } else {
        insert_pos(s.drop_first(), likes) + 1
    }
}

/// Definitions sorted by likes, fewest first, keeping the given order among
/// definitions with as many likes (the order a stable sort leaves).
pub open spec fn sort_by_likes(s: Seq<(Seq<char>, Seq<char>, i32)>) -> Seq<
    (Seq<char>, Seq<char>, i32),
>
    decreases s.len(),
{
    if s.len() == 0 {
        Seq::empty()
    } else {
        let prev = sort_by_likes(s.drop_last());
        prev.insert(insert_pos(prev, s.last().2), s.last())
    }
}

/// The definitions are in order of likes, fewest first.
pub open spec fn sorted_by_likes(s: Seq<(Seq<char>, Seq<char>, i32)>) -> bool {
    forall|i: int, j: int| 0 <= i <= j < s.len() ==> s[i].2 <= s[j].2
}

/// The insertion position comes after every definition with as many likes
/// or fewer, and before one with more.
proof fn lemma_insert_pos(s: Seq<(Seq<char>, Seq<char>, i32)>, likes: i32)
    ensures
        0 <= insert_pos(s, likes) <= s.len(),
        forall|k: int| 0 <= k < insert_pos(s, likes) ==> #[trigger] s[k].2 <= likes,
        insert_pos(s, likes) < s.len() ==> s[insert_pos(s, likes)].2 > likes,
    decreases s.len(),
{
    if s.len() > 0 && s[0].2 <= likes {
        lemma_insert_pos(s.drop_first(), likes);
        assert forall|k: int| 0 <= k < insert_pos(s, likes) implies #[trigger] s[k].2 <= likes by {
            if k > 0 {
                assert(s[k] == s.drop_first()[k - 1]);
            }
        }
    }
}

/// Sorting the definitions by likes keeps every definition, as often as it
/// was given, and puts them in order of likes.
pub proof fn law_sort_by_likes(s: Seq<(Seq<char>, Seq<char>, i32)>)
    ensures
        sorted_by_likes(sort_by_likes(s)),
        sort_by_likes(s).to_multiset() == s.to_multiset(),
        sort_by_likes(s).len() == s.len(),
    decreases s.len(),
{
    broadcast use vstd::seq_lib::to_multiset_build, vstd::seq_lib::to_multiset_insert;

    if s.len() == 0 {
        assert(sort_by_likes(s) == Seq::<(Seq<char>, Seq<char>, i32)>::empty());
        assert(s =~= Seq::<(Seq<char>, Seq<char>, i32)>::empty());
    } else {
        let prev_in = s.drop_last();
        law_sort_by_likes(prev_in);
        let prev = sort_by_likes(prev_in);
        let x = s.last();
        let p = insert_pos(prev, x.2);
        lemma_insert_pos(prev, x.2);
        let r = prev.insert(p, x);
        assert(r == sort_by_likes(s));
        assert(s == prev_in.push(x));
        assert(prev.insert(p, x).to_multiset() == prev.to_multiset().insert(x));
        assert(prev_in.push(x).to_multiset() == prev_in.to_multiset().insert(x));
        assert forall|i: int, j: int| 0 <= i <= j < r.len() implies r[i].2 <= r[j].2 by {
            if j < p {
                assert(r[i] == prev[i] && r[j] == prev[j]);
            } else if j == p {
                if i < p {
                    assert(r[i] == prev[i]);
                }
            } else {
                assert(r[j] == prev[j - 1]);
                if i < p {
                    assert(r[i] == prev[i]);
                } else if i == p {
                    assert(prev[p].2 > x.2);
                    assert(prev[p].2 <= prev[j - 1].2);
                } else {
                    assert(r[i] == prev[i - 1]);
                }
            }
        }
    }
}

/// A copy of a definition.
fn copy_entry(e: &UrbanEntry) -> (r: UrbanEntry)
    ensures
        urban_value(r) == urban_value(*e),
{
    UrbanEntry { definition: e.definition.clone(), example: e.example.clone(), likes: e.likes }
}

/// Sorts definitions by likes, fewest first, keeping the given order among
/// definitions with as many likes.
pub fn sort_entries(entries: &Vec<UrbanEntry>) -> (r: Vec<UrbanEntry>)
    ensures
        urban_values(r@) == sort_by_likes(urban_values(entries@)),
{
    let ghost ev = urban_values(entries@);
    let mut out: Vec<UrbanEntry> = Vec::new();
    let mut i: usize = 0;
    while i < entries.len()
        invariant
            i <= entries.len(),
            ev == urban_values(entries@),
            urban_values(out@) == sort_by_likes(ev.take(i as int)),
        decreases entries.len() - i,
    {
        let e = &entries[i];
        let likes = e.likes;
        let ghost ov = urban_values(out@);
        proof {
            lemma_insert_pos(ov, likes);
        }
        let mut p: usize = 0;
        while p < out.len() && out[p].likes <= likes
            invariant
                p <= out.len(),
                ov == urban_values(out@),
                forall|k: int| 0 <= k < p ==> #[trigger] ov[k].2 <= likes,
                0 <= insert_pos(ov, likes) <= ov.len(),
                forall|k: int| 0 <= k < insert_pos(ov, likes) ==> #[trigger] ov[k].2 <= likes,
                insert_pos(ov, likes) < ov.len() ==> ov[insert_pos(ov, likes)].2 > likes,
            decreases out.len() - p,
        {
            assert(ov[p as int].2 == out@[p as int].likes);
            p = p + 1;
        }
        assert(p == insert_pos(ov, likes)) by {
            if p < out.len() {
                assert(ov[p as int].2 == out@[p as int].likes);
            }
        }
        out.insert(p, copy_entry(e));
        assert(ev.take(i as int + 1).drop_last() == ev.take(i as int));
        assert(ev.take(i as int + 1).last() == ev[i as int]);
        assert(ev[i as int] == urban_value(*e));
        assert(urban_values(out@) =~= ov.insert(p as int, ev[i as int]));
        i = i + 1;
    }
    assert(ev.take(entries.len() as int) == ev);
    out
}

/// The definitions to show for a term: an error when there are none, else the
/// definitions sorted by likes, fewest first.
pub fn urban_results(entries: &Vec<UrbanEntry>) -> (r: Result<Vec<UrbanEntry>, String>)
    ensures
        entries@.len() == 0 ==> (r matches Err(m) && m@ == "No results found"@),
        entries@.len() > 0 ==> (r matches Ok(v) && urban_values(v@) == sort_by_likes(
            urban_values(entries@),
        )),
{
    if entries.len() == 0 {
        let m = chars_of("No results found");
        return Err(string_of(&m));
    }
    Ok(sort_entries(entries))
}

/// A page of the Urban Dictionary answer.
pub struct UrbanPage {
    pub title: String,
    pub description: String,
}

/// The title of page `i` (from 0) of `total`: `{bot} | {term} [{i+1}/{total}]`.
pub open spec fn urban_title(bot: Seq<char>, term: Seq<char>, i: nat, total: nat) -> Seq<char> {
    bot + " | "@ + term + " ["@ + decimal(i + 1) + "/"@ + decimal(total) + "]"@
}

/// The text of a page: the definition and its example.
pub open spec fn urban_description(definition: Seq<char>, example: Seq<char>) -> Seq<char> {
    "**Definition:**\n"@ + definition + "\n\n**Example:**\n"@ + example
}

/// The pages of an Urban Dictionary answer, one per definition, in order.
pub fn urban_pages(bot_name: &str, term: &str, entries: &Vec<UrbanEntry>) -> (r: Vec<UrbanPage>)
    requires
        entries@.len() < u64::MAX,
    ensures
        r@.len() == entries@.len(),
        forall|i: int|
            0 <= i < r@.len() ==> (#[trigger] r@[i]).title@ == urban_title(
                bot_name@,
                term@,
                i as nat,
                entries@.len(),
            ) && r@[i].description@ == urban_description(
                entries@[i].definition@,
                entries@[i].example@,
            ),
{
    let total = entries.len();
    let mut pages: Vec<UrbanPage> = Vec::new();
    let mut i: usize = 0;
    while i < total
        invariant
            i <= total,
            total == entries@.len(),
            total < u64::MAX,
            pages@.len() == i,
            forall|k: int|
                0 <= k < i ==> (#[trigger] pages@[k]).title@ == urban_title(
                    bot_name@,
                    term@,
                    k as nat,
                    total as nat,
                ) && pages@[k].description@ == urban_description(
                    entries@[k].definition@,
                    entries@[k].example@,
                ),
        decreases total - i,
    {
        let e = &entries[i];
        let mut title: Vec<char> = Vec::new();
        push_str(&mut title, bot_name);
        push_str(&mut title, " | ");
        push_str(&mut title, term);
        push_str(&mut title, " [");
        push_decimal(&mut title, i as u64 + 1);
        push_str(&mut title, "/");
        push_decimal(&mut title, total as u64);
        push_str(&mut title, "]");
        let mut desc: Vec<char> = Vec::new();
        push_str(&mut desc, "**Definition:**\n");
        push_str(&mut desc, e.definition.as_str());
        push_str(&mut desc, "\n\n**Example:**\n");
        push_str(&mut desc, e.example.as_str());
        pages.push(UrbanPage { title: string_of(&title), description: string_of(&desc) });
        i = i + 1;
    }
    pages
}

/// What the command answers when the lookup fails.
pub fn urban_failure(reason: &str) -> (r: String)
    ensures
        r@ == "failed to get urban dictionary entry: "@ + reason@,
{
    let mut out: Vec<char> = Vec::new();
    push_str(&mut out, "failed to get urban dictionary entry: ");
    push_str(&mut out, reason);
    string_of(&out)
}

/// The multiplier a shorthand suffix stands for.
#[derive(Debug, Clone, Copy, PartialEq, Eq)]
pub enum Magnitude {
    /// No suffix.
    One,
    /// `k`: a thousand.
    Thousand,
    /// `m`: a million.
    Million,
    /// `b`: a billion.
    Billion,
    /// `t`: a trillion.
    Trillion,
    /// `q`: a quadrillion.
    Quadrillion,
}

/// The characters of `s` that are ASCII digits or `.`, in order.
pub open spec fn number_part(s: Seq<char>) -> Seq<char>
    decreases s.len(),
{
    if s.len() == 0 {
        Seq::empty()
    } else if is_number_char(s.last()) {
        number_part(s.drop_last()).push(s.last())
    } else {
        number_part(s.drop_last())
    }
}

/// The characters of `s` that are neither ASCII digits nor `.`, in order.
pub open spec fn suffix_part(s: Seq<char>) -> Seq<char>
    decreases s.len(),
{
    if s.len() == 0 {
        Seq::empty()
    } else if is_number_char(s.last()) {
        suffix_part(s.drop_last())
    } else {
        suffix_part(s.drop_last()).push(s.last())
    }
}

/// An ASCII digit or `.`.
pub open spec fn is_number_char(c: char) -> bool {
    (48 <= c as u32 && c as u32 <= 57) || c == '.'
}

/// The multiplier a (lower-cased) suffix stands for, if any.
pub open spec fn magnitude_of(suffix: Seq<char>) -> Option<Magnitude> {
    if suffix == Seq::<char>::empty() {
        Some(Magnitude::One)
    } else if suffix == "k"@ {
        Some(Magnitude::Thousand)
    } else if suffix == "m"@ {
        Some(Magnitude::Million)
    } else if suffix == "b"@ {
        Some(Magnitude::Billion)
    } else if suffix == "t"@ {
        Some(Magnitude::Trillion)
    } else if suffix == "q"@ {
        Some(Magnitude::Quadrillion)
    } else {
        None
    }
}

/// How an amount in shorthand (`1k`, `2.5M`) reads: the input is trimmed and
/// lower-cased; its digits and dots, in order, are the number, and its other
/// characters, lower-cased again, must be empty or one of `k`, `m`, `b`, `t`,
/// `q`. An empty input reads as nothing.
pub open spec fn shorthand_spec(input: Seq<char>) -> Option<(Seq<char>, Magnitude)> {
    let t = unicode_lowercase(trim(input));
    if t.len() == 0 {
        None
    } else {
        match magnitude_of(unicode_lowercase(suffix_part(t))) {
            Some(m) => Some((number_part(t), m)),
            None => None,
        }
    }
}

/// Splits an amount in shorthand into its number (still to be read as a
/// floating-point number) and the multiplier its suffix stands for.
pub fn split_shorthand(input: &str) -> (r: Option<(String, Magnitude)>)
    ensures
        match r {
            None => shorthand_spec(input@) is None,
            Some((n, m)) => shorthand_spec(input@) == Some((n@, m)),
        },
{
    let cs = chars_of(input);
    let t0 = string_of(&trimmed(&cs));
    let low = lowercase(t0.as_str());
    let t = chars_of(low.as_str());
    if t.len() == 0 {
        return None;
    }
    let mut num: Vec<char> = Vec::new();
    let mut suf: Vec<char> = Vec::new();
    let mut i: usize = 0;
    while i < t.len()
        invariant
            i <= t.len(),
            num@ == number_part(t@.take(i as int)),
            suf@ == suffix_part(t@.take(i as int)),
        decreases t.len() - i,
    {
        let c = t[i];
        assert(t@.take(i as int + 1).drop_last() == t@.take(i as int));
        let u: u32 = c as u32;
        if (48 <= u && u <= 57) || c == '.' {
            num.push(c);
        } else {
            suf.push(c);
        }
        i = i + 1;
    }
    assert(t@.take(t.len() as int) == t@);
    let sl = chars_of(lowercase(string_of(&suf).as_str()).as_str());
    let m = if sl.len() == 0 {
        assert(sl@ =~= Seq::<char>::empty());
        Magnitude::One
    } else if same_chars(&sl, &chars_of("k")) {
        Magnitude::Thousand
    } else if same_chars(&sl, &chars_of("m")) {
        Magnitude::Million
    } else if same_chars(&sl, &chars_of("b")) {
        Magnitude::Billion
    } else if same_chars(&sl, &chars_of("t")) {
        Magnitude::Trillion
    } else if same_chars(&sl, &chars_of("q")) {
        Magnitude::Quadrillion
    } else {
        assert(magnitude_of(sl@) is None);
        assert(shorthand_spec(input@) is None);
        return None;
    };
    assert(magnitude_of(sl@) == Some(m));
    Some((string_of(&num), m))
}

/// The amount a conversion is asked for: the given one without its commas,
/// or `1` when none is given.
pub fn amount_text(amount: Option<String>) -> (r: String)
    ensures
        match amount {
            Some(a) => r@ == replace_char(a@, ',', Seq::<char>::empty()),
            None => r@ == "1"@,
        },
{
    match amount {
        Some(a) => {
            let cs = chars_of(a.as_str());
            let empty: Vec<char> = Vec::new();
            string_of(&replace_all(&cs, ',', &empty))
        },
        None => string_of(&chars_of("1")),
    }
}

/// A year as `%Y` renders it: four digits, zero-padded, with a sign when it
/// is negative or has more than four digits.
pub open spec fn year_text(year: int) -> Seq<char> {
    if 0 <= year <= 9999 {
        zero_pad(decimal(year as nat), 4)
    } else if year < 0 {
        "-"@ + zero_pad(decimal((-year) as nat), 4)
    } else {
        "+"@ + zero_pad(decimal(year as nat), 4)
    }
}

/// A date as `YYYY-MM-DD` (the `%Y-%m-%d` of a date format).
pub open spec fn date_text(year: int, month: nat, day: nat) -> Seq<char> {
    year_text(year) + "-"@ + zero_pad(decimal(month), 2) + "-"@ + zero_pad(decimal(day), 2)
}

/// Renders a date as `YYYY-MM-DD`, the form in which rates are looked up.
pub fn get_date_string(year: i32, month: u32, day: u32) -> (r: String)
    requires
        1 <= month <= 12,
        1 <= day <= 31,
    ensures
        r@ == date_text(year as int, month as nat, day as nat),
{
    let mut out: Vec<char> = Vec::new();
    let mut digits: Vec<char> = Vec::new();
    if year < 0 {
        push_str(&mut out, "-");
        let a: u64 = if year == i32::MIN {
            2147483648u64
        } else {
            (-year) as u64
        };
        push_decimal(&mut digits, a);
    } else {
        if year > 9999 {
            push_str(&mut out, "+");
        }
        push_decimal(&mut digits, year as u64);
    }
    push_zero_padded(&mut out, &digits, 4);
    push_str(&mut out, "-");
    let mut m: Vec<char> = Vec::new();
    push_decimal(&mut m, month as u64);
    push_zero_padded(&mut out, &m, 2);
    push_str(&mut out, "-");
    let mut d: Vec<char> = Vec::new();
    push_decimal(&mut d, day as u64);
    push_zero_padded(&mut out, &d, 2);
    string_of(&out)
}

/// `s` without the copies of `c` at its end, as `str::trim_end_matches(c)`
/// leaves it.
pub open spec fn trim_end_char(s: Seq<char>, c: char) -> Seq<char>
    decreases s.len(),
{
    if s.len() > 0 && s.last() == c {
        trim_end_char(s.drop_last(), c)
    } else {
        s
    }
}

/// `s` without its trailing copies of `c`.
fn trimmed_end(s: &Vec<char>, c: char) -> (r: Vec<char>)
    ensures
        r@ == trim_end_char(s@, c),
{
    let mut n: usize = s.len();
    assert(s@.take(n as int) == s@);
    while n > 0 && s[n - 1] == c
        invariant
            n <= s.len(),
            trim_end_char(s@, c) == trim_end_char(s@.take(n as int), c),
        decreases n,
    {
        assert(s@.take(n as int).drop_last() == s@.take(n as int - 1));
        n = n - 1;
    }
    first_chars(s, n)
}

/// A number written with a fraction, without the zeros that end its
/// fraction and then without a trailing point: `0.12000000` becomes `0.12`,
/// `2.00000000` becomes `2`.
pub fn trim_fraction(number: &str) -> (r: String)
    ensures
        r@ == trim_end_char(trim_end_char(number@, '0'), '.'),
{
    let cs = chars_of(number);
    let t = trimmed_end(&cs, '0');
    string_of(&trimmed_end(&t, '.'))
}

/// The title of the conversion answer.
pub fn currency_title(bot_name: &str) -> (r: String)
    ensures
        r@ == bot_name@ + " | Currency Conversion"@,
{
    let mut out: Vec<char> = Vec::new();
    push_str(&mut out, bot_name);
    push_str(&mut out, " | Currency Conversion");
    string_of(&out)
}

/// The line of a conversion: the amount in the base currency and what it
/// comes to in the target currency, the currencies in upper case.
pub fn conversion_line(amount: &str, base: &str, converted: &str, target: &str) -> (r: String)
    ensures
        r@ == "**"@ + amount@ + " "@ + unicode_uppercase(base@) + " = "@ + converted@ + " "@
            + unicode_uppercase(target@) + "**"@,
{
    let mut out: Vec<char> = Vec::new();
    push_str(&mut out, "**");
    push_str(&mut out, amount);
    push_str(&mut out, " ");
    push_str(&mut out, uppercase(base).as_str());
    push_str(&mut out, " = ");
    push_str(&mut out, converted);
    push_str(&mut out, " ");
    push_str(&mut out, uppercase(target).as_str());
    push_str(&mut out, "**");
    string_of(&out)
}

/// What the conversion answers when there is no rate for the day.
pub fn no_rate_message(base: &str, target: &str, date: &str) -> (r: String)
    ensures
        r@ == "No exchange rate data available for "@ + unicode_uppercase(base@) + " to "@
            + unicode_uppercase(target@) + " on "@ + date@ + "."@,
{
    let mut out: Vec<char> = Vec::new();
    push_str(&mut out, "No exchange rate data available for ");
    push_str(&mut out, uppercase(base).as_str());
    push_str(&mut out, " to ");
    push_str(&mut out, uppercase(target).as_str());
    push_str(&mut out, " on ");
    push_str(&mut out, date);
    push_str(&mut out, ".");
    string_of(&out)
}

/// The examples of the conversion's usage, with the command's prefix and the
/// two example amounts as they are rendered.
pub fn conversion_example(prefix: &str, first_amount: &str, second_amount: &str) -> (r: String)
    ensures
        r@ == "`"@ + prefix@ + "convert MYR IDR "@ + first_amount@ + "`\n `"@ + prefix@
            + "convert IDR MYR "@ + second_amount@ + "`"@,
{
    let mut out: Vec<char> = Vec::new();
    push_str(&mut out, "`");
    push_str(&mut out, prefix);
    push_str(&mut out, "convert MYR IDR ");
    push_str(&mut out, first_amount);
    push_str(&mut out, "`\n `");
    push_str(&mut out, prefix);
    push_str(&mut out, "convert IDR MYR ");
    push_str(&mut out, second_amount);
    push_str(&mut out, "`");
    string_of(&out)
}

/// How the rates of a conversion came back.
#[derive(Debug, Clone, Copy, PartialEq, Eq)]
pub enum RateLookup {
    /// The rates could not be fetched.
    Failed,
    /// The rates came back without one for today.
    NoRateToday,
    /// The rates came back with one for today.
    Found,
}

/// Which answer a conversion gives.
#[derive(Debug, Clone, Copy, PartialEq, Eq)]
pub enum ConversionReply {
    /// How to use the command.
    Usage,
    /// The rates could not be fetched.
    FetchFailed,
    /// There is no rate for today.
    NoRate,
    /// The converted amount, its accuracy and the chart of the week.
    Converted,
}

/// Decides the answer of a conversion: its usage unless the base and target
/// currencies are given and the amount reads (`arguments_read`); then, by
/// how the rates came back (`lookup`, which only matters then).
pub fn conversion_reply(arguments_read: bool, lookup: RateLookup) -> (r: ConversionReply)
    ensures
        !arguments_read ==> r == ConversionReply::Usage,
        arguments_read && lookup == RateLookup::Failed ==> r == ConversionReply::FetchFailed,
        arguments_read && lookup == RateLookup::NoRateToday ==> r == ConversionReply::NoRate,
        arguments_read && lookup == RateLookup::Found ==> r == ConversionReply::Converted,
{
    if !arguments_read {
        return ConversionReply::Usage;
    }
    match lookup {
        RateLookup::Failed => ConversionReply::FetchFailed,
        RateLookup::NoRateToday => ConversionReply::NoRate,
        RateLookup::Found => ConversionReply::Converted,
    }
}

/// What a conversion shows while it works.
pub fn conversion_loading() -> (r: String)
    ensures
        r@ == "Loading..."@,
{
    text_of("Loading...")
}

/// What a conversion answers when the rates cannot be fetched.
pub fn fetch_failed_message() -> (r: String)
    ensures
        r@ == "Something went wrong while fetching rates. Please try again later."@,
{
    text_of("Something went wrong while fetching rates. Please try again later.")
}

/// The accuracy field of a conversion.
pub fn accuracy_text(accuracy: &str) -> (r: String)
    ensures
        r@ == "**"@ + accuracy@ + "**"@,
{
    let mut out: Vec<char> = Vec::new();
    push_str(&mut out, "**");
    push_str(&mut out, accuracy);
    push_str(&mut out, "**");
    string_of(&out)
}

/// The footer of a conversion.
pub fn conversion_footer() -> (r: String)
    ensures
        r@ == "The accuracy might be off by a few margins due to the data source."@,
{
    text_of("The accuracy might be off by a few margins due to the data source.")
}

/// The texts of the conversion's usage: its description, its arguments and
/// its note on shorthand amounts.
pub fn conversion_usage() -> (r: (String, String, String))
    ensures
        r.0@ == "Convert a currency from one to another."@,
        r.1@ == "```<FROM>: - What currency as a base\n<TO>: - What currency to convert it to\n<AMOUNT>: - The amount to convert```"@,
        r.2@ == "```You can use shorthand notation for amounts (e.g., 1k = 1000, 2.5M = 2500000, etc.)\nIt only goes up to 1Q (quadrillion).```"@,
{
    (
        text_of("Convert a currency from one to another."),
        text_of(
            "```<FROM>: - What currency as a base\n<TO>: - What currency to convert it to\n<AMOUNT>: - The amount to convert```",
        ),
        text_of(
            "```You can use shorthand notation for amounts (e.g., 1k = 1000, 2.5M = 2500000, etc.)\nIt only goes up to 1Q (quadrillion).```",
        ),
    )
}

/// What a server command answers outside a server, or when the server's
/// owner cannot be found.
pub fn server_failure(owner_missing: bool) -> (r: String)
    ensures
        !owner_missing ==> r@ == "This command can only be used in a server."@,
        owner_missing ==> r@ == "Failed to fetch the server owner."@,
{
    if owner_missing {
        text_of("Failed to fetch the server owner.")
    } else {
        text_of("This command can only be used in a server.")
    }
}

/// The kind of a channel, as the server overview counts them.
#[derive(Debug, Clone, Copy, PartialEq, Eq)]
pub enum ChannelKind {
    Category,
    Text,
    Voice,
    Other,
}

/// How many of the channels are of the kind (`0` category, `1` text, `2` voice).
pub open spec fn count_kind(kinds: Seq<ChannelKind>, k: int) -> nat
    decreases kinds.len(),
{
    if kinds.len() == 0 {
        0
    } else {
        count_kind(kinds.drop_last(), k) + if kind_index(kinds.last()) == k {
            1nat
        } else {
            0nat
        }
    }
}

/// The index of a kind: `0` category, `1` text, `2` voice, `3` anything else.
pub open spec fn kind_index(c: ChannelKind) -> int {
    match c {
        ChannelKind::Category => 0,
        ChannelKind::Text => 1,
        ChannelKind::Voice => 2,
        ChannelKind::Other => 3,
    }
}

/// The channel counts of the server overview.
pub fn channel_summary(kinds: &Vec<ChannelKind>) -> (r: String)
    requires
        kinds@.len() < u64::MAX,
    ensures
        r@ == "Category: "@ + decimal(count_kind(kinds@, 0)) + "\nText: "@ + decimal(
            count_kind(kinds@, 1),
        ) + "\nVoice: "@ + decimal(count_kind(kinds@, 2)),
{
    let mut c: u64 = 0;
    let mut t: u64 = 0;
    let mut v: u64 = 0;
    let mut i: usize = 0;
    while i < kinds.len()
        invariant
            i <= kinds.len(),
            kinds@.len() < u64::MAX,
            c == count_kind(kinds@.take(i as int), 0),
            t == count_kind(kinds@.take(i as int), 1),
            v == count_kind(kinds@.take(i as int), 2),
            c <= i && t <= i && v <= i,
        decreases kinds.len() - i,
    {
        assert(kinds@.take(i as int + 1).drop_last() == kinds@.take(i as int));
        match kinds[i] {
            ChannelKind::Category => {
                c = c + 1;
            },
            ChannelKind::Text => {
                t = t + 1;
            },
            ChannelKind::Voice => {
                v = v + 1;
            },
            ChannelKind::Other => {},
        }
        i = i + 1;
    }
    assert(kinds@.take(i as int) == kinds@);
    let mut out: Vec<char> = Vec::new();
    push_str(&mut out, "Category: ");
    push_decimal(&mut out, c);
    push_str(&mut out, "\nText: ");
    push_decimal(&mut out, t);
    push_str(&mut out, "\nVoice: ");
    push_decimal(&mut out, v);
    string_of(&out)
}

/// The main facts of the server overview: owner (mentioned), members, emotes
/// and roles.
pub fn server_summary(owner_id: u64, members: u64, emotes: u64, roles: u64) -> (r: String)
    ensures
        r@ == "Owner: <@"@ + decimal(owner_id as nat) + ">\nMembers: "@ + decimal(members as nat)
            + "\nEmotes: "@ + decimal(emotes as nat) + "\nRoles: "@ + decimal(roles as nat),
{
    let mut out: Vec<char> = Vec::new();
    push_str(&mut out, "Owner: <@");
    push_decimal(&mut out, owner_id);
    push_str(&mut out, ">\nMembers: ");
    push_decimal(&mut out, members);
    push_str(&mut out, "\nEmotes: ");
    push_decimal(&mut out, emotes);
    push_str(&mut out, "\nRoles: ");
    push_decimal(&mut out, roles);
    string_of(&out)
}

/// The pointers of the server overview to its emote and role listings.
pub fn server_hints(prefix: &str) -> (r: (String, String))
    ensures
        r.0@ == "To see a list with all emotes use `"@ + prefix@ + "server emotes`"@,
        r.1@ == "To see a list with all roles use `"@ + prefix@ + "server roles`"@,
{
    let mut e: Vec<char> = Vec::new();
    push_str(&mut e, "To see a list with all emotes use `");
    push_str(&mut e, prefix);
    push_str(&mut e, "server emotes`");
    let mut r: Vec<char> = Vec::new();
    push_str(&mut r, "To see a list with all roles use `");
    push_str(&mut r, prefix);
    push_str(&mut r, "server roles`");
    (string_of(&e), string_of(&r))
}

/// When the server was created, as Discord renders a timestamp.
pub fn created_at(unix_seconds: i64) -> (r: String)
    ensures
        r@ == "Created at: <t:"@ + signed_decimal(unix_seconds as int) + ":F>"@,
{
    let mut out: Vec<char> = Vec::new();
    push_str(&mut out, "Created at: <t:");
    crate::text::push_signed(&mut out, unix_seconds);
    push_str(&mut out, ":F>");
    string_of(&out)
}

/// The longest listing the server overview shows, in characters.
pub const LISTING_CHARS: usize = 1900;

/// The server's emotes, rendered one after the other with nothing between
/// them and cut to 1900 characters; a notice when there are none.
pub fn emote_listing(emotes: &Vec<Emote>) -> (r: String)
    ensures
        emotes@.len() == 0 ==> r@ == "No emotes found in this server."@,
        emotes@.len() > 0 ==> r@ == take_chars(
            join(
                emotes@.map_values(|e: Emote| mention(e.name@, e.id, e.animated)),
                Seq::<char>::empty(),
            ),
            1900,
        ),
{
    if emotes.len() == 0 {
        return string_of(&chars_of("No emotes found in this server."));
    }
    let mut parts: Vec<Vec<char>> = Vec::new();
    let mut i: usize = 0;
    while i < emotes.len()
        invariant
            i <= emotes.len(),
            parts@.len() == i,
            forall|k: int|
                0 <= k < i ==> #[trigger] parts@[k]@ == mention(
                    emotes@[k].name@,
                    emotes@[k].id,
                    emotes@[k].animated,
                ),
        decreases emotes.len() - i,
    {
        let e = &emotes[i];
        let mut m: Vec<char> = Vec::new();
        if e.animated {
            push_str(&mut m, "<a:");
        } else {
            push_str(&mut m, "<:");
        }
        push_str(&mut m, e.name.as_str());
        push_str(&mut m, ":");
        push_decimal(&mut m, e.id);
        push_str(&mut m, ">");
        parts.push(m);
        i = i + 1;
    }
    assert(parts@.map_values(|p: Vec<char>| p@) =~= emotes@.map_values(
        |e: Emote| mention(e.name@, e.id, e.animated),
    ));
    let empty: Vec<char> = Vec::new();
    let all = join_with(&parts, &empty);
    string_of(&first_chars(&all, LISTING_CHARS))
}

/// How Discord renders a role mention: `<@&id>`.
pub open spec fn role_mention(id: u64) -> Seq<char> {
    "<@&"@ + decimal(id as nat) + ">"@
}

/// The server's roles, mentioned and separated by `, `, cut to 1900
/// characters; a notice when there are none.
pub fn role_listing(role_ids: &Vec<u64>) -> (r: String)
    ensures
        role_ids@.len() == 0 ==> r@ == "No roles found in this server."@,
        role_ids@.len() > 0 ==> r@ == take_chars(
            join(role_ids@.map_values(|id: u64| role_mention(id)), ", "@),
            1900,
        ),
{
    if role_ids.len() == 0 {
        return string_of(&chars_of("No roles found in this server."));
    }
    let mut parts: Vec<Vec<char>> = Vec::new();
    let mut i: usize = 0;
    while i < role_ids.len()
        invariant
            i <= role_ids.len(),
            parts@.len() == i,
            forall|k: int| 0 <= k < i ==> #[trigger] parts@[k]@ == role_mention(role_ids@[k]),
        decreases role_ids.len() - i,
    {
        let mut m: Vec<char> = Vec::new();
        push_str(&mut m, "<@&");
        push_decimal(&mut m, role_ids[i]);
        push_str(&mut m, ">");
        parts.push(m);
        i = i + 1;
    }
    assert(parts@.map_values(|p: Vec<char>| p@) =~= role_ids@.map_values(
        |id: u64| role_mention(id),
    ));
    let sep = chars_of(", ");
    let all = join_with(&parts, &sep);
    string_of(&first_chars(&all, LISTING_CHARS))
}

/// The link that invites the bot with its permissions.
pub fn invite_link(client_id: u64) -> (r: String)
    ensures
        r@ == "https://discord.com/api/oauth2/authorize?client_id="@ + decimal(client_id as nat)
            + "&permissions=3758615632&scope=bot"@,
{
    let mut out: Vec<char> = Vec::new();
    push_str(&mut out, "https://discord.com/api/oauth2/authorize?client_id=");
    push_decimal(&mut out, client_id);
    push_str(&mut out, "&permissions=3758615632&scope=bot");
    string_of(&out)
}

/// How long a round trip took.
pub fn ping_text(ms: u64) -> (r: String)
    ensures
        r@ == "Time taken: "@ + decimal(ms as nat) + "ms"@,
{
    let mut out: Vec<char> = Vec::new();
    push_str(&mut out, "Time taken: ");
    push_decimal(&mut out, ms);
    push_str(&mut out, "ms");
    string_of(&out)
}

/// The host facts of the machine information: operating system and its
/// release, host name and architecture.
pub fn machine_main(os: &str, release: &str, host: &str, arch: &str) -> (r: String)
    ensures
        r@ == "**Operating System**: `"@ + os@ + "` [Release: `"@ + release@
            + "`]\n**Host name**: `"@ + host@ + "`\n**Machine**: `"@ + arch@ + "`\n"@,
{
    let mut out: Vec<char> = Vec::new();
    push_str(&mut out, "**Operating System**: `");
    push_str(&mut out, os);
    push_str(&mut out, "` [Release: `");
    push_str(&mut out, release);
    push_str(&mut out, "`]\n**Host name**: `");
    push_str(&mut out, host);
    push_str(&mut out, "`\n**Machine**: `");
    push_str(&mut out, arch);
    push_str(&mut out, "`\n");
    string_of(&out)
}

/// The footer of an answer: who asked, and the bot's version.
pub fn requested_by(name: &str, version: &str) -> (r: String)
    ensures
        r@ == "Requested by "@ + name@ + " | "@ + version@,
{
    let mut out: Vec<char> = Vec::new();
    push_str(&mut out, "Requested by ");
    push_str(&mut out, name);
    push_str(&mut out, " | ");
    push_str(&mut out, version);
    string_of(&out)
}

/// One option of a server's configuration: its name, its description if it
/// has one, and its value as JSON text.
pub struct ConfigOption {
    pub key: String,
    pub description: Option<String>,
    pub value: String,
}

/// The two lines of one option: its description (or a notice that it has
/// none) as a comment, then the option and its value.
pub open spec fn option_lines(key: Seq<char>, description: Option<Seq<char>>, value: Seq<char>) -> Seq<
    char,
> {
    "\t/// "@ + match description {
        Some(d) => d,
        None => "No description provided."@,
    } + "\n"@ + "\t"@ + key + ": "@ + value + "\n"@
}

/// The lines of the options, in order.
pub open spec fn options_text(opts: Seq<(Seq<char>, Option<Seq<char>>, Seq<char>)>) -> Seq<char>
    decreases opts.len(),
{
    if opts.len() == 0 {
        Seq::empty()
    } else {
        options_text(opts.drop_last()) + option_lines(
            opts.last().0,
            opts.last().1,
            opts.last().2,
        )
    }
}

/// The plain values of configuration options.
pub open spec fn option_values(opts: Seq<ConfigOption>) -> Seq<
    (Seq<char>, Option<Seq<char>>, Seq<char>),
> {
    opts.map_values(
        |o: ConfigOption|
            (
                o.key@,
                match o.description {
                    Some(d) => Some(d@),
                    None => None,
                },
                o.value@,
            ),
    )
}

/// The server configuration as the listing shows it: a JSON-like code block
/// with each option preceded by its description.
pub fn configuration_block(opts: &Vec<ConfigOption>) -> (r: String)
    ensures
        r@ == "```json\n{\n"@ + options_text(option_values(opts@)) + "}\n```"@,
{
    let ghost ov = option_values(opts@);
    let mut body: Vec<char> = Vec::new();
    let mut i: usize = 0;
    while i < opts.len()
        invariant
            i <= opts.len(),
            ov == option_values(opts@),
            body@ == options_text(ov.take(i as int)),
        decreases opts.len() - i,
    {
        let o = &opts[i];
        assert(ov.take(i as int + 1).drop_last() == ov.take(i as int));
        assert(ov[i as int] == (
            o.key@,
            match o.description {
                Some(d) => Some(d@),
                None => None,
            },
            o.value@,
        ));
        push_str(&mut body, "\t/// ");
        match &o.description {
            Some(d) => push_str(&mut body, d.as_str()),
            None => push_str(&mut body, "No description provided."),
        }
        push_str(&mut body, "\n");
        push_str(&mut body, "\t");
        push_str(&mut body, o.key.as_str());
        push_str(&mut body, ": ");
        push_str(&mut body, o.value.as_str());
        push_str(&mut body, "\n");
        assert(body@ =~= options_text(ov.take(i as int + 1)));
        i = i + 1;
    }
    assert(ov.take(i as int) == ov);
    let mut out: Vec<char> = Vec::new();
    push_str(&mut out, "```json\n{\n");
    push_chars(&mut out, &body);
    push_str(&mut out, "}\n```");
    string_of(&out)
}

/// The help of the configuration listing: the server's id and how to change
/// an option.
pub fn configuration_help(guild_id: u64, prefix: &str, command: &str) -> (r: String)
    ensures
        r@ == "**ID**: `"@ + decimal(guild_id as nat) + "`\nUse `"@ + prefix@ + command@
            + " set <option> <value>` to update a configuration option."@,
{
    let mut out: Vec<char> = Vec::new();
    push_str(&mut out, "**ID**: `");
    push_decimal(&mut out, guild_id);
    push_str(&mut out, "`\nUse `");
    push_str(&mut out, prefix);
    push_str(&mut out, command);
    push_str(&mut out, " set <option> <value>` to update a configuration option.");
    string_of(&out)
}

/// The answer to a changed option.
pub fn option_updated(option: &str, value: &str) -> (r: String)
    ensures
        r@ == "Configuration option `"@ + option@ + "` updated to `"@ + value@ + "`"@,
{
    let mut out: Vec<char> = Vec::new();
    push_str(&mut out, "Configuration option `");
    push_str(&mut out, option);
    push_str(&mut out, "` updated to `");
    push_str(&mut out, value);
    push_str(&mut out, "`");
    string_of(&out)
}

} // verus!
