//! The emote commands: reading emotes out of messages, deciding which emote a
//! removal names, where a clone takes its emotes from, and the search listing.
use vstd::prelude::*;

use crate::outside::{emote_matches, emote_pattern_matches, lowercase, unicode_lowercase};
use crate::text::{
    chars_of, count_char, decimal, has_prefix, join, join_with, law_decimal_round_trip,
    lemma_decimal_digits, lemma_split_concat, lemma_split_none, lemma_split_nonempty,
    lemma_strip_concat, lemma_strip_none, parse_number, parse_u64, push_chars, push_decimal,
    push_str, remove_angles, text_of, same_chars, split, split_on, starts_with, string_of, strip_angles,
    trim, trimmed,
};

verus! {

/// The `:`-separated parts of an emote as written in a message (`<a:name:id>`
/// or `<:name:id>`), once its `<` and `>` are removed.
pub open spec fn token_parts(token: Seq<char>) -> Seq<Seq<char>> {
    split_on(strip_angles(token), ':')
}

/// Where Discord serves the image of an emote: a GIF for an animated one, a
/// PNG otherwise.
pub open spec fn emote_link(animated: bool, id: Seq<char>) -> Seq<char> {
    "https://cdn.discordapp.com/emojis/"@ + id + if animated {
        ".gif"@
    } else {
        ".png"@
    }
}

/// An emote written in a message.
pub struct EmoteToken {
    pub animated: bool,
    pub name: String,
    pub id: String,
    pub link: String,
}

/// `t` is what the written emote `token` says.
pub open spec fn token_read(token: Seq<char>, t: EmoteToken) -> bool {
    let parts = token_parts(token);
    &&& t.animated == (parts[0] == "a"@)
    &&& t.name@ == parts[1]
    &&& t.id@ == parts[2]
    &&& t.link@ == emote_link(t.animated, parts[2])
}

/// Reads a written emote: whether it is animated (its first part is `a`), its
/// name, its id and the link to its image. The emote must hold two `:`.
pub fn parse_emote_token(token: &str) -> (r: EmoteToken)
    requires
        count_char(strip_angles(token@), ':') >= 2,
    ensures
        token_read(token@, r),
{
    let cs = chars_of(token);
    let cleaned = remove_angles(&cs);
    let parts = split(&cleaned, ':');
    proof {
        lemma_split_nonempty(cleaned@, ':');
    }
    let a = chars_of("a");
    let animated = same_chars(&parts[0], &a);
    let name = string_of(&parts[1]);
    let id = string_of(&parts[2]);
    let mut link: Vec<char> = Vec::new();
    push_str(&mut link, "https://cdn.discordapp.com/emojis/");
    push_chars(&mut link, &parts[2]);
    if animated {
        push_str(&mut link, ".gif");
    } else {
        push_str(&mut link, ".png");
    }
    EmoteToken { animated, name, id, link: string_of(&link) }
}

/// The emotes written in a message, in the order in which they appear.
pub fn find_emotes(content: &str) -> (r: Vec<EmoteToken>)
    ensures
        r@.len() == emote_pattern_matches(content@).len(),
        forall|i: int|
            0 <= i < r@.len() ==> token_read(emote_pattern_matches(content@)[i], #[trigger] r@[i]),
{
    let ms = emote_matches(content);
    let mut r: Vec<EmoteToken> = Vec::new();
    let mut i: usize = 0;
    while i < ms.len()
        invariant
            i <= ms.len(),
            ms@.map_values(|m: String| m@) == emote_pattern_matches(content@),
            forall|k: int|
                0 <= k < ms@.len() ==> count_char(strip_angles(#[trigger] ms@[k]@), ':') >= 2,
            r@.len() == i,
            forall|k: int|
                0 <= k < i ==> token_read(emote_pattern_matches(content@)[k], #[trigger] r@[k]),
        decreases ms.len() - i,
    {
        assert(ms@.map_values(|m: String| m@)[i as int] == ms@[i as int]@);
        let t = parse_emote_token(ms[i].as_str());
        r.push(t);
        i = i + 1;
    }
    r
}

/// The emotes a clone takes from a text, in order; when it holds none, the
/// answer that says so.
pub fn clone_targets(content: &str) -> (r: Result<Vec<EmoteToken>, String>)
    ensures
        emote_pattern_matches(content@).len() == 0 ==> (r matches Err(m) && m@
            == "No emote found in the message."@),
        emote_pattern_matches(content@).len() > 0 ==> (r matches Ok(v) && v@.len()
            == emote_pattern_matches(content@).len() && forall|i: int|
            0 <= i < v@.len() ==> token_read(emote_pattern_matches(content@)[i], #[trigger] v@[i])),
{
    let found = find_emotes(content);
    if found.len() == 0 {
        Err(text_of("No emote found in the message."))
    } else {
        Ok(found)
    }
}

/// What a clone answers when nothing to clone from is given.
pub fn clone_usage() -> (r: String)
    ensures
        r@ == "Supports: Direct URL, Reply, Emote"@,
{
    text_of("Supports: Direct URL, Reply, Emote")
}

/// What a clone shows before its first emote.
pub fn clone_started() -> (r: String)
    ensures
        r@ == "Loading!"@,
{
    text_of("Loading!")
}

/// What adding an emote answers when its image cannot be fetched.
pub fn image_fetch_failed() -> (r: String)
    ensures
        r@ == "Failed to fetch image from URL."@,
{
    text_of("Failed to fetch image from URL.")
}

/// What adding an emote answers when Discord refuses it.
pub fn add_failed_message(error: &str) -> (r: String)
    ensures
        r@ == "Failed to add emote: "@ + error@,
{
    let mut out: Vec<char> = Vec::new();
    push_str(&mut out, "Failed to add emote: ");
    push_str(&mut out, error);
    string_of(&out)
}

/// The progress line a clone shows after each emote.
pub fn clone_progress(done: u64, total: u64, success: u64, failed: u64) -> (r: String)
    ensures
        r@ == "Progress: "@ + decimal(done as nat) + "/"@ + decimal(total as nat)
            + " | Success: "@ + decimal(success as nat) + " | Failed: "@ + decimal(
            failed as nat,
        ),
{
    let mut out: Vec<char> = Vec::new();
    push_str(&mut out, "Progress: ");
    push_decimal(&mut out, done);
    push_str(&mut out, "/");
    push_decimal(&mut out, total);
    push_str(&mut out, " | Success: ");
    push_decimal(&mut out, success);
    push_str(&mut out, " | Failed: ");
    push_decimal(&mut out, failed);
    string_of(&out)
}

/// What became of one emote of a clone.
#[derive(Debug, Clone, Copy, PartialEq, Eq)]
pub enum CloneStep {
    /// Its image could not be fetched: it counts neither way.
    FetchFailed,
    /// The emote was created.
    Created,
    /// The image was fetched but the emote could not be created.
    CreateFailed,
}

/// The successes and failures of a clone after one more emote.
pub open spec fn tally_spec(success: nat, failed: nat, step: CloneStep) -> (nat, nat) {
    match step {
        CloneStep::FetchFailed => (success, failed),
        CloneStep::Created => (success + 1, failed),
        CloneStep::CreateFailed => (success, failed + 1),
    }
}

/// Counts one more emote of a clone: a created emote is a success, one that
/// could not be created a failure, and one whose image could not be fetched
/// neither.
pub fn tally_clone(success: u64, failed: u64, step: CloneStep) -> (r: (u64, u64))
    requires
        success < u64::MAX,
        failed < u64::MAX,
    ensures
        (r.0 as nat, r.1 as nat) == tally_spec(success as nat, failed as nat, step),
{
    match step {
        CloneStep::FetchFailed => (success, failed),
        CloneStep::Created => (success + 1, failed),
        CloneStep::CreateFailed => (success, failed + 1),
    }
}

/// Where a clone takes the emotes from.
#[derive(Debug, Clone, Copy, PartialEq, Eq)]
pub enum CloneSource {
    /// The message a link points at (`https://.../channel/message`).
    Link { channel: u64, message: u64 },
    /// The message with this id in the channel of the command.
    InChannel { message: u64 },
    /// The message the command replies to.
    Reference,
    /// Nothing was given: the command answers with its usage.
    Usage,
    /// The argument itself holds the emotes.
    Text,
}

/// The `/`-separated parts of a link.
pub open spec fn link_parts(arg: Seq<char>) -> Seq<Seq<char>> {
    split_on(arg, '/')
}

/// The inputs on which choosing a clone's source does not fail: a link ends in
/// a channel id and a message id, and an argument that reads as a number is a
/// message id (ids are never 0).
pub open spec fn clone_source_ok(arg: Seq<char>, reads_as_number: bool) -> bool {
    if has_prefix(arg, "https://"@) {
        let p = link_parts(arg);
        p.len() >= 2 && (parse_u64(p[p.len() - 2]) matches Some(c) && c != 0) && (parse_u64(
            p[p.len() - 1],
        ) matches Some(m) && m != 0)
    } else if reads_as_number {
        parse_u64(trim(arg)) matches Some(m) && m != 0
    } else {
        true
    }
}

/// The source a clone takes its emotes from.
pub open spec fn clone_source_spec(arg: Seq<char>, reads_as_number: bool, has_reference: bool) -> CloneSource {
    if has_prefix(arg, "https://"@) {
        let p = link_parts(arg);
        CloneSource::Link {
            channel: parse_u64(p[p.len() - 2])->0,
            message: parse_u64(p[p.len() - 1])->0,
        }
    } else if reads_as_number {
        CloneSource::InChannel { message: parse_u64(trim(arg))->0 }
    } else if has_reference {
        CloneSource::Reference
    } else if trim(arg).len() == 0 {
        CloneSource::Usage
    } else {
        CloneSource::Text
    }
}

/// Decides where a clone takes its emotes from.
///
/// A link (`https://...`) names a channel and a message by its last two
/// parts; an argument that reads as a number (`reads_as_number`, whether its
/// trimmed text parses as a floating-point number) is a message in the same
/// channel; otherwise the replied-to message, if any; an empty argument asks
/// for the usage; anything else is read for emotes itself.
pub fn clone_source(arg: &str, reads_as_number: bool, has_reference: bool) -> (r: CloneSource)
    requires
        clone_source_ok(arg@, reads_as_number),
    ensures
        r == clone_source_spec(arg@, reads_as_number, has_reference),
{
    let cs = chars_of(arg);
    let https = chars_of("https://");
    if starts_with(&cs, &https) {
        let parts = split(&cs, '/');
        let n = parts.len();
        let channel = parse_number(&parts[n - 2]);
        let message = parse_number(&parts[n - 1]);
        return CloneSource::Link { channel: channel.unwrap(), message: message.unwrap() };
    }
    if reads_as_number {
        let t = trimmed(&cs);
        let message = parse_number(&t);
        return CloneSource::InChannel { message: message.unwrap() };
    }
    if has_reference {
        return CloneSource::Reference;
    }
    let t = trimmed(&cs);
    if t.len() == 0 {
        CloneSource::Usage
    } else {
        CloneSource::Text
    }
}

/// How a removal finds its emote.
#[derive(Debug, Clone, Copy, PartialEq, Eq)]
pub enum RemoveLookup {
    /// The argument is a written emote with this id.
    ById(u64),
    /// The argument looks like a written emote but its id does not read.
    InvalidFormat,
    /// The argument is looked up as a name.
    ByName,
}

/// What a removal's argument names: a written emote (`<...:id>`) by the number
/// between its last `:` and the following `>`, anything else by name.
pub open spec fn remove_lookup_spec(arg: Seq<char>) -> RemoveLookup {
    if has_prefix(arg, "<"@) {
        let last = split_on(arg, ':').last();
        match parse_u64(split_on(last, '>')[0]) {
            Some(id) => RemoveLookup::ById(id),
            None => RemoveLookup::InvalidFormat,
        }
    } else {
        RemoveLookup::ByName
    }
}

/// Decides how a removal finds its emote.
pub fn remove_lookup(arg: &str) -> (r: RemoveLookup)
    ensures
        r == remove_lookup_spec(arg@),
{
    let cs = chars_of(arg);
    let lt = chars_of("<");
    if starts_with(&cs, &lt) {
        let parts = split(&cs, ':');
        proof {
            lemma_split_nonempty(cs@, ':');
        }
        let last = &parts[parts.len() - 1];
        let inner = split(last, '>');
        proof {
            lemma_split_nonempty(last@, '>');
        }
        match parse_number(&inner[0]) {
            Some(id) => RemoveLookup::ById(id),
            None => RemoveLookup::InvalidFormat,
        }
    } else {
        RemoveLookup::ByName
    }
}

/// How a removal ends.
#[derive(Debug, Clone, Copy, PartialEq, Eq)]
pub enum RemoveOutcome {
    /// The emote with this id is deleted.
    Delete(u64),
    /// The written emote's id does not read.
    InvalidFormat,
    /// The emote is not one the bot manages.
    NotManaged,
    /// No emote is found.
    NotFound,
}

/// How a removal ends, given how it looks the emote up, whether the id of a
/// written emote belongs to the bot, and the emote found by name (its id and
/// whether the bot manages it).
pub open spec fn remove_outcome_spec(
    lookup: RemoveLookup,
    id_is_ours: bool,
    named: Option<(u64, bool)>,
) -> RemoveOutcome {
    match lookup {
        RemoveLookup::InvalidFormat => RemoveOutcome::InvalidFormat,
        RemoveLookup::ById(id) => if !id_is_ours {
            RemoveOutcome::NotManaged
        } else if id != 0 {
            RemoveOutcome::Delete(id)
        } else {
            named_outcome(named)
        },
        RemoveLookup::ByName => named_outcome(named),
    }
}

/// How a removal by name ends.
pub open spec fn named_outcome(named: Option<(u64, bool)>) -> RemoveOutcome {
    match named {
        Some((id, ours)) => if !ours {
            RemoveOutcome::NotManaged
        } else if id != 0 {
            RemoveOutcome::Delete(id)
        } else {
            RemoveOutcome::NotFound
        },
        None => RemoveOutcome::NotFound,
    }
}

/// Decides how a removal ends. A written emote must belong to the bot; when
/// it does not name one (its id is 0) or the argument is a name, the emote of
/// that name must exist and belong to the bot.
pub fn remove_outcome(lookup: RemoveLookup, id_is_ours: bool, named: Option<(u64, bool)>) -> (r:
    RemoveOutcome)
    ensures
        r == remove_outcome_spec(lookup, id_is_ours, named),
{
    let mut target: u64 = 0;
    match lookup {
        RemoveLookup::InvalidFormat => {
            return RemoveOutcome::InvalidFormat;
        },
        RemoveLookup::ById(id) => {
            if !id_is_ours {
                return RemoveOutcome::NotManaged;
            }
            target = id;
        },
        RemoveLookup::ByName => {},
    }
    if target == 0 {
        if let Some((id, ours)) = named {
            if !ours {
                return RemoveOutcome::NotManaged;
            }
            target = id;
        }
    }
    if target != 0 {
        RemoveOutcome::Delete(target)
    } else {
        RemoveOutcome::NotFound
    }
}

/// What a removal answers when it deletes nothing.
pub open spec fn remove_reply_spec(outcome: RemoveOutcome) -> Option<Seq<char>> {
    match outcome {
        RemoveOutcome::Delete(_) => None,
        RemoveOutcome::InvalidFormat => Some("Invalid emoji format."@),
        RemoveOutcome::NotManaged => Some("Not managed by Moete, can't delete."@),
        RemoveOutcome::NotFound => Some("Emote not found."@),
    }
}

/// The answer to a removal that deletes nothing; none when the emote is to
/// be deleted.
pub fn remove_reply(outcome: RemoveOutcome) -> (r: Option<String>)
    ensures
        match r {
            Some(t) => remove_reply_spec(outcome) == Some(t@),
            None => remove_reply_spec(outcome) is None,
        },
{
    match outcome {
        RemoveOutcome::Delete(_) => None,
        RemoveOutcome::InvalidFormat => Some(string_of(&chars_of("Invalid emoji format."))),
        RemoveOutcome::NotManaged => Some(string_of(&chars_of("Not managed by Moete, can't delete."))),
        RemoveOutcome::NotFound => Some(string_of(&chars_of("Emote not found."))),
    }
}

/// The answer to a deletion, given whether Discord deleted the emote (`Err`
/// with its error otherwise) and then whether the bot's list still held it:
/// a deleted emote that was listed is reported, one that was not is passed
/// over in silence.
pub fn deletion_reply(deleted: Result<bool, String>) -> (r: Option<String>)
    ensures
        deleted matches Ok(true) ==> (r matches Some(t) && t@ == "Emote deleted successfully."@),
        deleted matches Ok(false) ==> r is None,
        deleted matches Err(e) ==> (r matches Some(t) && t@ == "Failed to delete emote: "@ + e@),
{
    match deleted {
        Ok(true) => Some(string_of(&chars_of("Emote deleted successfully."))),
        Ok(false) => None,
        Err(e) => {
            let mut out: Vec<char> = Vec::new();
            push_str(&mut out, "Failed to delete emote: ");
            push_str(&mut out, e.as_str());
            Some(string_of(&out))
        },
    }
}

/// Whether an emote named `name` already exists among `names`, comparing
/// Unicode lower case.
pub fn emote_exists(names: &Vec<String>, name: &str) -> (r: bool)
    ensures
        r == exists|i: int|
            0 <= i < names@.len() && unicode_lowercase(#[trigger] names@[i]@) == unicode_lowercase(
                name@,
            ),
{
    let target = chars_of(lowercase(name).as_str());
    let mut i: usize = 0;
    while i < names.len()
        invariant
            i <= names.len(),
            target@ == unicode_lowercase(name@),
            forall|k: int|
                0 <= k < i ==> unicode_lowercase(#[trigger] names@[k]@) != unicode_lowercase(
                    name@,
                ),
        decreases names.len() - i,
    {
        let l = chars_of(lowercase(names[i].as_str()).as_str());
        if same_chars(&l, &target) {
            return true;
        }
        i = i + 1;
    }
    false
}

/// The data URL under which a PNG image, given in base64, is uploaded.
pub fn png_data_url(base64: &str) -> (r: String)
    ensures
        r@ == "data:image/png;base64,"@ + base64@,
{
    let mut out: Vec<char> = Vec::new();
    push_str(&mut out, "data:image/png;base64,");
    push_str(&mut out, base64);
    string_of(&out)
}

/// An emote the bot manages.
pub struct Emote {
    pub name: String,
    pub id: u64,
    pub animated: bool,
}

/// How Discord renders an emote in a message: `<a:name:id>` when animated,
/// `<:name:id>` otherwise.
pub open spec fn mention(name: Seq<char>, id: u64, animated: bool) -> Seq<char> {
    (if animated {
        "<a:"@
    } else {
        "<:"@
    }) + name + ":"@ + decimal(id as nat) + ">"@
}

/// Appends the rendering of an emote to `out`.
fn push_mention(out: &mut Vec<char>, e: &Emote)
    ensures
        final(out)@ == old(out)@ + mention(e.name@, e.id, e.animated),
{
    if e.animated {
        push_str(out, "<a:");
    } else {
        push_str(out, "<:");
    }
    push_str(out, e.name.as_str());
    push_str(out, ":");
    push_decimal(out, e.id);
    push_str(out, ">");
}

/// What adding an emote answers when the name is taken.
pub fn name_taken_message(name: &str) -> (r: String)
    ensures
        r@ == "Emote with name `"@ + name@ + "` already exists."@,
{
    let mut out: Vec<char> = Vec::new();
    push_str(&mut out, "Emote with name `");
    push_str(&mut out, name);
    push_str(&mut out, "` already exists.");
    string_of(&out)
}

/// What adding an emote answers once it is created: the emote, rendered,
/// and its name.
pub fn added_emote_message(e: &Emote) -> (r: String)
    ensures
        r@ == "Added emote: "@ + mention(e.name@, e.id, e.animated) + " "@ + e.name@,
{
    let mut out: Vec<char> = Vec::new();
    push_str(&mut out, "Added emote: ");
    push_mention(&mut out, e);
    push_str(&mut out, " ");
    push_str(&mut out, e.name.as_str());
    string_of(&out)
}

/// `true` or `false`, as a `bool` displays.
pub open spec fn bool_text(b: bool) -> Seq<char> {
    if b {
        "true"@
    } else {
        "false"@
    }
}

/// Appends `true` or `false`.
fn push_bool(out: &mut Vec<char>, b: bool)
    ensures
        final(out)@ == old(out)@ + bool_text(b),
{
    if b {
        push_str(out, "true");
    } else {
        push_str(out, "false");
    }
}

/// The main facts of an emote's information: its name, its id and the
/// server it comes from (`Unknown` when not known).
pub fn emote_info_main(name: &str, id: u64, guild: Option<u64>) -> (r: String)
    ensures
        r@ == "Name: "@ + name@ + "\nID: "@ + decimal(id as nat) + "\nFrom: "@ + match guild {
            Some(g) => decimal(g as nat),
            None => "Unknown"@,
        },
{
    let mut out: Vec<char> = Vec::new();
    push_str(&mut out, "Name: ");
    push_str(&mut out, name);
    push_str(&mut out, "\nID: ");
    push_decimal(&mut out, id);
    push_str(&mut out, "\nFrom: ");
    match guild {
        Some(g) => push_decimal(&mut out, g),
        None => push_str(&mut out, "Unknown"),
    }
    string_of(&out)
}

/// The metadata of an emote's information.
pub fn emote_info_metadata(animated: bool, managed: bool, available: bool) -> (r: String)
    ensures
        r@ == "Animated: "@ + bool_text(animated) + "\nManaged: "@ + bool_text(managed)
            + "\nAvailable: "@ + bool_text(available),
{
    let mut out: Vec<char> = Vec::new();
    push_str(&mut out, "Animated: ");
    push_bool(&mut out, animated);
    push_str(&mut out, "\nManaged: ");
    push_bool(&mut out, managed);
    push_str(&mut out, "\nAvailable: ");
    push_bool(&mut out, available);
    string_of(&out)
}

/// The link line of an emote's information: where its image is served.
pub fn emote_info_link(id: u64, animated: bool) -> (r: String)
    ensures
        r@ == "**Link**: "@ + emote_link(animated, decimal(id as nat)),
{
    let mut out: Vec<char> = Vec::new();
    push_str(&mut out, "**Link**: ");
    push_str(&mut out, "https://cdn.discordapp.com/emojis/");
    push_decimal(&mut out, id);
    if animated {
        push_str(&mut out, ".gif");
    } else {
        push_str(&mut out, ".png");
    }
    string_of(&out)
}

/// The commands the emote help lists, each with what it does.
pub open spec fn emote_commands() -> Seq<(Seq<char>, Seq<char>)> {
    seq![
        ("search"@, "Search emote"@),
        ("list"@, "List all emotes"@),
        ("info"@, "Get EmoteManager info / Emote info"@),
        ("add*"@, "Add an emote to the bot"@),
        ("delete*"@, "Delete an emote from the bot"@),
        ("rename*"@, "Rename an emote in the bot"@),
        ("steal*"@, "Steal an emote from a message"@),
        ("stealmultiple*"@, "Same thing as `steal` but with multiple message IDs"@),
    ]
}

/// The command list of the emote help: one line per command, its name in
/// code and what it does.
pub fn emote_help() -> (r: String)
    ensures
        r@ == join(
            emote_commands().map_values(
                |c: (Seq<char>, Seq<char>)| "`"@ + c.0 + "`: "@ + c.1,
            ),
            "\n"@,
        ),
{
    let cmds: Vec<(&str, &str)> = vec![
        ("search", "Search emote"),
        ("list", "List all emotes"),
        ("info", "Get EmoteManager info / Emote info"),
        ("add*", "Add an emote to the bot"),
        ("delete*", "Delete an emote from the bot"),
        ("rename*", "Rename an emote in the bot"),
        ("steal*", "Steal an emote from a message"),
        ("stealmultiple*", "Same thing as `steal` but with multiple message IDs"),
    ];
    let ghost spec_cmds = emote_commands();
    assert(cmds@.map_values(|c: (&str, &str)| (c.0@, c.1@)) =~= spec_cmds);
    let mut lines: Vec<Vec<char>> = Vec::new();
    let mut i: usize = 0;
    while i < cmds.len()
        invariant
            i <= cmds.len(),
            cmds@.map_values(|c: (&str, &str)| (c.0@, c.1@)) == spec_cmds,
            spec_cmds == emote_commands(),
            lines@.len() == i,
            forall|k: int|
                0 <= k < i ==> #[trigger] lines@[k]@ == "`"@ + spec_cmds[k].0 + "`: "@ + spec_cmds[k].1,
        decreases cmds.len() - i,
    {
        let (name, what) = cmds[i];
        assert(spec_cmds[i as int] == (name@, what@));
        let mut line: Vec<char> = Vec::new();
        push_str(&mut line, "`");
        push_str(&mut line, name);
        push_str(&mut line, "`: ");
        push_str(&mut line, what);
        lines.push(line);
        i = i + 1;
    }
    assert(lines@.map_values(|l: Vec<char>| l@) =~= spec_cmds.map_values(
        |c: (Seq<char>, Seq<char>)| "`"@ + c.0 + "`: "@ + c.1,
    ));
    let nl = chars_of("\n");
    string_of(&join_with(&lines, &nl))
}

/// How many emotes a search page lists.
pub const SEARCH_PAGE_SIZE: usize = 20;

/// The page count the search header shows: the number of emotes divided by
/// 20, plus one.
pub open spec fn shown_pages(n: nat) -> nat {
    n / 20 + 1
}

/// What the header names the query: `All` when it is empty.
pub open spec fn query_display(query: Seq<char>) -> Seq<char> {
    if query.len() == 0 {
        "All"@
    } else {
        query
    }
}

/// The line of one emote: its rendering and its name.
pub open spec fn emote_line(e: (Seq<char>, u64, bool)) -> Seq<char> {
    mention(e.0, e.1, e.2) + " "@ + e.0
}

/// The text of search page `p` (counted from 0).
pub open spec fn search_page(es: Seq<(Seq<char>, u64, bool)>, query: Seq<char>, p: int) -> Seq<
    char,
> {
    let lo = p * 20;
    let hi = if lo + 20 < es.len() {
        lo + 20
    } else {
        es.len() as int
    };
    "**Emote | List [Page: "@ + decimal((p + 1) as nat) + "/"@ + decimal(shown_pages(es.len()))
        + "]**\n**Query**: `"@ + query_display(query) + "`\n"@ + join(
        es.subrange(lo, hi).map_values(|e: (Seq<char>, u64, bool)| emote_line(e)),
        "\n"@,
    )
}

/// The plain values of some emotes.
pub open spec fn emote_values(es: Seq<Emote>) -> Seq<(Seq<char>, u64, bool)> {
    es.map_values(|e: Emote| (e.name@, e.id, e.animated))
}

/// The pages of a search: twenty emotes to a page, each page headed by its
/// number, the page count shown (`emotes / 20 + 1`) and the query. No emotes,
/// no pages.
pub fn search_pages(emotes: &Vec<Emote>, query: &str) -> (r: Vec<String>)
    ensures
        r@.len() == (emotes@.len() + 19) / 20,
        forall|p: int|
            0 <= p < r@.len() ==> #[trigger] r@[p]@ == search_page(emote_values(emotes@), query@, p),
{
    let ghost es = emote_values(emotes@);
    let n = emotes.len();
    let mut header_tail: Vec<char> = Vec::new();
    push_str(&mut header_tail, "/");
    push_decimal(&mut header_tail, (n / SEARCH_PAGE_SIZE + 1) as u64);
    push_str(&mut header_tail, "]**\n**Query**: `");
    let q = chars_of(query);
    if q.len() == 0 {
        push_str(&mut header_tail, "All");
    } else {
        push_chars(&mut header_tail, &q);
    }
    push_str(&mut header_tail, "`\n");
    let nl = chars_of("\n");
    let mut pages: Vec<String> = Vec::new();
    if n == 0 {
        return pages;
    }
    let mut lo: usize = 0;
    loop
        invariant_except_break
            lo < n,
            pages@.len() == lo / 20,
        invariant
            n == emotes@.len(),
            es == emote_values(emotes@),
            lo % 20 == 0,
            header_tail@ == "/"@ + decimal(shown_pages(n as nat)) + "]**\n**Query**: `"@
                + query_display(query@) + "`\n"@,
            nl@ == "\n"@,
            forall|p: int|
                0 <= p < pages@.len() ==> #[trigger] pages@[p]@ == search_page(es, query@, p),
        ensures
            pages@.len() == (n + 19) / 20,
            forall|p: int|
                0 <= p < pages@.len() ==> #[trigger] pages@[p]@ == search_page(es, query@, p),
        decreases n - lo,
    {
        let hi: usize = if n - lo > SEARCH_PAGE_SIZE {
            lo + SEARCH_PAGE_SIZE
        } else {
            n
        };
        let mut lines: Vec<Vec<char>> = Vec::new();
        let mut k: usize = lo;
        while k < hi
            invariant
                lo <= k <= hi,
                hi <= n,
                n == emotes@.len(),
                es == emote_values(emotes@),
                lines@.len() == k - lo,
                forall|t: int|
                    0 <= t < lines@.len() ==> #[trigger] lines@[t]@ == emote_line(es[lo + t]),
            decreases hi - k,
        {
            let e = &emotes[k];
            let mut line: Vec<char> = Vec::new();
            push_mention(&mut line, e);
            push_str(&mut line, " ");
            push_str(&mut line, e.name.as_str());
            assert(es[k as int] == (e.name@, e.id, e.animated));
            lines.push(line);
            k = k + 1;
        }
        let body = join_with(&lines, &nl);
        let mut page: Vec<char> = Vec::new();
        push_str(&mut page, "**Emote | List [Page: ");
        push_decimal(&mut page, (lo / SEARCH_PAGE_SIZE + 1) as u64);
        push_chars(&mut page, &header_tail);
        push_chars(&mut page, &body);
        proof {
            let p = (lo / 20) as int;
            assert(p * 20 == lo);
            assert(lines@.map_values(|l: Vec<char>| l@) =~= es.subrange(lo as int, hi as int).map_values(
                |e: (Seq<char>, u64, bool)| emote_line(e),
            ));
            assert(page@ =~= search_page(es, query@, p));
        }
        pages.push(string_of(&page));
        if hi == n {
            assert(pages@.len() == (n + 19) / 20) by {
                assert(lo / 20 + 1 == (n + 19) / 20);
            }
            break;
        }
        lo = hi;
    }
    pages
}

/// What a search with no result answers.
pub fn no_emotes_found(query: &str) -> (r: String)
    ensures
        r@ == "No emotes found for query: `"@ + query@ + "`"@,
{
    let mut out: Vec<char> = Vec::new();
    push_str(&mut out, "No emotes found for query: `");
    push_str(&mut out, query);
    push_str(&mut out, "`");
    string_of(&out)
}

/// The message sent in the author's name when no webhook can carry it:
/// `{message} - {author}`.
pub fn fallback_text(message: &str, author: &str) -> (r: String)
    ensures
        r@ == message@ + " - "@ + author@,
{
    let mut out: Vec<char> = Vec::new();
    push_str(&mut out, message);
    push_str(&mut out, " - ");
    push_str(&mut out, author);
    string_of(&out)
}


/// A name an emote can be rendered with and read back: no `:`, `<` or `>`.
pub open spec fn plain_emote_name(name: Seq<char>) -> bool {
    forall|i: int| 0 <= i < name.len() ==> #[trigger] name[i] != ':' && name[i] != '<' && name[i] != '>'
}

/// Reading a rendered emote gives the emote back: its animation, its name and
/// its id come out of `parse_emote_token`, and a removal given the rendered
/// emote looks it up by its id.
#[verifier::spinoff_prover]
#[verifier::rlimit(40)]
pub proof fn law_rendered_emote_reads_back(name: Seq<char>, id: u64, animated: bool)
    requires
        plain_emote_name(name),
    ensures
        count_char(strip_angles(mention(name, id, animated)), ':') >= 2,
        (token_parts(mention(name, id, animated))[0] == "a"@) == animated,
        token_parts(mention(name, id, animated))[1] == name,
        parse_u64(token_parts(mention(name, id, animated))[2]) == Some(id),
        remove_lookup_spec(mention(name, id, animated)) == RemoveLookup::ById(id),
{
    reveal_strlit("<a:");
    reveal_strlit("<:");
    reveal_strlit(":");
    reveal_strlit(">");
    reveal_strlit("a");
    reveal_strlit("<");
    let d = decimal(id as nat);
    lemma_decimal_digits(id as nat);
    law_decimal_round_trip(id);
    assert forall|i: int| 0 <= i < d.len() implies #[trigger] d[i] != ':' && d[i] != '<' && d[i]
        != '>' && d[i] != '>' by {
        assert(48 <= (d[i]) as u32 <= 57);
    }
    let head: Seq<char> = if animated {
        seq!['a']
    } else {
        Seq::empty()
    };
    let m = mention(name, id, animated);
    assert(m == seq!['<'] + head + seq![':'] + name + seq![':'] + d + seq!['>']);
    // Removing the angles leaves `head:name:id`.
    let tail = name + seq![':'] + d;
    lemma_strip_concat(seq!['<'], head + seq![':'] + name + seq![':'] + d + seq!['>']);
    assert(seq!['<'] + (head + seq![':'] + name + seq![':'] + d + seq!['>']) == m);
    assert(strip_angles(seq!['<']) == Seq::<char>::empty()) by {
        assert(seq!['<'].drop_last() == Seq::<char>::empty());
        assert(strip_angles(Seq::<char>::empty()) == Seq::<char>::empty());
    }
    lemma_strip_concat(head + seq![':'] + name + seq![':'] + d, seq!['>']);
    assert(strip_angles(seq!['>']) == Seq::<char>::empty()) by {
        assert(seq!['>'].drop_last() == Seq::<char>::empty());
        assert(strip_angles(Seq::<char>::empty()) == Seq::<char>::empty());
    }
    let inner = head + seq![':'] + name + seq![':'] + d;
    assert forall|i: int| 0 <= i < inner.len() implies #[trigger] inner[i] != '<' && inner[i]
        != '>' by {
        if i < head.len() {
        } else if i == head.len() {
        } else if i < head.len() + 1 + name.len() {
            assert(inner[i] == name[i - head.len() - 1]);
        } else if i == head.len() + 1 + name.len() {
        } else {
            assert(inner[i] == d[i - head.len() - 2 - name.len()]);
        }
    }
    lemma_strip_none(inner);
    assert(strip_angles(m) == inner);
    // Splitting `head:name:id` on `:`.
    assert(inner == head + seq![':'] + tail);
    lemma_split_concat(head, tail, ':');
    assert(tail == name + seq![':'] + d);
    lemma_split_concat(name, d, ':');
    assert forall|i: int| 0 <= i < head.len() implies #[trigger] head[i] != ':' by {}
    lemma_split_none(head, ':');
    lemma_split_none(name, ':');
    lemma_split_none(d, ':');
    let parts = token_parts(m);
    assert(parts == seq![head] + (seq![name] + seq![d]));
    assert(parts[0] == head);
    assert(parts[1] == name);
    assert(parts[2] == d);
    assert(seq!['a'] == "a"@);
    if !animated {
        assert(head.len() != ("a"@).len());
    }
    lemma_split_nonempty(inner, ':');
    // The removal's lookup.
    let front = seq!['<'] + head;
    let back = d + seq!['>'];
    assert(m == front + seq![':'] + (name + seq![':'] + back));
    lemma_split_concat(front, name + seq![':'] + back, ':');
    lemma_split_concat(name, back, ':');
    assert forall|i: int| 0 <= i < back.len() implies #[trigger] back[i] != ':' by {
        if i < d.len() {
            assert(back[i] == d[i]);
        }
    }
    lemma_split_none(back, ':');
    lemma_split_nonempty(front, ':');
    assert(split_on(m, ':').last() == back);
    assert(back == d + seq!['>'] + Seq::<char>::empty());
    lemma_split_concat(d, Seq::<char>::empty(), '>');
    assert forall|i: int| 0 <= i < d.len() implies #[trigger] d[i] != '>' by {}
    lemma_split_none(d, '>');
    assert(split_on(back, '>')[0] == d);
    assert("<"@ =~= seq!['<']);
    assert(m[0] == '<');
    assert(m.subrange(0, 1) =~= seq!['<']);
    assert(has_prefix(m, "<"@));
}


/// A clone that replies to a message takes its emotes from that message,
/// whatever its argument says, unless the argument is a link or reads as a
/// number; without a reply, an empty argument asks for the usage and any
/// other argument is read for emotes itself.
pub proof fn law_clone_prefers_reply(arg: Seq<char>, reads_as_number: bool)
    ensures
        !has_prefix(arg, "https://"@) && !reads_as_number ==> clone_source_spec(
            arg,
            reads_as_number,
            true,
        ) == CloneSource::Reference,
        !has_prefix(arg, "https://"@) && !reads_as_number && trim(arg).len() == 0
            ==> clone_source_spec(arg, reads_as_number, false) == CloneSource::Usage,
        !has_prefix(arg, "https://"@) && !reads_as_number && trim(arg).len() > 0
            ==> clone_source_spec(arg, reads_as_number, false) == CloneSource::Text,
        reads_as_number && !has_prefix(arg, "https://"@) ==> clone_source_spec(
            arg,
            reads_as_number,
            true,
        ) is InChannel,
{
}

} // verus!
