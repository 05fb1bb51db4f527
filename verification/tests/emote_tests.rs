use moete::emote::{
    clone_progress, clone_source, emote_exists, fallback_text, find_emotes, no_emotes_found,
    parse_emote_token, png_data_url, remove_lookup, remove_outcome, search_pages, CloneSource,
    Emote, RemoveLookup, RemoveOutcome, added_emote_message, deletion_reply, emote_info_link,
    emote_help, clone_targets, clone_usage, clone_started, image_fetch_failed, add_failed_message,
    emote_info_main, emote_info_metadata, name_taken_message, remove_reply, tally_clone, CloneStep,
};

#[test]
fn animated_emote_token_reads() {
    let t = parse_emote_token("<a:moete_dance:123456789>");
    assert!(t.animated);
    assert_eq!(t.name, "moete_dance");
    assert_eq!(t.id, "123456789");
    assert_eq!(t.link, "https://cdn.discordapp.com/emojis/123456789.gif");
}

#[test]
fn still_emote_token_reads() {
    let t = parse_emote_token("<:smile:42>");
    assert!(!t.animated);
    assert_eq!(t.name, "smile");
    assert_eq!(t.id, "42");
    assert_eq!(t.link, "https://cdn.discordapp.com/emojis/42.png");
}

#[test]
fn emotes_are_found_in_order() {
    let found = find_emotes("hi <:a:1> and <a:b:2> but not <:c> nor :d:3");
    assert_eq!(found.len(), 2);
    assert_eq!(found[0].name, "a");
    assert_eq!(found[0].id, "1");
    assert!(!found[0].animated);
    assert_eq!(found[1].name, "b");
    assert_eq!(found[1].id, "2");
    assert!(found[1].animated);
    assert!(find_emotes("no emotes here").is_empty());
}

#[test]
fn clone_progress_line() {
    assert_eq!(clone_progress(3, 10, 2, 1), "Progress: 3/10 | Success: 2 | Failed: 1");
}

#[test]
fn clone_source_from_link() {
    assert_eq!(
        clone_source("https://discord.com/channels/1/22/333", false, false),
        CloneSource::Link { channel: 22, message: 333 }
    );
}

#[test]
fn clone_source_from_message_id() {
    assert_eq!(clone_source(" 12345 ", true, true), CloneSource::InChannel { message: 12345 });
}

#[test]
fn clone_source_from_reply_text_or_usage() {
    assert_eq!(clone_source("", false, true), CloneSource::Reference);
    assert_eq!(clone_source("  ", false, false), CloneSource::Usage);
    assert_eq!(clone_source("<:a:1>", false, false), CloneSource::Text);
}

#[test]
fn remove_lookup_reads_written_emotes() {
    assert_eq!(remove_lookup("<:smile:42>"), RemoveLookup::ById(42));
    assert_eq!(remove_lookup("<a:dance:7>"), RemoveLookup::ById(7));
    assert_eq!(remove_lookup("<:smile:abc>"), RemoveLookup::InvalidFormat);
    assert_eq!(remove_lookup("smile"), RemoveLookup::ByName);
}

#[test]
fn remove_outcome_cases() {
    assert_eq!(remove_outcome(RemoveLookup::InvalidFormat, true, None), RemoveOutcome::InvalidFormat);
    assert_eq!(remove_outcome(RemoveLookup::ById(5), false, Some((5, true))), RemoveOutcome::NotManaged);
    assert_eq!(remove_outcome(RemoveLookup::ById(5), true, None), RemoveOutcome::Delete(5));
    assert_eq!(remove_outcome(RemoveLookup::ByName, true, Some((9, true))), RemoveOutcome::Delete(9));
    assert_eq!(remove_outcome(RemoveLookup::ByName, true, Some((9, false))), RemoveOutcome::NotManaged);
    assert_eq!(remove_outcome(RemoveLookup::ByName, true, None), RemoveOutcome::NotFound);
    assert_eq!(remove_outcome(RemoveLookup::ById(0), true, Some((8, true))), RemoveOutcome::Delete(8));
}

#[test]
fn emote_names_compare_in_lower_case() {
    let names = vec!["Smile".to_string(), "dance".to_string()];
    assert!(emote_exists(&names, "SMILE"));
    assert!(emote_exists(&names, "dance"));
    assert!(!emote_exists(&names, "frown"));
}

#[test]
fn emote_upload_and_fallback_texts() {
    assert_eq!(png_data_url("QUJD"), "data:image/png;base64,QUJD");
    assert_eq!(fallback_text("hello", "alice"), "hello - alice");
    assert_eq!(no_emotes_found("cat"), "No emotes found for query: `cat`");
}

fn emote(name: &str, id: u64, animated: bool) -> Emote {
    Emote { name: name.to_string(), id, animated }
}

#[test]
fn search_single_page() {
    let es = vec![emote("a", 1, false), emote("b", 2, true)];
    let pages = search_pages(&es, "");
    assert_eq!(pages, vec!["**Emote | List [Page: 1/1]**\n**Query**: `All`\n<:a:1> a\n<a:b:2> b".to_string()]);
}

#[test]
fn search_pages_hold_twenty_emotes() {
    let es: Vec<Emote> = (0..45).map(|i| emote("e", i, false)).collect();
    let pages = search_pages(&es, "e");
    assert_eq!(pages.len(), 3);
    assert!(pages[0].starts_with("**Emote | List [Page: 1/3]**\n**Query**: `e`\n<:e:0> e\n"));
    assert_eq!(pages[0].matches('\n').count(), 2 + 19);
    assert!(pages[2].starts_with("**Emote | List [Page: 3/3]**"));
    assert!(pages[2].ends_with("<:e:44> e"));
}

#[test]
fn search_page_count_shown_for_exact_multiple() {
    let es: Vec<Emote> = (0..20).map(|i| emote("e", i, false)).collect();
    let pages = search_pages(&es, "e");
    assert_eq!(pages.len(), 1);
    assert!(pages[0].starts_with("**Emote | List [Page: 1/2]**"));
}

#[test]
fn search_without_emotes_has_no_pages() {
    assert!(search_pages(&Vec::new(), "x").is_empty());
}

#[test]
fn clone_tally_counts_created_and_failed() {
    let steps = [CloneStep::Created, CloneStep::FetchFailed, CloneStep::CreateFailed, CloneStep::Created];
    let mut t = (0u64, 0u64);
    for s in steps {
        t = tally_clone(t.0, t.1, s);
    }
    assert_eq!(t, (2, 1));
}

#[test]
fn removal_answers() {
    assert_eq!(remove_reply(RemoveOutcome::Delete(3)), None);
    assert_eq!(remove_reply(RemoveOutcome::InvalidFormat), Some("Invalid emoji format.".to_string()));
    assert_eq!(remove_reply(RemoveOutcome::NotManaged), Some("Not managed by Moete, can't delete.".to_string()));
    assert_eq!(remove_reply(RemoveOutcome::NotFound), Some("Emote not found.".to_string()));
    assert_eq!(deletion_reply(Ok(true)), Some("Emote deleted successfully.".to_string()));
    assert_eq!(deletion_reply(Ok(false)), None);
    assert_eq!(deletion_reply(Err("missing".to_string())), Some("Failed to delete emote: missing".to_string()));
}

#[test]
fn adding_answers() {
    assert_eq!(name_taken_message("smile"), "Emote with name `smile` already exists.");
    let e = Emote { name: "smile".to_string(), id: 42, animated: false };
    assert_eq!(added_emote_message(&e), "Added emote: <:smile:42> smile");
}

#[test]
fn emote_information() {
    assert_eq!(emote_info_main("smile", 42, Some(7)), "Name: smile\nID: 42\nFrom: 7");
    assert_eq!(emote_info_main("smile", 42, None), "Name: smile\nID: 42\nFrom: Unknown");
    assert_eq!(emote_info_metadata(true, false, true), "Animated: true\nManaged: false\nAvailable: true");
    assert_eq!(emote_info_link(42, true), "**Link**: https://cdn.discordapp.com/emojis/42.gif");
    assert_eq!(emote_info_link(42, false), "**Link**: https://cdn.discordapp.com/emojis/42.png");
}

#[test]
fn emotes_found_next_to_each_other() {
    let found = find_emotes("x<:a:1>y<:b:22>");
    let names: Vec<&str> = found.iter().map(|t| t.name.as_str()).collect();
    assert_eq!(names, vec!["a", "b"]);
    assert_eq!(found[1].id, "22");
}

#[test]
fn emote_names_compare_in_unicode_lower_case() {
    let names = vec!["ÉTÉ".to_string()];
    assert!(emote_exists(&names, "été"));
}

#[test]
fn rendered_emote_reads_back() {
    for (name, id, animated) in [("smile", 42u64, false), ("dance_2", u64::MAX, true), ("x", 0, false)] {
        let e = Emote { name: name.to_string(), id, animated };
        let rendered = emote_listing_of(&e);
        let t = parse_emote_token(&rendered);
        assert_eq!(t.name, name);
        assert_eq!(t.id, id.to_string());
        assert_eq!(t.animated, animated);
        assert_eq!(remove_lookup(&rendered), RemoveLookup::ById(id));
    }
}

fn emote_listing_of(e: &Emote) -> String {
    moete::utility::emote_listing(&vec![Emote { name: e.name.clone(), id: e.id, animated: e.animated }])
}

#[test]
fn emote_help_lists_commands() {
    let help = emote_help();
    let lines: Vec<&str> = help.split('\n').collect();
    assert_eq!(lines.len(), 8);
    assert_eq!(lines[0], "`search`: Search emote");
    assert_eq!(lines[7], "`stealmultiple*`: Same thing as `steal` but with multiple message IDs");
}

#[test]
fn clone_targets_and_texts() {
    assert_eq!(clone_targets("nothing here").err(), Some("No emote found in the message.".to_string()));
    let found = clone_targets("<:a:1> <a:b:2>").unwrap();
    assert_eq!(found.len(), 2);
    assert_eq!(found[1].link, "https://cdn.discordapp.com/emojis/2.gif");
    assert_eq!(clone_usage(), "Supports: Direct URL, Reply, Emote");
    assert_eq!(clone_started(), "Loading!");
    assert_eq!(image_fetch_failed(), "Failed to fetch image from URL.");
    assert_eq!(add_failed_message("too big"), "Failed to add emote: too big");
}
