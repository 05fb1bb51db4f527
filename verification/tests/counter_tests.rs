use moete::counter::{
    counted_words, counter_info, counter_title, leaderboard, parse_word_lists, user_count,
    CounterRow, no_counters_message,
};

#[test]
fn word_lists_keep_configured_words_in_order() {
    let lists = parse_word_lists("WORD1:ALT1,ALT2|WORD2:ALT3,ALT4");
    assert_eq!(lists.words(), vec!["WORD1".to_string(), "WORD2".to_string()]);
}

#[test]
fn word_named_twice_is_recorded_once() {
    let lists = parse_word_lists("moe:a|moe:b|other:c");
    assert_eq!(lists.words(), vec!["moe".to_string(), "other".to_string()]);
    // the variations of the last entry hold: "b" counts, "a" does not
    assert_eq!(counted_words(&lists, "b", false), vec!["moe".to_string()]);
    assert!(counted_words(&lists, "a", false).is_empty());
}

#[test]
fn variations_are_matched_in_lower_case() {
    let lists = parse_word_lists("Moete:MOE,Mote|hello:hi");
    assert_eq!(counted_words(&lists, "I love MOE", false), vec!["Moete".to_string()]);
    assert_eq!(counted_words(&lists, "mote and HI", false), vec!["Moete".to_string(), "hello".to_string()]);
    assert!(counted_words(&lists, "no match at all", false).is_empty());
}

#[test]
fn the_word_itself_counts() {
    let lists = parse_word_lists("hello:hi");
    assert_eq!(counted_words(&lists, "say HELLO", false), vec!["hello".to_string()]);
}

#[test]
fn empty_variation_matches_every_message() {
    let lists = parse_word_lists("hello:");
    // the variation list holds one empty variation, which every message contains
    assert_eq!(counted_words(&lists, "anything", false), vec!["hello".to_string()]);
}

#[test]
fn bots_are_never_counted() {
    let lists = parse_word_lists("Moete:moe");
    assert!(counted_words(&lists, "moe moe moe", true).is_empty());
}

#[test]
fn each_word_counts_once_per_message() {
    let lists = parse_word_lists("moe:moe,moee");
    assert_eq!(counted_words(&lists, "moe moe moee", false), vec!["moe".to_string()]);
}

fn row(user_id: i64, count: i64, name: Option<&str>) -> CounterRow {
    CounterRow { user_id, count, username: name.map(|n| n.to_string()) }
}

#[test]
fn leaderboard_lists_rows_with_names_and_counts() {
    let rows = vec![row(1, 5, Some("alice")), row(42, 1, None), row(3, 0, Some("bob"))];
    assert_eq!(
        leaderboard(&rows),
        "```1. alice: 5 times\n2. Unknown User (42): 1 time\n3. bob: 0 times```"
    );
}

#[test]
fn leaderboard_shows_twenty_rows_at_most() {
    let rows: Vec<CounterRow> = (0..25).map(|i| row(i + 1, i, Some("u"))).collect();
    let text = leaderboard(&rows);
    assert_eq!(text.matches('\n').count(), 19);
    assert!(text.contains("20. u: 19 times"));
    assert!(!text.contains("21."));
}

#[test]
fn empty_leaderboard_is_an_empty_code_block() {
    assert_eq!(leaderboard(&Vec::new()), "``````");
}

#[test]
fn user_count_takes_the_first_row_of_the_user() {
    let rows = vec![row(1, 5, None), row(2, 7, None), row(2, 9, None)];
    assert_eq!(user_count(&rows, 2), 7);
    assert_eq!(user_count(&rows, 3), 0);
}

#[test]
fn counter_texts() {
    assert_eq!(counter_title("Moete", "moe"), "Moete | moe-word counter");
    assert_eq!(counter_info("moe", 3), "You have said `moe` and it's variations for `3` times!");
    assert_eq!(counter_info("moe", -1), "You have said `moe` and it's variations for `-1` times!");
}

#[test]
fn no_counters_text() {
    assert_eq!(no_counters_message(), "No counters found.");
}
