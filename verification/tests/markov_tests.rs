use moete::markov::{
    allowed, channel_tick, choose_member, generate, markov_overview, option_for, seed_word,
    should_learn, split_starter, user_for_option, MarkovUserStats, RecentMessage, ALLOWED,
    MESSAGES_PER_CHANCE, generated_content, join_messages, MessageCounters, spontaneous_chance,
    spontaneous_step, speaks, starter_text, continue_starter, word_bounds,
};

#[test]
fn allowed_users_are_listed() {
    assert!(allowed(224785877086240768));
    assert!(allowed(736223131240497183));
    assert!(!allowed(1));
}

#[test]
fn options_number_users_from_one() {
    assert_eq!(option_for(224785877086240768), 1);
    assert_eq!(option_for(393201541630394368), 3);
    assert_eq!(option_for(736223131240497183), 20);
    assert_eq!(option_for(5), 1);
    assert_eq!(user_for_option(1), Some(224785877086240768));
    assert_eq!(user_for_option(20), Some(736223131240497183));
    assert_eq!(user_for_option(0), None);
    assert_eq!(user_for_option(21), None);
    assert_eq!(user_for_option(-4), None);
}

#[test]
fn option_and_user_agree() {
    for (i, id) in ALLOWED.iter().enumerate() {
        assert_eq!(option_for(*id), (i + 1) as i32);
        assert_eq!(user_for_option((i + 1) as i32), Some(*id));
    }
}

#[test]
fn learning_skips_commands_and_blank_messages() {
    let others = vec!["m!".to_string()];
    let user = ALLOWED[0];
    assert!(should_learn(user, "hello there", ";", &others));
    assert!(!should_learn(1, "hello there", ";", &others));
    assert!(!should_learn(user, "   ", ";", &others));
    assert!(!should_learn(user, ";help", ";", &others));
    assert!(!should_learn(user, "m!help", ";", &others));
    assert!(!should_learn(user, "pls rob", "?", &others));
    assert!(!should_learn(user, ".", "?", &others));
    assert!(!should_learn(user, "k!x", "?", &others));
}

#[test]
fn every_tenth_message_gives_a_chance() {
    let mut count = 0;
    let mut chances = Vec::new();
    for n in 1..=25 {
        let (next, chance) = channel_tick(count);
        count = next;
        if chance {
            chances.push(n);
        }
    }
    assert_eq!(chances, vec![10, 20]);
    assert_eq!(count, 5);
    assert_eq!(MESSAGES_PER_CHANCE, 10);
    assert_eq!(channel_tick(9), (0, true));
    assert_eq!(channel_tick(3), (4, false));
}

fn msg(from_bot: bool, content: &str) -> RecentMessage {
    RecentMessage { from_bot, content: content.to_string() }
}

#[test]
fn seed_word_comes_from_first_human_message() {
    let recent = vec![msg(true, "bot words"), msg(false, ""), msg(false, "alpha beta"), msg(false, "gamma")];
    for _ in 0..20 {
        let w = seed_word(&recent).unwrap();
        assert!(w == "alpha" || w == "beta");
    }
}

#[test]
fn seed_word_none_cases() {
    assert_eq!(seed_word(&vec![msg(true, "x"), msg(false, "")]), None);
    assert_eq!(seed_word(&vec![msg(false, "   "), msg(false, "later")]), None);
    assert_eq!(seed_word(&Vec::new()), None);
}

#[test]
fn member_chosen_among_allowed() {
    let members = vec![1, ALLOWED[4], 2, ALLOWED[7]];
    for _ in 0..20 {
        let m = choose_member(&members).unwrap();
        assert!(m == ALLOWED[4] || m == ALLOWED[7]);
    }
    assert_eq!(choose_member(&vec![1, 2, 3]), None);
}

#[test]
fn overview_lists_twenty_users() {
    let rows: Vec<MarkovUserStats> = (0..20)
        .map(|i| MarkovUserStats { name: if i == 0 { Some("alice".to_string()) } else { None }, count: i })
        .collect();
    let text = markov_overview(&rows);
    let lines: Vec<&str> = text.split('\n').collect();
    assert_eq!(lines.len(), 20);
    assert_eq!(lines[0], "1. alice | 0 messages");
    assert_eq!(lines[1], "2. 255365914898333707 | 1 messages");
    assert_eq!(lines[19], "20. 736223131240497183 | 19 messages");
}

#[test]
fn starter_is_split_at_its_last_word() {
    assert_eq!(split_starter("  hello  big world "), Some(("hello big".to_string(), "world".to_string())));
    assert_eq!(split_starter("alone"), Some(("".to_string(), "alone".to_string())));
    assert_eq!(split_starter("   "), None);
}

#[test]
fn generate_refuses_without_user_or_data() {
    let data = Some("hello world this is a line\nanother line of words".to_string());
    assert_eq!(generate(0, None, data.clone()), None);
    assert_eq!(generate(21, None, data.clone()), None);
    assert_eq!(generate(1, None, None), None);
    assert_eq!(generate(1, None, Some(String::new())), None);
    assert_eq!(generate(1, Some("   ".to_string()), data), None);
}

#[test]
fn generate_without_plain_line_names_user_only() {
    let r = generate(2, None, Some("\"quoted\"\n(bracketed)".to_string()));
    assert_eq!(r, Some((None, ALLOWED[1])));
}

#[test]
fn generate_on_plain_data_names_user() {
    let data = "the cat sat on the mat\nthe dog sat on the log\na bird sat on the tree\nthe cat ran to the dog";
    for _ in 0..5 {
        let r = generate(3, None, Some(data.to_string())).unwrap();
        assert_eq!(r.1, ALLOWED[2]);
        if let Some(t) = r.0 {
            assert!(!t.is_empty());
        }
        let r = generate(3, Some("look the cat".to_string()), Some(data.to_string())).unwrap();
        assert_eq!(r.1, ALLOWED[2]);
    }
}

#[test]
fn channels_are_counted_apart() {
    let mut c = MessageCounters::new();
    let mut chances = Vec::new();
    for n in 1..=30u64 {
        let channel = if n % 3 == 0 { 7 } else { 8 };
        if c.tick(channel) {
            chances.push(n);
        }
    }
    // channel 8 sees messages 1,2,4,5,...: its tenth is message 14, its twentieth message 29
    // channel 7 sees messages 3,6,...,30: its tenth is message 30
    assert_eq!(chances, vec![14, 29, 30]);
}

#[test]
fn markov_data_and_content() {
    let msgs = vec!["first line".to_string(), "second".to_string()];
    assert_eq!(join_messages(&msgs), "first line\nsecond");
    assert_eq!(join_messages(&Vec::new()), "");
    assert_eq!(generated_content(Some("hello".to_string())), "hello");
    assert_eq!(generated_content(None), "Generation failed, must've been insufficient data.");
}

#[test]
fn generate_reads_non_ascii_data() {
    let data = "こんにちは 世界 です\n世界 は 広い です\nこんにちは 広い 世界";
    for _ in 0..3 {
        let r = generate(4, None, Some(data.to_string())).unwrap();
        assert_eq!(r.1, ALLOWED[3]);
    }
}

#[test]
fn generate_rejects_transliterated_quotes() {
    // the curly quotes read as `"` once transliterated, so no line is a sentence
    let r = generate(5, None, Some("\u{201C}hello there\u{201D}\n\u{201C}again\u{201D}".to_string()));
    assert_eq!(r, Some((None, ALLOWED[4])));
}

#[test]
fn starter_text_puts_others_first() {
    assert_eq!(starter_text("look the", "cat sat on"), "look the cat sat on");
    assert_eq!(starter_text("", "cat sat"), " cat sat");
}

#[test]
fn starter_continuations_keep_the_starter() {
    let data = "the cat sat on the mat\nthe dog sat on the log\na bird sat on the tree\nthe cat ran to the dog";
    let data_words: Vec<&str> = data.split_whitespace().collect();
    for _ in 0..20 {
        let (text, _) = generate(3, Some("look at the".to_string()), Some(data.to_string())).unwrap();
        if let Some(t) = text {
            let ws: Vec<&str> = t.split_whitespace().collect();
            assert!(!ws.is_empty() && ws.len() <= 99 + 3);
            if t.starts_with("look at the ") {
                assert!(ws[3..].iter().all(|w| data_words.contains(w)));
            } else {
                assert!(ws.iter().all(|w| data_words.contains(w)));
            }
        }
    }
}

#[test]
fn spontaneous_draw_is_five_percent() {
    assert!(spontaneous_chance(0));
    assert!(spontaneous_chance(214748415));
    assert!(!spontaneous_chance(214748416));
    assert!(!spontaneous_chance(u32::MAX));
    assert!(speaks(true, 0, true));
    assert!(!speaks(false, 0, true));
    assert!(!speaks(true, 0, false));
    assert!(!speaks(true, u32::MAX, true));
}

#[test]
fn spontaneous_step_skips_bots_and_counts_others() {
    let mut c = MessageCounters::new();
    for _ in 0..30 {
        assert!(!spontaneous_step(&mut c, 1, true, true));
    }
    // bots are not counted: nine human messages give no chance yet
    for _ in 0..9 {
        assert!(!spontaneous_step(&mut c, 1, false, true));
    }
    // outside a server the tenth message never speaks
    assert!(!spontaneous_step(&mut c, 1, false, false));
    // the counter started over: the next nine messages give no chance
    for _ in 0..9 {
        assert!(!spontaneous_step(&mut c, 1, false, true));
    }
}

#[test]
fn starter_attempt_and_bounds() {
    assert_eq!(continue_starter("look at", Some("the cat sat".to_string())), Some("look at the cat sat".to_string()));
    assert_eq!(continue_starter("look at", None), None);
    assert_eq!(word_bounds(0, 0), (0, 50));
    assert_eq!(word_bounds(9, 49), (9, 99));
}
