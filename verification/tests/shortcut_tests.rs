use moete::shortcut::{
    added_info, check_new_shortcut, check_updated_response, collision_message, list_page_title,
    removal_message, response_too_long, shortcut_pages, shortcut_replies, shortcut_responses,
    trigger_collides, update_message, Shortcut, ShortcutRejection, MAX_LENGTH, added_message,
    duplicate_check, failure_message, rejection_message, ShortcutAction, database_missing_message,
};

fn sc(trigger: &str, response: &str) -> Shortcut {
    Shortcut { trigger: trigger.to_string(), response: response.to_string() }
}

#[test]
fn responses_split_on_commas() {
    assert_eq!(shortcut_responses("hi,hello,hey"), vec!["hi", "hello", "hey"]);
    assert_eq!(shortcut_responses("single"), vec!["single"]);
}

#[test]
fn replies_come_from_triggered_shortcuts() {
    let shortcuts = vec![sc("hi", "hello,hey"), sc("bye", "see you"), sc("hi", "yo")];
    for _ in 0..20 {
        let r = shortcut_replies(&shortcuts, "hi", false);
        assert_eq!(r.len(), 2);
        assert!(r[0] == "hello" || r[0] == "hey");
        assert_eq!(r[1], "yo");
    }
    assert_eq!(shortcut_replies(&shortcuts, "bye", false), vec!["see you"]);
    assert!(shortcut_replies(&shortcuts, "Hi", false).is_empty());
    assert!(shortcut_replies(&shortcuts, "hi", true).is_empty());
}

#[test]
fn single_page_listing() {
    let shortcuts = vec![sc("hi", "hello,hey"), sc("bye", "see you")];
    assert_eq!(
        shortcut_pages(&shortcuts),
        vec!["```\n1) hi\n\t- hello\n\t- hey\n2) bye\n\t- see you\n```\n".to_string()]
    );
}

#[test]
fn empty_listing_is_one_empty_page() {
    assert_eq!(shortcut_pages(&Vec::new()), vec!["```\n```\n".to_string()]);
}

#[test]
fn long_listing_is_split_into_pages() {
    let long = "x".repeat(600);
    let shortcuts = vec![sc("a", &long), sc("b", &long), sc("c", "short")];
    let pages = shortcut_pages(&shortcuts);
    assert_eq!(pages.len(), 2);
    assert!(pages[0].starts_with("```\n1) a\n"));
    assert!(pages[1].starts_with("```\n2) b\n"));
    assert!(pages[1].contains("3) c\n\t- short\n"));
    for p in &pages {
        assert!(p.ends_with("```\n"));
    }
}

#[test]
fn listing_page_titles() {
    assert_eq!(list_page_title(0), "Shortcuts | List");
    assert_eq!(list_page_title(3), "Shortcuts | List (cont.)");
}

#[test]
fn triggers_colliding_with_commands_are_refused() {
    let words = vec!["Help".to_string(), "emote".to_string()];
    assert!(trigger_collides("help", &words));
    assert!(trigger_collides("EMOTE", &words));
    assert!(!trigger_collides("hi", &words));
    assert_eq!(check_new_shortcut("HELP", "x", &words), Err(ShortcutRejection::CollidesWithCommand));
    assert_eq!(check_new_shortcut("hi", "x", &words), Ok(()));
}

#[test]
fn long_responses_are_refused() {
    let words: Vec<String> = Vec::new();
    let at_limit = "x".repeat(MAX_LENGTH);
    let over = "x".repeat(MAX_LENGTH + 1);
    assert!(!response_too_long(&at_limit));
    assert!(response_too_long(&over));
    assert!(response_too_long(&"é".repeat(513)));
    assert_eq!(check_new_shortcut("t", &over, &words), Err(ShortcutRejection::ResponseTooLong));
    assert_eq!(check_updated_response(&over), Err(ShortcutRejection::ResponseTooLong));
    assert_eq!(check_updated_response(&at_limit), Ok(()));
}

#[test]
fn shortcut_answers() {
    assert_eq!(
        collision_message("help"),
        "The trigger `help` collides with an existing bot command. Please choose a different trigger."
    );
    assert_eq!(added_info("hi", "hello"), "**Trigger**: `hi`\n**Response**: `hello`");
    assert_eq!(removal_message("hi", true), "Shortcut `hi` removed successfully.");
    assert_eq!(removal_message("hi", false), "No shortcut found with the trigger: `hi`");
    assert_eq!(update_message("hi", "yo", true), "Shortcut `hi` updated successfully to `yo`");
    assert_eq!(update_message("hi", "yo", false), "No shortcut found with the trigger: `hi`");
}

#[test]
fn failure_and_rejection_answers() {
    assert_eq!(failure_message(ShortcutAction::Add, "db down"), "Failed to add shortcut: db down");
    assert_eq!(failure_message(ShortcutAction::Remove, "x"), "Failed to remove shortcut: x");
    assert_eq!(failure_message(ShortcutAction::Update, "y"), "Failed to update shortcut: y");
    assert_eq!(
        rejection_message(ShortcutRejection::ResponseTooLong, "hi", ShortcutAction::Add),
        "Failed to add shortcut: Response length exceeds maximum length of 1024 characters."
    );
    assert_eq!(
        rejection_message(ShortcutRejection::ResponseTooLong, "hi", ShortcutAction::Update),
        "Failed to update shortcut: Response length exceeds maximum length of 1024 characters."
    );
    assert_eq!(
        rejection_message(ShortcutRejection::CollidesWithCommand, "help", ShortcutAction::Add),
        collision_message("help")
    );
}

#[test]
fn duplicate_triggers_are_refused() {
    assert_eq!(duplicate_check(Ok(false)), Ok(()));
    assert_eq!(duplicate_check(Ok(true)), Err("Shortcut with that trigger already exists.".to_string()));
    assert_eq!(duplicate_check(Err("timeout".to_string())), Err("Failed to add shortcut: timeout".to_string()));
    assert_eq!(added_message("hi"), "Shortcut `hi` added successfully.");
}

#[test]
fn pages_keep_entries_and_fit() {
    let shortcuts: Vec<Shortcut> = (0..40).map(|i| sc(&format!("t{}", i), &"r,".repeat(20 + i))).collect();
    let pages = shortcut_pages(&shortcuts);
    assert!(pages.len() > 1);
    let mut joined = String::new();
    for p in &pages {
        assert!(p.starts_with("```\n") && p.ends_with("```\n"));
        assert!(p.len() <= MAX_LENGTH + 4);
        joined.push_str(&p[4..p.len() - 4]);
    }
    let mut expected = String::new();
    for (i, s) in shortcuts.iter().enumerate() {
        let lines: Vec<String> = s.response.split(',').map(|r| format!("\t- {}", r)).collect();
        expected.push_str(&format!("{}) {}\n{}\n", i + 1, s.trigger, lines.join("\n")));
    }
    assert_eq!(joined, expected);
}

#[test]
fn database_missing_answers() {
    assert_eq!(
        database_missing_message(None),
        "Failed to get any info, database is not connected, if this happens in production, report to @rmhakurei."
    );
    assert_eq!(database_missing_message(Some(ShortcutAction::Add)), "Database is not connected, cannot add shortcut.");
    assert_eq!(database_missing_message(Some(ShortcutAction::Remove)), "Database is not connected, cannot remove shortcut.");
    assert_eq!(database_missing_message(Some(ShortcutAction::Update)), "Database is not connected, cannot remove shortcut.");
}
