use moete::emote::Emote;
use moete::utility::{
    amount_text, channel_summary, configuration_block, configuration_help, created_at,
    emote_listing, google_link, invite_link, nhentai_link, option_updated, ping_text,
    role_listing, server_summary, sort_entries, split_shorthand, urban_failure, urban_pages,
    urban_query_url, urban_results, ChannelKind, ConfigOption, Magnitude, UrbanEntry,
    conversion_example, conversion_line, currency_title, get_date_string, machine_main,
    no_rate_message, requested_by, server_hints, trim_fraction, accuracy_text, conversion_footer,
    conversion_loading, conversion_reply, conversion_usage, fetch_failed_message, server_failure,
    ConversionReply, RateLookup,
};

#[test]
fn search_links() {
    assert_eq!(google_link("rust verus proofs"), "https://www.google.com/search?q=rust+verus+proofs");
    assert_eq!(nhentai_link("177013"), "https://nhentai.net/g/177013");
    assert_eq!(
        urban_query_url("hello world"),
        "https://api.urbandictionary.com/v0/define?term=hello%20world"
    );
}

fn entry(d: &str, likes: i32) -> UrbanEntry {
    UrbanEntry { definition: d.to_string(), example: format!("ex {}", d), likes }
}

#[test]
fn definitions_sorted_by_likes_stably() {
    let es = vec![entry("a", 5), entry("b", 1), entry("c", 5), entry("d", -2), entry("e", 1)];
    let sorted = sort_entries(&es);
    let order: Vec<&str> = sorted.iter().map(|e| e.definition.as_str()).collect();
    assert_eq!(order, vec!["d", "b", "e", "a", "c"]);
    assert_eq!(sorted[0].example, "ex d");
}

#[test]
fn no_definitions_is_an_error() {
    match urban_results(&Vec::new()) {
        Err(m) => assert_eq!(m, "No results found"),
        Ok(_) => panic!("expected an error"),
    }
    let ok = urban_results(&vec![entry("x", 3), entry("y", 2)]).unwrap();
    assert_eq!(ok[0].definition, "y");
}

#[test]
fn urban_pages_one_per_definition() {
    let pages = urban_pages("Moete", "yeet", &vec![entry("a", 0), entry("b", 0)]);
    assert_eq!(pages.len(), 2);
    assert_eq!(pages[0].title, "Moete | yeet [1/2]");
    assert_eq!(pages[1].title, "Moete | yeet [2/2]");
    assert_eq!(pages[0].description, "**Definition:**\na\n\n**Example:**\nex a");
    assert_eq!(urban_failure("timeout"), "failed to get urban dictionary entry: timeout");
}

#[test]
fn shorthand_amounts_split() {
    assert_eq!(split_shorthand("1k"), Some(("1".to_string(), Magnitude::Thousand)));
    assert_eq!(split_shorthand(" 2.5M "), Some(("2.5".to_string(), Magnitude::Million)));
    assert_eq!(split_shorthand("3b"), Some(("3".to_string(), Magnitude::Billion)));
    assert_eq!(split_shorthand("4T"), Some(("4".to_string(), Magnitude::Trillion)));
    assert_eq!(split_shorthand("5q"), Some(("5".to_string(), Magnitude::Quadrillion)));
    assert_eq!(split_shorthand("42"), Some(("42".to_string(), Magnitude::One)));
    assert_eq!(split_shorthand("1x"), None);
    assert_eq!(split_shorthand("1kk"), None);
    assert_eq!(split_shorthand("   "), None);
}

#[test]
fn amounts_lose_their_commas() {
    assert_eq!(amount_text(Some("1,000,000".to_string())), "1000000");
    assert_eq!(amount_text(None), "1");
}

#[test]
fn channel_counts() {
    let kinds = vec![
        ChannelKind::Text,
        ChannelKind::Voice,
        ChannelKind::Category,
        ChannelKind::Text,
        ChannelKind::Other,
    ];
    assert_eq!(channel_summary(&kinds), "Category: 1\nText: 2\nVoice: 1");
    assert_eq!(channel_summary(&Vec::new()), "Category: 0\nText: 0\nVoice: 0");
}

#[test]
fn server_texts() {
    assert_eq!(server_summary(7, 100, 20, 5), "Owner: <@7>\nMembers: 100\nEmotes: 20\nRoles: 5");
    assert_eq!(created_at(1700000000), "Created at: <t:1700000000:F>");
    assert_eq!(created_at(-5), "Created at: <t:-5:F>");
}

#[test]
fn emote_listing_renders_and_cuts() {
    assert_eq!(emote_listing(&Vec::new()), "No emotes found in this server.");
    let es = vec![
        Emote { name: "a".to_string(), id: 1, animated: false },
        Emote { name: "b".to_string(), id: 2, animated: true },
    ];
    assert_eq!(emote_listing(&es), "<:a:1><a:b:2>");
    let many: Vec<Emote> = (0..200).map(|i| Emote { name: "abc".to_string(), id: 1000 + i, animated: false }).collect();
    assert_eq!(emote_listing(&many).chars().count(), 1900);
}

#[test]
fn role_listing_renders_and_cuts() {
    assert_eq!(role_listing(&Vec::new()), "No roles found in this server.");
    assert_eq!(role_listing(&vec![1, 22]), "<@&1>, <@&22>");
    let many: Vec<u64> = (0..500).map(|i| 100000 + i).collect();
    assert_eq!(role_listing(&many).chars().count(), 1900);
}

#[test]
fn invite_and_ping() {
    assert_eq!(
        invite_link(123),
        "https://discord.com/api/oauth2/authorize?client_id=123&permissions=3758615632&scope=bot"
    );
    assert_eq!(ping_text(42), "Time taken: 42ms");
}

#[test]
fn configuration_listing() {
    let opts = vec![
        ConfigOption { key: "prefix".to_string(), description: Some("The prefix".to_string()), value: "\";\"".to_string() },
        ConfigOption { key: "debug".to_string(), description: None, value: "false".to_string() },
    ];
    assert_eq!(
        configuration_block(&opts),
        "```json\n{\n\t/// The prefix\n\tprefix: \";\"\n\t/// No description provided.\n\tdebug: false\n}\n```"
    );
    assert_eq!(configuration_block(&Vec::new()), "```json\n{\n}\n```");
    assert_eq!(
        configuration_help(99, ";", "config"),
        "**ID**: `99`\nUse `;config set <option> <value>` to update a configuration option."
    );
    assert_eq!(option_updated("prefix", "!"), "Configuration option `prefix` updated to `!`");
}

#[test]
fn dates_render_as_iso() {
    assert_eq!(get_date_string(2024, 3, 7), "2024-03-07");
    assert_eq!(get_date_string(999, 12, 31), "0999-12-31");
    assert_eq!(get_date_string(12345, 1, 1), "+12345-01-01");
    assert_eq!(get_date_string(-1, 1, 1), "-0001-01-01");
}

#[test]
fn fractions_lose_trailing_zeros() {
    assert_eq!(trim_fraction("0.12000000"), "0.12");
    assert_eq!(trim_fraction("2.00000000"), "2");
    assert_eq!(trim_fraction("0.00010000"), "0.0001");
    assert_eq!(trim_fraction("100"), "1");
}

#[test]
fn conversion_texts() {
    assert_eq!(currency_title("Moete"), "Moete | Currency Conversion");
    assert_eq!(conversion_line("1.5k", "myr", "5M", "idr"), "**1.5k MYR = 5M IDR**");
    assert_eq!(
        no_rate_message("usd", "jpy", "2024-01-02"),
        "No exchange rate data available for USD to JPY on 2024-01-02."
    );
    assert_eq!(
        conversion_example(";", "100", "10k"),
        "`;convert MYR IDR 100`\n `;convert IDR MYR 10k`"
    );
}

#[test]
fn overview_hints_and_footers() {
    let (e, r) = server_hints("!");
    assert_eq!(e, "To see a list with all emotes use `!server emotes`");
    assert_eq!(r, "To see a list with all roles use `!server roles`");
    assert_eq!(
        machine_main("Linux", "6.1", "box", "x86_64"),
        "**Operating System**: `Linux` [Release: `6.1`]\n**Host name**: `box`\n**Machine**: `x86_64`\n"
    );
    assert_eq!(requested_by("alice", "1.0.0"), "Requested by alice | 1.0.0");
}

#[test]
fn currencies_are_upper_cased_in_unicode() {
    assert_eq!(conversion_line("1", "été", "2", "ß"), "**1 ÉTÉ = 2 SS**");
}

#[test]
fn conversion_reply_choice() {
    for l in [RateLookup::Failed, RateLookup::NoRateToday, RateLookup::Found] {
        assert_eq!(conversion_reply(false, l), ConversionReply::Usage);
    }
    assert_eq!(conversion_reply(true, RateLookup::Failed), ConversionReply::FetchFailed);
    assert_eq!(conversion_reply(true, RateLookup::NoRateToday), ConversionReply::NoRate);
    assert_eq!(conversion_reply(true, RateLookup::Found), ConversionReply::Converted);
}

#[test]
fn conversion_fixed_texts() {
    assert_eq!(fetch_failed_message(), "Something went wrong while fetching rates. Please try again later.");
    assert_eq!(accuracy_text("high"), "**high**");
    assert_eq!(conversion_footer(), "The accuracy might be off by a few margins due to the data source.");
    assert_eq!(conversion_loading(), "Loading...");
    let (d, u, n) = conversion_usage();
    assert_eq!(d, "Convert a currency from one to another.");
    assert!(u.starts_with("```<FROM>: - What currency as a base\n<TO>:"));
    assert!(n.ends_with("It only goes up to 1Q (quadrillion).```"));
    assert_eq!(server_failure(false), "This command can only be used in a server.");
    assert_eq!(server_failure(true), "Failed to fetch the server owner.");
}
