use moete::handler::{argument_error_reply, ArgumentErrorReply};
use moete::music::{format_duration, render_progress_bar, track_information};
use moete::status::{parse_status, theme_index, ActivityKind};

#[test]
fn durations_render_as_clocks() {
    assert_eq!(format_duration(0), "0:00");
    assert_eq!(format_duration(65), "1:05");
    assert_eq!(format_duration(3599), "59:59");
    assert_eq!(format_duration(3600), "1:00:00");
    assert_eq!(format_duration(3725), "1:02:05");
}

#[test]
fn progress_bar_with_known_length() {
    assert_eq!(render_progress_bar(0, Some(100000)), "`[>--------------------] 0:00 / 1:40`");
    assert_eq!(render_progress_bar(50000, Some(100000)), "`[=========>----------] 0:50 / 1:40`");
    assert_eq!(render_progress_bar(100000, Some(100000)), "`[===================>] 1:40 / 1:40`");
    assert_eq!(render_progress_bar(5000, Some(0)), "`[===================>] 0:05 / 0:00`");
}

#[test]
fn progress_bar_rounds_half_up() {
    // 1/40 of the track is half a cell
    assert_eq!(render_progress_bar(2500, Some(100000)), "`[>-------------------] 0:02 / 1:40`");
    assert_eq!(render_progress_bar(2499, Some(100000)), "`[>--------------------] 0:02 / 1:40`");
}

#[test]
fn progress_bar_with_unknown_length() {
    assert_eq!(render_progress_bar(61000, None), "`1:01` (unknown length)");
}

#[test]
fn track_information_with_stand_ins() {
    assert_eq!(
        track_information(Some("Song"), Some("Chan"), Some(61)),
        "**Title**: Song\n**Channel**: Chan\n**Duration**: 1:01"
    );
    assert_eq!(
        track_information(None, None, None),
        "**Title**: Unknown title\n**Channel**: Unknown channel\n**Duration**: Unknown duration"
    );
}

#[test]
fn statuses_parse() {
    assert_eq!(parse_status("W|the world"), (ActivityKind::Watching, "the world".to_string()));
    assert_eq!(parse_status("L|lofi|beats"), (ActivityKind::Listening, "lofi|beats".to_string()));
    assert_eq!(parse_status("P|games"), (ActivityKind::Playing, "games".to_string()));
    assert_eq!(parse_status("no bar"), (ActivityKind::Watching, "the world".to_string()));
}

#[test]
fn themes_rotate_by_day() {
    assert_eq!(theme_index(1, 4), 3);
    assert_eq!(theme_index(366, 7), 376 % 7);
    assert_eq!(theme_index(0, 1), 0);
}

#[test]
fn argument_errors_are_said() {
    assert_eq!(
        argument_error_reply(Some("abc"), "invalid digit", None, "calc", None),
        ArgumentErrorReply::Say(
            "**Cannot parse `abc` as argument: invalid digit**\nPlease check the help menu for usage information"
                .to_string()
        )
    );
    assert_eq!(
        argument_error_reply(None, "missing", Some("usage: x"), "calc", None),
        ArgumentErrorReply::Say("**missing**\nusage: x".to_string())
    );
}

#[test]
fn wrong_argument_counts_show_help() {
    assert_eq!(
        argument_error_reply(None, "Too many arguments were passed", None, "color", Some("role")),
        ArgumentErrorReply::ShowHelp("role color".to_string())
    );
    assert_eq!(
        argument_error_reply(None, "Too few arguments were passed", None, "ping", None),
        ArgumentErrorReply::ShowHelp("ping".to_string())
    );
}

#[test]
fn progress_never_runs_backwards() {
    let total = 187_000u64;
    let mut last = 0;
    for pos in (0..=200_000u64).step_by(997) {
        let bar = render_progress_bar(pos, Some(total));
        let dashes = bar.matches('-').count();
        let filled = if dashes == 20 { 0 } else { bar.matches('=').count() + 1 };
        assert!(filled >= last);
        assert!(filled <= 20);
        last = filled;
    }
    assert_eq!(last, 20);
}
