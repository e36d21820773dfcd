use mcbot::server_output::OtherData;
use mcbot::status::log_excerpt;
use mcbot::status::refresh_step;
use mcbot::status::RefreshAction;
use mcbot::status::RefreshPhase;
use mcbot::status::status_message;
use mcbot::status::tail_of_log;
use mcbot::status::SCOREBOARD_QUERY;

#[test]
fn short_log_is_kept_whole() {
    assert_eq!(tail_of_log(""), "");
    assert_eq!(tail_of_log("hello\nworld"), "hello\nworld");
    let exactly = "a".repeat(500);
    assert_eq!(tail_of_log(&exactly), exactly);
}

#[test]
fn long_log_keeps_just_over_limit() {
    let s = format!("{}{}", "x".repeat(100), "y".repeat(501));
    assert_eq!(tail_of_log(&s), "y".repeat(501));
    let s = "z".repeat(1000);
    assert_eq!(tail_of_log(&s), "z".repeat(501));
}

#[test]
fn long_log_cut_on_char_boundary() {
    // 499 ASCII bytes at the end, preceded by three-byte characters.
    let s = format!("{}{}", "€".repeat(10), "q".repeat(499));
    assert_eq!(tail_of_log(&s), format!("€{}", "q".repeat(499)));
}

#[test]
fn excerpt_notes_missing_or_stopped_reader() {
    assert_eq!(log_excerpt(false, false, b"abc"), "Server not running.");
    assert_eq!(log_excerpt(false, true, b"abc"), "Server not running.");
    assert_eq!(log_excerpt(true, false, b"abc"), "Server shut down.");
    assert_eq!(log_excerpt(true, true, b"abc\n"), "abc\n");
}

#[test]
fn excerpt_reads_invalid_utf8_lossily() {
    assert_eq!(log_excerpt(true, true, b"a\xffb"), "a\u{FFFD}b");
}

#[test]
fn status_with_and_without_counts() {
    assert_eq!(status_message(None, "log"), "Server log:\n```\nlog\n```");
    let mut d = OtherData::new();
    d.players_online = Some(3);
    assert_eq!(
        status_message(Some(d), "x"),
        "Players online: 3\nEntities: ?\nServer log:\n```\nx\n```"
    );
    let mut d = OtherData::new();
    d.entities = Some(120);
    d.players_online = Some(0);
    assert_eq!(
        status_message(Some(d), ""),
        "Players online: 0\nEntities: 120\nServer log:\n```\n\n```"
    );
}

#[test]
fn scoreboard_query_asks_for_both_counters() {
    assert_eq!(
        SCOREBOARD_QUERY,
        "scoreboard players get players_online dcbot_temp\nscoreboard players get entities dcbot_temp\n"
    );
}

#[test]
fn refresh_round_and_stop() {
    assert_eq!(refresh_step(RefreshPhase::RoundStart, true), (RefreshPhase::RoundStart, RefreshAction::Stop));
    let mut phase = RefreshPhase::RoundStart;
    let mut actions = Vec::new();
    for _ in 0..4 {
        let (next, action) = refresh_step(phase, phase != RefreshPhase::RoundStart);
        phase = next;
        actions.push(action);
    }
    assert_eq!(
        actions,
        vec![
            RefreshAction::SendQuery,
            RefreshAction::Wait(1000),
            RefreshAction::EditStatus,
            RefreshAction::Wait(2000)
        ]
    );
    assert_eq!(phase, RefreshPhase::RoundStart);
}
