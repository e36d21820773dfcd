use mcbot::server_output::handle_read;
use mcbot::server_output::parse_line;
use mcbot::server_output::read_line_bytes;
use mcbot::server_output::LineSplitter;
use mcbot::server_output::OtherData;
use mcbot::server_output::ReadOutcome;

fn counts(line: &str) -> (Option<u32>, Option<u32>) {
    let mut d = OtherData::new();
    parse_line(line, &mut d);
    (d.players_online, d.entities)
}

#[test]
fn other_data_starts_empty_and_clones() {
    let d = OtherData::new();
    assert_eq!((d.players_online, d.entities), (None, None));
    let mut d = OtherData::new();
    d.players_online = Some(4);
    let c = d.clone();
    assert_eq!((c.players_online, c.entities), (Some(4), None));
}

#[test]
fn reads_players_online_report() {
    assert_eq!(counts("[06:46:32] [Server thread/INFO]: players_online has 1 [dcbot_temp]\n"), (Some(1), None));
}

#[test]
fn reads_entities_report() {
    assert_eq!(counts("[06:46:32] [Server thread/INFO]: entities has 207 [dcbot_temp]\n"), (None, Some(207)));
}

#[test]
fn ignores_player_command_echo() {
    assert_eq!(
        counts("[06:46:01] [Server thread/INFO]: [Dummi26: Added 1 to [dcbot_temp] for players_online (now 1)]\n"),
        (None, None)
    );
}

#[test]
fn needs_space_after_value() {
    assert_eq!(counts("[06:46:32] [Server thread/INFO]: players_online has 12"), (None, None));
    assert_eq!(counts("[06:46:32] [Server thread/INFO]: players_online has 12 "), (Some(12), None));
}

#[test]
fn rejects_bad_numbers() {
    assert_eq!(counts("[t] [x]: players_online has -1 [dcbot_temp]"), (None, None));
    assert_eq!(counts("[t] [x]: players_online has 4294967296 [dcbot_temp]"), (None, None));
    assert_eq!(counts("[t] [x]: players_online has  [dcbot_temp]"), (None, None));
    assert_eq!(counts("[t] [x]: entities has +5 [dcbot_temp]"), (None, Some(5)));
}

#[test]
fn uses_first_colon_space() {
    assert_eq!(counts("a:b: players_online has 3 x"), (Some(3), None));
    assert_eq!(counts("a: x: players_online has 3 x"), (None, None));
    assert_eq!(counts("a:: players_online has 3 x"), (Some(3), None));
    assert_eq!(counts("no separator players_online has 3 x"), (None, None));
    assert_eq!(counts(": players_online has 3 x"), (Some(3), None));
    assert_eq!(counts("x: "), (None, None));
}

#[test]
fn other_count_is_kept() {
    let mut d = OtherData::new();
    parse_line("[t] [x]: players_online has 2 [dcbot_temp]", &mut d);
    parse_line("[t] [x]: entities has 40 [dcbot_temp]", &mut d);
    parse_line("[t] [x]: nothing to see here", &mut d);
    assert_eq!((d.players_online, d.entities), (Some(2), Some(40)));
    parse_line("[t] [x]: players_online has 0 [dcbot_temp]", &mut d);
    assert_eq!((d.players_online, d.entities), (Some(0), Some(40)));
}

#[test]
fn reads_raw_line_bytes() {
    let mut d = OtherData::new();
    read_line_bytes(b"[t] [x]: entities has 9 [dcbot_temp]\n", &mut d);
    assert_eq!(d.entities, Some(9));
    let mut d = OtherData::new();
    read_line_bytes(b"[t] [x\xff]: entities has 8 [dcbot_temp]\n", &mut d);
    assert_eq!(d.entities, Some(8));
}

#[test]
fn splitter_cuts_lines_at_newlines() {
    let mut s = LineSplitter::new();
    let mut lines: Vec<Vec<u8>> = Vec::new();
    for b in b"one\ntwo\n\nthree" {
        if let Some(l) = s.push(*b) {
            lines.push(l);
        }
    }
    assert_eq!(lines, vec![b"one\n".to_vec(), b"two\n".to_vec(), b"\n".to_vec()]);
    assert_eq!(s.output(), b"one\ntwo\n\nthree");
}

#[test]
fn handle_read_feeds_and_stops() {
    let mut s = LineSplitter::new();
    let mut d = OtherData::new();
    let input: &[u8] = b"[t] [x]: players_online has 5 [dcbot_temp]\n[t] [x]: entities has 6 [d";
    for b in input {
        assert!(handle_read(&mut s, &mut d, ReadOutcome::Byte(*b)));
    }
    assert_eq!((d.players_online, d.entities), (Some(5), None));
    assert!(!handle_read(&mut s, &mut d, ReadOutcome::End));
    assert!(!handle_read(&mut s, &mut d, ReadOutcome::Failed));
    assert!(!handle_read(&mut s, &mut d, ReadOutcome::Quit));
    assert_eq!(s.output(), input);
}

#[test]
fn stream_counts_follow_completed_lines() {
    let mut s = LineSplitter::new();
    let mut d = OtherData::new();
    let input: &[u8] = b"[t] [x]: entities has 1 [a]\n[t] [x]: entities has 2 [a]\n[t] [x]: players_online has 7 [a]\n[t] [x]: entities has 3 [a";
    for b in input {
        handle_read(&mut s, &mut d, ReadOutcome::Byte(*b));
    }
    assert_eq!((d.players_online, d.entities), (Some(7), Some(2)));
    assert_eq!(s.output(), input);
}
