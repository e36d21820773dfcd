//! The status message that the bot keeps up to date while a server runs:
//! the latest counts and the end of the server's log.
use vstd::prelude::*;
use vstd::string::StringExecFns;

use crate::server_output::OtherData;
use crate::text::chars_of;
use vstd::utf8::encode_utf8;
use crate::text::decimal;
use crate::text::decimal_string;
use crate::text::lossy_text;
use crate::text::string_of;
use crate::text::sub_chars;
use crate::text::text_from_bytes;

verus! {

/// The commands written to the server before each refresh; its answers
/// carry the counts.
pub const SCOREBOARD_QUERY: &'static str = "scoreboard players get players_online dcbot_temp\nscoreboard players get entities dcbot_temp\n";

/// The reply that announces a server start; it becomes the status message.
pub const STARTING_TEXT: &'static str = "Starting server...";

/// The most bytes of log that the status message shows whole.
pub const LOG_LIMIT: usize = 500;

/// The number of bytes that `c` takes in UTF-8.
pub open spec fn char_width(c: char) -> nat {
    if (c as u32) < 0x80 {
        1
    } else if (c as u32) < 0x800 {
        2
    } else if (c as u32) < 0x10000 {
        3
    } else {
        4
    }
}

/// The number of bytes that `s` takes in UTF-8.
pub open spec fn utf8_size(s: Seq<char>) -> nat
    decreases s.len(),
{
    if s.len() == 0 {
        0
    } else {
        char_width(s[0]) + utf8_size(s.drop_first())
    }
}

/// The end of a log: the whole log when it fits in `LOG_LIMIT` bytes,
/// otherwise the shortest run of its last characters that is longer than that.
pub open spec fn log_tail(s: Seq<char>) -> Seq<char>
    decreases s.len(),
{
    if s.len() > 0 && utf8_size(s.drop_first()) > LOG_LIMIT {
        log_tail(s.drop_first())
    } else {
        s
    }
}

/// What the status message shows of the log: a note when no reader is
/// attached to the server's output or when that reader has stopped, else
/// the end of the output read as UTF-8.
pub open spec fn log_view(attached: bool, running: bool, output: Seq<u8>) -> Seq<char> {
    if !attached {
        "Server not running."@
    } else if !running {
        "Server shut down."@
    } else {
        log_tail(lossy_text(output))
    }
}

/// How a count shows: its decimal digits, or `?` while unknown.
pub open spec fn count_text(count: Option<u32>) -> Seq<char> {
    match count {
        Some(v) => decimal(v as nat),
        None => "?"@,
    }
}

/// The counts part of the status message; empty when there are no counts.
pub open spec fn counts_text(counts: Option<OtherData>) -> Seq<char> {
    match counts {
        Some(d) => "Players online: "@ + count_text(d.players_online) + "\nEntities: "@ + count_text(
            d.entities,
        ) + "\n"@,
        None => Seq::empty(),
    }
}

/// The whole status message: the counts, then the log in a code block.
pub open spec fn status_text(counts: Option<OtherData>, log: Seq<char>) -> Seq<char> {
    counts_text(counts) + "Server log:\n```\n"@ + log + "\n```"@
}

/// The UTF-8 size of a suffix is the width of its first character plus the size of the rest.
proof fn lemma_size_step(s: Seq<char>, k: int)
    requires
        0 <= k < s.len(),
    ensures
        utf8_size(s.skip(k)) == char_width(s[k]) + utf8_size(s.skip(k + 1)),
{
    assert(s.skip(k).drop_first() =~= s.skip(k + 1));
}

/// A longer suffix never takes fewer bytes.
proof fn lemma_size_monotone(s: Seq<char>, j: int, k: int)
    requires
        0 <= j <= k <= s.len(),
    ensures
        utf8_size(s.skip(j)) >= utf8_size(s.skip(k)),
    decreases k - j,
{
    if j < k {
        lemma_size_step(s, j);
        lemma_size_monotone(s, j + 1, k);
    }
}

/// Dropping leading characters that keep the rest over the limit does not change the tail.
proof fn lemma_tail_skip(s: Seq<char>, k: int)
    requires
        0 <= k <= s.len(),
        forall|j: int| 0 < j <= k ==> utf8_size(#[trigger] s.skip(j)) > LOG_LIMIT,
    ensures
        log_tail(s) == log_tail(s.skip(k)),
    decreases k,
{
    if k == 0 {
        assert(s.skip(0) =~= s);
    } else {
        lemma_tail_skip(s, k - 1);
        let t = s.skip(k - 1);
        assert(t.drop_first() =~= s.skip(k));
        assert(utf8_size(s.skip(k)) > LOG_LIMIT);
    }
}

/// The number of bytes that `c` takes in UTF-8.
fn width(c: char) -> (w: usize)
    ensures
        w == char_width(c),
{
    let v: u32 = c as u32;
    if v < 0x80 {
        1
    } else if v < 0x800 {
        2
    } else if v < 0x10000 {
        3
    } else {
        4
    }
}

/// The end of a log, as `log_tail` describes it.
pub fn tail_of_log(log: &str) -> (t: String)
    ensures
        t@ == log_tail(log@),
{
    let s = chars_of(log);
    let n: usize = s.len();
    let mut k: usize = n;
    let mut size: usize = 0;
    while k > 0
        invariant_except_break
            k <= n == s@.len(),
            size == utf8_size(s@.skip(k as int)),
            size <= LOG_LIMIT,
            k < n ==> utf8_size(s@.skip(k + 1)) <= LOG_LIMIT,
        ensures
            k <= n,
            size == utf8_size(s@.skip(k as int)),
            k == 0 || size > LOG_LIMIT,
            k < n ==> utf8_size(s@.skip(k + 1)) <= LOG_LIMIT,
        decreases k,
    {
        proof {
            lemma_size_step(s@, k - 1);
        }
        size = size + width(s[k - 1]);
        k = k - 1;
        if size > LOG_LIMIT {
            break;
        }
    }
    proof {
        assert forall|j: int| 0 < j <= k implies utf8_size(#[trigger] s@.skip(j)) > LOG_LIMIT by {
            lemma_size_monotone(s@, j, k as int);
        }
        lemma_tail_skip(s@, k as int);
        let t = s@.skip(k as int);
        if t.len() > 0 {
            assert(t.drop_first() =~= s@.skip(k + 1));
        }
    }
    let rest = sub_chars(s.as_slice(), k, n);
    assert(rest@ =~= s@.skip(k as int));
    string_of(rest.as_slice())
}

/// What the status message shows of the server's output: `attached` tells
/// whether a reader is attached to the output, `running` whether it still
/// reads, and `output` is everything it has read.
pub fn log_excerpt(attached: bool, running: bool, output: &[u8]) -> (t: String)
    ensures
        t@ == log_view(attached, running, output@),
{
    if !attached {
        String::from_str("Server not running.")
    } else if !running {
        String::from_str("Server shut down.")
    } else {
        let text = text_from_bytes(output);
        tail_of_log(text.as_str())
    }
}

/// How a count shows in the status message.
fn count_string(count: Option<u32>) -> (s: String)
    ensures
        s@ == count_text(count),
{
    match count {
        Some(v) => decimal_string(v),
        None => String::from_str("?"),
    }
}

/// The status message for the latest `counts` and the log excerpt `log`.
pub fn status_message(counts: Option<OtherData>, log: &str) -> (s: String)
    ensures
        s@ == status_text(counts, log@),
{
    let mut s = String::new();
    match counts {
        Some(d) => {
            s.append("Players online: ");
            let players = count_string(d.players_online);
            s.append(players.as_str());
            s.append("\nEntities: ");
            let entities = count_string(d.entities);
            s.append(entities.as_str());
            s.append("\n");
        },
        None => {},
    }
    assert(s@ =~= counts_text(counts));
    s.append("Server log:\n```\n");
    s.append(log);
    s.append("\n```");
    s
}

/// The end of a log is a run of its last characters. A log that fits in
/// `LOG_LIMIT` bytes is kept whole; a longer one is cut to more than
/// `LOG_LIMIT` bytes, and to the fewest characters that are more.
pub proof fn lemma_log_tail_shape(s: Seq<char>)
    ensures
        log_tail(s).len() <= s.len(),
        log_tail(s) == s.skip(s.len() - log_tail(s).len()),
        utf8_size(s) <= LOG_LIMIT ==> log_tail(s) == s,
        utf8_size(s) > LOG_LIMIT ==> utf8_size(log_tail(s)) > LOG_LIMIT,
        utf8_size(s) > LOG_LIMIT ==> utf8_size(log_tail(s).drop_first()) <= LOG_LIMIT,
    decreases s.len(),
{
    if s.len() > 0 && utf8_size(s.drop_first()) > LOG_LIMIT {
        let t = s.drop_first();
        lemma_log_tail_shape(t);
        assert(t.skip(t.len() - log_tail(t).len()) =~= s.skip(s.len() - log_tail(t).len()));
    } else {
        assert(s.skip(0) =~= s);
    }
}

/// Where the refresh of the status message stands.
#[derive(PartialEq, Eq, Structural, Clone, Copy, Debug)]
pub enum RefreshPhase {
    /// About to start a round: a request to stop is looked at here.
    RoundStart,
    /// The scoreboard query was written.
    Queried,
    /// The wait for the server's answers is over.
    Answered,
    /// The status message was edited.
    Edited,
}

/// What the refresh does next.
#[derive(PartialEq, Eq, Structural, Clone, Copy, Debug)]
pub enum RefreshAction {
    /// Stop refreshing.
    Stop,
    /// Write `SCOREBOARD_QUERY` to the server's standard input.
    SendQuery,
    /// Wait this many milliseconds.
    Wait(u64),
    /// Edit the status message with `status_message` of the latest counts and log.
    EditStatus,
}

/// One step of the refresh: at the start of a round it stops when asked to,
/// else it writes the query, waits a second for the answers, edits the
/// status message and waits two seconds before the next round.
pub open spec fn refresh_next(phase: RefreshPhase, quit_requested: bool) -> (RefreshPhase, RefreshAction) {
    match phase {
        RefreshPhase::RoundStart => if quit_requested {
            (RefreshPhase::RoundStart, RefreshAction::Stop)
        } else {
            (RefreshPhase::Queried, RefreshAction::SendQuery)
        },
        RefreshPhase::Queried => (RefreshPhase::Answered, RefreshAction::Wait(1000)),
        RefreshPhase::Answered => (RefreshPhase::Edited, RefreshAction::EditStatus),
        RefreshPhase::Edited => (RefreshPhase::RoundStart, RefreshAction::Wait(2000)),
    }
}

/// The next phase of the refresh and what to do now; `quit_requested` tells
/// whether stopping has been asked for.
pub fn refresh_step(phase: RefreshPhase, quit_requested: bool) -> (next: (RefreshPhase, RefreshAction))
    ensures
        next == refresh_next(phase, quit_requested),
{
    match phase {
        RefreshPhase::RoundStart => if quit_requested {
            (RefreshPhase::RoundStart, RefreshAction::Stop)
        } else {
            (RefreshPhase::Queried, RefreshAction::SendQuery)
        },
        RefreshPhase::Queried => (RefreshPhase::Answered, RefreshAction::Wait(1000)),
        RefreshPhase::Answered => (RefreshPhase::Edited, RefreshAction::EditStatus),
        RefreshPhase::Edited => (RefreshPhase::RoundStart, RefreshAction::Wait(2000)),
    }
}

/// A round of the refresh: from the start of a round, when stopping is
/// asked for, the refresh stops at once and stays where it is; otherwise it
/// writes the query, waits a second, edits the status message, waits two
/// seconds and is back at the start of a round, whatever the stop requests
/// during the round, which are only looked at at its start.
pub proof fn lemma_refresh_round(q1: bool, q2: bool, q3: bool)
    ensures
        refresh_next(RefreshPhase::RoundStart, true) == (RefreshPhase::RoundStart, RefreshAction::Stop),
        ({
            let (p1, a1) = refresh_next(RefreshPhase::RoundStart, false);
            let (p2, a2) = refresh_next(p1, q1);
            let (p3, a3) = refresh_next(p2, q2);
            let (p4, a4) = refresh_next(p3, q3);
            &&& a1 == RefreshAction::SendQuery
            &&& a2 == RefreshAction::Wait(1000)
            &&& a3 == RefreshAction::EditStatus
            &&& a4 == RefreshAction::Wait(2000)
            &&& p4 == RefreshPhase::RoundStart
        }),
{
}

/// How the status message shows counts: each count is shown on its own,
/// as its decimal digits when known and as `?` while unknown, players first,
/// then entities, then the log in a code block; with no counts at all only
/// the log is shown.
pub proof fn lemma_status_shows_each_count(d: OtherData, log: Seq<char>)
    ensures
        status_text(Some(d), log) == "Players online: "@ + (match d.players_online {
            Some(v) => decimal(v as nat),
            None => "?"@,
        }) + "\nEntities: "@ + (match d.entities {
            Some(v) => decimal(v as nat),
            None => "?"@,
        }) + "\n"@ + "Server log:\n```\n"@ + log + "\n```"@,
        status_text(None, log) == "Server log:\n```\n"@ + log + "\n```"@,
{
    assert(status_text(None, log) =~= "Server log:\n```\n"@ + log + "\n```"@);
}

/// The sizes used to cut the log are UTF-8 byte counts: the size of any
/// text is the length of its UTF-8 encoding.
pub proof fn lemma_size_is_utf8_length(s: Seq<char>)
    ensures
        utf8_size(s) == encode_utf8(s).len(),
    decreases s.len(),
{
    if s.len() > 0 {
        lemma_size_is_utf8_length(s.drop_first());
        vstd::utf8::char_is_scalar(s[0]);
    }
}

/// The log part of the status message: `Server not running.` while no reader
/// is attached to the output, `Server shut down.` once it has stopped, and
/// otherwise the end of the output as read.
pub proof fn lemma_log_view_cases(attached: bool, running: bool, output: Seq<u8>)
    ensures
        !attached ==> log_view(attached, running, output) == "Server not running."@,
        attached && !running ==> log_view(attached, running, output) == "Server shut down."@,
        attached && running ==> log_view(attached, running, output) == log_tail(lossy_text(output)),
{
}

} // verus!
