//! What the bot reads from the server's standard output: the output is cut
//! into lines, and lines that report a scoreboard counter update the counts.
use vstd::prelude::*;

use crate::text::chars_of;
use crate::text::decimal;
use crate::text::is_digit;
use crate::text::lemma_decimal_digits;
use crate::text::lemma_decimal_reads_back;
use crate::text::has_prefix_at;
use crate::text::lossy_text;
use crate::text::parse_decimal_u32;
use crate::text::parse_u32;
use crate::text::sub_chars;
use crate::text::text_from_bytes;

verus! {

/// The counts that the server last reported; `None` until it reports one.
pub struct OtherData {
    pub players_online: Option<u32>,
    pub entities: Option<u32>,
}

/// One of the scoreboard counters that the bot asks the server for.
#[derive(PartialEq, Eq, Structural, Clone, Copy, Debug)]
pub enum Counter {
    PlayersOnline,
    Entities,
}

impl OtherData {
    /// No count reported yet.
    pub fn new() -> (d: Self)
        ensures
            d.players_online is None,
            d.entities is None,
    {
        Self { players_online: None, entities: None }
    }

    /// A copy of these counts.
    pub fn clone(&self) -> (d: Self)
        ensures
            d == *self,
    {
        Self { players_online: self.players_online, entities: self.entities }
    }

    /// These counts after `update`, when there is one, has been applied.
    pub open spec fn updated(self, update: Option<(Counter, u32)>) -> OtherData {
        match update {
            Some((Counter::PlayersOnline, v)) => OtherData { players_online: Some(v), ..self },
            Some((Counter::Entities, v)) => OtherData { entities: Some(v), ..self },
            None => self,
        }
    }
}

/// Whether `s[i]` is the space of a `": "` in `s`.
pub open spec fn separator_at(s: Seq<char>, i: int) -> bool {
    1 <= i < s.len() && s[i - 1] == ':' && s[i] == ' '
}

/// Whether `s[i]` is the space of the first `": "` in `s`.
pub open spec fn first_separator_at(s: Seq<char>, i: int) -> bool {
    separator_at(s, i) && forall|j: int| 0 <= j < i ==> !separator_at(s, j)
}

/// The message of a server log line: what follows its first `": "`, which
/// ends the time stamp and thread name. `None` when the line has no `": "`.
pub open spec fn message_of(line: Seq<char>) -> Option<Seq<char>> {
    if exists|i: int| separator_at(line, i) {
        let i = choose|i: int| first_separator_at(line, i);
        Some(line.skip(i + 1))
    } else {
        None
    }
}

/// The words that open the server's answer about `counter`.
pub open spec fn report_prefix(counter: Counter) -> Seq<char> {
    match counter {
        Counter::PlayersOnline => "players_online has "@,
        Counter::Entities => "entities has "@,
    }
}

/// The reading of `counter` at the start of `rest`: the number before the
/// first space, when there is a space and the text before it is a `u32`.
pub open spec fn reading(counter: Counter, rest: Seq<char>) -> Option<(Counter, u32)> {
    match rest.index_of_first(' ') {
        Some(i) => match parse_u32(rest.take(i)) {
            Some(v) => Some((counter, v)),
            None => None,
        },
        None => None,
    }
}

/// The counter reading that a server message carries, such as
/// `players_online has 3 [dcbot_temp]`.
pub open spec fn report_in(message: Seq<char>) -> Option<(Counter, u32)> {
    if report_prefix(Counter::PlayersOnline).is_prefix_of(message) {
        reading(Counter::PlayersOnline, message.skip(report_prefix(Counter::PlayersOnline).len() as int))
    } else if report_prefix(Counter::Entities).is_prefix_of(message) {
        reading(Counter::Entities, message.skip(report_prefix(Counter::Entities).len() as int))
    } else {
        None
    }
}

/// The counter update that a log line carries. A message that starts with `[`
/// comes from a player running a command and is never read as a report.
pub open spec fn counter_update(line: Seq<char>) -> Option<(Counter, u32)> {
    match message_of(line) {
        Some(m) => if m.len() > 0 && m[0] != '[' {
            report_in(m)
        } else {
            None
        },
        None => None,
    }
}

/// The index of the space of the first `": "` in `s`.
fn find_separator(s: &[char]) -> (r: Option<usize>)
    ensures
        match r {
            Some(i) => first_separator_at(s@, i as int),
            None => forall|i: int| !separator_at(s@, i),
        },
{
    if s.len() < 2 {
        return None;
    }
    let mut i: usize = 1;
    while i < s.len()
        invariant
            1 <= i <= s.len(),
            forall|j: int| 0 <= j < i ==> !separator_at(s@, j),
        decreases s.len() - i,
    {
        if s[i - 1] == ':' && s[i] == ' ' {
            return Some(i);
        }
        i = i + 1;
    }
    None
}

/// The reading of `counter` from the characters of `s` that start at `from`.
fn read_counter(counter: Counter, s: &[char], from: usize) -> (r: Option<(Counter, u32)>)
    requires
        from <= s.len(),
    ensures
        r == reading(counter, s@.skip(from as int)),
{
    let ghost rest = s@.skip(from as int);
    let mut i: usize = from;
    while i < s.len()
        invariant
            from <= i <= s.len(),
            rest == s@.skip(from as int),
            forall|j: int| 0 <= j < i - from ==> rest[j] != ' ',
        decreases s.len() - i,
    {
        if s[i] == ' ' {
            let value = sub_chars(s, from, i);
            assert(value@ == rest.take(i - from));
            proof {
                assert(rest[i - from] == ' ');
                assert(rest.contains(' '));
                rest.index_of_first_ensures(' ');
                let idx = rest.index_of_first(' ')->0;
                assert(idx == i - from) by {
                    if idx < i - from {
                        assert(rest[idx] != ' ');
                    }
                }
            }
            return match parse_decimal_u32(value.as_slice()) {
                Some(v) => Some((counter, v)),
                None => None,
            };
        }
        i = i + 1;
    }
    proof {
        rest.index_of_first_ensures(' ');
    }
    assert(!rest.contains(' '));
    None
}

/// Reads a line that the server printed and records the counter it reports,
/// if any; the other count stays as it was.
pub fn parse_line(line: &str, other_data: &mut OtherData)
    ensures
        *final(other_data) == old(other_data).updated(counter_update(line@)),
{
    let s = chars_of(line);
    let sep: usize = match find_separator(s.as_slice()) {
        Some(i) => i,
        None => {
            return;
        },
    };
    proof {
        assert(exists|i: int| separator_at(s@, i));
        let k = choose|i: int| first_separator_at(s@, i);
        assert(first_separator_at(s@, k));
        assert(k == sep as int) by {
            if k < sep {
                assert(!separator_at(s@, k));
            }
            if sep < k {
                assert(!separator_at(s@, sep as int));
            }
        }
    }
    assert(separator_at(s@, sep as int));
    assert(sep < s.len());
    let start: usize = sep + 1;
    let ghost message = s@.skip(start as int);
    assert(message_of(line@) == Some(message));
    if !(start < s.len() && s[start] != '[') {
        return;
    }
    let players = chars_of("players_online has ");
    let entities = chars_of("entities has ");
    let update = if has_prefix_at(s.as_slice(), start, players.as_slice()) {
        if players.len() <= s.len() - start {
            assert(message.skip(players@.len() as int) == s@.skip((start + players.len()) as int));
            read_counter(Counter::PlayersOnline, s.as_slice(), start + players.len())
        } else {
            None
        }
    } else if has_prefix_at(s.as_slice(), start, entities.as_slice()) {
        if entities.len() <= s.len() - start {
            assert(message.skip(entities@.len() as int) == s@.skip((start + entities.len()) as int));
            read_counter(Counter::Entities, s.as_slice(), start + entities.len())
        } else {
            None
        }
    } else {
        None
    };
    match update {
        Some((Counter::PlayersOnline, v)) => {
            other_data.players_online = Some(v);
        },
        Some((Counter::Entities, v)) => {
            other_data.entities = Some(v);
        },
        None => {},
    }
}

/// Records the counter that a line of raw server output reports, reading
/// the bytes as UTF-8 the way `String::from_utf8_lossy` does.
pub fn read_line_bytes(line: &[u8], other_data: &mut OtherData)
    ensures
        *final(other_data) == old(other_data).updated(counter_update(lossy_text(line@))),
{
    let text = text_from_bytes(line);
    parse_line(text.as_str(), other_data);
}

/// The byte that ends a line of output.
pub const NEWLINE: u8 = 10;

/// Everything the server has printed so far, and where its unfinished line starts.
pub struct LineSplitter {
    output: Vec<u8>,
    line_start: usize,
}

/// The state of a [`LineSplitter`]: all output so far, and where the unfinished line starts.
pub struct SplitterState {
    pub output: Seq<u8>,
    pub line_start: nat,
}

/// The state after `byte` arrives in `s`, and the line it completes: a
/// newline completes the line that began at `line_start`, newline included.
pub open spec fn feed(s: SplitterState, byte: u8) -> (SplitterState, Option<Seq<u8>>) {
    let output = s.output.push(byte);
    if byte == NEWLINE {
        (SplitterState { output, line_start: output.len() }, Some(output.subrange(s.line_start as int, output.len() as int)))
    } else {
        (SplitterState { output, line_start: s.line_start }, None)
    }
}

impl SplitterState {
    /// The unfinished line starts within the output.
    pub open spec fn wf(self) -> bool {
        self.line_start <= self.output.len()
    }

    /// The bytes of the unfinished line.
    pub open spec fn pending(self) -> Seq<u8> {
        self.output.skip(self.line_start as int)
    }
}

impl View for LineSplitter {
    type V = SplitterState;

    closed spec fn view(&self) -> SplitterState {
        SplitterState { output: self.output@, line_start: self.line_start as nat }
    }
}

impl LineSplitter {
    #[verifier::type_invariant]
    spec fn line_start_in_output(self) -> bool {
        self.line_start <= self.output.len()
    }

    /// Nothing read yet.
    pub fn new() -> (s: Self)
        ensures
            s@.output.len() == 0,
            s@.line_start == 0,
            s@.wf(),
    {
        LineSplitter { output: Vec::new(), line_start: 0 }
    }

    /// All bytes read so far.
    pub fn output(&self) -> (o: &[u8])
        ensures
            o@ == self@.output,
            self@.wf(),
    {
        proof {
            use_type_invariant(self);
        }
        self.output.as_slice()
    }

    /// Takes in one byte of output; returns the line that it completes, if it
    /// is a newline.
    pub fn push(&mut self, byte: u8) -> (line: Option<Vec<u8>>)
        ensures
            old(self)@.wf(),
            final(self)@.wf(),
            final(self)@ == feed(old(self)@, byte).0,
            match line {
                Some(l) => feed(old(self)@, byte).1 == Some(l@),
                None => feed(old(self)@, byte).1 is None,
            },
    {
        proof {
            use_type_invariant(&*self);
        }
        let mut taken = LineSplitter { output: Vec::new(), line_start: 0 };
        std::mem::swap(&mut taken, self);
        let LineSplitter { output: mut output, line_start } = taken;
        output.push(byte);
        if byte == NEWLINE {
            let mut line: Vec<u8> = Vec::new();
            let mut i: usize = line_start;
            let end: usize = output.len();
            while i < end
                invariant
                    line_start <= i <= end,
                    end == output.len(),
                    line@ == output@.subrange(line_start as int, i as int),
                decreases end - i,
            {
                line.push(output[i]);
                i = i + 1;
                assert(line@ =~= output@.subrange(line_start as int, i as int));
            }
            *self = LineSplitter { output, line_start: end };
            Some(line)
        } else {
            *self = LineSplitter { output, line_start };
            None
        }
    }
}

/// The state after the bytes of `bytes` arrive one after the other in `s`,
/// and the lines that they complete, in order.
pub open spec fn feed_all(s: SplitterState, bytes: Seq<u8>) -> (SplitterState, Seq<Seq<u8>>)
    decreases bytes.len(),
{
    if bytes.len() == 0 {
        (s, seq![])
    } else {
        let (t, lines) = feed_all(s, bytes.drop_last());
        let (u, line) = feed(t, bytes.last());
        (u, match line {
            Some(l) => lines.push(l),
            None => lines,
        })
    }
}

/// The lines one after the other.
pub open spec fn joined(lines: Seq<Seq<u8>>) -> Seq<u8>
    decreases lines.len(),
{
    if lines.len() == 0 {
        seq![]
    } else {
        joined(lines.drop_last()) + lines.last()
    }
}

/// Whether `bytes` holds no newline.
pub open spec fn no_newline(bytes: Seq<u8>) -> bool {
    forall|i: int| 0 <= i < bytes.len() ==> bytes[i] != NEWLINE
}

/// Whether `line` is one complete line: it ends with a newline and holds no other.
pub open spec fn is_complete_line(line: Seq<u8>) -> bool {
    line.len() > 0 && line.last() == NEWLINE && no_newline(line.drop_last())
}

/// Output is cut into lines without losing or reordering a byte: after any
/// bytes arrive, the output is the old output followed by them; the lines
/// completed, one after the other and followed by the unfinished line, are
/// the old unfinished line followed by the bytes; every completed line ends
/// with its newline and holds no other; the unfinished line holds none.
pub proof fn lemma_lines_reassemble(s: SplitterState, bytes: Seq<u8>)
    requires
        s.wf(),
        no_newline(s.pending()),
    ensures
        feed_all(s, bytes).0.wf(),
        feed_all(s, bytes).0.output == s.output + bytes,
        joined(feed_all(s, bytes).1) + feed_all(s, bytes).0.pending() == s.pending() + bytes,
        forall|i: int| 0 <= i < feed_all(s, bytes).1.len() ==> is_complete_line(#[trigger] feed_all(s, bytes).1[i]),
        no_newline(feed_all(s, bytes).0.pending()),
    decreases bytes.len(),
{
    if bytes.len() == 0 {
        assert(s.output + bytes =~= s.output);
        assert(s.pending() + bytes =~= s.pending());
        assert(joined(seq![]) + s.pending() =~= s.pending());
    } else {
        let front = bytes.drop_last();
        let b = bytes.last();
        lemma_lines_reassemble(s, front);
        let (t, lines) = feed_all(s, front);
        let out = t.output.push(b);
        assert(out == s.output + bytes) by {
            assert(s.output + front + seq![b] =~= s.output + bytes);
            assert(t.output.push(b) =~= t.output + seq![b]);
        }
        assert(out.skip(t.line_start as int) =~= t.pending().push(b));
        assert(s.pending() + bytes =~= (s.pending() + front).push(b));
        if b == NEWLINE {
            let line = out.subrange(t.line_start as int, out.len() as int);
            assert(line =~= t.pending().push(b));
            let all = lines.push(line);
            assert(all.drop_last() =~= lines);
            assert(joined(all) == joined(lines) + line);
            assert(line.drop_last() =~= t.pending());
            let u = feed(t, b).0;
            assert(u.pending() =~= Seq::<u8>::empty());
            assert(joined(all) + u.pending() =~= joined(all));
            assert(joined(all) =~= (joined(lines) + t.pending()).push(b));
            assert forall|i: int| 0 <= i < all.len() implies is_complete_line(#[trigger] all[i]) by {
                if i < lines.len() {
                    assert(all[i] == lines[i]);
                }
            }
        } else {
            let u = feed(t, b).0;
            assert(u.pending() =~= t.pending().push(b));
            assert(joined(lines) + u.pending() =~= (joined(lines) + t.pending()).push(b));
            assert(no_newline(u.pending())) by {
                assert forall|i: int| 0 <= i < u.pending().len() implies u.pending()[i] != NEWLINE by {
                    if i < t.pending().len() {
                        assert(u.pending()[i] == t.pending()[i]);
                    }
                }
            }
        }
    }
}

/// What one attempt to read the server's output brought.
pub enum ReadOutcome {
    /// Reading was asked to stop before the attempt.
    Quit,
    /// One byte of output.
    Byte(u8),
    /// The output ended.
    End,
    /// Reading failed.
    Failed,
}

/// The output state and counts after `byte` arrives: the byte goes to the
/// output, and a line that it completes, read as UTF-8 the way
/// `String::from_utf8_lossy` does, updates the counts.
pub open spec fn read_byte(s: SplitterState, counts: OtherData, byte: u8) -> (SplitterState, OtherData) {
    let (t, line) = feed(s, byte);
    (t, match line {
        Some(l) => counts.updated(counter_update(lossy_text(l))),
        None => counts,
    })
}

/// The output state and counts after the bytes of `bytes` arrive one after the other.
pub open spec fn read_all(s: SplitterState, counts: OtherData, bytes: Seq<u8>) -> (SplitterState, OtherData)
    decreases bytes.len(),
{
    if bytes.len() == 0 {
        (s, counts)
    } else {
        let (t, c) = read_all(s, counts, bytes.drop_last());
        read_byte(t, c, bytes.last())
    }
}

/// The counts after each of `lines`, in order, updates them.
pub open spec fn counts_after_lines(counts: OtherData, lines: Seq<Seq<u8>>) -> OtherData
    decreases lines.len(),
{
    if lines.len() == 0 {
        counts
    } else {
        counts_after_lines(counts, lines.drop_last()).updated(counter_update(lossy_text(lines.last())))
    }
}

/// Takes in what one read of the server's output brought: a byte goes to
/// the output, and a line that it completes updates the counts. Returns
/// whether reading goes on, which it does only after a byte.
pub fn handle_read(splitter: &mut LineSplitter, counts: &mut OtherData, outcome: ReadOutcome) -> (go_on: bool)
    ensures
        final(splitter)@.wf(),
        go_on == outcome is Byte,
        match outcome {
            ReadOutcome::Byte(b) => (final(splitter)@, *final(counts)) == read_byte(old(splitter)@, *old(counts), b),
            _ => final(splitter)@ == old(splitter)@ && *final(counts) == *old(counts),
        },
{
    proof {
        use_type_invariant(&*splitter);
    }
    match outcome {
        ReadOutcome::Byte(b) => {
            match splitter.push(b) {
                Some(line) => {
                    read_line_bytes(line.as_slice(), counts);
                },
                None => {},
            }
            true
        },
        _ => false,
    }
}

/// Reading a run of bytes updates the counts by the lines that the run
/// completes, one after the other, and by nothing else: the state and counts
/// after the bytes are those that feeding them gives, with every completed
/// line applied in order.
pub proof fn lemma_counts_follow_lines(s: SplitterState, counts: OtherData, bytes: Seq<u8>)
    ensures
        read_all(s, counts, bytes) == (feed_all(s, bytes).0, counts_after_lines(counts, feed_all(s, bytes).1)),
    decreases bytes.len(),
{
    if bytes.len() > 0 {
        lemma_counts_follow_lines(s, counts, bytes.drop_last());
        let (t, lines) = feed_all(s, bytes.drop_last());
        let (u, line) = feed(t, bytes.last());
        if let Some(l) = line {
            assert(lines.push(l).drop_last() =~= lines);
        }
    }
}

/// What reading a whole stream from the start gives: the output is the
/// stream; the counts are those that its newline-ended lines, in order and
/// each with its newline, report one after the other, starting from no
/// counts; those lines followed by the unfinished rest make up the stream,
/// and the rest, which holds no newline, is never read for counts.
pub proof fn lemma_stream_counts(bytes: Seq<u8>)
    ensures
        ({
            let start = SplitterState { output: Seq::empty(), line_start: 0 };
            let none = OtherData { players_online: None, entities: None };
            let (end, lines) = feed_all(start, bytes);
            &&& read_all(start, none, bytes) == (end, counts_after_lines(none, lines))
            &&& end.output == bytes
            &&& joined(lines) + end.pending() == bytes
            &&& forall|i: int| 0 <= i < lines.len() ==> is_complete_line(#[trigger] lines[i])
            &&& no_newline(end.pending())
        }),
{
    let start = SplitterState { output: Seq::empty(), line_start: 0 };
    let none = OtherData { players_online: None, entities: None };
    assert(start.pending() =~= Seq::<u8>::empty());
    lemma_lines_reassemble(start, bytes);
    lemma_counts_follow_lines(start, none, bytes);
    assert(start.output + bytes =~= bytes);
    assert(start.pending() + bytes =~= bytes);
}

/// A counter report is read as the number it gives: a log line whose first
/// `": "` is followed by `players_online has ` (or `entities has `), the
/// decimal notation of any `u32` and a space sets that counter, and only
/// that one, to that number, whatever the time stamp before and the text after.
pub proof fn lemma_report_read(head: Seq<char>, counter: Counter, words: Seq<char>, n: u32, rest: Seq<char>)
    requires
        forall|i: int| !separator_at(head, i),
        (counter == Counter::PlayersOnline && words == "players_online has "@) || (counter == Counter::Entities
            && words == "entities has "@),
    ensures
        counter_update(head + seq![':', ' '] + (words + decimal(n as nat) + seq![' '] + rest)) == Some((counter, n)),
{
    reveal_strlit("players_online has ");
    reveal_strlit("entities has ");
    let msg = words + decimal(n as nat) + seq![' '] + rest;
    let line = head + seq![':', ' '] + msg;
    let i0: int = head.len() + 1int;
    assert(separator_at(line, i0));
    assert forall|j: int| 0 <= j < i0 implies !separator_at(line, j) by {
        if j < head.len() && separator_at(line, j) {
            assert(line[j] == head[j] && line[j - 1] == head[j - 1]);
            assert(separator_at(head, j));
        }
    }
    assert(first_separator_at(line, i0));
    let k = choose|i: int| first_separator_at(line, i);
    assert(k == i0) by {
        if k < i0 {
            assert(!separator_at(line, k));
        }
        if k > i0 {
            assert(!separator_at(line, i0));
        }
    }
    assert(line.skip(i0 + 1) =~= msg);
    assert(message_of(line) == Some(msg));
    assert(msg[0] == words[0]);
    assert(msg[0] != '[');
    assert(words.is_prefix_of(msg)) by {
        assert(words =~= msg.subrange(0, words.len() as int));
    }
    if counter == Counter::Entities {
        assert(!"players_online has "@.is_prefix_of(msg)) by {
            assert("players_online has "@[0] != msg[0]);
        }
    }
    let value = decimal(n as nat);
    let after = msg.skip(words.len() as int);
    assert(after =~= value + seq![' '] + rest);
    lemma_decimal_digits(n as nat);
    lemma_decimal_reads_back(n);
    after.index_of_first_ensures(' ');
    assert(after[value.len() as int] == ' ');
    assert(after.contains(' '));
    let idx = after.index_of_first(' ')->0;
    assert(idx == value.len()) by {
        if idx < value.len() {
            assert(after[idx] == value[idx]);
            assert(is_digit(value[idx]));
        }
    }
    assert(after.take(idx) =~= value);
}

/// A count changes only through its own counter: an update of one counter
/// sets it to the number read and keeps the other count; no update keeps both.
pub proof fn lemma_update_one_count(d: OtherData, v: u32)
    ensures
        d.updated(Some((Counter::PlayersOnline, v))).players_online == Some(v),
        d.updated(Some((Counter::PlayersOnline, v))).entities == d.entities,
        d.updated(Some((Counter::Entities, v))).entities == Some(v),
        d.updated(Some((Counter::Entities, v))).players_online == d.players_online,
        d.updated(None) == d,
{
}

/// Lines that carry no report change nothing: a line without `": "`, and a
/// line whose message after its first `": "` is empty or starts with `[` (a
/// player's command echoed by the server).
pub proof fn lemma_no_report(head: Seq<char>, rest: Seq<char>)
    requires
        forall|i: int| !separator_at(head, i),
    ensures
        counter_update(head) is None,
        counter_update(head + seq![':', ' ']) is None,
        counter_update(head + seq![':', ' ', '['] + rest) is None,
{
    let a = head + seq![':', ' '];
    let b = head + seq![':', ' ', '['] + rest;
    let i0: int = head.len() + 1int;
    assert forall|j: int| 0 <= j < i0 implies !separator_at(a, j) && !separator_at(b, j) by {
        if j < head.len() && separator_at(a, j) {
            assert(a[j] == head[j] && a[j - 1] == head[j - 1]);
            assert(separator_at(head, j));
        }
        if j < head.len() && separator_at(b, j) {
            assert(b[j] == head[j] && b[j - 1] == head[j - 1]);
            assert(separator_at(head, j));
        }
    }
    assert(first_separator_at(a, i0));
    assert(first_separator_at(b, i0));
    let ka = choose|i: int| first_separator_at(a, i);
    assert(ka == i0) by {
        if ka < i0 {
            assert(!separator_at(a, ka));
        }
        if ka > i0 {
            assert(!separator_at(a, i0));
        }
    }
    let kb = choose|i: int| first_separator_at(b, i);
    assert(kb == i0) by {
        if kb < i0 {
            assert(!separator_at(b, kb));
        }
        if kb > i0 {
            assert(!separator_at(b, i0));
        }
    }
    assert(a.skip(i0 + 1).len() == 0);
    assert(b.skip(i0 + 1)[0] == '[');
}

} // verus!
