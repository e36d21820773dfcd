//! The chat commands of the bot: `mc.start <type>`, `mc.kill` and
//! `mc.run <console command>`, and what the bot does for each.
use vstd::prelude::*;
use vstd::string::StringExecFns;

use crate::permissions::is_admin_user;
use crate::permissions::DcUserPerms;
use crate::server_config::config_named;
use crate::server_config::DefaultServerConfig;
use crate::server_config::MinecraftServer;
use crate::server_config::UNKNOWN_SERVER_TYPE;
use crate::text::chars_of;
use crate::text::has_prefix_at;
use crate::text::same_text;
use crate::text::string_of;
use crate::text::sub_chars;
use crate::text::texts;

verus! {

/// The prefix that marks a chat message as a command for the bot.
pub const PREFIX: &'static str = "mc.";

/// The reply to `start` without a server type.
pub const NO_SERVER_TYPE: &'static str = "You must specify what server you would like to start! Use 'help' to get a list of possibilities.";

/// The reply before a new server replaces the user's running one.
pub const STOPPING_OLD_SERVER: &'static str = "Killing the old server.";

/// The reply to a user who may not start the server asked for.
pub const NOT_PERMITTED: &'static str = "You do not have permission to start this kind of server.";

/// The reply to `kill` from a user without a server.
pub const NO_SERVER_BOUND: &'static str = "No server bound to this channel.";

/// The reply when a server is being stopped.
pub const STOPPING_SERVER: &'static str = "Forcibly stopping your server. This might take a few seconds.";

/// The reply when the server to stop had no process.
pub const SERVER_NOT_RUNNING: &'static str = "Server isn't running.";

/// `s` cut at every space: the pieces between consecutive spaces, in order,
/// the empty ones included.
pub open spec fn pieces(s: Seq<char>) -> Seq<Seq<char>>
    decreases s.len(),
{
    if s.len() == 0 {
        seq![Seq::empty()]
    } else {
        let p = pieces(s.drop_last());
        if s.last() == ' ' {
            p.push(Seq::empty())
        } else {
            p.update(p.len() - 1, p.last().push(s.last()))
        }
    }
}

/// The words of a command: `s` cut at every space, without the last piece when it is empty.
pub open spec fn words(s: Seq<char>) -> Seq<Seq<char>> {
    let p = pieces(s);
    if p.last().len() == 0 {
        p.drop_last()
    } else {
        p
    }
}

/// Cuts `s` into its words.
fn split_words(s: &[char]) -> (w: Vec<String>)
    ensures
        texts(w@) == words(s@),
{
    let mut done: Vec<String> = Vec::new();
    let mut cur = String::new();
    let mut i: usize = 0;
    assert(s@.take(0) =~= Seq::<char>::empty());
    while i < s.len()
        invariant
            i <= s.len(),
            texts(done@).push(cur@) == pieces(s@.take(i as int)),
        decreases s.len() - i,
    {
        let c = s[i];
        let ghost before = pieces(s@.take(i as int));
        assert(s@.take(i + 1).drop_last() =~= s@.take(i as int));
        assert(s@.take(i + 1).last() == c);
        if c == ' ' {
            let ghost d = done@;
            done.push(cur);
            cur = String::new();
            assert(texts(done@) =~= texts(d).push(before.last()));
            assert(texts(done@).push(cur@) =~= before.push(Seq::empty()));
        } else {
            let ghost d = done@;
            cur.push(c);
            assert(texts(done@).push(cur@) =~= before.update(before.len() - 1, before.last().push(c)));
        }
        i = i + 1;
    }
    assert(s@.take(s.len() as int) =~= s@);
    let ghost p = pieces(s@);
    if !cur.as_str().is_empty() {
        let ghost d = done@;
        done.push(cur);
        assert(texts(done@) =~= p);
    } else {
        assert(texts(done@) =~= p.drop_last());
    }
    done
}

/// The words of the command `s`: the text between spaces, as the bot reads
/// a command after its prefix.
pub fn split_at_space(s: &str) -> (w: Vec<String>)
    ensures
        texts(w@) == words(s@),
{
    let chars = chars_of(s);
    split_words(chars.as_slice())
}

/// The pieces one after the other, with a space between two neighbours.
pub open spec fn joined_with_spaces(p: Seq<Seq<char>>) -> Seq<char>
    decreases p.len(),
{
    if p.len() == 0 {
        Seq::empty()
    } else if p.len() == 1 {
        p[0]
    } else {
        joined_with_spaces(p.drop_last()) + seq![' '] + p.last()
    }
}

/// Cutting at spaces loses nothing: the pieces of `s`, joined again with
/// single spaces, give back `s`, and no piece holds a space.
pub proof fn lemma_pieces_rebuild(s: Seq<char>)
    ensures
        pieces(s).len() >= 1,
        joined_with_spaces(pieces(s)) == s,
        forall|i: int| 0 <= i < pieces(s).len() ==> !(#[trigger] pieces(s)[i]).contains(' '),
    decreases s.len(),
{
    if s.len() > 0 {
        let t = s.drop_last();
        let c = s.last();
        lemma_pieces_rebuild(t);
        let p = pieces(t);
        assert(t.push(c) =~= s);
        if c == ' ' {
            let q = p.push(Seq::<char>::empty());
            assert(q.drop_last() =~= p);
            assert(joined_with_spaces(q) =~= t + seq![' '] + Seq::<char>::empty());
            assert forall|i: int| 0 <= i < q.len() implies !(#[trigger] q[i]).contains(' ') by {
                if i < p.len() {
                    assert(q[i] == p[i]);
                }
            }
        } else {
            let last = p.last().push(c);
            let q = p.update(p.len() - 1, last);
            assert(!p.last().contains(' '));
            assert(!last.contains(' ')) by {
                assert forall|j: int| 0 <= j < last.len() implies last[j] != ' ' by {
                    if j < p.last().len() {
                        assert(last[j] == p.last()[j]);
                    }
                }
            }
            if p.len() == 1 {
                assert(joined_with_spaces(q) =~= s);
            } else {
                assert(q.drop_last() =~= p.drop_last());
                assert(joined_with_spaces(q) =~= s);
            }
            assert forall|i: int| 0 <= i < q.len() implies !(#[trigger] q[i]).contains(' ') by {
                if i < p.len() - 1 {
                    assert(q[i] == p[i]);
                }
            }
        }
    }
}

/// The first piece of `s` is what comes before its first space: it opens
/// `s`, and is followed by a space unless it is all of `s`.
proof fn lemma_first_piece(s: Seq<char>)
    ensures
        pieces(s).len() >= 1,
        pieces(s)[0].is_prefix_of(s),
        pieces(s)[0].len() < s.len() ==> s[pieces(s)[0].len() as int] == ' ',
        pieces(s).len() == 1 ==> pieces(s)[0] == s,
        pieces(s).len() > 1 ==> pieces(s)[0].len() < s.len(),
    decreases s.len(),
{
    if s.len() == 0 {
        assert(pieces(s)[0] =~= s);
    } else {
        let t = s.drop_last();
        let c = s.last();
        lemma_first_piece(t);
        let p = pieces(t);
        let f = p[0];
        if c == ' ' || p.len() > 1 {
            assert(pieces(s)[0] == f);
            assert(f =~= s.subrange(0, f.len() as int));
        } else {
            assert(pieces(s)[0] =~= s);
        }
    }
}

/// One thing that the bot does in answer to a chat message.
pub enum Step {
    /// Reply to the message with this text.
    Reply(String),
    /// Stop the server bound to the user.
    StopServer,
    /// Launch a server of this kind for the user, in place of any earlier one.
    LaunchServer(DefaultServerConfig),
    /// Stop the server bound to the user, and reply with `stop_report` of whether it had a process.
    StopServerAndReport,
    /// Write this console command to the standard input of the user's server.
    SendToServer(String),
}

/// A [`Step`] with its texts as character sequences.
pub enum StepView {
    Reply(Seq<char>),
    StopServer,
    LaunchServer(DefaultServerConfig),
    StopServerAndReport,
    SendToServer(Seq<char>),
}

impl View for Step {
    type V = StepView;

    open spec fn view(&self) -> StepView {
        match self {
            Step::Reply(t) => StepView::Reply(t@),
            Step::StopServer => StepView::StopServer,
            Step::LaunchServer(c) => StepView::LaunchServer(*c),
            Step::StopServerAndReport => StepView::StopServerAndReport,
            Step::SendToServer(t) => StepView::SendToServer(t@),
        }
    }
}

/// The views of `steps`, in order.
pub open spec fn step_views(steps: Seq<Step>) -> Seq<StepView> {
    steps.map_values(|s: Step| s@)
}

/// The answer to `start` with the words `w`, for a user who has a server
/// bound or not and who is an administrator or not. Every server type needs
/// an administrator; a user's running server is stopped before the check.
pub open spec fn start_steps(w: Seq<Seq<char>>, has_server: bool, admin: bool) -> Seq<StepView> {
    if w.len() < 2 {
        if has_server {
            Seq::empty()
        } else {
            seq![StepView::Reply(NO_SERVER_TYPE@)]
        }
    } else {
        match config_named(w[1]) {
            None => seq![StepView::Reply(UNKNOWN_SERVER_TYPE@)],
            Some(config) => (if has_server {
                seq![StepView::Reply(STOPPING_OLD_SERVER@), StepView::StopServer]
            } else {
                Seq::empty()
            }) + (if admin {
                seq![StepView::LaunchServer(config)]
            } else {
                seq![StepView::Reply(NOT_PERMITTED@)]
            }),
        }
    }
}

/// The answer to a chat message `content` from a user who has a server
/// bound or not and who is an administrator or not: nothing unless the
/// message starts with the prefix and its first word is a known command.
pub open spec fn message_steps(content: Seq<char>, has_server: bool, admin: bool) -> Seq<StepView> {
    if !PREFIX@.is_prefix_of(content) {
        Seq::empty()
    } else {
        let command = content.skip(PREFIX@.len() as int);
        let w = words(command);
        if w.len() == 0 {
            Seq::empty()
        } else if w[0] == "start"@ {
            start_steps(w, has_server, admin)
        } else if w[0] == "kill"@ {
            if has_server {
                seq![StepView::StopServerAndReport]
            } else {
                seq![StepView::Reply(NO_SERVER_BOUND@)]
            }
        } else if w[0] == "run"@ {
            if has_server {
                seq![StepView::SendToServer(command.skip("run"@.len() + 1int))]
            } else {
                Seq::empty()
            }
        } else {
            Seq::empty()
        }
    }
}

/// The reply after `kill` stopped the user's server; `had_process` tells
/// whether the server had a process to stop.
pub fn stop_report(had_process: bool) -> (t: String)
    ensures
        t@ == (if had_process {
            STOPPING_SERVER@
        } else {
            SERVER_NOT_RUNNING@
        }),
{
    if had_process {
        String::from_str(STOPPING_SERVER)
    } else {
        String::from_str(SERVER_NOT_RUNNING)
    }
}

/// What the bot does in answer to the chat message `content` from the user
/// of `perms`; `has_server` tells whether a server is bound to that user.
/// The user's permissions are asked for only when a known server type is to start.
/// A bare `run` to a user with a server has no text after it to send, and is
/// left out.
pub fn plan_message(content: &str, has_server: bool, perms: &mut DcUserPerms) -> (steps: Vec<Step>)
    requires
        !(has_server && content@ == PREFIX@ + "run"@),
    ensures
        step_views(steps@) == message_steps(content@, has_server, is_admin_user(old(perms).user())),
        final(perms).user() == old(perms).user(),
{
    let mut steps: Vec<Step> = Vec::new();
    let chars = chars_of(content);
    let prefix = chars_of(PREFIX);
    if !has_prefix_at(chars.as_slice(), 0, prefix.as_slice()) {
        assert(chars@.skip(0) =~= chars@);
        assert(step_views(steps@) =~= Seq::empty());
        return steps;
    }
    assert(chars@.skip(0) =~= chars@);
    let command = sub_chars(chars.as_slice(), prefix.len(), chars.len());
    let ghost cmd = content@.skip(PREFIX@.len() as int);
    assert(command@ =~= cmd);
    let w = split_words(command.as_slice());
    assert(texts(w@) == words(cmd));
    if w.len() == 0 {
        assert(step_views(steps@) =~= Seq::empty());
        return steps;
    }
    assert(w@[0]@ == words(cmd)[0]);
    if same_text(w[0].as_str(), "start") {
        if w.len() < 2 {
            if !has_server {
                steps.push(Step::Reply(String::from_str(NO_SERVER_TYPE)));
            }
            assert(step_views(steps@) =~= start_steps(words(cmd), has_server, is_admin_user(old(perms).user())));
            return steps;
        }
        assert(w@[1]@ == words(cmd)[1]);
        match MinecraftServer::default_server_config_from_str(w[1].as_str()) {
            Ok(config) => {
                if has_server {
                    steps.push(Step::Reply(String::from_str(STOPPING_OLD_SERVER)));
                    steps.push(Step::StopServer);
                }
                if perms.is_admin() {
                    steps.push(Step::LaunchServer(config));
                } else {
                    steps.push(Step::Reply(String::from_str(NOT_PERMITTED)));
                }
            },
            Err(message) => {
                steps.push(Step::Reply(message));
            },
        }
        assert(step_views(steps@) =~= start_steps(words(cmd), has_server, is_admin_user(old(perms).user())));
        return steps;
    }
    if same_text(w[0].as_str(), "kill") {
        if has_server {
            steps.push(Step::StopServerAndReport);
        } else {
            steps.push(Step::Reply(String::from_str(NO_SERVER_BOUND)));
        }
        assert(step_views(steps@) =~= message_steps(content@, has_server, is_admin_user(old(perms).user())));
        return steps;
    }
    if same_text(w[0].as_str(), "run") {
        if has_server {
            let run = chars_of("run");
            proof {
                lemma_first_piece(cmd);
                assert(words(cmd)[0] == pieces(cmd)[0]);
                assert(run@ == pieces(cmd)[0]);
                if run@.len() == cmd.len() {
                    assert(run@ =~= cmd);
                    assert(content@ =~= PREFIX@ + "run"@) by {
                        assert(prefix@ =~= content@.subrange(0, prefix@.len() as int));
                        assert(content@ =~= content@.subrange(0, prefix@.len() as int) + cmd);
                    }
                }
            }
            let what = sub_chars(command.as_slice(), run.len() + 1, command.len());
            assert(what@ =~= cmd.skip("run"@.len() + 1int));
            steps.push(Step::SendToServer(string_of(what.as_slice())));
        }
        assert(step_views(steps@) =~= message_steps(content@, has_server, is_admin_user(old(perms).user())));
        return steps;
    }
    assert(step_views(steps@) =~= message_steps(content@, has_server, is_admin_user(old(perms).user())));
    steps
}

/// Whether `steps` launches a server.
pub open spec fn launches(steps: Seq<StepView>) -> bool {
    exists|i: int| 0 <= i < steps.len() && (#[trigger] steps[i]) is LaunchServer
}

/// Whether `steps` acts on the user's server: stops it or writes to it.
pub open spec fn touches_server(steps: Seq<StepView>) -> bool {
    exists|i: int|
        0 <= i < steps.len() && ((#[trigger] steps[i]) is StopServer || steps[i] is StopServerAndReport
            || steps[i] is SendToServer)
}

/// Only an administrator can launch a server: whatever the message, a user
/// who is not one gets no launch.
pub proof fn lemma_only_admins_launch(content: Seq<char>, has_server: bool)
    ensures
        !launches(message_steps(content, has_server, false)),
{
    let steps = message_steps(content, has_server, false);
    if launches(steps) {
        let i = choose|i: int| 0 <= i < steps.len() && (#[trigger] steps[i]) is LaunchServer;
        assert(steps[i] is LaunchServer);
    }
}

/// Nothing is stopped or written to unless the user has a server bound.
pub proof fn lemma_no_server_untouched(content: Seq<char>, admin: bool)
    ensures
        !touches_server(message_steps(content, false, admin)),
{
    let steps = message_steps(content, false, admin);
    if touches_server(steps) {
        let i = choose|i: int|
            0 <= i < steps.len() && ((#[trigger] steps[i]) is StopServer || steps[i] is StopServerAndReport
                || steps[i] is SendToServer);
        assert(steps[i] is StopServer || steps[i] is StopServerAndReport || steps[i] is SendToServer);
    }
}

/// A text without spaces is one piece.
proof fn lemma_pieces_no_space(a: Seq<char>)
    requires
        !a.contains(' '),
    ensures
        pieces(a) == seq![a],
    decreases a.len(),
{
    if a.len() > 0 {
        let t = a.drop_last();
        assert(!t.contains(' ')) by {
            assert forall|j: int| 0 <= j < t.len() implies t[j] != ' ' by {
                assert(t[j] == a[j]);
            }
        }
        lemma_pieces_no_space(t);
        assert(a.last() != ' ') by {
            assert(a[a.len() - 1] == a.last());
        }
        assert(t.push(a.last()) =~= a);
        assert(pieces(a) =~~= seq![a]);
    } else {
        assert(pieces(a) =~~= seq![a]);
    }
}

/// Cutting `a`, a space and `b` gives the pieces of `a`, then those of `b`.
proof fn lemma_pieces_split(a: Seq<char>, b: Seq<char>)
    ensures
        pieces(a + seq![' '] + b) == pieces(a) + pieces(b),
    decreases b.len(),
{
    let ab = a + seq![' '] + b;
    if b.len() == 0 {
        assert(ab.drop_last() =~= a);
        assert(ab.last() == ' ');
        assert(pieces(ab) =~~= pieces(a) + pieces(b));
    } else {
        let b0 = b.drop_last();
        let c = b.last();
        lemma_pieces_split(a, b0);
        assert(ab.drop_last() =~= a + seq![' '] + b0);
        assert(ab.last() == c);
        lemma_pieces_rebuild(b0);
        assert(pieces(ab) =~~= pieces(a) + pieces(b));
    }
}

/// The words of a command that starts with the word `first` and goes on
/// with `tail`, where `tail` is empty or starts with a space.
proof fn lemma_first_word(first: Seq<char>, tail: Seq<char>)
    requires
        first.len() > 0,
        !first.contains(' '),
        tail.len() == 0 || tail[0] == ' ',
    ensures
        words(first + tail).len() >= 1,
        words(first + tail)[0] == first,
        tail.len() == 0 ==> words(first + tail) == seq![first],
        tail.len() > 0 ==> pieces(first + tail) == seq![first] + pieces(tail.drop_first()),
        tail.len() > 0 ==> words(first + tail) == seq![first] + words(tail.drop_first()),
{
    lemma_pieces_no_space(first);
    if tail.len() == 0 {
        assert(first + tail =~= first);
    } else {
        let r = tail.drop_first();
        assert(first + tail =~= first + seq![' '] + r);
        lemma_pieces_split(first, r);
        lemma_pieces_rebuild(r);
        let p = pieces(r);
        assert(seq![first] + p == pieces(first + tail));
        if p.last().len() == 0 {
            assert((seq![first] + p).drop_last() =~= seq![first] + p.drop_last());
        }
    }
}

/// The command text of a message that starts with the prefix.
proof fn lemma_command_of(command: Seq<char>)
    ensures
        PREFIX@.is_prefix_of(PREFIX@ + command),
        (PREFIX@ + command).skip(PREFIX@.len() as int) == command,
{
    assert(PREFIX@ =~= (PREFIX@ + command).subrange(0, PREFIX@.len() as int));
    assert((PREFIX@ + command).skip(PREFIX@.len() as int) =~= command);
}

/// The literal command words, as their characters.
proof fn lemma_command_words()
    ensures
        "start"@ == seq!['s', 't', 'a', 'r', 't'],
        "kill"@ == seq!['k', 'i', 'l', 'l'],
        "run"@ == seq!['r', 'u', 'n'],
        "Grapher"@ == seq!['G', 'r', 'a', 'p', 'h', 'e', 'r'],
        "1.19"@ == seq!['1', '.', '1', '9'],
        "1.19.2"@ == seq!['1', '.', '1', '9', '.', '2'],
{
    reveal_strlit("start");
    reveal_strlit("kill");
    reveal_strlit("run");
    reveal_strlit("Grapher");
    reveal_strlit("1.19");
    reveal_strlit("1.19.2");
    assert("start"@ =~= seq!['s', 't', 'a', 'r', 't']);
    assert("kill"@ =~= seq!['k', 'i', 'l', 'l']);
    assert("run"@ =~= seq!['r', 'u', 'n']);
    assert("Grapher"@ =~= seq!['G', 'r', 'a', 'p', 'h', 'e', 'r']);
    assert("1.19"@ =~= seq!['1', '.', '1', '9']);
    assert("1.19.2"@ =~= seq!['1', '.', '1', '9', '.', '2']);
}

/// `start` followed by a type that the bot does not know never stops or
/// otherwise touches the user's server, whether one is bound or not, and
/// whoever asks: the only answer is the list of known types. The type is the
/// word after `start`; more words may follow it.
pub proof fn lemma_unknown_type_leaves_server(name: Seq<char>, rest: Seq<char>, has_server: bool, admin: bool)
    requires
        !name.contains(' '),
        rest.len() == 0 || rest[0] == ' ',
        name.len() > 0 || rest.len() > 0,
        name != "Grapher"@,
        name != "1.19"@,
        name != "1.19.2"@,
    ensures
        message_steps(PREFIX@ + ("start"@ + (seq![' '] + name + rest)), has_server, admin)
            == seq![StepView::Reply(UNKNOWN_SERVER_TYPE@)],
        !touches_server(message_steps(PREFIX@ + ("start"@ + (seq![' '] + name + rest)), has_server, admin)),
{
    lemma_command_words();
    let tail = seq![' '] + name + rest;
    let cmd = "start"@ + tail;
    lemma_command_of(cmd);
    lemma_first_word("start"@, tail);
    assert(tail.drop_first() =~= name + rest);
    let w = words(cmd);
    if rest.len() == 0 {
        assert(name + rest =~= name);
        lemma_pieces_no_space(name);
        assert(w[1] == name);
    } else {
        lemma_first_word_any(name, rest);
        assert(w[1] == name);
    }
    assert(w.len() >= 2);
    let steps = message_steps(PREFIX@ + cmd, has_server, admin);
    assert(steps == seq![StepView::Reply(UNKNOWN_SERVER_TYPE@)]);
    if touches_server(steps) {
        let i = choose|i: int|
            0 <= i < steps.len() && ((#[trigger] steps[i]) is StopServer || steps[i] is StopServerAndReport
                || steps[i] is SendToServer);
        assert(steps[i] is StopServer || steps[i] is StopServerAndReport || steps[i] is SendToServer);
    }
}

/// The words of `name` followed by `rest`, which starts with a space: `name`
/// comes first (even when empty), and there is at least one more piece.
proof fn lemma_first_word_any(name: Seq<char>, rest: Seq<char>)
    requires
        !name.contains(' '),
        rest.len() > 0,
        rest[0] == ' ',
    ensures
        pieces(name + rest).len() >= 2,
        pieces(name + rest)[0] == name,
        words(name + rest).len() >= 1,
        words(name + rest)[0] == name,
        (seq![Seq::<char>::empty()] + words(name + rest)).len() >= 2,
{
    let r = rest.drop_first();
    assert(name + rest =~= name + seq![' '] + r);
    lemma_pieces_no_space(name);
    lemma_pieces_split(name, r);
    lemma_pieces_rebuild(r);
}

/// `start` followed by a known type: a bound server is announced and
/// stopped first, then an administrator gets that type launched and anyone
/// else is told they may not. The type is the word after `start`; more words
/// may follow it.
pub proof fn lemma_known_type_start(name: Seq<char>, config: DefaultServerConfig, rest: Seq<char>, has_server: bool, admin: bool)
    requires
        (name == "Grapher"@ && config == DefaultServerConfig::Grapher)
            || (name == "1.19"@ && config == DefaultServerConfig::Mc1_19_0)
            || (name == "1.19.2"@ && config == DefaultServerConfig::Mc1_19_2),
        rest.len() == 0 || rest[0] == ' ',
    ensures
        ({
            let steps = message_steps(PREFIX@ + ("start"@ + (seq![' '] + name + rest)), has_server, admin);
            &&& has_server && admin ==> steps == seq![
                StepView::Reply(STOPPING_OLD_SERVER@),
                StepView::StopServer,
                StepView::LaunchServer(config),
            ]
            &&& has_server && !admin ==> steps == seq![
                StepView::Reply(STOPPING_OLD_SERVER@),
                StepView::StopServer,
                StepView::Reply(NOT_PERMITTED@),
            ]
            &&& !has_server && admin ==> steps == seq![StepView::LaunchServer(config)]
            &&& !has_server && !admin ==> steps == seq![StepView::Reply(NOT_PERMITTED@)]
        }),
{
    lemma_command_words();
    assert(!name.contains(' '));
    let tail = seq![' '] + name + rest;
    let cmd = "start"@ + tail;
    lemma_command_of(cmd);
    lemma_first_word("start"@, tail);
    assert(tail.drop_first() =~= name + rest);
    let w = words(cmd);
    if rest.len() == 0 {
        assert(name + rest =~= name);
        lemma_pieces_no_space(name);
    } else {
        lemma_first_word_any(name, rest);
    }
    assert(w[1] == name);
    assert(config_named(name) == Some(config));
    let steps = message_steps(PREFIX@ + cmd, has_server, admin);
    if has_server && admin {
        assert(steps =~= seq![StepView::Reply(STOPPING_OLD_SERVER@), StepView::StopServer, StepView::LaunchServer(config)]);
    }
    if has_server && !admin {
        assert(steps =~= seq![StepView::Reply(STOPPING_OLD_SERVER@), StepView::StopServer, StepView::Reply(NOT_PERMITTED@)]);
    }
    if !has_server && admin {
        assert(steps =~= seq![StepView::LaunchServer(config)]);
    }
    if !has_server && !admin {
        assert(steps =~= seq![StepView::Reply(NOT_PERMITTED@)]);
    }
}

/// `start` with no type: a user without a server is told to name one, and a
/// user with a server gets nothing done.
pub proof fn lemma_start_without_type(trailing_space: bool, has_server: bool, admin: bool)
    ensures
        ({
            let command = if trailing_space { "start"@ + seq![' '] } else { "start"@ };
            let steps = message_steps(PREFIX@ + command, has_server, admin);
            &&& has_server ==> steps == Seq::<StepView>::empty()
            &&& !has_server ==> steps == seq![StepView::Reply(NO_SERVER_TYPE@)]
        }),
{
    lemma_command_words();
    let tail: Seq<char> = if trailing_space { seq![' '] } else { Seq::empty() };
    let command = if trailing_space { "start"@ + seq![' '] } else { "start"@ };
    assert(command =~= "start"@ + tail);
    lemma_command_of(command);
    lemma_first_word("start"@, tail);
    if trailing_space {
        assert(tail.drop_first() =~= Seq::<char>::empty());
        assert(words(Seq::<char>::empty()) =~= Seq::<Seq<char>>::empty()) by {
            assert(pieces(Seq::<char>::empty()) =~~= seq![Seq::<char>::empty()]);
        }
        assert(words(command) =~= seq!["start"@]);
    }
    let steps = message_steps(PREFIX@ + command, has_server, admin);
    if !has_server {
        assert(steps =~= seq![StepView::Reply(NO_SERVER_TYPE@)]);
    } else {
        assert(steps =~= Seq::<StepView>::empty());
    }
}

/// `kill`, with or without words after it, from anyone: a bound server is
/// stopped with a report of what happened; without one the user is told so.
pub proof fn lemma_kill(rest: Seq<char>, has_server: bool, admin: bool)
    requires
        rest.len() == 0 || rest[0] == ' ',
    ensures
        has_server ==> message_steps(PREFIX@ + ("kill"@ + rest), has_server, admin) == seq![StepView::StopServerAndReport],
        !has_server ==> message_steps(PREFIX@ + ("kill"@ + rest), has_server, admin) == seq![StepView::Reply(NO_SERVER_BOUND@)],
{
    lemma_command_words();
    let cmd = "kill"@ + rest;
    lemma_command_of(cmd);
    lemma_first_word("kill"@, rest);
    assert("kill"@ != "start"@) by {
        assert("kill"@[0] != "start"@[0]);
    }
    let steps = message_steps(PREFIX@ + cmd, has_server, admin);
    if has_server {
        assert(steps =~= seq![StepView::StopServerAndReport]);
    } else {
        assert(steps =~= seq![StepView::Reply(NO_SERVER_BOUND@)]);
    }
}

/// `run` and a space: everything after that space, spaces included, is
/// written to a bound server; without a server nothing is done.
pub proof fn lemma_run(rest: Seq<char>, has_server: bool, admin: bool)
    ensures
        has_server ==> message_steps(PREFIX@ + ("run"@ + (seq![' '] + rest)), has_server, admin) == seq![StepView::SendToServer(rest)],
        !has_server ==> message_steps(PREFIX@ + ("run"@ + (seq![' '] + rest)), has_server, admin) == Seq::<StepView>::empty(),
{
    lemma_command_words();
    let tail = seq![' '] + rest;
    let cmd = "run"@ + tail;
    lemma_command_of(cmd);
    lemma_first_word("run"@, tail);
    assert("run"@ != "start"@) by {
        assert("run"@[0] != "start"@[0]);
    }
    assert("run"@ != "kill"@) by {
        assert("run"@[0] != "kill"@[0]);
    }
    assert(cmd.skip("run"@.len() + 1int) =~= rest);
    let steps = message_steps(PREFIX@ + cmd, has_server, admin);
    if has_server {
        assert(steps =~= seq![StepView::SendToServer(rest)]);
    } else {
        assert(steps =~= Seq::<StepView>::empty());
    }
}

/// A message that does not start with the prefix gets no answer.
pub proof fn lemma_unprefixed_ignored(content: Seq<char>, has_server: bool, admin: bool)
    requires
        !PREFIX@.is_prefix_of(content),
    ensures
        message_steps(content, has_server, admin) == Seq::<StepView>::empty(),
{
}

/// The words of a command are its pieces between spaces, empty ones
/// included, except that a command that is empty or ends in a space has no
/// word after its last space.
pub proof fn lemma_words_of(s: Seq<char>)
    ensures
        s.len() > 0 && s.last() != ' ' ==> words(s) == pieces(s),
        s.len() == 0 || s.last() == ' ' ==> words(s) == pieces(s).drop_last(),
{
    if s.len() == 0 {
        assert(pieces(s) =~~= seq![Seq::<char>::empty()]);
    } else if s.last() == ' ' {
        let p = pieces(s.drop_last());
        assert(pieces(s).last() =~= Seq::<char>::empty());
    } else {
        lemma_pieces_rebuild(s.drop_last());
        assert(pieces(s).last().len() > 0);
    }
}

} // verus!
