//! The owner's console commands, `[mc].run <console command>`,
//! `[mc].start` and `[mc].kill`, for a single server shared by the bot:
//! what the bot does for each, and what it replies once that is done.
use vstd::prelude::*;
use vstd::string::StringExecFns;

use crate::permissions::DISCORD_ID_OWNER;
use crate::text::chars_of;
use crate::text::has_prefix_at;
use crate::text::same_text;
use crate::text::string_of;
use crate::text::sub_chars;

verus! {

/// The prefix that marks a chat message as a console command.
pub const CONSOLE_PREFIX: &'static str = "[mc].";

/// The reply to `run` without a console command.
pub const RUN_AS_ADMINISTRATOR: &'static str = "https://media.discordapp.net/attachments/844851214760017970/1005224035598204948/runasadministrator.jpg";

/// The reply to `run` with a console command from anyone but the owner.
pub const RUN_NEEDS_OWNER: &'static str = "You must either run this command as administrator (owner) or without any arguments.";

/// The reply to `start` from anyone but the owner.
pub const START_NEEDS_OWNER: &'static str = "You do not have permission to execute this command, consider hijacking the owner's discord account and trying again.";

/// The reply once every byte of a console command was handed on.
pub const SENT: &'static str = "Done. Your command should be executed as soon as the child process reads it.";

/// The reply when some byte of a console command could not be handed on.
pub const NOT_ALL_SENT: &'static str = "There was an error while sending the command. It is possible that none (or only some) of the command has reached the child process.";

/// The reply once the server process was started.
pub const STARTING: &'static str = "Server is starting...";

/// The reply when the server process could not be started.
pub const START_FAILED: &'static str = "Server could not be started. Check stdout to see the internal error.";

/// The reply when there was no server process to kill.
pub const NOTHING_TO_KILL: &'static str = "There was no process to kill.";

/// The reply once the server process was killed.
pub const KILLED: &'static str = "Killed the child process.";

/// The reply when the server process could not be killed.
pub const KILL_FAILED: &'static str = "Child did not want to die. (failed to kill child process - check hardware log for details)";

/// What the bot does for one console command.
pub enum ConsoleStep {
    /// Nothing: not a console command, or an unknown one.
    Ignore,
    /// Reply with this text.
    Reply(String),
    /// Hand the bytes of this console command to the server's input, then reply with `send_report`.
    Send(String),
    /// Start the server process, then reply with `start_report`.
    Start,
    /// Kill the server process, then reply with `kill_report`.
    Kill,
}

/// A [`ConsoleStep`] with its texts as character sequences.
pub enum ConsoleStepView {
    Ignore,
    Reply(Seq<char>),
    Send(Seq<char>),
    Start,
    Kill,
}

impl View for ConsoleStep {
    type V = ConsoleStepView;

    open spec fn view(&self) -> ConsoleStepView {
        match self {
            ConsoleStep::Ignore => ConsoleStepView::Ignore,
            ConsoleStep::Reply(t) => ConsoleStepView::Reply(t@),
            ConsoleStep::Send(t) => ConsoleStepView::Send(t@),
            ConsoleStep::Start => ConsoleStepView::Start,
            ConsoleStep::Kill => ConsoleStepView::Kill,
        }
    }
}

/// The name of a console command: what comes before its first space.
pub open spec fn command_name(command: Seq<char>) -> Seq<char> {
    match command.index_of_first(' ') {
        Some(i) => command.take(i),
        None => command,
    }
}

/// What the bot does for the chat message `content` from the user `author`.
pub open spec fn console_step(content: Seq<char>, author: u64) -> ConsoleStepView {
    if !CONSOLE_PREFIX@.is_prefix_of(content) {
        ConsoleStepView::Ignore
    } else {
        let command = content.skip(CONSOLE_PREFIX@.len() as int);
        let name = command_name(command);
        if name == "run"@ {
            match command.index_of_first(' ') {
                Some(i) => if i + 1 < command.len() {
                    if author == DISCORD_ID_OWNER {
                        ConsoleStepView::Send(command.skip(i + 1))
                    } else {
                        ConsoleStepView::Reply(RUN_NEEDS_OWNER@)
                    }
                } else {
                    ConsoleStepView::Reply(RUN_AS_ADMINISTRATOR@)
                },
                None => ConsoleStepView::Reply(RUN_AS_ADMINISTRATOR@),
            }
        } else if name == "start"@ {
            if author == DISCORD_ID_OWNER {
                ConsoleStepView::Start
            } else {
                ConsoleStepView::Reply(START_NEEDS_OWNER@)
            }
        } else if name == "kill"@ {
            ConsoleStepView::Kill
        } else {
            ConsoleStepView::Ignore
        }
    }
}

/// The index of the first space in `s`, as `index_of_first` gives it.
fn first_space(s: &[char]) -> (r: Option<usize>)
    ensures
        match r {
            Some(i) => i < s.len() && s@.index_of_first(' ') == Some(i as int),
            None => s@.index_of_first(' ') is None,
        },
{
    proof {
        s@.index_of_first_ensures(' ');
    }
    let mut i: usize = 0;
    while i < s.len()
        invariant
            i <= s.len(),
            forall|j: int| 0 <= j < i ==> s@[j] != ' ',
        decreases s.len() - i,
    {
        if s[i] == ' ' {
            proof {
                s@.index_of_first_ensures(' ');
                assert(s@.contains(' '));
                let k = s@.index_of_first(' ')->0;
                assert(k == i) by {
                    if k < i {
                        assert(s@[k] != ' ');
                    }
                }
            }
            return Some(i);
        }
        i = i + 1;
    }
    proof {
        s@.index_of_first_ensures(' ');
    }
    None
}

/// What the bot does for the chat message `content` from the user with id `author`.
pub fn plan_console_command(content: &str, author: u64) -> (step: ConsoleStep)
    ensures
        step@ == console_step(content@, author),
{
    let chars = chars_of(content);
    let prefix = chars_of(CONSOLE_PREFIX);
    assert(chars@.skip(0) =~= chars@);
    if !has_prefix_at(chars.as_slice(), 0, prefix.as_slice()) {
        return ConsoleStep::Ignore;
    }
    let command = sub_chars(chars.as_slice(), prefix.len(), chars.len());
    assert(command@ =~= content@.skip(CONSOLE_PREFIX@.len() as int));
    let space = first_space(command.as_slice());
    let end: usize = match space {
        Some(i) => i,
        None => command.len(),
    };
    let name_chars = sub_chars(command.as_slice(), 0, end);
    let name = string_of(name_chars.as_slice());
    assert(name@ == command_name(command@)) by {
        if space is None {
            assert(command@.subrange(0, command@.len() as int) =~= command@);
        }
    }
    if same_text(name.as_str(), "run") {
        match space {
            Some(i) => {
                if i + 1 < command.len() {
                    if author == DISCORD_ID_OWNER {
                        let rest = sub_chars(command.as_slice(), i + 1, command.len());
                        assert(rest@ =~= command@.skip(i + 1));
                        ConsoleStep::Send(string_of(rest.as_slice()))
                    } else {
                        ConsoleStep::Reply(String::from_str(RUN_NEEDS_OWNER))
                    }
                } else {
                    ConsoleStep::Reply(String::from_str(RUN_AS_ADMINISTRATOR))
                }
            },
            None => ConsoleStep::Reply(String::from_str(RUN_AS_ADMINISTRATOR)),
        }
    } else if same_text(name.as_str(), "start") {
        if author == DISCORD_ID_OWNER {
            ConsoleStep::Start
        } else {
            ConsoleStep::Reply(String::from_str(START_NEEDS_OWNER))
        }
    } else if same_text(name.as_str(), "kill") {
        ConsoleStep::Kill
    } else {
        ConsoleStep::Ignore
    }
}

/// The reply after a console command was handed on; `errored` tells whether
/// some byte of it could not be.
pub fn send_report(errored: bool) -> (t: String)
    ensures
        t@ == (if errored {
            NOT_ALL_SENT@
        } else {
            SENT@
        }),
{
    if errored {
        String::from_str(NOT_ALL_SENT)
    } else {
        String::from_str(SENT)
    }
}

/// The reply after starting the server; `started` tells whether its process started.
pub fn start_report(started: bool) -> (t: String)
    ensures
        t@ == (if started {
            STARTING@
        } else {
            START_FAILED@
        }),
{
    if started {
        String::from_str(STARTING)
    } else {
        String::from_str(START_FAILED)
    }
}

/// The reply after killing the server: `None` when there was no process,
/// else whether killing it succeeded.
pub fn kill_report(outcome: Option<bool>) -> (t: String)
    ensures
        t@ == match outcome {
            None => NOTHING_TO_KILL@,
            Some(true) => KILLED@,
            Some(false) => KILL_FAILED@,
        },
{
    match outcome {
        None => String::from_str(NOTHING_TO_KILL),
        Some(true) => String::from_str(KILLED),
        Some(false) => String::from_str(KILL_FAILED),
    }
}

/// Only the owner gets a console command handed on or the server started.
pub proof fn lemma_only_owner_runs(content: Seq<char>, author: u64)
    requires
        author != DISCORD_ID_OWNER,
    ensures
        !(console_step(content, author) is Send),
        !(console_step(content, author) is Start),
{
}

/// Where the first space of a command that starts with the space-free
/// `first`, followed by `tail`, stands.
proof fn lemma_space_after(first: Seq<char>, tail: Seq<char>)
    requires
        !first.contains(' '),
        tail.len() == 0 || tail[0] == ' ',
    ensures
        tail.len() == 0 ==> (first + tail).index_of_first(' ') is None,
        tail.len() > 0 ==> (first + tail).index_of_first(' ') == Some(first.len() as int),
        command_name(first + tail) == first,
{
    let c = first + tail;
    c.index_of_first_ensures(' ');
    if tail.len() == 0 {
        assert(c =~= first);
        assert(c.take(c.len() as int) =~= first);
    } else {
        assert(c[first.len() as int] == ' ');
        assert(c.contains(' '));
        let k = c.index_of_first(' ')->0;
        assert(k == first.len()) by {
            if k < first.len() {
                assert(c[k] == first[k]);
            }
        }
        assert(c.take(k) =~= first);
    }
}

/// The console command text of a message that starts with the console prefix.
proof fn lemma_console_command_of(command: Seq<char>)
    ensures
        CONSOLE_PREFIX@.is_prefix_of(CONSOLE_PREFIX@ + command),
        (CONSOLE_PREFIX@ + command).skip(CONSOLE_PREFIX@.len() as int) == command,
{
    assert(CONSOLE_PREFIX@ =~= (CONSOLE_PREFIX@ + command).subrange(0, CONSOLE_PREFIX@.len() as int));
    assert((CONSOLE_PREFIX@ + command).skip(CONSOLE_PREFIX@.len() as int) =~= command);
}

/// The literal console command names, as their characters.
proof fn lemma_console_names()
    ensures
        "start"@ == seq!['s', 't', 'a', 'r', 't'],
        "kill"@ == seq!['k', 'i', 'l', 'l'],
        "run"@ == seq!['r', 'u', 'n'],
{
    reveal_strlit("start");
    reveal_strlit("kill");
    reveal_strlit("run");
    assert("start"@ =~= seq!['s', 't', 'a', 'r', 't']);
    assert("kill"@ =~= seq!['k', 'i', 'l', 'l']);
    assert("run"@ =~= seq!['r', 'u', 'n']);
}

/// A console command is chosen by its name, the text before its first
/// space: `kill` kills the server whatever follows it and whoever asks.
pub proof fn lemma_console_kill(rest: Seq<char>, author: u64)
    requires
        rest.len() == 0 || rest[0] == ' ',
    ensures
        console_step(CONSOLE_PREFIX@ + ("kill"@ + rest), author) == ConsoleStepView::Kill,
{
    lemma_console_names();
    lemma_console_command_of("kill"@ + rest);
    lemma_space_after("kill"@, rest);
    assert("kill"@ != "run"@) by {
        assert("kill"@[0] != "run"@[0]);
    }
    assert("kill"@ != "start"@) by {
        assert("kill"@[0] != "start"@[0]);
    }
}

/// `start`, whatever follows it, starts the server for the owner and tells
/// anyone else they may not.
pub proof fn lemma_console_start(rest: Seq<char>, author: u64)
    requires
        rest.len() == 0 || rest[0] == ' ',
    ensures
        author == DISCORD_ID_OWNER ==> console_step(CONSOLE_PREFIX@ + ("start"@ + rest), author) == ConsoleStepView::Start,
        author != DISCORD_ID_OWNER ==> console_step(CONSOLE_PREFIX@ + ("start"@ + rest), author)
            == ConsoleStepView::Reply(START_NEEDS_OWNER@),
{
    lemma_console_names();
    lemma_console_command_of("start"@ + rest);
    lemma_space_after("start"@, rest);
    assert("start"@ != "run"@) by {
        assert("start"@[0] != "run"@[0]);
    }
}

/// `run`, a space and a non-empty console command hands exactly that command
/// on when the owner asks, and tells anyone else it needs the owner; `run`
/// with nothing after it, or with just a space, gets the picture reply.
pub proof fn lemma_console_run(rest: Seq<char>, author: u64)
    ensures
        rest.len() > 0 && author == DISCORD_ID_OWNER ==> console_step(CONSOLE_PREFIX@ + ("run"@ + (seq![' '] + rest)), author)
            == ConsoleStepView::Send(rest),
        rest.len() > 0 && author != DISCORD_ID_OWNER ==> console_step(CONSOLE_PREFIX@ + ("run"@ + (seq![' '] + rest)), author)
            == ConsoleStepView::Reply(RUN_NEEDS_OWNER@),
        rest.len() == 0 ==> console_step(CONSOLE_PREFIX@ + ("run"@ + (seq![' '] + rest)), author)
            == ConsoleStepView::Reply(RUN_AS_ADMINISTRATOR@),
        console_step(CONSOLE_PREFIX@ + "run"@, author) == ConsoleStepView::Reply(RUN_AS_ADMINISTRATOR@),
{
    lemma_console_names();
    let tail = seq![' '] + rest;
    let c = "run"@ + tail;
    lemma_console_command_of(c);
    lemma_space_after("run"@, tail);
    assert(c.skip(4int) =~= rest);
    lemma_console_command_of("run"@);
    lemma_space_after("run"@, Seq::empty());
    assert("run"@ + Seq::<char>::empty() =~= "run"@);
}

/// A message that does not start with the console prefix is ignored.
pub proof fn lemma_console_unprefixed(content: Seq<char>, author: u64)
    requires
        !CONSOLE_PREFIX@.is_prefix_of(content),
    ensures
        console_step(content, author) == ConsoleStepView::Ignore,
{
}

} // verus!
