//! The interactive shell of an SSH session, one tick at a time: which
//! command it takes up, how typed text is written (retrying while the
//! channel would block, for at most five seconds), when it reads the shell's
//! output and when it pauses, and how it ends. The worker performs each
//! action and hands back what came of it as a [`ShellInput`].
use vstd::prelude::*;
use vstd::string::StrSliceExecFns;
use vstd::utf8::encode_utf8;

use crate::backend::ssh_sftp_scp::{needs_sftp_shell_message, shell_step, ShellStep};
use crate::backend::{opt_text, Command, Event};

verus! {

/// How long typed text may wait for the channel to take it, in milliseconds.
pub const WRITE_TIMEOUT_MS: u64 = 5000;

/// The pause between two tries of a write that would block, in milliseconds.
pub const WRITE_RETRY_MS: u64 = 5;

/// The pause after a tick that read nothing, in milliseconds.
pub const SHELL_IDLE_MS: u64 = 20;

/// What the shell loop is doing.
pub enum ShellPhase {
    /// Taking the commands that are waiting.
    Commands,
    /// Writing typed text: `pending` bytes are left, and the write gives up
    /// after `deadline` (milliseconds on the worker's clock).
    Writing { pending: Vec<u8>, deadline: u64 },
    /// Reading what the shell printed.
    Reading,
    /// The shell is closed.
    Ended,
}

/// The shell loop: its phase, and the last write error of this round of
/// commands, which ends the shell once the waiting commands are taken.
pub struct ShellState {
    pub phase: ShellPhase,
    pub fatal: Option<String>,
}

/// What came of the last action.
pub enum ShellInput {
    /// A waiting command, taken at `now` (milliseconds on the worker's clock).
    Command { command: Command, now: u64 },
    /// No command is waiting.
    NoCommand,
    /// The interface is gone.
    HungUp,
    /// The channel took `n` bytes of the text.
    Wrote { n: usize },
    /// The channel would block at `now`.
    WouldBlock { now: u64 },
    /// The write failed.
    WriteFailed { message: String },
    /// The shell printed `text`.
    Output { text: String },
    /// The read gave nothing; `eof` tells whether the shell has closed.
    ReadNothing { eof: bool },
    /// The read would block.
    ReadBlocked,
    /// The read failed.
    ReadFailed { message: String },
}

/// What the shell loop does next.
pub enum ShellAction {
    /// Takes the next waiting command, if any.
    ReceiveCommand,
    /// Writes `bytes` to the channel.
    Write { bytes: Vec<u8> },
    /// Pauses for `millis` milliseconds.
    Sleep { millis: u64 },
    /// Reads what the shell printed.
    Read,
    /// Reports an event.
    Emit(Event),
    /// Closes the shell: cleanly, or with an error's text.
    Finish(Option<String>),
}

/// Where the shell loop starts, once the channel and its terminal are open.
pub fn shell_begin() -> (r: (ShellState, Vec<ShellAction>))
    ensures
        r.0.phase is Commands,
        r.0.fatal is None,
        r.1@.len() == 1,
        r.1@[0] is ReceiveCommand,
{
    (ShellState { phase: ShellPhase::Commands, fatal: None }, vec![ShellAction::ReceiveCommand])
}

/// `t` is back to taking commands, with the write error `fatal`, and the
/// next command is asked for.
pub open spec fn back_to_commands(fatal: Option<Seq<char>>, t: ShellState, acts: Seq<ShellAction>) -> bool {
    &&& t.phase is Commands
    &&& opt_text(t.fatal) == fatal
    &&& acts.len() == 1
    &&& acts[0] is ReceiveCommand
}

/// The shell closes, with the error `error` if there is one.
pub open spec fn finishing(error: Option<Seq<char>>, t: ShellState, acts: Seq<ShellAction>) -> bool {
    &&& t.phase is Ended
    &&& acts.len() == 1
    &&& acts[0] matches ShellAction::Finish(e) && opt_text(e) == error
}

/// `t` is still writing `pending` until `deadline`, and writes it.
pub open spec fn writing(
    pending: Seq<u8>,
    deadline: u64,
    fatal: Option<Seq<char>>,
    t: ShellState,
    acts: Seq<ShellAction>,
) -> bool {
    &&& t.phase matches ShellPhase::Writing { pending: p, deadline: d } && p@ == pending && d
        == deadline
    &&& opt_text(t.fatal) == fatal
    &&& acts.len() >= 1
    &&& acts.last() matches ShellAction::Write { bytes } && bytes@ == pending
}

/// The deadline of a write that starts at `now`.
pub open spec fn deadline_after(now: u64) -> u64 {
    if now + WRITE_TIMEOUT_MS > u64::MAX {
        u64::MAX
    } else {
        (now + WRITE_TIMEOUT_MS) as u64
    }
}

/// `pending` once the channel took `n` of its bytes.
pub open spec fn after_write(pending: Seq<u8>, n: nat) -> Seq<u8> {
    if n >= pending.len() {
        Seq::empty()
    } else {
        pending.skip(n as int)
    }
}

/// What writing `pending` comes to: back to the commands when nothing is
/// left, else a write of the rest.
pub open spec fn write_on(
    pending: Seq<u8>,
    deadline: u64,
    fatal: Option<Seq<char>>,
    t: ShellState,
    acts: Seq<ShellAction>,
) -> bool {
    if pending.len() == 0 {
        back_to_commands(fatal, t, acts)
    } else {
        writing(pending, deadline, fatal, t, acts) && acts.len() == 1
    }
}

/// One tick of the shell loop: from `s`, on `i`, it goes to `t` and does
/// `acts`, in order. Typed text is written until the channel has taken it
/// all, takes nothing, fails, or would still block after the deadline; a
/// write error ends the shell once no command is left waiting. A
/// disconnection (or the interface going away) closes the shell, with the
/// write error if there was one; other commands are refused. Output is
/// reported as it comes; a read that gives nothing pauses the loop before
/// the next round, and the shell's end of file, or a failed read, closes
/// it. A closed shell does nothing more.
pub open spec fn shell_moved(s: ShellState, i: ShellInput, t: ShellState, acts: Seq<ShellAction>) -> bool {
    let fatal = opt_text(s.fatal);
    match (s.phase, i) {
        (ShellPhase::Commands, ShellInput::Command { command, now }) => match command {
            Command::ShellInput(data) => write_on(
                encode_utf8(data@),
                deadline_after(now),
                fatal,
                t,
                acts,
            ),
            Command::Disconnect => finishing(fatal, t, acts),
            _ => {
                &&& t.phase is Commands
                &&& opt_text(t.fatal) == fatal
                &&& acts.len() == 2
                &&& acts[0] matches ShellAction::Emit(Event::Error(m)) && m@
                    == needs_sftp_shell_message()
                &&& acts[1] is ReceiveCommand
            },
        },
        (ShellPhase::Commands, ShellInput::HungUp) => finishing(fatal, t, acts),
        (ShellPhase::Commands, ShellInput::NoCommand) => if fatal is Some {
            finishing(fatal, t, acts)
        } else {
            &&& t.phase is Reading
            &&& t.fatal is None
            &&& acts.len() == 1
            &&& acts[0] is Read
        },
        (ShellPhase::Writing { pending, deadline }, ShellInput::Wrote { n }) => if n == 0 {
            back_to_commands(fatal, t, acts)
        } else {
            write_on(after_write(pending@, n as nat), deadline, fatal, t, acts)
        },
        (ShellPhase::Writing { pending, deadline }, ShellInput::WouldBlock { now }) => if now
            > deadline {
            back_to_commands(fatal, t, acts)
        } else {
            &&& writing(pending@, deadline, fatal, t, acts)
            &&& acts.len() == 2
            &&& acts[0] matches ShellAction::Sleep { millis } && millis == WRITE_RETRY_MS
        },
        (ShellPhase::Writing { .. }, ShellInput::WriteFailed { message }) => back_to_commands(
            Some(message@),
            t,
            acts,
        ),
        (ShellPhase::Reading, ShellInput::Output { text }) => {
            &&& t.phase is Commands
            &&& t.fatal is None
            &&& acts.len() == 2
            &&& acts[0] matches ShellAction::Emit(Event::ShellOutput(o)) && o@ == text@
            &&& acts[1] is ReceiveCommand
        },
        (ShellPhase::Reading, ShellInput::ReadNothing { eof }) => if eof {
            finishing(None, t, acts)
        } else {
            &&& t.phase is Commands
            &&& t.fatal is None
            &&& acts.len() == 2
            &&& acts[0] matches ShellAction::Sleep { millis } && millis == SHELL_IDLE_MS
            &&& acts[1] is ReceiveCommand
        },
        (ShellPhase::Reading, ShellInput::ReadBlocked) => {
            &&& t.phase is Commands
            &&& t.fatal is None
            &&& acts.len() == 2
            &&& acts[0] matches ShellAction::Sleep { millis } && millis == SHELL_IDLE_MS
            &&& acts[1] is ReceiveCommand
        },
        (ShellPhase::Reading, ShellInput::ReadFailed { message }) => finishing(
            Some(message@),
            t,
            acts,
        ),
        _ => t == s && acts.len() == 0,
    }
}

/// Goes on writing `pending`.
fn write_rest(pending: Vec<u8>, deadline: u64, fatal: Option<String>) -> (r: (
    ShellState,
    Vec<ShellAction>,
))
    ensures
        write_on(pending@, deadline, opt_text(fatal), r.0, r.1@),
{
    if pending.len() == 0 {
        (ShellState { phase: ShellPhase::Commands, fatal }, vec![ShellAction::ReceiveCommand])
    } else {
        let bytes = pending.clone();
        (
            ShellState { phase: ShellPhase::Writing { pending, deadline }, fatal },
            vec![ShellAction::Write { bytes }],
        )
    }
}

/// The shell closes, with `error` if there is one.
fn finish(error: Option<String>) -> (r: (ShellState, Vec<ShellAction>))
    ensures
        finishing(opt_text(error), r.0, r.1@),
{
    (ShellState { phase: ShellPhase::Ended, fatal: None }, vec![ShellAction::Finish(error)])
}

/// One tick of the shell loop.
pub fn shell_tick(state: ShellState, input: ShellInput) -> (r: (ShellState, Vec<ShellAction>))
    ensures
        shell_moved(state, input, r.0, r.1@),
{
    let ShellState { phase, fatal } = state;
    match (phase, input) {
        (ShellPhase::Commands, ShellInput::Command { command, now }) => match shell_step(&command) {
            ShellStep::Write => match command {
                Command::ShellInput(data) => {
                    let bytes = data.as_str().as_bytes_vec();
                    write_rest(bytes, now.saturating_add(WRITE_TIMEOUT_MS), fatal)
                },
                _ => (ShellState { phase: ShellPhase::Commands, fatal }, Vec::new()),
            },
            ShellStep::Stop => finish(fatal),
            ShellStep::Refuse(message) => (
                ShellState { phase: ShellPhase::Commands, fatal },
                vec![ShellAction::Emit(Event::Error(message)), ShellAction::ReceiveCommand],
            ),
        },
        (ShellPhase::Commands, ShellInput::HungUp) => finish(fatal),
        (ShellPhase::Commands, ShellInput::NoCommand) => match fatal {
            Some(e) => finish(Some(e)),
            None => (ShellState { phase: ShellPhase::Reading, fatal: None }, vec![ShellAction::Read]),
        },
        (ShellPhase::Writing { pending, deadline }, ShellInput::Wrote { n }) => {
            if n == 0 {
                (ShellState { phase: ShellPhase::Commands, fatal }, vec![ShellAction::ReceiveCommand])
            } else if n >= pending.len() {
                write_rest(Vec::new(), deadline, fatal)
            } else {
                let mut rest: Vec<u8> = Vec::new();
                let mut k: usize = n;
                while k < pending.len()
                    invariant
                        n <= k <= pending@.len(),
                        rest@ == pending@.subrange(n as int, k as int),
                    decreases pending@.len() - k,
                {
                    rest.push(pending[k]);
                    k = k + 1;
                }
                assert(rest@ =~= pending@.skip(n as int));
                write_rest(rest, deadline, fatal)
            }
        },
        (ShellPhase::Writing { pending, deadline }, ShellInput::WouldBlock { now }) => {
            if now > deadline {
                (ShellState { phase: ShellPhase::Commands, fatal }, vec![ShellAction::ReceiveCommand])
            } else {
                let bytes = pending.clone();
                (
                    ShellState { phase: ShellPhase::Writing { pending, deadline }, fatal },
                    vec![ShellAction::Sleep { millis: WRITE_RETRY_MS }, ShellAction::Write { bytes }],
                )
            }
        },
        (ShellPhase::Writing { .. }, ShellInput::WriteFailed { message }) => (
            ShellState { phase: ShellPhase::Commands, fatal: Some(message) },
            vec![ShellAction::ReceiveCommand],
        ),
        (ShellPhase::Reading, ShellInput::Output { text }) => (
            ShellState { phase: ShellPhase::Commands, fatal: None },
            vec![ShellAction::Emit(Event::ShellOutput(text)), ShellAction::ReceiveCommand],
        ),
        (ShellPhase::Reading, ShellInput::ReadNothing { eof }) => {
            if eof {
                finish(None)
            } else {
                (
                    ShellState { phase: ShellPhase::Commands, fatal: None },
                    vec![ShellAction::Sleep { millis: SHELL_IDLE_MS }, ShellAction::ReceiveCommand],
                )
            }
        },
        (ShellPhase::Reading, ShellInput::ReadBlocked) => (
            ShellState { phase: ShellPhase::Commands, fatal: None },
            vec![ShellAction::Sleep { millis: SHELL_IDLE_MS }, ShellAction::ReceiveCommand],
        ),
        (ShellPhase::Reading, ShellInput::ReadFailed { message }) => finish(Some(message)),
        (phase, _) => (ShellState { phase, fatal }, Vec::new()),
    }
}

} // verus!
