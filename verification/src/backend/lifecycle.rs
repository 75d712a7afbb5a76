//! The life of an FTP or SSH worker, as the interface sees it: it reports
//! `Connected` or `ConnectFailed` once, then what goes wrong with each
//! command, and `Disconnected` once, last.
use vstd::prelude::*;

use crate::backend::{opt_text, Event};

verus! {

/// Where a worker is in its life.
pub enum WorkerLife {
    Connecting,
    Serving,
    Closed,
}

/// What happened to the worker.
pub enum LifeInput {
    /// The connection is up (signed in, host key trusted).
    ConnectOk,
    /// The connection could not be made.
    ConnectErr { message: String },
    /// A command was carried out, with the error's text if it failed;
    /// `disconnect` tells whether it was the disconnection.
    Handled { error: Option<String>, disconnect: bool },
    /// The interactive shell ended, with the error's text if it failed.
    ShellEnded { error: Option<String> },
    /// The interface is gone.
    Hangup,
}

/// `evs` reports the error `error`, if there is one, then `Disconnected`.
pub open spec fn error_then_disconnected(error: Option<Seq<char>>, evs: Seq<Event>) -> bool {
    match error {
        Some(m) => {
            &&& evs.len() == 2
            &&& evs[0] matches Event::Error(e) && e@ == m
            &&& evs[1] is Disconnected
        },
        None => evs.len() == 1 && evs[0] is Disconnected,
    }
}

/// From `l`, on `i`, the worker goes to `t` and reports `evs`, in order.
pub open spec fn life_moved(l: WorkerLife, i: LifeInput, t: WorkerLife, evs: Seq<Event>) -> bool {
    match (l, i) {
        (WorkerLife::Connecting, LifeInput::ConnectOk) => t is Serving && evs.len() == 1
            && evs[0] is Connected,
        (WorkerLife::Connecting, LifeInput::ConnectErr { message }) => {
            &&& t is Closed
            &&& evs.len() == 1
            &&& evs[0] matches Event::ConnectFailed(m) && m@ == message@
        },
        (WorkerLife::Serving, LifeInput::Handled { error, disconnect }) => if disconnect {
            t is Closed && error_then_disconnected(opt_text(error), evs)
        } else {
            &&& t is Serving
            &&& match error {
                Some(m) => {
                    &&& evs.len() == 1
                    &&& evs[0] matches Event::Error(e) && e@ == m@
                },
                None => evs.len() == 0,
            }
        },
        (WorkerLife::Serving, LifeInput::ShellEnded { error }) => t is Closed
            && error_then_disconnected(opt_text(error), evs),
        (WorkerLife::Serving, LifeInput::Hangup) => t is Closed && evs.len() == 1
            && evs[0] is Disconnected,
        _ => t == l && evs.len() == 0,
    }
}

/// One step of a worker's life.
pub fn life_step(life: WorkerLife, input: LifeInput) -> (r: (WorkerLife, Vec<Event>))
    ensures
        life_moved(life, input, r.0, r.1@),
{
    match (life, input) {
        (WorkerLife::Connecting, LifeInput::ConnectOk) => (WorkerLife::Serving, vec![Event::Connected]),
        (WorkerLife::Connecting, LifeInput::ConnectErr { message }) => (
            WorkerLife::Closed,
            vec![Event::ConnectFailed(message)],
        ),
        (WorkerLife::Serving, LifeInput::Handled { error, disconnect }) => {
            let mut evs: Vec<Event> = Vec::new();
            match error {
                Some(m) => evs.push(Event::Error(m)),
                None => {},
            }
            if disconnect {
                evs.push(Event::Disconnected);
                (WorkerLife::Closed, evs)
            } else {
                (WorkerLife::Serving, evs)
            }
        },
        (WorkerLife::Serving, LifeInput::ShellEnded { error }) => {
            let mut evs: Vec<Event> = Vec::new();
            match error {
                Some(m) => evs.push(Event::Error(m)),
                None => {},
            }
            evs.push(Event::Disconnected);
            (WorkerLife::Closed, evs)
        },
        (WorkerLife::Serving, LifeInput::Hangup) => (WorkerLife::Closed, vec![Event::Disconnected]),
        (life, _) => (life, Vec::new()),
    }
}

/// `e` reports that the worker is connected.
pub open spec fn is_connected_event(e: Event) -> bool {
    e is Connected
}

/// `e` reports that the worker stopped.
pub open spec fn is_end_event(e: Event) -> bool {
    e is Disconnected || e is ConnectFailed
}

/// The order of a worker's events: `Connected` comes only from a connecting
/// worker, which then serves commands; `Disconnected` or `ConnectFailed` comes
/// only last, and leaves the worker closed; a closed worker reports nothing
/// more, whatever happens.
pub proof fn lemma_life_event_order(l: WorkerLife, i: LifeInput, t: WorkerLife, evs: Seq<Event>)
    requires
        life_moved(l, i, t, evs),
    ensures
        l is Closed ==> t is Closed && evs.len() == 0,
        forall|k: int|
            0 <= k < evs.len() && is_connected_event(#[trigger] evs[k]) ==> l is Connecting && t is Serving,
        forall|k: int| 0 <= k < evs.len() && is_end_event(#[trigger] evs[k]) ==> t is Closed && k == evs.len() - 1,
{
}

} // verus!
