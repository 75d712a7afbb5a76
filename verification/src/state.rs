//! The application's state, the invariant every operation on it keeps, the
//! activity log and tab closing. Whatever the operations need of the outside world
//! (starting a worker, sending it a command, saving the hosts file, asking
//! the user for files) is handed back as an [`Effect`] for the caller to
//! carry out.
use std::collections::{HashSet, VecDeque};
use std::path::PathBuf;
use std::time::Instant;
use vstd::prelude::*;

use crate::app::{
    Direction, Host, LogLevel, LogLine, PendingHostKey, PendingTransfer, TransferRecord,
    TransferState,
};
use crate::backend::{Command, Event};
use crate::connection::{ConnectionProfile, Protocol};
use crate::session::{ClickMods, Session, WorkerId};
use crate::text::{push_str};

verus! {

broadcast use vstd::std_specs::hash::group_hash_axioms;

/// Most lines the activity log keeps.
pub const LOG_CAPACITY: usize = 500;

/// Most records the transfer history keeps.
pub const HISTORY_CAPACITY: usize = 75;

/// Most transfers that run at once; the rest wait in the queue.
pub const MAX_CONCURRENT_TRANSFERS: usize = 3;

/// A transfer that is running on a worker of its own.
pub struct TransferJob {
    pub worker: WorkerId,
    pub record: usize,
    /// Bytes moved so far, per label the worker reported progress for.
    pub seen: Vec<(String, u64)>,
}

/// Something the caller carries out after the state changed.
pub enum Effect {
    /// Start a worker for `profile`, known from now on as `worker`.
    Spawn { worker: WorkerId, profile: ConnectionProfile },
    /// Send `command` to the worker `worker`.
    Send { worker: WorkerId, command: Command },
    /// Start a worker for `profile`, known from now on as `worker`, and
    /// hand it the transfer `command`.
    StartTransfer { worker: WorkerId, profile: ConnectionProfile, command: Command },
    /// Write the saved hosts and their secrets, then report with
    /// [`App::persisted`].
    Persist,
    /// Remove the keychain entry of the host with this id.
    ForgetSecret { id: String },
    /// Open a connection to saved host `host` (after the effects before it).
    Connect { host: usize },
    /// Ask for a folder to download `targets` (remote path, name) into,
    /// then queue them with [`App::queue_downloads`].
    ChooseDownloadFolder { targets: Vec<(String, String)> },
    /// Ask for files (or folders) to upload, then hand them to
    /// [`App::upload_paths`].
    ChooseUploads { folders: bool },
    /// Shell output for the terminal of the session served by `worker` made
    /// the terminal text too long and cutting it would split a character;
    /// the output was not shown.
    TerminalOverflow { worker: WorkerId },
    /// Repaint now.
    Repaint,
    /// Repaint after a quarter of a second.
    RepaintSoon,
}

/// A local file or folder picked or dropped for upload: its path, its
/// final name when that is valid UTF-8, and its total size when it could be
/// read.
pub struct LocalItem {
    pub path: PathBuf,
    pub name: Option<String>,
    pub size: Option<u64>,
}

/// What the user asked for in the interface.
pub enum Action {
    NewHost(Protocol),
    EditHost(usize),
    DeleteHost(usize),
    Connect(usize),
    OpenShell(usize),
    SelectTab(Option<usize>),
    CloseTab(usize),
    CancelEdit,
    SaveDraft,
    SaveDraftAndConnect,
    Disconnect,
    Navigate(String),
    Refresh,
    EditPath,
    CommitPath,
    CancelPath,
    ShellBytes(String),
    Download,
    Upload,
    UploadFolder,
    TrustHostKey,
    RejectHostKey,
    DroppedFiles(Vec<LocalItem>),
    ToggleHistory,
    ClearHistory,
    Mkdir,
    DeleteSelected,
    ClickRow(usize, ClickMods),
    OpenRow(usize),
    ClearLog,
}

/// Everything the interface shows: saved hosts, the draft being edited,
/// open sessions, the activity log and the transfers.
pub struct App {
    pub hosts: Vec<Host>,
    pub search: String,
    pub draft: Option<(ConnectionProfile, Option<usize>)>,
    pub sessions: Vec<Session>,
    pub active: Option<usize>,
    pub log: Vec<LogLine>,
    pub history: Vec<TransferRecord>,
    pub jobs: Vec<TransferJob>,
    pub queue: VecDeque<PendingTransfer>,
    pub pending_host_key: Option<PendingHostKey>,
    pub show_history: bool,
    pub show_log: bool,
    pub next_worker: WorkerId,
}

impl App {
    /// The invariant every operation keeps: the active tab is an open
    /// session, the log and history are within their capacities, at most
    /// [`MAX_CONCURRENT_TRANSFERS`] transfers run and none waits while a
    /// slot is free, and the host being edited exists.
    pub open spec fn wf(&self) -> bool {
        &&& self.active matches Some(a) ==> a < self.sessions@.len()
        &&& self.log@.len() <= LOG_CAPACITY
        &&& self.history@.len() <= HISTORY_CAPACITY
        &&& self.jobs@.len() <= MAX_CONCURRENT_TRANSFERS
        &&& self.jobs@.len() < MAX_CONCURRENT_TRANSFERS ==> self.queue@.len() == 0
        &&& self.draft matches Some((_, Some(i))) ==> i < self.hosts@.len()
    }

    /// An empty application state.
    pub fn new() -> (app: App)
        ensures
            app.wf(),
            app.hosts@.len() == 0,
            app.sessions@.len() == 0,
            app.active is None,
            app.log@.len() == 0,
            app.history@.len() == 0,
            app.draft is None,
            app.search@.len() == 0,
            app.jobs@.len() == 0,
            app.queue@.len() == 0,
            app.pending_host_key is None,
            app.next_worker == 0,
            !app.show_history,
            app.show_log,
    {
        App {
            hosts: Vec::new(),
            search: String::new(),
            draft: None,
            sessions: Vec::new(),
            active: None,
            log: Vec::new(),
            history: Vec::new(),
            jobs: Vec::new(),
            queue: VecDeque::new(),
            pending_host_key: None,
            show_history: false,
            show_log: true,
            next_worker: 0,
        }
    }

    /// The session of the active tab.
    pub fn session(&self) -> (s: Option<&Session>)
        ensures
            match self.active {
                Some(a) => if a < self.sessions@.len() {
                    s == Some(&self.sessions@[a as int])
                } else {
                    s is None
                },
                None => s is None,
            },
    {
        match self.active {
            Some(a) => if a < self.sessions.len() {
                Some(&self.sessions[a])
            } else {
                None
            },
            None => None,
        }
    }

    /// Hosts, search text, draft and the log panel flag are as in `other`.
    pub open spec fn hosts_kept(&self, other: &App) -> bool {
        &&& self.hosts == other.hosts
        &&& self.search == other.search
        &&& self.draft == other.draft
        &&& self.show_log == other.show_log
    }

    /// Sessions, active tab and pending host key are as in `other`.
    pub open spec fn sessions_kept(&self, other: &App) -> bool {
        &&& self.sessions == other.sessions
        &&& self.active == other.active
        &&& self.pending_host_key == other.pending_host_key
    }

    /// History, running and queued transfers, the worker counter and the
    /// history panel flag are as in `other`.
    pub open spec fn transfers_kept(&self, other: &App) -> bool {
        &&& self.transfers_kept_but_worker(other)
        &&& self.next_worker == other.next_worker
    }

    /// History, running and queued transfers and the history panel flag are
    /// as in `other`.
    pub open spec fn transfers_kept_but_worker(&self, other: &App) -> bool {
        &&& self.history == other.history
        &&& self.jobs == other.jobs
        &&& self.queue == other.queue
        &&& self.show_history == other.show_history
    }

    /// Adds a line to the activity log, dropping the oldest past the
    /// capacity.
    pub fn push_log(&mut self, text: String, level: LogLevel)
        requires
            old(self).log@.len() <= LOG_CAPACITY,
        ensures
            log_view(final(self).log@) == log_after(log_view(old(self).log@), (text@, level)),
            final(self).log@.len() <= LOG_CAPACITY,
            final(self).hosts_kept(old(self)),
            final(self).sessions_kept(old(self)),
            final(self).transfers_kept(old(self)),
    {
        let ghost before = self.log@;
        self.log.push(LogLine { text, level });
        if self.log.len() > LOG_CAPACITY {
            self.log.remove(0);
        }
        assert(log_view(self.log@) =~= log_after(log_view(before), (text@, level)));
    }

    /// Logs `text` as information.
    pub fn info(&mut self, text: String)
        requires
            old(self).log@.len() <= LOG_CAPACITY,
        ensures
            log_view(final(self).log@) == log_after(
                log_view(old(self).log@),
                (text@, LogLevel::Info),
            ),
            final(self).log@.len() <= LOG_CAPACITY,
            final(self).hosts_kept(old(self)),
            final(self).sessions_kept(old(self)),
            final(self).transfers_kept(old(self)),
    {
        self.push_log(text, LogLevel::Info);
    }

    /// Logs `text` as an error.
    pub fn error(&mut self, text: String)
        requires
            old(self).log@.len() <= LOG_CAPACITY,
        ensures
            log_view(final(self).log@) == log_after(
                log_view(old(self).log@),
                (text@, LogLevel::Error),
            ),
            final(self).log@.len() <= LOG_CAPACITY,
            final(self).hosts_kept(old(self)),
            final(self).sessions_kept(old(self)),
            final(self).transfers_kept(old(self)),
    {
        self.push_log(text, LogLevel::Error);
    }

    /// Closing the tab at `index` takes `self` to `b` with effects `e`: see
    /// [`App::close_session`].
    pub open spec fn closed_tab(&self, b: &App, index: usize, e: Seq<Effect>) -> bool {
        &&& if index < self.sessions@.len() {
            &&& b.sessions@ == self.sessions@.remove(index as int)
            &&& b.active == active_after_close(self.active, index, self.sessions@.len())
            &&& e == seq![
                Effect::Send {
                    worker: self.sessions@[index as int].worker,
                    command: Command::Disconnect,
                },
            ]
        } else {
            &&& b.sessions == self.sessions
            &&& b.active == self.active
            &&& e.len() == 0
        }
        &&& b.pending_host_key == self.pending_host_key
        &&& b.log == self.log
        &&& b.hosts_kept(self)
        &&& b.transfers_kept(self)
    }

    /// Closes the tab at `index`: its worker is told to disconnect and the
    /// active tab moves as [`active_after_close`] says.
    pub fn close_session(&mut self, index: usize, out: &mut Vec<Effect>)
        requires
            old(self).wf(),
        ensures
            final(self).wf(),
            old(self).closed_tab(final(self), index, final(out)@.skip(old(out)@.len() as int)),
            final(out)@.take(old(out)@.len() as int) == old(out)@,
    {
        let ghost o0 = out@;
        assert(o0.skip(o0.len() as int) =~= Seq::<Effect>::empty());
        assert(o0.take(o0.len() as int) =~= o0);
        if index >= self.sessions.len() {
            return;
        }
        let ghost before = self.sessions@;
        let session = self.sessions.remove(index);
        out.push(Effect::Send { worker: session.worker, command: Command::Disconnect });
        assert(self.sessions@ =~= before.remove(index as int));
        assert(out@.skip(o0.len() as int) =~= seq![out@.last()]);
        assert(out@.take(o0.len() as int) =~= o0);
        self.active = match self.active {
            Some(active) => if active == index {
                if index >= 1 {
                    Some(index - 1)
                } else if self.sessions.len() == 0 {
                    None
                } else {
                    Some(0)
                }
            } else if active > index {
                Some(active - 1)
            } else {
                Some(active)
            },
            None => None,
        };
    }
}

/// The log as text and level per line.
pub open spec fn log_view(log: Seq<LogLine>) -> Seq<(Seq<char>, LogLevel)> {
    log.map_values(|l: LogLine| (l.text@, l.level))
}

/// The log after `line` is added: the oldest line goes once the log would
/// pass [`LOG_CAPACITY`].
pub open spec fn log_after(
    log: Seq<(Seq<char>, LogLevel)>,
    line: (Seq<char>, LogLevel),
) -> Seq<(Seq<char>, LogLevel)> {
    let grown = log.push(line);
    if grown.len() > LOG_CAPACITY {
        grown.drop_first()
    } else {
        grown
    }
}

/// The log after each of `lines` is added in turn.
pub open spec fn log_after_all(
    log: Seq<(Seq<char>, LogLevel)>,
    lines: Seq<(Seq<char>, LogLevel)>,
) -> Seq<(Seq<char>, LogLevel)>
    decreases lines.len(),
{
    if lines.len() == 0 {
        log
    } else {
        log_after(log_after_all(log, lines.drop_last()), lines.last())
    }
}

/// Closing a tab other than the active one keeps the same session
/// active: the tabs after the closed one move left by one, and the active
/// index follows its session. Closing the active tab makes its left
/// neighbour active, or the new first tab when it was the first.
pub proof fn lemma_closing_keeps_the_active_session(a: App, b: App, index: usize, e: Seq<Effect>)
    requires
        a.closed_tab(&b, index, e),
        index < a.sessions@.len(),
        a.active matches Some(x) && x < a.sessions@.len(),
    ensures
        b.sessions@.len() + 1 == a.sessions@.len(),
        a.active->0 != index ==> (b.active matches Some(y) && y < b.sessions@.len()
            && b.sessions@[y as int] == a.sessions@[a.active->0 as int]),
        a.active->0 == index && index >= 1 ==> (b.active matches Some(y) && y < b.sessions@.len()
            && b.sessions@[y as int] == a.sessions@[index - 1]),
        a.active->0 == index && index == 0 && b.sessions@.len() > 0 ==> (b.active
            matches Some(y) && y == 0 && b.sessions@[0] == a.sessions@[1]),
        a.active->0 == index && b.sessions@.len() == 0 ==> b.active is None,
{
    let x = a.active->0;
    if x > index {
        assert(b.sessions@[x - 1] == a.sessions@.remove(index as int)[x - 1]);
    }
}

/// The active tab after the tab at `index` of `len` is closed: a closed
/// active tab passes to its left neighbour, or to the first tab left when it
/// was the first; tabs to its right shift left by one.
pub open spec fn active_after_close(active: Option<usize>, index: usize, len: nat) -> Option<usize> {
    match active {
        Some(a) => if a == index {
            if index >= 1 {
                Some((index - 1) as usize)
            } else if len - 1 == 0 {
                None
            } else {
                Some(0)
            }
        } else if a > index {
            Some((a - 1) as usize)
        } else {
            Some(a)
        },
        None => None,
    }
}

} // verus!
