//! What the workers reported since the last frame, applied to the state:
//! progress and outcomes of the running transfers, and the connection
//! events, listings and shell output of the open sessions.
use vstd::prelude::*;

use crate::app::{
    append_terminal_output, cut_on_boundary, feed, fits_terminal, terminal_append, LogLevel,
    PendingHostKey, Status, TransferRecord, TransferState,
};
use crate::backend::{Command, Event};
use crate::session::{entry_views, listing_order, sort_listing, Session, SessionView};
use crate::state::{
    log_after, log_after_all, log_view, App, Effect, TransferJob, LOG_CAPACITY,
    MAX_CONCURRENT_TRANSFERS,
};
use crate::text::push_str;
use crate::transfers::{job_view, job_views, pending_views, seen_view, starts, JobView};

verus! {

/// `i` is where `label` first occurs among the counts in `s`.
pub open spec fn is_first_label(s: Seq<(Seq<char>, u64)>, i: int, label: Seq<char>) -> bool {
    &&& 0 <= i < s.len()
    &&& s[i].0 == label
    &&& forall|j: int| 0 <= j < i ==> s[j].0 != label
}

/// Where `label` first occurs in `s`, or -1.
pub open spec fn label_index(s: Seq<(Seq<char>, u64)>, label: Seq<char>) -> int {
    if exists|i: int| is_first_label(s, i, label) {
        choose|i: int| is_first_label(s, i, label)
    } else {
        -1
    }
}

/// `s` with the count of `label` set to `n`, as a map keyed by label.
pub open spec fn seen_insert(s: Seq<(Seq<char>, u64)>, label: Seq<char>, n: u64) -> Seq<
    (Seq<char>, u64),
> {
    let i = label_index(s, label);
    if i >= 0 {
        s.update(i, (label, n))
    } else {
        s.push((label, n))
    }
}

/// The count `s` holds for `label`, read as a map: the one stored with its
/// first occurrence, if any.
pub open spec fn seen_lookup(s: Seq<(Seq<char>, u64)>, label: Seq<char>) -> Option<u64> {
    let i = label_index(s, label);
    if i >= 0 {
        Some(s[i].1)
    } else {
        None
    }
}

proof fn lemma_label_index_at(s: Seq<(Seq<char>, u64)>, i: int, label: Seq<char>)
    requires
        is_first_label(s, i, label),
    ensures
        label_index(s, label) == i,
{
    let c = choose|c: int| is_first_label(s, c, label);
    assert(is_first_label(s, c, label));
    if c < i {
        assert(s[c].0 != label);
    } else if c > i {
        assert(s[i].0 != label);
    }
}

proof fn lemma_label_absent(s: Seq<(Seq<char>, u64)>, label: Seq<char>)
    requires
        forall|j: int| 0 <= j < s.len() ==> s[j].0 != label,
    ensures
        label_index(s, label) == -1,
{
    assert forall|c: int| !is_first_label(s, c, label) by {
        if is_first_label(s, c, label) {
            assert(s[c].0 == label);
        }
    }
}

proof fn lemma_label_index_range(s: Seq<(Seq<char>, u64)>, label: Seq<char>)
    ensures
        label_index(s, label) >= 0 ==> is_first_label(s, label_index(s, label), label),
        label_index(s, label) < 0 ==> label_index(s, label) == -1 && forall|j: int|
            0 <= j < s.len() ==> s[j].0 != label,
{
    if label_index(s, label) < 0 {
        assert forall|j: int| 0 <= j < s.len() implies s[j].0 != label by {
            if s[j].0 == label {
                lemma_first_label_exists(s, j, label);
            }
        }
    }
}

proof fn lemma_first_label_exists(s: Seq<(Seq<char>, u64)>, j: int, label: Seq<char>)
    requires
        0 <= j < s.len(),
        s[j].0 == label,
    ensures
        exists|i: int| is_first_label(s, i, label),
    decreases j,
{
    if exists|k: int| 0 <= k < j && s[k].0 == label {
        let k = choose|k: int| 0 <= k < j && s[k].0 == label;
        lemma_first_label_exists(s, k, label);
    } else {
        assert(is_first_label(s, j, label));
    }
}

proof fn lemma_seen_sum_update(s: Seq<(Seq<char>, u64)>, i: int, x: (Seq<char>, u64))
    requires
        0 <= i < s.len(),
    ensures
        seen_sum(s.update(i, x)) + s[i].1 == seen_sum(s) + x.1,
    decreases s.len(),
{
    let t = s.update(i, x);
    if i == s.len() - 1 {
        assert(t.drop_last() =~= s.drop_last());
    } else {
        assert(t.drop_last() =~= s.drop_last().update(i, x));
        lemma_seen_sum_update(s.drop_last(), i, x);
    }
}

/// The counts per label are a map from label to the latest count: after
/// `label` is set to `n`, reading `label` gives `n`, reading any other label
/// gives what it gave before, and the sum of the counts is the old sum with
/// `label`'s old count (0 when it had none) replaced by `n`. So a label's
/// counts are never added up; the latest one stands.
pub proof fn lemma_seen_is_a_map(s: Seq<(Seq<char>, u64)>, label: Seq<char>, n: u64, other: Seq<char>)
    ensures
        seen_lookup(seen_insert(s, label, n), label) == Some(n),
        other != label ==> seen_lookup(seen_insert(s, label, n), other) == seen_lookup(s, other),
        seen_sum(seen_insert(s, label, n)) + (match seen_lookup(s, label) {
            Some(old) => old as nat,
            None => 0nat,
        }) == seen_sum(s) + n,
{
    let t = seen_insert(s, label, n);
    lemma_label_index_range(s, label);
    lemma_label_index_range(s, other);
    let i = label_index(s, label);
    if i >= 0 {
        assert(t == s.update(i, (label, n)));
        assert(is_first_label(t, i, label));
        lemma_label_index_at(t, i, label);
        lemma_seen_sum_update(s, i, (label, n));
        if other != label {
            let k = label_index(s, other);
            if k >= 0 {
                assert(k != i);
                assert(is_first_label(t, k, other));
                lemma_label_index_at(t, k, other);
            } else {
                assert forall|j: int| 0 <= j < t.len() implies t[j].0 != other by {
                    if j != i {
                        assert(t[j] == s[j]);
                    }
                }
                lemma_label_absent(t, other);
            }
        }
    } else {
        assert(t == s.push((label, n)));
        assert(is_first_label(t, s.len() as int, label));
        lemma_label_index_at(t, s.len() as int, label);
        assert(t.drop_last() =~= s);
        if other != label {
            let k = label_index(s, other);
            if k >= 0 {
                assert(is_first_label(t, k, other));
                lemma_label_index_at(t, k, other);
            } else {
                assert forall|j: int| 0 <= j < t.len() implies t[j].0 != other by {
                    if j < s.len() {
                        assert(t[j] == s[j]);
                    }
                }
                lemma_label_absent(t, other);
            }
        }
    }
}

/// The sum of the counts in `s`.
pub open spec fn seen_sum(s: Seq<(Seq<char>, u64)>) -> nat
    decreases s.len(),
{
    if s.len() == 0 {
        0
    } else {
        seen_sum(s.drop_last()) + s.last().1 as nat
    }
}

/// The sum of the counts in `s`, capped at `u64::MAX`.
pub open spec fn seen_total(s: Seq<(Seq<char>, u64)>) -> u64 {
    if seen_sum(s) > u64::MAX {
        u64::MAX
    } else {
        seen_sum(s) as u64
    }
}

pub open spec fn with_total(r: TransferRecord, total: u64) -> TransferRecord {
    TransferRecord { total: Some(total), ..r }
}

pub open spec fn with_bytes(r: TransferRecord, bytes: u64) -> TransferRecord {
    TransferRecord { bytes, ..r }
}

pub open spec fn finished(r: TransferRecord, bytes: u64) -> TransferRecord {
    TransferRecord { bytes, state: TransferState::Done, ..r }
}

pub open spec fn failed(r: TransferRecord) -> TransferRecord {
    TransferRecord { state: TransferState::Failed, ..r }
}

/// What processing the events of one running transfer has given so far:
/// the history, its counts per label, whether it ended, whether anything
/// moved, and the lines for the log.
#[verifier::ext_equal]
pub struct Tally {
    pub hist: Seq<TransferRecord>,
    pub seen: Seq<(Seq<char>, u64)>,
    pub done: bool,
    pub busy: bool,
    pub logs: Seq<(Seq<char>, LogLevel)>,
}

/// The transfer with record `record` ended in failure with `message`.
pub open spec fn failed_with(t: Tally, record: usize, message: Seq<char>) -> Tally {
    if record < t.hist.len() {
        let r = t.hist[record as int];
        Tally {
            hist: t.hist.update(record as int, failed(r)),
            logs: t.logs.push((r.label@ + ": "@ + message, LogLevel::Error)),
            done: true,
            ..t
        }
    } else {
        Tally { done: true, ..t }
    }
}

/// One event from the worker of the transfer with record `record`: progress
/// updates its count (and its record's size when first known), completion
/// stores the bytes moved and logs it, failure marks it failed and logs the
/// reason, and any of these or a disconnection ends it.
pub open spec fn transfer_event(t: Tally, record: usize, ev: Event) -> Tally {
    let has = record < t.hist.len();
    let r = t.hist[record as int];
    match ev {
        Event::Progress { transferred, total, label } => Tally {
            hist: if has && r.total is None && total > 0 && label@ == r.label@ {
                t.hist.update(record as int, with_total(r, total))
            } else {
                t.hist
            },
            seen: seen_insert(t.seen, label@, transferred),
            busy: true,
            ..t
        },
        Event::TransferDone { label } => if has {
            Tally {
                hist: t.hist.update(record as int, finished(r, seen_total(t.seen))),
                logs: t.logs.push(("Finished "@ + label@, LogLevel::Success)),
                done: true,
                ..t
            }
        } else {
            Tally { done: true, ..t }
        },
        Event::ConnectFailed(m) => failed_with(t, record, m@),
        Event::Error(m) => failed_with(t, record, m@),
        Event::Disconnected => Tally { done: true, ..t },
        _ => t,
    }
}

/// The events `evs` in order.
pub open spec fn transfer_events(t: Tally, record: usize, evs: Seq<Event>) -> Tally
    decreases evs.len(),
{
    if evs.len() == 0 {
        t
    } else {
        transfer_event(transfer_events(t, record, evs.drop_last()), record, evs.last())
    }
}

/// A transfer that goes on shows the bytes moved so far in its record.
pub open spec fn settle(t: Tally, record: usize) -> Tally {
    if !t.done && record < t.hist.len() && seen_total(t.seen) != t.hist[record as int].bytes {
        Tally {
            hist: t.hist.update(record as int, with_bytes(t.hist[record as int], seen_total(t.seen))),
            busy: true,
            ..t
        }
    } else {
        t
    }
}

/// What a round over the running transfers has given so far: the history,
/// the transfers that go on, the workers of those that ended, the lines for
/// the log, and whether anything moved.
#[verifier::ext_equal]
pub struct Round {
    pub hist: Seq<TransferRecord>,
    pub kept: Seq<JobView>,
    pub stopped: Seq<u64>,
    pub logs: Seq<(Seq<char>, LogLevel)>,
    pub busy: bool,
}

/// The round goes on with `job` and its events `evs`.
pub open spec fn job_round(p: Round, job: JobView, evs: Seq<Event>) -> Round {
    let t = settle(
        transfer_events(
            Tally { hist: p.hist, seen: job.seen, done: false, busy: p.busy, logs: p.logs },
            job.record,
            evs,
        ),
        job.record,
    );
    Round {
        hist: t.hist,
        kept: if t.done {
            p.kept
        } else {
            p.kept.push(JobView { seen: t.seen, ..job })
        },
        stopped: if t.done {
            p.stopped.push(job.worker)
        } else {
            p.stopped
        },
        logs: t.logs,
        busy: t.busy,
    }
}

/// A round over `jobs` in order, job `i` with events `events[i]`.
pub open spec fn poll_round(
    h: Seq<TransferRecord>,
    jobs: Seq<JobView>,
    events: Seq<Seq<Event>>,
) -> Round
    decreases jobs.len(),
{
    if jobs.len() == 0 {
        Round { hist: h, kept: Seq::empty(), stopped: Seq::empty(), logs: Seq::empty(), busy: false }
    } else {
        job_round(poll_round(h, jobs.drop_last(), events), jobs.last(), events[jobs.len() - 1])
    }
}

pub open spec fn event_views(events: Seq<Vec<Event>>) -> Seq<Seq<Event>> {
    events.map_values(|v: Vec<Event>| v@)
}

pub open spec fn lines_view(v: Seq<(String, LogLevel)>) -> Seq<(Seq<char>, LogLevel)> {
    v.map_values(|l: (String, LogLevel)| (l.0@, l.1))
}

/// The part of an effect that the handling of session events asks for: a
/// listing of `path` from a worker, or a report that a worker's shell
/// output could not be shown.
pub enum Notice {
    List(u64, Seq<char>),
    Overflow(u64),
    Other,
}

pub open spec fn notice_of(e: Effect) -> Notice {
    match e {
        Effect::Send { worker, command: Command::List { path } } => Notice::List(worker, path@),
        Effect::TerminalOverflow { worker } => Notice::Overflow(worker),
        _ => Notice::Other,
    }
}

pub open spec fn notices_of(e: Seq<Effect>) -> Seq<Notice> {
    e.map_values(|x: Effect| notice_of(x))
}

pub open spec fn prompt_view(k: PendingHostKey) -> (usize, Seq<char>, Seq<char>, Seq<char>) {
    (k.session, k.host@, k.fingerprint@, k.key_type@)
}

pub open spec fn prompt_views(s: Seq<PendingHostKey>) -> Seq<(usize, Seq<char>, Seq<char>, Seq<char>)> {
    s.map_values(|k: PendingHostKey| prompt_view(k))
}

pub open spec fn session_views(s: Seq<Session>) -> Seq<SessionView> {
    s.map_values(|x: Session| x@)
}

/// What the events of one session have given so far: the session, the
/// lines for the log, the tabs to close (in order, each once), the host
/// keys to ask about, what to ask of the workers, and whether the interface
/// should repaint at once.
#[verifier::ext_equal]
pub struct Pass {
    pub s: SessionView,
    pub logs: Seq<(Seq<char>, LogLevel)>,
    pub closed: Seq<usize>,
    pub prompts: Seq<(usize, Seq<char>, Seq<char>, Seq<char>)>,
    pub notices: Seq<Notice>,
    pub busy: bool,
}

/// `c` with tab `i` added, unless it is already the last one.
pub open spec fn close_index(c: Seq<usize>, i: usize) -> Seq<usize> {
    if c.len() > 0 && c.last() == i {
        c
    } else {
        c.push(i)
    }
}

/// One event from the worker of the session at `index`, named `name`.
pub open spec fn session_event(p: Pass, index: usize, name: Seq<char>, ev: Event) -> Pass {
    let s = p.s;
    match ev {
        Event::Connected => {
            let logs = p.logs.push(("Connected to "@ + name, LogLevel::Success));
            if s.profile.protocol.browsable_spec() {
                Pass {
                    s: SessionView { status: Status::Connected, loading: true, ..s },
                    logs,
                    notices: p.notices.push(Notice::List(s.worker, s.cwd)),
                    ..p
                }
            } else {
                Pass { s: SessionView { status: Status::Connected, loading: false, ..s }, logs, ..p }
            }
        },
        Event::HostKeyUnknown { host, fingerprint, key_type } => Pass {
            prompts: p.prompts.push((index, host@, fingerprint@, key_type@)),
            ..p
        },
        Event::ConnectFailed(m) => Pass {
            logs: p.logs.push((name + ": "@ + m@, LogLevel::Error)),
            closed: close_index(p.closed, index),
            ..p
        },
        Event::Listing { path, entries } => Pass {
            s: SessionView {
                cwd: path@,
                entries: listing_order(entry_views(entries@)),
                path_edit: None,
                selection: Set::empty(),
                anchor: None,
                loading: false,
                ..s
            },
            ..p
        },
        Event::Progress { .. } => p,
        Event::TransferDone { .. } => Pass {
            s: SessionView { loading: true, ..s },
            notices: p.notices.push(Notice::List(s.worker, s.cwd)),
            ..p
        },
        Event::ExecOutput(o) => Pass { logs: p.logs.push((o@, LogLevel::Info)), ..p },
        Event::ShellOutput(chunk) => match s.terminal {
            Some(t) => if cut_on_boundary(feed(t, chunk@)) {
                Pass { s: SessionView { terminal: Some(terminal_append(t, chunk@)), ..s }, busy: true, ..p }
            } else {
                Pass { notices: p.notices.push(Notice::Overflow(s.worker)), busy: true, ..p }
            },
            None => Pass { busy: true, ..p },
        },
        Event::Error(m) => Pass {
            s: SessionView { loading: false, ..s },
            logs: p.logs.push((m@, LogLevel::Error)),
            ..p
        },
        Event::Disconnected => Pass {
            logs: p.logs.push((name + " disconnected"@, LogLevel::Info)),
            closed: close_index(p.closed, index),
            ..p
        },
    }
}

/// The events `evs` of the session at `index` in order.
pub open spec fn session_events(p: Pass, index: usize, name: Seq<char>, evs: Seq<Event>) -> Pass
    decreases evs.len(),
{
    if evs.len() == 0 {
        p
    } else {
        session_event(session_events(p, index, name, evs.drop_last()), index, name, evs.last())
    }
}

/// What a sweep over the sessions has given so far.
#[verifier::ext_equal]
pub struct Sweep {
    pub sessions: Seq<SessionView>,
    pub logs: Seq<(Seq<char>, LogLevel)>,
    pub closed: Seq<usize>,
    pub prompts: Seq<(usize, Seq<char>, Seq<char>, Seq<char>)>,
    pub notices: Seq<Notice>,
    pub busy: bool,
}

/// The sweep goes on with session `s` at `index` and its events `evs`; a
/// session still loading keeps the interface repainting.
pub open spec fn session_round(w: Sweep, s: SessionView, index: usize, evs: Seq<Event>) -> Sweep {
    let p = session_events(
        Pass {
            s,
            logs: w.logs,
            closed: w.closed,
            prompts: w.prompts,
            notices: w.notices,
            busy: w.busy,
        },
        index,
        s.profile.display_name(),
        evs,
    );
    Sweep {
        sessions: w.sessions.push(p.s),
        logs: p.logs,
        closed: p.closed,
        prompts: p.prompts,
        notices: p.notices,
        busy: p.busy || p.s.loading,
    }
}

/// A sweep over `sessions` in order, session `i` with events `events[i]`.
pub open spec fn sweep(sessions: Seq<SessionView>, events: Seq<Seq<Event>>) -> Sweep
    decreases sessions.len(),
{
    if sessions.len() == 0 {
        Sweep {
            sessions: Seq::empty(),
            logs: Seq::empty(),
            closed: Seq::empty(),
            prompts: Seq::empty(),
            notices: Seq::empty(),
            busy: false,
        }
    } else {
        session_round(
            sweep(sessions.drop_last(), events),
            sessions.last(),
            (sessions.len() - 1) as usize,
            events[sessions.len() - 1],
        )
    }
}

/// `s` without the tabs in `closed`, the last first.
pub open spec fn without(s: Seq<SessionView>, closed: Seq<usize>) -> Seq<SessionView>
    decreases closed.len(),
{
    if closed.len() == 0 {
        s
    } else {
        let i = closed.last();
        without(
            if i < s.len() {
                s.remove(i as int)
            } else {
                s
            },
            closed.drop_last(),
        )
    }
}

/// The active tab after the tabs in `closed` close, the last first: a
/// closed active tab leaves no tab active, and tabs to the right of a
/// closed one shift left.
pub open spec fn active_without(active: Option<usize>, closed: Seq<usize>) -> Option<usize>
    decreases closed.len(),
{
    if closed.len() == 0 {
        active
    } else {
        let i = closed.last();
        active_without(
            match active {
                Some(a) => if a == i {
                    None
                } else if a > i {
                    Some((a - 1) as usize)
                } else {
                    Some(a)
                },
                None => None,
            },
            closed.drop_last(),
        )
    }
}

/// An active tab past the end is dropped while tabs remain.
pub open spec fn fix_active(active: Option<usize>, len: nat) -> Option<usize> {
    match active {
        Some(a) => if a >= len && len > 0 {
            None
        } else {
            Some(a)
        },
        None => None,
    }
}

proof fn lemma_transfer_events_len(t: Tally, record: usize, evs: Seq<Event>)
    ensures
        transfer_events(t, record, evs).hist.len() == t.hist.len(),
    decreases evs.len(),
{
    if evs.len() > 0 {
        lemma_transfer_events_len(t, record, evs.drop_last());
    }
}

/// A round keeps the length of the history and at most the transfers it
/// started with.
pub proof fn lemma_poll_round_len(h: Seq<TransferRecord>, jobs: Seq<JobView>, events: Seq<Seq<Event>>)
    ensures
        poll_round(h, jobs, events).hist.len() == h.len(),
        poll_round(h, jobs, events).kept.len() + poll_round(h, jobs, events).stopped.len()
            == jobs.len(),
    decreases jobs.len(),
{
    if jobs.len() > 0 {
        lemma_poll_round_len(h, jobs.drop_last(), events);
        let p = poll_round(h, jobs.drop_last(), events);
        let job = jobs.last();
        lemma_transfer_events_len(
            Tally { hist: p.hist, seen: job.seen, done: false, busy: p.busy, logs: p.logs },
            job.record,
            events[jobs.len() - 1],
        );
    }
}

/// The sum of the counts, capped at `u64::MAX`.
fn seen_total_of(seen: &Vec<(String, u64)>) -> (n: u64)
    ensures
        n == seen_total(seen_view(seen@)),
{
    let ghost s = seen_view(seen@);
    let mut acc: u64 = 0;
    let mut i: usize = 0;
    while i < seen.len()
        invariant
            i <= seen@.len(),
            s == seen_view(seen@),
            acc == seen_total(s.take(i as int)),
        decreases seen@.len() - i,
    {
        assert(s.take(i + 1).drop_last() =~= s.take(i as int));
        let x = seen[i].1;
        acc = if acc > u64::MAX - x {
            u64::MAX
        } else {
            acc + x
        };
        i = i + 1;
    }
    assert(s.take(seen@.len() as int) =~= s);
    acc
}

/// Sets the count of `label` to `n`.
fn set_seen(seen: &mut Vec<(String, u64)>, label: &String, n: u64)
    ensures
        seen_view(final(seen)@) == seen_insert(seen_view(old(seen)@), label@, n),
{
    let ghost s = seen_view(seen@);
    let mut i: usize = 0;
    while i < seen.len()
        invariant
            i <= seen@.len(),
            s == seen_view(seen@),
            *seen == *old(seen),
            forall|j: int| 0 <= j < i ==> s[j].0 != label@,
        decreases seen@.len() - i,
    {
        if seen[i].0 == *label {
            seen[i].1 = n;
            assert(is_first_label(s, i as int, label@));
            assert(label_index(s, label@) == i) by {
                let c = choose|c: int| is_first_label(s, c, label@);
                assert(c == i);
            }
            assert(seen_view(seen@) =~= s.update(i as int, (label@, n)));
            return;
        }
        i = i + 1;
    }
    assert(label_index(s, label@) == -1);
    seen.push((label.clone(), n));
    assert(seen_view(seen@) =~= s.push((label@, n)));
}

/// Applies one event from the worker of `session`, the tab at `index`
/// named `name`.
#[verifier::rlimit(30)]
fn on_session_event(
    session: &mut Session,
    index: usize,
    name: &String,
    ev: Event,
    logs: &mut Vec<(String, LogLevel)>,
    closed: &mut Vec<usize>,
    prompts: &mut Vec<PendingHostKey>,
    out: &mut Vec<Effect>,
    busy: &mut bool,
)
    ensures
        (Pass {
            s: final(session)@,
            logs: lines_view(final(logs)@),
            closed: final(closed)@,
            prompts: prompt_views(final(prompts)@),
            notices: notices_of(final(out)@),
            busy: *final(busy),
        }) == session_event(
            Pass {
                s: old(session)@,
                logs: lines_view(old(logs)@),
                closed: old(closed)@,
                prompts: prompt_views(old(prompts)@),
                notices: notices_of(old(out)@),
                busy: *old(busy),
            },
            index,
            name@,
            ev,
        ),
{
    let ghost p0 = Pass {
        s: session@,
        logs: lines_view(logs@),
        closed: closed@,
        prompts: prompt_views(prompts@),
        notices: notices_of(out@),
        busy: *busy,
    };
    let ghost ev0 = ev;
    match ev {
        Event::Connected => {
            session.status = Status::Connected;
            let mut text = String::new();
            push_str(&mut text, "Connected to ");
            push_str(&mut text, name.as_str());
            logs.push((text, LogLevel::Success));
            if session.profile.protocol.browsable() {
                let cwd = session.cwd.clone();
                let worker = session.worker;
                let c = session.navigate(cwd);
                out.push(Effect::Send { worker, command: c });
            } else {
                session.loading = false;
            }
        },
        Event::HostKeyUnknown { host, fingerprint, key_type } => {
            prompts.push(PendingHostKey { session: index, host, fingerprint, key_type });
        },
        Event::ConnectFailed(message) => {
            let mut text = String::new();
            push_str(&mut text, name.as_str());
            push_str(&mut text, ": ");
            push_str(&mut text, message.as_str());
            logs.push((text, LogLevel::Error));
            close_tab(closed, index);
        },
        Event::Listing { path, entries } => {
            session.entries = sort_listing(entries);
            session.cwd = path;
            session.path_edit = None;
            session.selection.clear();
            session.anchor = None;
            session.loading = false;
        },
        Event::Progress { .. } => {},
        Event::TransferDone { .. } => {
            let worker = session.worker;
            let c = session.refresh();
            out.push(Effect::Send { worker, command: c });
        },
        Event::ExecOutput(output) => {
            logs.push((output, LogLevel::Info));
        },
        Event::ShellOutput(chunk) => {
            match session.terminal.take() {
                Some(mut terminal) => {
                    if fits_terminal(terminal.output.as_str(), chunk.as_str()) {
                        append_terminal_output(&mut terminal.output, chunk.as_str());
                    } else {
                        out.push(Effect::TerminalOverflow { worker: session.worker });
                    }
                    session.terminal = Some(terminal);
                },
                None => {},
            }
            *busy = true;
        },
        Event::Error(message) => {
            session.loading = false;
            logs.push((message, LogLevel::Error));
        },
        Event::Disconnected => {
            let mut text = String::new();
            push_str(&mut text, name.as_str());
            push_str(&mut text, " disconnected");
            logs.push((text, LogLevel::Info));
            close_tab(closed, index);
        },
    }
    assert((Pass {
        s: session@,
        logs: lines_view(logs@),
        closed: closed@,
        prompts: prompt_views(prompts@),
        notices: notices_of(out@),
        busy: *busy,
    }) =~= session_event(p0, index, name@, ev0));
}

/// Adds tab `index` to the tabs to close, unless it is already the last.
fn close_tab(closed: &mut Vec<usize>, index: usize)
    ensures
        final(closed)@ == close_index(old(closed)@, index),
{
    if closed.len() > 0 && closed[closed.len() - 1] == index {
        return;
    }
    closed.push(index);
}

impl App {
    /// Applies one event from the worker of the transfer with record
    /// `record`, whose counts per label are `seen`.
    fn on_transfer_event(
        &mut self,
        record: usize,
        ev: &Event,
        seen: &mut Vec<(String, u64)>,
        done: &mut bool,
        busy: &mut bool,
        logs: &mut Vec<(String, LogLevel)>,
    )
        ensures
            (Tally {
                hist: final(self).history@,
                seen: seen_view(final(seen)@),
                done: *final(done),
                busy: *final(busy),
                logs: lines_view(final(logs)@),
            }) == transfer_event(
                Tally {
                    hist: old(self).history@,
                    seen: seen_view(old(seen)@),
                    done: *old(done),
                    busy: *old(busy),
                    logs: lines_view(old(logs)@),
                },
                record,
                *ev,
            ),
            final(self).jobs == old(self).jobs,
            final(self).queue == old(self).queue,
            final(self).next_worker == old(self).next_worker,
            final(self).show_history == old(self).show_history,
            final(self).log == old(self).log,
            final(self).hosts_kept(old(self)),
            final(self).sessions_kept(old(self)),
    {
        let ghost t0 = Tally {
            hist: self.history@,
            seen: seen_view(seen@),
            done: *done,
            busy: *busy,
            logs: lines_view(logs@),
        };
        match ev {
            Event::Progress { transferred, total, label } => {
                if record < self.history.len() && self.history[record].total.is_none() && *total
                    > 0 && *label == self.history[record].label {
                    self.history[record].total = Some(*total);
                }
                set_seen(seen, label, *transferred);
                *busy = true;
            },
            Event::TransferDone { label } => {
                if record < self.history.len() {
                    let moved = seen_total_of(seen);
                    self.history[record].bytes = moved;
                    self.history[record].state = TransferState::Done;
                    let mut text = String::new();
                    push_str(&mut text, "Finished ");
                    push_str(&mut text, label.as_str());
                    logs.push((text, LogLevel::Success));
                }
                *done = true;
            },
            Event::ConnectFailed(message) => {
                self.fail_record(record, message, done, logs);
            },
            Event::Error(message) => {
                self.fail_record(record, message, done, logs);
            },
            Event::Disconnected => {
                *done = true;
            },
            _ => {},
        }
        assert((Tally {
            hist: self.history@,
            seen: seen_view(seen@),
            done: *done,
            busy: *busy,
            logs: lines_view(logs@),
        }) =~= transfer_event(t0, record, *ev));
    }

    /// Marks the transfer with record `record` failed with `message`.
    fn fail_record(
        &mut self,
        record: usize,
        message: &String,
        done: &mut bool,
        logs: &mut Vec<(String, LogLevel)>,
    )
        ensures
            ({
                let t = failed_with(
                    Tally {
                        hist: old(self).history@,
                        seen: Seq::empty(),
                        done: *old(done),
                        busy: false,
                        logs: lines_view(old(logs)@),
                    },
                    record,
                    message@,
                );
                &&& final(self).history@ == t.hist
                &&& *final(done) == t.done
                &&& lines_view(final(logs)@) == t.logs
            }),
            final(self).jobs == old(self).jobs,
            final(self).queue == old(self).queue,
            final(self).next_worker == old(self).next_worker,
            final(self).show_history == old(self).show_history,
            final(self).log == old(self).log,
            final(self).hosts_kept(old(self)),
            final(self).sessions_kept(old(self)),
    {
        if record < self.history.len() {
            self.history[record].state = TransferState::Failed;
            let mut text = String::new();
            push_str(&mut text, self.history[record].label.as_str());
            push_str(&mut text, ": ");
            push_str(&mut text, message.as_str());
            let ghost before = logs@;
            logs.push((text, LogLevel::Error));
            assert(lines_view(logs@) =~= lines_view(before).push((text@, LogLevel::Error)));
        }
        *done = true;
    }

    /// Applies what the workers of the running transfers reported (the
    /// events of job `i` in `events[i]`, oldest first): ended transfers lose
    /// their worker, which is told to disconnect; their lines enter the log;
    /// waiting transfers start in the freed slots; and a repaint is asked
    /// for while anything moved or runs.
    #[verifier::rlimit(40)]
    pub fn poll_transfers(&mut self, events: Vec<Vec<Event>>) -> (e: Vec<Effect>)
        requires
            old(self).wf(),
            events@.len() == old(self).jobs@.len(),
        ensures
            final(self).wf(),
            ({
                let p = poll_round(
                    old(self).history@,
                    job_views(old(self).jobs@),
                    event_views(events@),
                );
                let n = p.stopped.len();
                let repaint = p.busy || final(self).jobs@.len() > 0;
                &&& log_view(final(self).log@) == log_after_all(log_view(old(self).log@), p.logs)
                &&& e@.len() == n + (final(self).jobs@.len() - p.kept.len()) + if repaint {
                    1int
                } else {
                    0int
                }
                &&& forall|i: int|
                    0 <= i < n ==> #[trigger] e@[i] == Effect::Send {
                        worker: p.stopped[i],
                        command: Command::Disconnect,
                    }
                &&& starts(
                    p.hist,
                    p.kept,
                    pending_views(old(self).queue@),
                    old(self).next_worker,
                    final(self).history@,
                    job_views(final(self).jobs@),
                    pending_views(final(self).queue@),
                    final(self).next_worker,
                    e@.subrange(n as int, e@.len() - if repaint {
                        1int
                    } else {
                        0int
                    }),
                )
                &&& repaint ==> e@.last() == Effect::Repaint
            }),
            final(self).show_history == old(self).show_history,
            final(self).hosts_kept(old(self)),
            final(self).sessions_kept(old(self)),
    {
        let ghost h0 = self.history@;
        let ghost jv = job_views(self.jobs@);
        let ghost ev = event_views(events@);
        let mut out: Vec<Effect> = Vec::new();
        let mut logs: Vec<(String, LogLevel)> = Vec::new();
        let mut busy = false;
        let mut jobs: Vec<TransferJob> = Vec::new();
        std::mem::swap(&mut jobs, &mut self.jobs);
        let mut evs = events;
        let n = jobs.len();
        let mut i: usize = 0;
        assert(jv.take(0) =~= Seq::<JobView>::empty());
        proof {
            lemma_poll_round_len(h0, jv, ev);
        }
        while i < n
            invariant
                i <= n,
                n == jv.len(),
                jv.len() <= MAX_CONCURRENT_TRANSFERS,
                ev.len() == n,
                job_views(jobs@) == jv.skip(i as int),
                event_views(evs@) == ev.skip(i as int),
                jobs@.len() == n - i,
                evs@.len() == n - i,
                ({
                    let p = poll_round(h0, jv.take(i as int), ev);
                    &&& self.history@ == p.hist
                    &&& job_views(self.jobs@) == p.kept
                    &&& out@.len() == p.stopped.len()
                    &&& forall|k: int|
                        0 <= k < out@.len() ==> #[trigger] out@[k] == Effect::Send {
                            worker: p.stopped[k],
                            command: Command::Disconnect,
                        }
                    &&& lines_view(logs@) == p.logs
                    &&& busy == p.busy
                }),
                self.queue == old(self).queue,
                self.next_worker == old(self).next_worker,
                self.show_history == old(self).show_history,
                self.log == old(self).log,
                self.hosts_kept(old(self)),
                self.sessions_kept(old(self)),
            decreases n - i,
        {
            let ghost p = poll_round(h0, jv.take(i as int), ev);
            assert(jv.take(i + 1).drop_last() =~= jv.take(i as int));
            assert(job_views(jobs@)[0] == jv[i as int]);
            assert(event_views(evs@)[0] == ev[i as int]);
            let ghost jb = jobs@;
            let ghost eb = evs@;
            let job = jobs.remove(0);
            let job_events = evs.remove(0);
            assert(jobs@ =~= jb.skip(1));
            assert(evs@ =~= eb.skip(1));
            assert(job_views(jobs@) =~= job_views(jb).skip(1));
            assert(event_views(evs@) =~= event_views(eb).skip(1));
            assert(jv.skip(i as int).skip(1) =~= jv.skip(i + 1));
            assert(ev.skip(i as int).skip(1) =~= ev.skip(i + 1));
            let TransferJob { worker, record, mut seen } = job;
            let ghost jw = JobView { worker, record, seen: seen_view(seen@) };
            assert(jw == jv[i as int]);
            let ghost t0 = Tally { hist: p.hist, seen: jw.seen, done: false, busy: p.busy, logs: p.logs };
            let mut done = false;
            let mut k: usize = 0;
            let ghost jobs_now = self.jobs;
            assert(job_events@.take(0) =~= Seq::<Event>::empty());
            while k < job_events.len()
                invariant
                    k <= job_events@.len(),
                    (Tally {
                        hist: self.history@,
                        seen: seen_view(seen@),
                        done,
                        busy,
                        logs: lines_view(logs@),
                    }) == transfer_events(t0, record, job_events@.take(k as int)),
                    self.jobs == jobs_now,
                    self.queue == old(self).queue,
                    self.next_worker == old(self).next_worker,
                    self.show_history == old(self).show_history,
                    self.log == old(self).log,
                    self.hosts_kept(old(self)),
                    self.sessions_kept(old(self)),
                decreases job_events@.len() - k,
            {
                assert(job_events@.take(k + 1).drop_last() =~= job_events@.take(k as int));
                self.on_transfer_event(record, &job_events[k], &mut seen, &mut done, &mut busy, &mut logs);
                k = k + 1;
            }
            assert(job_events@.take(job_events@.len() as int) =~= job_events@);
            assert(job_events@ == ev[i as int]);
            let ghost t1 = transfer_events(t0, record, ev[i as int]);
            if !done && record < self.history.len() {
                let moved = seen_total_of(&seen);
                if moved != self.history[record].bytes {
                    self.history[record].bytes = moved;
                    busy = true;
                }
            }
            let ghost t2 = settle(t1, record);
            assert(self.history@ =~= t2.hist);
            assert(busy == t2.busy);
            assert(seen_view(seen@) == t2.seen);
            assert(done == t2.done);
            assert(lines_view(logs@) == t2.logs);
            let ghost q = job_round(p, jw, ev[i as int]);
            if done {
                out.push(Effect::Send { worker, command: Command::Disconnect });
            } else {
                self.jobs.push(TransferJob { worker, record, seen });
            }
            proof {
                assert(poll_round(h0, jv.take(i + 1), ev) == q);
                assert(self.history@ =~= q.hist);
                assert(job_views(self.jobs@) =~= q.kept);
            }
            i = i + 1;
        }
        assert(jv.take(n as int) =~= jv);
        let ghost p = poll_round(h0, jv, ev);
        let ghost lines = p.logs;
        let ghost log0 = log_view(self.log@);
        let mut m: usize = 0;
        let total_lines = logs.len();
        assert(lines.take(0) =~= Seq::<(Seq<char>, LogLevel)>::empty());
        while m < total_lines
            invariant
                m <= total_lines,
                total_lines == lines.len(),
                lines_view(logs@) == lines.skip(m as int),
                logs@.len() == total_lines - m,
                log_view(self.log@) == log_after_all(log0, lines.take(m as int)),
                self.log@.len() <= LOG_CAPACITY,
                self.history@ == p.hist,
                job_views(self.jobs@) == p.kept,
                self.queue == old(self).queue,
                self.next_worker == old(self).next_worker,
                self.show_history == old(self).show_history,
                self.hosts_kept(old(self)),
                self.sessions_kept(old(self)),
            decreases total_lines - m,
        {
            assert(lines_view(logs@)[0] == lines[m as int]);
            let ghost lb = logs@;
            let (text, level) = logs.remove(0);
            assert(logs@ =~= lb.skip(1));
            assert(lines_view(logs@) =~= lines_view(lb).skip(1));
            assert(lines.skip(m as int).skip(1) =~= lines.skip(m + 1));
            assert(lines.take(m + 1).drop_last() =~= lines.take(m as int));
            self.push_log(text, level);
            m = m + 1;
        }
        assert(lines.take(total_lines as int) =~= lines);
        let ghost stops = out@;
        self.start_queued(&mut out);
        let ghost started = out@;
        let repaint = busy || self.jobs.len() > 0;
        if repaint {
            out.push(Effect::Repaint);
        }
        proof {
            assert(out@.subrange(stops.len() as int, out@.len() - if repaint { 1int } else { 0int }) =~= started.skip(stops.len() as int));
            assert forall|i: int| 0 <= i < p.stopped.len() implies #[trigger] out@[i] == Effect::Send {
                worker: p.stopped[i],
                command: Command::Disconnect,
            } by {
                assert(started.take(stops.len() as int)[i] == stops[i]);
                assert(out@[i] == started[i]);
            }
        }
        out
    }

    /// Applies what the workers of the open sessions reported (the events
    /// of tab `i` in `events[i]`, oldest first): connections, listings,
    /// shell output and failures update their sessions; lines enter the
    /// log; the first unknown host key is asked about unless a question is
    /// open; failed and disconnected tabs close; and the interface repaints
    /// at once while anything loads or printed, else a moment later.
    #[verifier::rlimit(40)]
    pub fn poll_worker(&mut self, events: Vec<Vec<Event>>) -> (e: Vec<Effect>)
        requires
            old(self).wf(),
            events@.len() == old(self).sessions@.len(),
        ensures
            final(self).wf(),
            ({
                let w = sweep(session_views(old(self).sessions@), event_views(events@));
                &&& session_views(final(self).sessions@) == without(w.sessions, w.closed)
                &&& final(self).active == fix_active(
                    active_without(old(self).active, w.closed),
                    final(self).sessions@.len(),
                )
                &&& log_view(final(self).log@) == log_after_all(log_view(old(self).log@), w.logs)
                &&& if old(self).pending_host_key is None && w.prompts.len() > 0 {
                    final(self).pending_host_key matches Some(k) && prompt_view(k) == w.prompts[0]
                } else {
                    final(self).pending_host_key == old(self).pending_host_key
                }
                &&& e@.len() == w.notices.len() + 1
                &&& notices_of(e@.drop_last()) == w.notices
                &&& e@.last() == if w.busy {
                    Effect::Repaint
                } else {
                    Effect::RepaintSoon
                }
            }),
            final(self).hosts_kept(old(self)),
            final(self).transfers_kept(old(self)),
    {
        let ghost sv = session_views(self.sessions@);
        let ghost ev = event_views(events@);
        let mut out: Vec<Effect> = Vec::new();
        let mut logs: Vec<(String, LogLevel)> = Vec::new();
        let mut closed: Vec<usize> = Vec::new();
        let mut prompts: Vec<PendingHostKey> = Vec::new();
        let mut busy = false;
        let mut sessions: Vec<Session> = Vec::new();
        std::mem::swap(&mut sessions, &mut self.sessions);
        let mut evs = events;
        let n = sessions.len();
        let mut i: usize = 0;
        assert(sv.take(0) =~= Seq::<SessionView>::empty());
        while i < n
            invariant
                i <= n,
                n == sv.len(),
                ev.len() == n,
                session_views(sessions@) == sv.skip(i as int),
                event_views(evs@) == ev.skip(i as int),
                sessions@.len() == n - i,
                evs@.len() == n - i,
                ({
                    let w = sweep(sv.take(i as int), ev);
                    &&& session_views(self.sessions@) == w.sessions
                    &&& self.sessions@.len() == i
                    &&& notices_of(out@) == w.notices
                    &&& lines_view(logs@) == w.logs
                    &&& closed@ == w.closed
                    &&& prompt_views(prompts@) == w.prompts
                    &&& busy == w.busy
                }),
                self.active == old(self).active,
                self.pending_host_key == old(self).pending_host_key,
                self.log == old(self).log,
                self.hosts_kept(old(self)),
                self.transfers_kept(old(self)),
            decreases n - i,
        {
            let ghost w = sweep(sv.take(i as int), ev);
            assert(sv.take(i + 1).drop_last() =~= sv.take(i as int));
            let ghost sb = sessions@;
            let ghost eb = evs@;
            assert(session_views(sb)[0] == sv[i as int]);
            assert(event_views(eb)[0] == ev[i as int]);
            let mut session = sessions.remove(0);
            let mut queue = evs.remove(0);
            assert(sessions@ =~= sb.skip(1));
            assert(evs@ =~= eb.skip(1));
            assert(session_views(sessions@) =~= session_views(sb).skip(1));
            assert(event_views(evs@) =~= event_views(eb).skip(1));
            assert(sv.skip(i as int).skip(1) =~= sv.skip(i + 1));
            assert(ev.skip(i as int).skip(1) =~= ev.skip(i + 1));
            let name = session.profile.display_name().to_owned();
            let ghost s0 = session@;
            let ghost evs_i = queue@;
            let ghost p0 = Pass {
                s: s0,
                logs: w.logs,
                closed: w.closed,
                prompts: w.prompts,
                notices: w.notices,
                busy: w.busy,
            };
            let m = queue.len();
            let mut k: usize = 0;
            assert(evs_i.take(0) =~= Seq::<Event>::empty());
            assert(evs_i.skip(0) =~= evs_i);
            while k < m
                invariant
                    k <= m,
                    m == evs_i.len(),
                    queue@ == evs_i.skip(k as int),
                    queue@.len() == m - k,
                    (Pass {
                        s: session@,
                        logs: lines_view(logs@),
                        closed: closed@,
                        prompts: prompt_views(prompts@),
                        notices: notices_of(out@),
                        busy,
                    }) == session_events(p0, i, s0.profile.display_name(), evs_i.take(k as int)),
                    name@ == s0.profile.display_name(),
                decreases m - k,
            {
                assert(evs_i.take(k + 1).drop_last() =~= evs_i.take(k as int));
                let ghost qb = queue@;
                let one = queue.remove(0);
                assert(queue@ =~= evs_i.skip(k + 1));
                assert(one == evs_i[k as int]);
                on_session_event(
                    &mut session,
                    i,
                    &name,
                    one,
                    &mut logs,
                    &mut closed,
                    &mut prompts,
                    &mut out,
                    &mut busy,
                );
                k = k + 1;
            }
            assert(evs_i.take(m as int) =~= evs_i);
            busy = busy || session.loading;
            let ghost sb2 = self.sessions@;
            self.sessions.push(session);
            proof {
                assert(session_views(self.sessions@) =~= session_views(sb2).push(self.sessions@.last()@));
                assert(sweep(sv.take(i + 1), ev) =~= session_round(w, sv[i as int], i, ev[i as int]));
            }
            i = i + 1;
        }
        assert(sv.take(n as int) =~= sv);
        let ghost w = sweep(sv, ev);
        let ghost lines = w.logs;
        let ghost log0 = log_view(self.log@);
        let total_lines = logs.len();
        let mut m: usize = 0;
        assert(lines.take(0) =~= Seq::<(Seq<char>, LogLevel)>::empty());
        while m < total_lines
            invariant
                m <= total_lines,
                total_lines == lines.len(),
                lines_view(logs@) == lines.skip(m as int),
                logs@.len() == total_lines - m,
                log_view(self.log@) == log_after_all(log0, lines.take(m as int)),
                self.log@.len() <= LOG_CAPACITY,
                session_views(self.sessions@) == w.sessions,
                self.sessions@.len() == n,
                self.active == old(self).active,
                self.pending_host_key == old(self).pending_host_key,
                self.hosts_kept(old(self)),
                self.transfers_kept(old(self)),
            decreases total_lines - m,
        {
            let ghost lb = logs@;
            assert(lines_view(lb)[0] == lines[m as int]);
            let (text, level) = logs.remove(0);
            assert(logs@ =~= lb.skip(1));
            assert(lines_view(logs@) =~= lines_view(lb).skip(1));
            assert(lines.skip(m as int).skip(1) =~= lines.skip(m + 1));
            assert(lines.take(m + 1).drop_last() =~= lines.take(m as int));
            self.push_log(text, level);
            m = m + 1;
        }
        assert(lines.take(total_lines as int) =~= lines);
        if self.pending_host_key.is_none() && prompts.len() > 0 {
            let ghost pb = prompts@;
            let first = prompts.remove(0);
            assert(prompt_view(first) == prompt_views(pb)[0]);
            self.pending_host_key = Some(first);
        }
        let ghost cl = closed@;
        let ghost pk = self.pending_host_key;
        let ghost lg = self.log;
        let mut c = closed.len();
        assert(cl.take(c as int) =~= cl);
        while c > 0
            invariant
                c <= cl.len(),
                closed@ == cl,
                without(session_views(self.sessions@), cl.take(c as int)) == without(w.sessions, cl),
                active_without(self.active, cl.take(c as int)) == active_without(old(self).active, cl),
                self.active matches Some(a) ==> a < self.sessions@.len(),
                self.pending_host_key == pk,
                self.log == lg,
                self.log@.len() <= LOG_CAPACITY,
                self.hosts_kept(old(self)),
                self.transfers_kept(old(self)),
            decreases c,
        {
            c = c - 1;
            let index = closed[c];
            assert(cl.take(c + 1).drop_last() =~= cl.take(c as int));
            assert(cl.take(c + 1).last() == index);
            let ghost before = self.sessions@;
            if index < self.sessions.len() {
                self.sessions.remove(index);
                assert(session_views(self.sessions@) =~= session_views(before).remove(index as int));
            }
            self.active = match self.active {
                Some(a) => if a == index {
                    None
                } else if a > index {
                    Some(a - 1)
                } else {
                    Some(a)
                },
                None => None,
            };
        }
        assert(cl.take(0) =~= Seq::<usize>::empty());
        match self.active {
            Some(a) => if a >= self.sessions.len() && self.sessions.len() > 0 {
                self.active = None;
            },
            None => {},
        }
        let ghost notes = out@;
        if busy {
            out.push(Effect::Repaint);
        } else {
            out.push(Effect::RepaintSoon);
        }
        assert(out@.drop_last() =~= notes);
        out
    }
}

} // verus!
