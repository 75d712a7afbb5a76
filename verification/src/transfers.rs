//! The transfer queue: records in the history, at most
//! [`MAX_CONCURRENT_TRANSFERS`] transfers running on workers of their own,
//! and the rest waiting in order.
use std::time::Instant;
use vstd::prelude::*;

use crate::app::{
    join_path, join_path_spec, Direction, LogLevel, PendingTransfer, TransferRecord, TransferState,
};
use crate::backend::{Command, RemoteEntry};
use crate::connection::ProfileView;
use crate::session::{selected_indices, Session};
use crate::state::{
    log_after, log_view, App, Effect, LocalItem, TransferJob, HISTORY_CAPACITY, LOG_CAPACITY,
    MAX_CONCURRENT_TRANSFERS,
};
use crate::text::{dec, push_dec, push_str};

verus! {

/// A running transfer: its worker, its history record, and the bytes moved
/// per label it reported.
pub struct JobView {
    pub worker: u64,
    pub record: usize,
    pub seen: Seq<(Seq<char>, u64)>,
}

/// A waiting transfer: where to, what to do, and its history record.
pub struct PendingView {
    pub profile: ProfileView,
    pub command: Command,
    pub record: usize,
}

pub open spec fn seen_view(s: Seq<(String, u64)>) -> Seq<(Seq<char>, u64)> {
    s.map_values(|e: (String, u64)| (e.0@, e.1))
}

pub open spec fn job_view(j: TransferJob) -> JobView {
    JobView { worker: j.worker, record: j.record, seen: seen_view(j.seen@) }
}

pub open spec fn job_views(s: Seq<TransferJob>) -> Seq<JobView> {
    s.map_values(|j: TransferJob| job_view(j))
}

pub open spec fn pending_view(p: PendingTransfer) -> PendingView {
    PendingView { profile: p.profile@, command: p.command, record: p.record }
}

pub open spec fn pending_views(q: Seq<PendingTransfer>) -> Seq<PendingView> {
    q.map_values(|p: PendingTransfer| pending_view(p))
}

/// The worker id handed out `i` spawns after `base`.
pub open spec fn nth_id(base: u64, i: nat) -> u64
    decreases i,
{
    if i == 0 {
        base
    } else {
        nth_id(base, (i - 1) as nat).wrapping_add(1)
    }
}

/// How many waiting transfers start when `jobs` run and `queued` wait.
pub open spec fn started_count(jobs: nat, queued: nat) -> nat {
    if jobs >= MAX_CONCURRENT_TRANSFERS {
        0
    } else if MAX_CONCURRENT_TRANSFERS - jobs < queued {
        (MAX_CONCURRENT_TRANSFERS - jobs) as nat
    } else {
        queued
    }
}

/// `b` is the record `a` marked as running (its start time reset).
pub open spec fn running_of(a: TransferRecord, b: TransferRecord) -> bool {
    &&& b.label == a.label
    &&& b.host == a.host
    &&& b.direction == a.direction
    &&& b.bytes == a.bytes
    &&& b.total == a.total
    &&& b.state == TransferState::Running
}

/// One of the first `k` waiting transfers has record `j`.
pub open spec fn started_record(q: Seq<PendingView>, k: nat, j: int) -> bool {
    exists|i: int| 0 <= i < k && #[trigger] q[i].record == j
}

/// `h1` is `h0` with the records of the first `k` waiting transfers marked
/// as running.
pub open spec fn marks_running(
    h0: Seq<TransferRecord>,
    h1: Seq<TransferRecord>,
    q: Seq<PendingView>,
    k: nat,
) -> bool {
    &&& h1.len() == h0.len()
    &&& forall|j: int|
        0 <= j < h0.len() ==> if started_record(q, k, j) {
            running_of(h0[j], #[trigger] h1[j])
        } else {
            h1[j] == h0[j]
        }
}

/// The jobs for the first `k` waiting transfers, on fresh workers.
pub open spec fn new_jobs(q: Seq<PendingView>, next: u64, k: nat) -> Seq<JobView> {
    Seq::new(
        k,
        |i: int| JobView { worker: nth_id(next, i as nat), record: q[i].record, seen: Seq::empty() },
    )
}

/// `e` starts the first `k` waiting transfers, in order, on fresh workers.
pub open spec fn start_effects(e: Seq<Effect>, q: Seq<PendingView>, next: u64, k: nat) -> bool {
    &&& e.len() == k
    &&& forall|i: int|
        0 <= i < k ==> (#[trigger] e[i] matches Effect::StartTransfer { worker, profile, command }
            && worker == nth_id(next, i as nat) && profile@ == q[i].profile && command
            == q[i].command)
}

/// Starting waiting transfers while fewer than
/// [`MAX_CONCURRENT_TRANSFERS`] run takes history `h0`, jobs `j0`, queue
/// `q0` and worker counter `n0` to `h1`, `j1`, `q1`, `n1`, with effects `e`.
pub open spec fn starts(
    h0: Seq<TransferRecord>,
    j0: Seq<JobView>,
    q0: Seq<PendingView>,
    n0: u64,
    h1: Seq<TransferRecord>,
    j1: Seq<JobView>,
    q1: Seq<PendingView>,
    n1: u64,
    e: Seq<Effect>,
) -> bool {
    let k = started_count(j0.len(), q0.len());
    &&& q1 == q0.skip(k as int)
    &&& j1 == j0 + new_jobs(q0, n0, k)
    &&& n1 == nth_id(n0, k)
    &&& marks_running(h0, h1, q0, k)
    &&& start_effects(e, q0, n0, k)
}

/// `r` when at least `by`, else 0.
pub open spec fn sat_sub(r: usize, by: nat) -> usize {
    if r >= by {
        (r - by) as usize
    } else {
        0
    }
}

pub open spec fn shifted_jobs(s: Seq<JobView>, by: nat) -> Seq<JobView> {
    s.map_values(|j: JobView| JobView { record: sat_sub(j.record, by), ..j })
}

pub open spec fn shifted_pending(s: Seq<PendingView>, by: nat) -> Seq<PendingView> {
    s.map_values(|p: PendingView| PendingView { record: sat_sub(p.record, by), ..p })
}

/// The history after `rec` is added: the oldest record goes once it would
/// pass [`HISTORY_CAPACITY`].
pub open spec fn history_after(h: Seq<TransferRecord>, rec: TransferRecord) -> Seq<
    TransferRecord,
> {
    let grown = h.push(rec);
    if grown.len() > HISTORY_CAPACITY {
        grown.drop_first()
    } else {
        grown
    }
}

/// How far the records move down when one is added to `h`.
pub open spec fn history_shift(h: Seq<TransferRecord>) -> nat {
    if h.len() + 1 > HISTORY_CAPACITY {
        1
    } else {
        0
    }
}

/// `rec` is a new, waiting record for `label` on `host`.
pub open spec fn fresh_record(
    rec: TransferRecord,
    label: Seq<char>,
    host: Seq<char>,
    direction: Direction,
    total: Option<u64>,
) -> bool {
    &&& rec.label@ == label
    &&& rec.host@ == host
    &&& rec.direction == direction
    &&& rec.bytes == 0
    &&& rec.total == total
    &&& rec.state == TransferState::Queued
}

/// A transfer asked for: its label, its direction, the command for its
/// worker and its size when known.
pub struct Request {
    pub label: Seq<char>,
    pub direction: Direction,
    pub command: Command,
    pub total: Option<u64>,
}

/// Queueing each of `reqs` in turn takes `a` to `b` with effects `e`.
pub open spec fn queued_all(a: App, b: App, reqs: Seq<Request>, e: Seq<Effect>) -> bool
    decreases reqs.len(),
{
    if reqs.len() == 0 {
        b == a && e.len() == 0
    } else {
        exists|mid: App, k: int|
            0 <= k <= e.len() && queued_all(a, mid, reqs.drop_last(), e.take(k))
                && #[trigger] mid.queued(&b, reqs.last(), e.skip(k))
    }
}

/// Queueing one more transfer extends a chain of queued transfers.
pub proof fn lemma_queued_all_step(
    a: App,
    mid: App,
    b: App,
    reqs: Seq<Request>,
    req: Request,
    e1: Seq<Effect>,
    e2: Seq<Effect>,
)
    requires
        queued_all(a, mid, reqs, e1),
        mid.queued(&b, req, e2),
    ensures
        queued_all(a, b, reqs.push(req), e1 + e2),
{
    let all = reqs.push(req);
    let e = e1 + e2;
    assert(all.drop_last() =~= reqs);
    assert(all.last() == req);
    assert(e.take(e1.len() as int) =~= e1);
    assert(e.skip(e1.len() as int) =~= e2);
    assert(queued_all(a, mid, all.drop_last(), e.take(e1.len() as int)));
    assert(mid.queued(&b, all.last(), e.skip(e1.len() as int)));
}

/// `r` downloads the remote file `target.0` (named `target.1`) into the
/// local folder `dir`, as the file of that name there: labelled with its
/// remote path, of unknown size.
pub open spec fn download_request(r: Request, dir: Seq<char>, target: (Seq<char>, Seq<char>)) -> bool {
    &&& r.label == target.0
    &&& r.direction == Direction::Download
    &&& r.total is None
    &&& r.command matches Command::Download { remote_path, local_path } && remote_path@ == target.0
        && local_path@ == local_join(dir, target.1)
}

/// `r` uploads the named local item into remote directory `cwd`, labelled
/// with its remote path.
pub open spec fn upload_request(r: Request, cwd: Seq<char>, item: LocalItem) -> bool {
    let remote = join_path_spec(cwd, item.name->0@);
    &&& r.label == remote
    &&& r.direction == Direction::Upload
    &&& r.total == item.size
    &&& r.command matches Command::Upload { local_path, remote_path } && local_path == item.path
        && remote_path@ == remote
}

/// The items whose names are valid UTF-8, in order.
pub open spec fn named_items(items: Seq<LocalItem>) -> Seq<LocalItem>
    decreases items.len(),
{
    if items.len() == 0 {
        items
    } else {
        let prev = named_items(items.drop_last());
        if items.last().name is Some {
            prev.push(items.last())
        } else {
            prev
        }
    }
}

/// What is logged when some dropped or picked items cannot be uploaded.
pub open spec fn skipped_message(n: nat) -> Seq<char> {
    "Skipped "@ + dec(n) + " item(s) whose names are not valid UTF-8"@
}

/// The remote paths and names of the selected entries of `s`, in listing
/// order.
pub open spec fn selected_targets(s: Session) -> Seq<(Seq<char>, Seq<char>)> {
    let sel = selected_indices(s.entries@.len(), s.selection@);
    Seq::new(
        sel.len(),
        |i: int|
            {
                let e = s.entries@[sel[i] as int];
                (join_path_spec(s.cwd@, e.name@), e.name@)
            },
    )
}

/// `b` is session `a` waiting for a new listing.
pub open spec fn reloading(a: Session, b: Session) -> bool {
    b == Session { loading: true, ..a }
}

/// The local path that `Path::join` makes of folder `dir` and `name`, as
/// text, on the platform the program is built for.
pub uninterp spec fn local_join(dir: Seq<char>, name: Seq<char>) -> Seq<char>;

/// `Path::join`: `name` adjoined to the local folder `dir`. Both are UTF-8
/// text, so the joined path is too, and reading it back as a `String` loses
/// nothing. What the join gives is named, not written out: it follows the
/// platform's path rules.
#[verifier::external_body]
pub(crate) fn local_target(dir: &str, name: &str) -> (r: String)
    ensures
        r@ == local_join(dir@, name@),
{
    std::path::Path::new(dir).join(name).to_string_lossy().into_owned()
}

/// `b` is history record `a`, maybe marked as running since.
pub open spec fn same_transfer(a: TransferRecord, b: TransferRecord) -> bool {
    &&& b.label == a.label
    &&& b.host == a.host
    &&& b.direction == a.direction
    &&& b.bytes == a.bytes
    &&& b.total == a.total
    &&& (b.state == a.state || b.state == TransferState::Running)
}

/// Queueing a transfer from an open tab when the history is full: the
/// history stays full, the oldest record goes and the others move up by
/// one (a waiting transfer that starts now is marked running), the new
/// record for the active host comes last, waiting or running, and each
/// running or waiting transfer's record index goes down by one, so that it
/// names the same record as before: the transfers that were running keep
/// their place, the waiting ones (the new one last) start in order while
/// there is room, and the rest stay waiting. The history panel opens.
pub proof fn lemma_queue_with_full_history(a: App, b: App, req: Request, e: Seq<Effect>)
    requires
        a.queued(&b, req, e),
        a.active matches Some(x) && x < a.sessions@.len(),
        a.history@.len() == HISTORY_CAPACITY,
        forall|i: int| 0 <= i < a.jobs@.len() ==> #[trigger] a.jobs@[i].record >= 1,
        forall|i: int| 0 <= i < a.queue@.len() ==> #[trigger] a.queue@[i].record >= 1,
    ensures
        b.history@.len() == HISTORY_CAPACITY,
        forall|k: int|
            0 <= k < HISTORY_CAPACITY - 1 ==> same_transfer(a.history@[k + 1], #[trigger] b.history@[k]),
        ({
            let last = b.history@[HISTORY_CAPACITY - 1];
            let s = a.sessions@[a.active->0 as int];
            &&& last.label@ == req.label
            &&& last.host@ == s.profile@.display_name()
            &&& last.direction == req.direction
            &&& last.bytes == 0
            &&& last.total == req.total
            &&& (last.state == TransferState::Queued || last.state == TransferState::Running)
        }),
        b.jobs@.len() >= a.jobs@.len(),
        forall|i: int| 0 <= i < a.jobs@.len() ==> #[trigger] b.jobs@[i].record + 1 == a.jobs@[i].record,
        ({
            let started = (b.jobs@.len() - a.jobs@.len()) as int;
            &&& started + b.queue@.len() == a.queue@.len() + 1
            &&& forall|m: int|
                0 <= m < started ==> #[trigger] b.jobs@[a.jobs@.len() + m].record == if m
                    < a.queue@.len() {
                    a.queue@[m].record - 1
                } else {
                    HISTORY_CAPACITY - 1
                }
            &&& forall|m: int|
                0 <= m < b.queue@.len() ==> #[trigger] b.queue@[m].record == if started + m
                    < a.queue@.len() {
                    a.queue@[started + m].record - 1
                } else {
                    HISTORY_CAPACITY - 1
                }
        }),
        b.show_history,
{
    let x = a.active->0;
    let s = a.sessions@[x as int];
    let by = history_shift(a.history@);
    let rec = choose|rec: TransferRecord|
        #[trigger] fresh_record(rec, req.label, s.profile@.display_name(), req.direction, req.total)
            && starts(
            history_after(a.history@, rec),
            shifted_jobs(job_views(a.jobs@), by),
            shifted_pending(pending_views(a.queue@), by).push(
                PendingView {
                    profile: s.profile@,
                    command: req.command,
                    record: (history_after(a.history@, rec).len() - 1) as usize,
                },
            ),
            a.next_worker,
            b.history@,
            job_views(b.jobs@),
            pending_views(b.queue@),
            b.next_worker,
            e,
        );
    let h1 = history_after(a.history@, rec);
    assert(by == 1);
    assert(h1 =~= a.history@.push(rec).drop_first());
    let q0 = shifted_pending(pending_views(a.queue@), by).push(
        PendingView { profile: s.profile@, command: req.command, record: (h1.len() - 1) as usize },
    );
    let kk = started_count(shifted_jobs(job_views(a.jobs@), by).len(), q0.len());
    assert forall|k: int| 0 <= k < HISTORY_CAPACITY - 1 implies same_transfer(
        a.history@[k + 1],
        #[trigger] b.history@[k],
    ) by {
        assert(h1[k] == a.history@[k + 1]);
        if started_record(q0, kk, k) {
            assert(running_of(h1[k], b.history@[k]));
        } else {
            assert(b.history@[k] == h1[k]);
        }
    }
    let j = HISTORY_CAPACITY - 1;
    assert(h1[j] == rec);
    if started_record(q0, kk, j) {
        assert(running_of(h1[j], b.history@[j]));
    } else {
        assert(b.history@[j] == h1[j]);
    }
    let j1 = shifted_jobs(job_views(a.jobs@), by) + new_jobs(q0, a.next_worker, kk);
    assert(job_views(b.jobs@) == j1);
    assert(job_views(b.jobs@).len() == b.jobs@.len());
    assert(shifted_jobs(job_views(a.jobs@), by).len() == a.jobs@.len());
    assert forall|i: int| 0 <= i < a.jobs@.len() implies #[trigger] b.jobs@[i].record + 1
        == a.jobs@[i].record by {
        assert(job_views(b.jobs@)[i] == job_view(b.jobs@[i]));
        assert(job_views(a.jobs@)[i] == job_view(a.jobs@[i]));
        assert(shifted_jobs(job_views(a.jobs@), by)[i].record == sat_sub(a.jobs@[i].record, 1));
        assert((shifted_jobs(job_views(a.jobs@), by) + new_jobs(q0, a.next_worker, kk))[i]
            == shifted_jobs(job_views(a.jobs@), by)[i]);
    }
    let n = a.queue@.len();
    assert(q0.len() == n + 1);
    assert(b.jobs@.len() == a.jobs@.len() + kk);
    assert(pending_views(b.queue@) == q0.skip(kk as int));
    assert(pending_views(b.queue@).len() == b.queue@.len());
    assert forall|m: int| 0 <= m < q0.len() implies #[trigger] q0[m].record == if m < n {
        a.queue@[m].record - 1
    } else {
        HISTORY_CAPACITY - 1
    } by {
        if m < n {
            assert(pending_views(a.queue@)[m] == pending_view(a.queue@[m]));
            assert(q0[m] == shifted_pending(pending_views(a.queue@), by)[m]);
        }
    }
    assert forall|m: int| 0 <= m < kk implies #[trigger] b.jobs@[a.jobs@.len() + m].record == if m
        < n {
        a.queue@[m].record - 1
    } else {
        HISTORY_CAPACITY - 1
    } by {
        assert(job_views(b.jobs@)[a.jobs@.len() + m] == job_view(b.jobs@[a.jobs@.len() + m]));
        assert(j1[a.jobs@.len() + m] == new_jobs(q0, a.next_worker, kk)[m]);
        assert(q0[m].record == if m < n {
            a.queue@[m].record - 1
        } else {
            HISTORY_CAPACITY - 1
        });
    }
    assert forall|m: int| 0 <= m < b.queue@.len() implies #[trigger] b.queue@[m].record == if kk
        + m < n {
        a.queue@[kk + m].record - 1
    } else {
        HISTORY_CAPACITY - 1
    } by {
        assert(pending_views(b.queue@)[m] == pending_view(b.queue@[m]));
        assert(q0.skip(kk as int)[m] == q0[kk + m]);
        assert(q0[kk + m].record == if kk + m < n {
            a.queue@[kk + m].record - 1
        } else {
            HISTORY_CAPACITY - 1
        });
    }
}

impl App {
    /// Queueing the transfer `req` takes `self` to `b` with effects `e`:
    /// with no active tab nothing changes; otherwise a waiting record for the
    /// active host enters the history (records shifting down when the oldest
    /// goes), the transfer joins the end of the queue, the history panel
    /// opens, and waiting transfers start while there is room.
    pub open spec fn queued(&self, b: &App, req: Request, e: Seq<Effect>) -> bool {
        &&& b.hosts_kept(self)
        &&& b.sessions_kept(self)
        &&& b.log == self.log
        &&& match self.active {
            Some(a) if a < self.sessions@.len() => {
                let s = self.sessions@[a as int];
                let by = history_shift(self.history@);
                &&& b.show_history
                &&& exists|rec: TransferRecord|
                    #[trigger] fresh_record(
                        rec,
                        req.label,
                        s.profile@.display_name(),
                        req.direction,
                        req.total,
                    ) && starts(
                        history_after(self.history@, rec),
                        shifted_jobs(job_views(self.jobs@), by),
                        shifted_pending(pending_views(self.queue@), by).push(
                            PendingView {
                                profile: s.profile@,
                                command: req.command,
                                record: (history_after(self.history@, rec).len() - 1) as usize,
                            },
                        ),
                        self.next_worker,
                        b.history@,
                        job_views(b.jobs@),
                        pending_views(b.queue@),
                        b.next_worker,
                        e,
                    )
            },
            _ => {
                &&& b.transfers_kept(self)
                &&& e.len() == 0
            },
        }
    }

    /// Moves the records of running and waiting transfers down by one, as
    /// when the oldest history record goes (the first stays at 0).
    fn shift_records_down(&mut self)
        ensures
            job_views(final(self).jobs@) == shifted_jobs(job_views(old(self).jobs@), 1),
            pending_views(final(self).queue@) == shifted_pending(
                pending_views(old(self).queue@),
                1,
            ),
            final(self).jobs@.len() == old(self).jobs@.len(),
            final(self).queue@.len() == old(self).queue@.len(),
            final(self).history == old(self).history,
            final(self).next_worker == old(self).next_worker,
            final(self).show_history == old(self).show_history,
            final(self).hosts_kept(old(self)),
            final(self).sessions_kept(old(self)),
            final(self).log == old(self).log,
    {
        let mut i: usize = 0;
        while i < self.jobs.len()
            invariant
                i <= self.jobs@.len(),
                self.jobs@.len() == old(self).jobs@.len(),
                forall|j: int|
                    0 <= j < self.jobs@.len() ==> #[trigger] job_view(self.jobs@[j]) == if j < i {
                        (JobView {
                            record: sat_sub(old(self).jobs@[j].record, 1),
                            ..job_view(old(self).jobs@[j])
                        })
                    } else {
                        job_view(old(self).jobs@[j])
                    },
                self.queue == old(self).queue,
                self.history == old(self).history,
                self.next_worker == old(self).next_worker,
                self.show_history == old(self).show_history,
                self.hosts_kept(old(self)),
                self.sessions_kept(old(self)),
                self.log == old(self).log,
            decreases self.jobs@.len() - i,
        {
            let ghost prev = self.jobs@;
            let r = self.jobs[i].record;
            self.jobs[i].record = if r >= 1 {
                r - 1
            } else {
                0
            };
            proof {
                assert forall|j: int| 0 <= j < self.jobs@.len() && j != i implies #[trigger] self.jobs@[j]
                    == prev[j] by {}
                assert(job_view(prev[i as int]) == job_view(old(self).jobs@[i as int]));
                assert(self.jobs@[i as int].seen == prev[i as int].seen);
                assert(self.jobs@[i as int].worker == prev[i as int].worker);
                assert(job_view(self.jobs@[i as int]) == (JobView {
                    record: sat_sub(old(self).jobs@[i as int].record, 1),
                    ..job_view(old(self).jobs@[i as int])
                }));
            }
            i = i + 1;
        }
        assert(job_views(self.jobs@) =~= shifted_jobs(job_views(old(self).jobs@), 1));
        let n = self.queue.len();
        let mut m: usize = 0;
        while m < n
            invariant
                m <= n,
                n == old(self).queue@.len(),
                self.queue@.len() == n,
                forall|j: int|
                    0 <= j < n - m ==> #[trigger] pending_view(self.queue@[j]) == pending_view(
                        old(self).queue@[j + m],
                    ),
                forall|j: int|
                    n - m <= j < n ==> #[trigger] pending_view(self.queue@[j]) == (PendingView {
                        record: sat_sub(old(self).queue@[j - (n - m)].record, 1),
                        ..pending_view(old(self).queue@[j - (n - m)])
                    }),
                job_views(self.jobs@) == shifted_jobs(job_views(old(self).jobs@), 1),
                self.history == old(self).history,
                self.next_worker == old(self).next_worker,
                self.show_history == old(self).show_history,
                self.hosts_kept(old(self)),
                self.sessions_kept(old(self)),
                self.log == old(self).log,
            decreases n - m,
        {
            let ghost prev = self.queue@;
            let mut p = self.queue.pop_front().unwrap();
            p.record = if p.record >= 1 {
                p.record - 1
            } else {
                0
            };
            self.queue.push_back(p);
            proof {
                assert forall|j: int| 0 <= j < n - 1 implies #[trigger] self.queue@[j] == prev[j + 1] by {}
                assert(self.queue@[n - 1] == p);
                assert(pending_view(prev[0]) == pending_view(old(self).queue@[m as int]));
                assert forall|j: int| 0 <= j < n - (m + 1) implies #[trigger] pending_view(self.queue@[j])
                    == pending_view(old(self).queue@[j + (m + 1)]) by {
                    assert(pending_view(prev[j + 1]) == pending_view(old(self).queue@[(j + 1) + m]));
                }
                assert forall|j: int| n - (m + 1) <= j < n implies #[trigger] pending_view(self.queue@[j])
                    == (PendingView {
                        record: sat_sub(old(self).queue@[j - (n - (m + 1))].record, 1),
                        ..pending_view(old(self).queue@[j - (n - (m + 1))])
                    }) by {
                    if j < n - 1 {
                        assert(pending_view(prev[j + 1]) == (PendingView {
                            record: sat_sub(old(self).queue@[(j + 1) - (n - m)].record, 1),
                            ..pending_view(old(self).queue@[(j + 1) - (n - m)])
                        }));
                    }
                }
            }
            m = m + 1;
        }
        assert(pending_views(self.queue@) =~= shifted_pending(pending_views(old(self).queue@), 1));
    }

    /// Records a transfer of `label` for the active host and queues it,
    /// starting it at once when fewer than [`MAX_CONCURRENT_TRANSFERS`]
    /// run; nothing happens without an active tab.
    pub fn queue_transfer(
        &mut self,
        label: String,
        direction: Direction,
        command: Command,
        total: Option<u64>,
        out: &mut Vec<Effect>,
    )
        requires
            old(self).wf(),
        ensures
            final(self).wf(),
            old(self).queued(
                final(self),
                Request { label: label@, direction, command, total },
                final(out)@.skip(old(out)@.len() as int),
            ),
            final(out)@.take(old(out)@.len() as int) == old(out)@,
            final(out)@.len() >= old(out)@.len(),
    {
        let (host, profile) = match self.active {
            Some(a) => if a < self.sessions.len() {
                (
                    self.sessions[a].profile.display_name().to_owned(),
                    self.sessions[a].profile.duplicate(),
                )
            } else {
                return ;
            },
            None => {
                return ;
            },
        };
        let ghost label_v = label@;
        let ghost by = history_shift(self.history@);
        let ghost h0 = self.history@;
        let ghost jobs_mid = shifted_jobs(job_views(self.jobs@), by);
        let ghost queue_shifted = shifted_pending(pending_views(self.queue@), by);
        let rec = TransferRecord {
            label,
            host,
            direction,
            bytes: 0,
            total,
            state: TransferState::Queued,
            at: Instant::now(),
        };
        let ghost grec = rec;
        self.history.push(rec);
        if self.history.len() > HISTORY_CAPACITY {
            self.history.remove(0);
            self.shift_records_down();
        } else {
            assert(job_views(self.jobs@) =~= shifted_jobs(job_views(self.jobs@), 0));
            assert(pending_views(self.queue@) =~= shifted_pending(pending_views(self.queue@), 0));
        }
        assert(self.history@ =~= history_after(h0, grec));
        let record = self.history.len() - 1;
        let ghost pv = PendingView { profile: profile@, command, record };
        self.queue.push_back(PendingTransfer { profile, command, record });
        assert(pending_views(self.queue@) =~= queue_shifted.push(pv));
        self.show_history = true;
        assert(self.jobs@.len() == old(self).jobs@.len());
        assert(self.queue@.len() == old(self).queue@.len() + 1);
        let ghost h_mid = self.history@;
        let ghost j_mid = job_views(self.jobs@);
        let ghost q_mid = pending_views(self.queue@);
        let ghost o_mid = out@;
        assert(j_mid == jobs_mid);
        self.start_queued(out);
        assert(o_mid.len() == old(out)@.len());
        assert(out@.skip(old(out)@.len() as int) == out@.skip(o_mid.len() as int));
        assert(starts(
            history_after(h0, grec),
            jobs_mid,
            queue_shifted.push(pv),
            old(self).next_worker,
            self.history@,
            job_views(self.jobs@),
            pending_views(self.queue@),
            self.next_worker,
            out@.skip(old(out)@.len() as int),
        ));
        let ghost sp = old(self).sessions@[old(self).active->0 as int].profile@;
        assert(pv == PendingView {
            profile: sp,
            command,
            record: (history_after(h0, grec).len() - 1) as usize,
        });
        assert(fresh_record(grec, label_v, sp.display_name(), direction, total));
        assert(exists|rec: TransferRecord|
            #[trigger] fresh_record(rec, label_v, sp.display_name(), direction, total) && starts(
                history_after(h0, rec),
                jobs_mid,
                queue_shifted.push(
                    PendingView {
                        profile: sp,
                        command,
                        record: (history_after(h0, rec).len() - 1) as usize,
                    },
                ),
                old(self).next_worker,
                self.history@,
                job_views(self.jobs@),
                pending_views(self.queue@),
                self.next_worker,
                out@.skip(old(out)@.len() as int),
            ));
        let ghost req = Request { label: label_v, direction, command, total };
        assert(req.label == label_v);
        assert(old(self).active matches Some(a) && a < old(self).sessions@.len());
        assert(old(self).queued(self, req, out@.skip(old(out)@.len() as int)));
    }

    /// Starts waiting transfers, oldest first, while fewer than
    /// [`MAX_CONCURRENT_TRANSFERS`] run; each gets a worker of its own and
    /// its record is marked as running.
    pub fn start_queued(&mut self, out: &mut Vec<Effect>)
        ensures
            starts(
                old(self).history@,
                job_views(old(self).jobs@),
                pending_views(old(self).queue@),
                old(self).next_worker,
                final(self).history@,
                job_views(final(self).jobs@),
                pending_views(final(self).queue@),
                final(self).next_worker,
                final(out)@.skip(old(out)@.len() as int),
            ),
            final(out)@.take(old(out)@.len() as int) == old(out)@,
            final(out)@.len() == old(out)@.len() + started_count(
                old(self).jobs@.len(),
                old(self).queue@.len(),
            ),
            final(self).jobs@.len() == old(self).jobs@.len() + started_count(
                old(self).jobs@.len(),
                old(self).queue@.len(),
            ),
            final(self).queue@.len() == old(self).queue@.len() - started_count(
                old(self).jobs@.len(),
                old(self).queue@.len(),
            ),
            final(self).hosts_kept(old(self)),
            final(self).sessions_kept(old(self)),
            final(self).log == old(self).log,
            final(self).show_history == old(self).show_history,
    {
        let ghost h0 = self.history@;
        let ghost j0 = job_views(self.jobs@);
        let ghost q0 = pending_views(self.queue@);
        let ghost n0 = self.next_worker;
        let ghost o0 = out@;
        let ghost k = started_count(j0.len(), q0.len());
        let ghost mut c: nat = 0;
        while self.jobs.len() < MAX_CONCURRENT_TRANSFERS && self.queue.len() > 0
            invariant
                c <= k,
                self.jobs@.len() == j0.len() + c,
                pending_views(self.queue@) == q0.skip(c as int),
                job_views(self.jobs@) == j0 + new_jobs(q0, n0, c),
                self.next_worker == nth_id(n0, c),
                marks_running(h0, self.history@, q0, c),
                start_effects(out@.skip(o0.len() as int), q0, n0, c),
                out@.take(o0.len() as int) == o0,
                out@.len() == o0.len() + c,
                k == started_count(j0.len(), q0.len()),
                q0 == pending_views(old(self).queue@),
                j0 == job_views(old(self).jobs@),
                self.hosts_kept(old(self)),
                self.sessions_kept(old(self)),
                self.log == old(self).log,
                self.show_history == old(self).show_history,
            decreases self.queue@.len(),
        {
            let ghost qb = self.queue@;
            assert(pending_views(qb)[0] == pending_view(qb[0]));
            assert(c <= q0.len());
            assert(pending_views(qb).len() == qb.len());
            assert(c < q0.len());
            assert(q0.skip(c as int)[0] == q0[c as int]);
            let pending = self.queue.pop_front().unwrap();
            assert(pending_view(pending) == q0[c as int]);
            let PendingTransfer { profile, command, record } = pending;
            let worker = self.next_worker;
            self.next_worker = self.next_worker.wrapping_add(1);
            if record < self.history.len() {
                self.history[record].state = TransferState::Running;
                self.history[record].at = Instant::now();
            }
            let ghost before = out@;
            let ghost jb = self.jobs@;
            out.push(Effect::StartTransfer { worker, profile, command });
            self.jobs.push(TransferJob { worker, record, seen: Vec::new() });
            proof {
                let ghost h = self.history@;
                assert forall|j: int| 0 <= j < h0.len() implies if started_record(
                    q0,
                    c + 1,
                    j,
                ) {
                    running_of(h0[j], #[trigger] h[j])
                } else {
                    h[j] == h0[j]
                } by {
                    if j == record {
                        assert(q0[c as int].record == j);
                    } else if started_record(q0, c + 1, j) {
                        let i = choose|i: int| 0 <= i < c + 1 && #[trigger] q0[i].record == j;
                        assert(i < c);
                        assert(started_record(q0, c, j));
                    } else {
                        assert(!started_record(q0, c, j));
                    }
                }
                assert(out@.skip(o0.len() as int) =~= before.skip(o0.len() as int).push(
                    out@.last(),
                ));
                assert(out@.take(o0.len() as int) =~= before.take(o0.len() as int));
                assert(seen_view(Seq::<(String, u64)>::empty()) =~= Seq::empty());
                assert(job_views(self.jobs@) =~= job_views(jb).push(job_view(self.jobs@.last())));
                assert(new_jobs(q0, n0, c + 1) =~= new_jobs(q0, n0, c).push(
                    JobView { worker: nth_id(n0, c), record: q0[c as int].record, seen: Seq::empty() },
                ));
                assert(job_views(self.jobs@) =~= j0 + new_jobs(q0, n0, c + 1));
                assert(pending_views(self.queue@) =~= pending_views(qb).skip(1));
                assert(q0.skip(c as int).skip(1) =~= q0.skip((c + 1) as int));
                assert(pending_views(self.queue@) =~= q0.skip((c + 1) as int));
                c = c + 1;
            }
        }
    }

    /// What [`App::download_selection`] asks for.
    pub open spec fn download_asked(&self, e: Seq<Effect>) -> bool {
        match self.active {
            Some(a) if a < self.sessions@.len() => {
                let t = selected_targets(self.sessions@[a as int]);
                if t.len() == 0 {
                    e.len() == 0
                } else {
                    &&& e.len() == 1
                    &&& e[0] matches Effect::ChooseDownloadFolder { targets }
                    &&& targets@.len() == t.len()
                    &&& forall|i: int|
                        0 <= i < t.len() ==> (#[trigger] targets@[i]).0@ == t[i].0
                            && targets@[i].1@ == t[i].1
                }
            },
            _ => e.len() == 0,
        }
    }

    /// Asks where to download the selected entries of the active tab; with
    /// nothing selected (or no active tab) nothing happens.
    pub fn download_selection(&self) -> (e: Vec<Effect>)
        ensures
            self.download_asked(e@),
    {
        let mut e: Vec<Effect> = Vec::new();
        let a = match self.active {
            Some(a) => if a < self.sessions.len() {
                a
            } else {
                return e;
            },
            None => {
                return e;
            },
        };
        let session = &self.sessions[a];
        let chosen = session.selected_entries();
        let ghost sel = selected_indices(session.entries@.len(), session.selection@);
        let ghost t = selected_targets(*session);
        let mut targets: Vec<(String, String)> = Vec::new();
        let mut i: usize = 0;
        while i < chosen.len()
            invariant
                i <= chosen@.len(),
                chosen@.len() == t.len(),
                t == selected_targets(*session),
                sel == selected_indices(session.entries@.len(), session.selection@),
                forall|k: int| 0 <= k < chosen@.len() ==> *chosen@[k] == session.entries@[sel[k] as int],
                targets@.len() == i,
                forall|k: int|
                    0 <= k < i ==> (#[trigger] targets@[k]).0@ == t[k].0 && targets@[k].1@ == t[k].1,
            decreases chosen@.len() - i,
        {
            let entry = chosen[i];
            let path = join_path(session.cwd.as_str(), entry.name.as_str());
            targets.push((path, entry.name.clone()));
            i = i + 1;
        }
        if targets.len() == 0 {
            return e;
        }
        e.push(Effect::ChooseDownloadFolder { targets });
        e
    }

    /// Queues a download of each of `targets` (remote path, name) into the
    /// local folder `dir`, in order.
    pub fn queue_downloads(&mut self, dir: &str, targets: Vec<(String, String)>) -> (e: Vec<
        Effect,
    >)
        requires
            old(self).wf(),
        ensures
            final(self).wf(),
            exists|reqs: Seq<Request>|
                {
                    &&& reqs.len() == targets@.len()
                    &&& forall|i: int|
                        0 <= i < reqs.len() ==> download_request(
                            #[trigger] reqs[i],
                            dir@,
                            (targets@[i].0@, targets@[i].1@),
                        )
                    &&& queued_all(*old(self), *final(self), reqs, e@)
                },
    {
        let mut out: Vec<Effect> = Vec::new();
        let ghost start = *self;
        let ghost mut reqs: Seq<Request> = Seq::empty();
        let mut i: usize = 0;
        while i < targets.len()
            invariant
                i <= targets@.len(),
                self.wf(),
                start == *old(self),
                reqs.len() == i,
                forall|k: int|
                    0 <= k < i ==> download_request(
                        #[trigger] reqs[k],
                        dir@,
                        (targets@[k].0@, targets@[k].1@),
                    ),
                queued_all(start, *self, reqs, out@),
            decreases targets@.len() - i,
        {
            let remote_path = targets[i].0.clone();
            let local_path = local_target(dir, targets[i].1.as_str());
            let label = remote_path.clone();
            let command = Command::Download { remote_path, local_path };
            let ghost req = Request { label: label@, direction: Direction::Download, command, total: None };
            let ghost mid = *self;
            let ghost before = out@;
            self.queue_transfer(label, Direction::Download, command, None, &mut out);
            proof {
                let ghost step = out@.skip(before.len() as int);
                assert(out@ =~= before + step);
                assert(reqs.push(req).drop_last() =~= reqs);
                assert(out@.take(before.len() as int) =~= before);
                lemma_queued_all_step(start, mid, *self, reqs, req, before, step);
                reqs = reqs.push(req);
            }
            i = i + 1;
        }
        out
    }

    /// Uploading `items` takes `self` to `b` with effects `e`: see
    /// [`App::upload_paths`].
    pub open spec fn uploads_queued(&self, b: &App, items: Seq<LocalItem>, e: Seq<Effect>) -> bool {
        match self.active {
            Some(a) if a < self.sessions@.len() => {
                let cwd = self.sessions@[a as int].cwd@;
                let named = named_items(items);
                let skipped = (items.len() - named.len()) as nat;
                exists|logged: App, reqs: Seq<Request>|
                    {
                        &&& #[trigger] queued_all(logged, *b, reqs, e)
                        &&& log_view(logged.log@) == if skipped > 0 {
                            log_after(
                                log_view(self.log@),
                                (skipped_message(skipped), LogLevel::Error),
                            )
                        } else {
                            log_view(self.log@)
                        }
                        &&& logged.hosts_kept(self)
                        &&& logged.sessions_kept(self)
                        &&& logged.transfers_kept(self)
                        &&& reqs.len() == named.len()
                        &&& forall|i: int|
                            0 <= i < reqs.len() ==> upload_request(#[trigger] reqs[i], cwd, named[i])
                    }
            },
            _ => *b == *self && e.len() == 0,
        }
    }

    /// Queues an upload of each item with a valid UTF-8 name into the active
    /// tab's directory, in order; the others are counted in an error in the
    /// log. Nothing happens without an active tab.
    pub fn upload_paths(&mut self, items: Vec<LocalItem>) -> (e: Vec<Effect>)
        requires
            old(self).wf(),
        ensures
            final(self).wf(),
            old(self).uploads_queued(final(self), items@, e@),
    {
        let mut out: Vec<Effect> = Vec::new();
        let cwd = match self.active {
            Some(a) => if a < self.sessions.len() {
                self.sessions[a].cwd.clone()
            } else {
                return out;
            },
            None => {
                return out;
            },
        };
        let mut skipped: usize = 0;
        let mut i: usize = 0;
        while i < items.len()
            invariant
                i <= items@.len(),
                skipped == i - named_items(items@.take(i as int)).len(),
                named_items(items@.take(i as int)).len() <= i,
            decreases items@.len() - i,
        {
            assert(items@.take(i + 1).drop_last() =~= items@.take(i as int));
            if items[i].name.is_none() {
                skipped = skipped + 1;
            }
            i = i + 1;
        }
        assert(items@.take(items@.len() as int) =~= items@);
        if skipped > 0 {
            let mut text = String::new();
            push_str(&mut text, "Skipped ");
            push_dec(&mut text, skipped as u128);
            push_str(&mut text, " item(s) whose names are not valid UTF-8");
            self.error(text);
        }
        let ghost logged = *self;
        let ghost mut reqs: Seq<Request> = Seq::empty();
        let ghost all = items@;
        let mut rest = items;
        let n = rest.len();
        let mut m: usize = 0;
        assert(all.take(0) =~= Seq::<LocalItem>::empty());
        assert(rest@ =~= all.skip(0));
        while m < n
            invariant
                m <= n,
                n == all.len(),
                rest@ == all.skip(m as int),
                self.wf(),
                cwd@ == old(self).sessions@[old(self).active->0 as int].cwd@,
                reqs.len() == named_items(all.take(m as int)).len(),
                forall|k: int|
                    0 <= k < reqs.len() ==> upload_request(
                        #[trigger] reqs[k],
                        cwd@,
                        named_items(all.take(m as int))[k],
                    ),
                queued_all(logged, *self, reqs, out@),
            decreases n - m,
        {
            let item = rest.remove(0);
            assert(all.take(m + 1).drop_last() =~= all.take(m as int));
            assert(all.take(m + 1).last() == item);
            assert(rest@ =~= all.skip(m + 1));
            let LocalItem { path, name, size } = item;
            match name {
                Some(name) => {
                    let remote_path = join_path(cwd.as_str(), name.as_str());
                    let label = remote_path.clone();
                    let command = Command::Upload { local_path: path, remote_path };
                    let ghost req = Request {
                        label: label@,
                        direction: Direction::Upload,
                        command,
                        total: size,
                    };
                    let ghost mid = *self;
                    let ghost before = out@;
                    self.queue_transfer(label, Direction::Upload, command, size, &mut out);
                    proof {
                        let ghost step = out@.skip(before.len() as int);
                        assert(out@ =~= before + step);
                        assert(reqs.push(req).drop_last() =~= reqs);
                        assert(out@.take(before.len() as int) =~= before);
                        lemma_queued_all_step(logged, mid, *self, reqs, req, before, step);
                        assert(upload_request(req, cwd@, item));
                        reqs = reqs.push(req);
                    }
                },
                None => {},
            }
            m = m + 1;
        }
        assert(all.take(n as int) =~= all);
        out
    }

    /// Deleting the selection takes `self` to `b` with effects `e`: see
    /// [`App::delete_selection`].
    pub open spec fn deleted(&self, b: &App, e: Seq<Effect>) -> bool {
        match self.active {
            Some(a) if a < self.sessions@.len() => {
                let s = self.sessions@[a as int];
                let t = selected_targets(s);
                let sel = selected_indices(s.entries@.len(), s.selection@);
                &&& e.len() == t.len() + 1
                &&& forall|i: int|
                    0 <= i < t.len() ==> (#[trigger] e[i] matches Effect::Send {
                        worker,
                        command: Command::Delete { path, is_dir },
                    } && worker == s.worker && path@ == t[i].0 && is_dir == s.entries@[sel[i] as int].is_dir)
                &&& e[t.len() as int] matches Effect::Send { worker, command: Command::List { path } }
                    && worker == s.worker && path@ == s.cwd@
                &&& b.sessions@ == self.sessions@.update(a as int, b.sessions@[a as int])
                &&& reloading(s, b.sessions@[a as int])
                &&& b.active == self.active
                &&& b.pending_host_key == self.pending_host_key
                &&& b.hosts_kept(self)
                &&& b.transfers_kept(self)
                &&& b.log == self.log
            },
            _ => *b == *self && e.len() == 0,
        }
    }

    /// Deletes the selected entries of the active tab, then lists its
    /// directory again.
    pub fn delete_selection(&mut self) -> (e: Vec<Effect>)
        requires
            old(self).wf(),
        ensures
            final(self).wf(),
            old(self).deleted(final(self), e@),
    {
        let mut e: Vec<Effect> = Vec::new();
        let a = match self.active {
            Some(a) => if a < self.sessions.len() {
                a
            } else {
                return e;
            },
            None => {
                return e;
            },
        };
        let ghost s = self.sessions@[a as int];
        let ghost t = selected_targets(s);
        let ghost sel = selected_indices(s.entries@.len(), s.selection@);
        {
            let session = &self.sessions[a];
            let chosen = session.selected_entries();
            let mut i: usize = 0;
            while i < chosen.len()
                invariant
                    i <= chosen@.len(),
                    *session == s,
                    chosen@.len() == t.len(),
                    t == selected_targets(s),
                    sel == selected_indices(s.entries@.len(), s.selection@),
                    forall|k: int| 0 <= k < chosen@.len() ==> *chosen@[k] == s.entries@[sel[k] as int],
                    e@.len() == i,
                    forall|k: int|
                        0 <= k < i ==> (#[trigger] e@[k] matches Effect::Send {
                            worker,
                            command: Command::Delete { path, is_dir },
                        } && worker == s.worker && path@ == t[k].0 && is_dir == s.entries@[sel[k] as int].is_dir),
                decreases chosen@.len() - i,
            {
                let entry = chosen[i];
                let path = join_path(session.cwd.as_str(), entry.name.as_str());
                e.push(Effect::Send { worker: session.worker, command: Command::Delete { path, is_dir: entry.is_dir } });
                i = i + 1;
            }
        }
        let worker = self.sessions[a].worker;
        let command = self.sessions[a].refresh();
        e.push(Effect::Send { worker, command });
        e
    }
}

} // verus!
