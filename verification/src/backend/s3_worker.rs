//! The S3 worker's decisions, one reply at a time: which request to send
//! next, which event to report, and when a command is finished. The worker
//! sends the requests, hands each reply back as an [`S3Input`], and reports
//! the events in the order they come.
//!
//! The requests of one step are carried out in order. When one of them
//! fails, the worker stops there and hands back [`S3Input::Failed`]; when
//! all succeed, it hands back the reply to the last one: a page for a
//! listing, [`S3Input::Head`] for a probe, [`S3Input::Opened`], the chunks and
//! [`S3Input::BodyEnd`] for a download, and [`S3Input::Done`] for the others.
use std::path::PathBuf;
use vstd::prelude::*;

use crate::backend::s3::{
    as_key, as_key_spec, as_prefix, as_prefix_spec, object_entry, object_entry_spec,
    prefix_entry, prefix_entry_spec, s3_refusal, tree_relative, tree_relative_spec,
};
use crate::backend::{entries_view, opt_text, Command, EntryView, Event, RemoteEntry};
use crate::transfers::{local_join, local_target};

verus! {

/// An object of a listing page: its key, size and modification time (Unix
/// seconds), each as far as the reply gives it.
pub struct S3Object {
    pub key: Option<String>,
    pub size: Option<i64>,
    pub modified: Option<i64>,
}

/// What the worker hands back: a command to carry out, or the reply to the
/// last request sent.
pub enum S3Input {
    /// A command from the interface; `local_is_dir` tells whether the local
    /// side of an upload is a folder.
    Start { command: Command, local_is_dir: bool },
    /// A page of a listing: the common prefixes, the objects, the token of
    /// the next page and whether the listing was cut short.
    Page {
        prefixes: Vec<Option<String>>,
        objects: Vec<S3Object>,
        next_token: Option<String>,
        truncated: Option<bool>,
    },
    /// Whether an object has the probed key.
    Head { found: bool },
    /// An object opened for download, with its length if the reply gave one.
    Opened { length: Option<i64> },
    /// A chunk of `len` bytes of the object, written to the local file.
    Chunk { len: u64 },
    /// The object's body ended and the local file is flushed.
    BodyEnd,
    /// The requests of the last step succeeded and need no reply.
    Done,
    /// A request failed, with the error's text.
    Failed { message: String },
    /// The interface is gone: no more commands will come.
    Hangup,
}

/// A request to the bucket, or to the local disk around it.
pub enum S3Request {
    /// A page of the objects under `prefix`; `delimited` groups them by
    /// `/`, `token` continues an earlier page, and `max_one` asks for one
    /// object at most.
    List { prefix: String, delimited: bool, token: Option<String>, max_one: bool },
    /// Whether an object has the key `key`.
    Head { key: String },
    /// Downloads the object `key` into the local file `to`, first making
    /// the file's folders when `make_parents` is set.
    Get { key: String, to: String, make_parents: bool },
    /// Makes the local folder `path` and the folders above it.
    MakeDir { path: String },
    /// Uploads the local file `from` as the object `key`.
    PutFile { key: String, from: PathBuf },
    /// Makes an empty object `key` (a folder marker).
    PutEmpty { key: String },
    /// Uploads the local folder `from`, contents and all, under `remote_dir`.
    UploadTree { from: PathBuf, remote_dir: String },
    /// Deletes the object `key`.
    Delete { key: String },
    /// Copies the object `source_key` of the bucket to `key`.
    Copy { source_key: String, key: String },
}

/// One thing the worker does next.
pub enum S3Action {
    Send(S3Request),
    Emit(Event),
}

/// Where the worker stands.
pub enum S3State {
    /// Waiting for the reply to the first listing, which proves the bucket
    /// can be reached.
    Connecting,
    /// Waiting for a command.
    Idle,
    /// Listing `path`, with the entries of the pages so far.
    Listing { path: String, prefix: String, entries: Vec<RemoteEntry> },
    /// Asked whether the download `remote_path` is an object.
    Probing { remote_path: String, local_path: String },
    /// Asked whether objects lie under the download `remote_path`.
    ProbeListing { remote_path: String, local_path: String },
    /// Downloading one object: `moved` of `total` bytes so far.
    Fetching { label: String, total: u64, moved: u64 },
    /// Downloading the folder `label`: waiting for a page of its objects.
    TreeListing { label: String, prefix: String, local_dir: String },
    /// Downloading the folder `label`: the object `key` is on its way
    /// (`moved` bytes so far), `pending` (key, local file) come next, and
    /// `next` is the token of the next page, if any.
    TreeFetching {
        label: String,
        prefix: String,
        local_dir: String,
        key: String,
        pending: Vec<(String, String)>,
        next: Option<String>,
        moved: u64,
    },
    /// Deleting every object under `prefix`: waiting for a page.
    Purging { prefix: String },
    /// Renaming: the copy is on its way; the source goes next.
    Renaming { source_key: String },
    /// Waiting for the last requests of a command, which reports nothing.
    Waiting,
    /// Uploading `label`: waiting for it to finish.
    Sending { label: String },
    /// The worker has stopped.
    Closed,
}

/// The entries that the common prefixes of a page describe, in order.
pub open spec fn prefix_entries(ps: Seq<Option<String>>) -> Seq<EntryView>
    decreases ps.len(),
{
    if ps.len() == 0 {
        Seq::empty()
    } else {
        let r = prefix_entries(ps.drop_last());
        match ps.last() {
            Some(p) => match prefix_entry_spec(p@) {
                Some(e) => r.push(e),
                None => r,
            },
            None => r,
        }
    }
}

/// The entries that the objects of a page describe, in order.
pub open spec fn object_entries(os: Seq<S3Object>) -> Seq<EntryView>
    decreases os.len(),
{
    if os.len() == 0 {
        Seq::empty()
    } else {
        let r = object_entries(os.drop_last());
        let o = os.last();
        match o.key {
            Some(k) => match object_entry_spec(k@, o.size, o.modified) {
                Some(e) => r.push(e),
                None => r,
            },
            None => r,
        }
    }
}

/// The keys of the objects of a page, in order.
pub open spec fn object_keys(os: Seq<S3Object>) -> Seq<Seq<char>>
    decreases os.len(),
{
    if os.len() == 0 {
        Seq::empty()
    } else {
        let r = object_keys(os.drop_last());
        match os.last().key {
            Some(k) => r.push(k@),
            None => r,
        }
    }
}

/// The objects of a page of a folder download under `prefix`, each with the
/// local file it goes to inside `dir`; folder markers are left out.
pub open spec fn tree_targets(os: Seq<S3Object>, prefix: Seq<char>, dir: Seq<char>) -> Seq<
    (Seq<char>, Seq<char>),
>
    decreases os.len(),
{
    if os.len() == 0 {
        Seq::empty()
    } else {
        let r = tree_targets(os.drop_last(), prefix, dir);
        match os.last().key {
            Some(k) => match tree_relative_spec(k@, prefix) {
                Some(rel) => r.push((k@, local_join(dir, rel))),
                None => r,
            },
            None => r,
        }
    }
}

/// The token to continue a listing with: the page's token, when the page
/// says the listing was cut short.
pub open spec fn continuation(next_token: Option<String>, truncated: Option<bool>) -> Option<
    Seq<char>,
> {
    match next_token {
        Some(t) => if truncated == Some(true) {
            Some(t@)
        } else {
            None
        },
        None => None,
    }
}

/// A list of (key, file) pairs, as text.
pub open spec fn pairs_view(p: Seq<(String, String)>) -> Seq<(Seq<char>, Seq<char>)> {
    p.map_values(|x: (String, String)| (x.0@, x.1@))
}



/// `a` sends a listing request with these terms.
pub open spec fn sends_list(
    a: S3Action,
    prefix: Seq<char>,
    delimited: bool,
    token: Option<Seq<char>>,
    max_one: bool,
) -> bool {
    a matches S3Action::Send(S3Request::List { prefix: p, delimited: d, token: t, max_one: m })
        && p@ == prefix && d == delimited && opt_text(t) == token && m == max_one
}

/// `a` downloads the object `key` into the local file `to`.
pub open spec fn sends_get(a: S3Action, key: Seq<char>, to: Seq<char>, make_parents: bool) -> bool {
    a matches S3Action::Send(S3Request::Get { key: k, to: f, make_parents: m }) && k@ == key && f@
        == to && m == make_parents
}

/// `a` deletes the object `key`.
pub open spec fn sends_delete(a: S3Action, key: Seq<char>) -> bool {
    a matches S3Action::Send(S3Request::Delete { key: k }) && k@ == key
}

/// `a` reports that the transfer `label` is finished.
pub open spec fn emits_done(a: S3Action, label: Seq<char>) -> bool {
    a matches S3Action::Emit(Event::TransferDone { label: l }) && l@ == label
}

/// `a` reports the error `message`.
pub open spec fn emits_error(a: S3Action, message: Seq<char>) -> bool {
    a matches S3Action::Emit(Event::Error(m)) && m@ == message
}

/// What follows an object of a folder download (or a page of one): the
/// next pending object is fetched; with none left, the next page is asked
/// for; with no next page, the download is done.
pub open spec fn tree_advanced(
    label: Seq<char>,
    prefix: Seq<char>,
    dir: Seq<char>,
    pending: Seq<(Seq<char>, Seq<char>)>,
    next: Option<Seq<char>>,
    t: S3State,
    acts: Seq<S3Action>,
) -> bool {
    if pending.len() > 0 {
        &&& acts.len() == 1
        &&& sends_get(acts[0], pending[0].0, pending[0].1, true)
        &&& t matches S3State::TreeFetching { label: l, prefix: p, local_dir: d, key: k, pending: rest, next: n, moved }
            && l@ == label && p@ == prefix && d@ == dir && k@ == pending[0].0 && pairs_view(rest@)
            == pending.drop_first() && opt_text(n) == next && moved == 0
    } else if next is Some {
        &&& acts.len() == 1
        &&& sends_list(acts[0], prefix, false, next, false)
        &&& t matches S3State::TreeListing { label: l, prefix: p, local_dir: d } && l@ == label
            && p@ == prefix && d@ == dir
    } else {
        &&& acts.len() == 1
        &&& emits_done(acts[0], label)
        &&& t is Idle
    }
}

/// `a` is `b` plus `n` (saturating at `u64::MAX`).
pub open spec fn sat_add(a: u64, n: u64) -> u64 {
    if a + n > u64::MAX {
        u64::MAX
    } else {
        (a + n) as u64
    }
}

/// The length an object's reply gives, as a byte count: 0 when missing or
/// negative.
pub open spec fn object_length(length: Option<i64>) -> u64 {
    match length {
        Some(n) => if n > 0 {
            n as u64
        } else {
            0
        },
        None => 0,
    }
}

/// A command taken up by an idle worker: `t` and `acts` are where it
/// stands and what it does next.
pub open spec fn s3_started(command: Command, local_is_dir: bool, t: S3State, acts: Seq<S3Action>) -> bool {
    match command {
        Command::List { path } => {
            let prefix = as_prefix_spec(path@);
            &&& acts.len() == 1
            &&& sends_list(acts[0], prefix, true, None, false)
            &&& t matches S3State::Listing { path: p, prefix: q, entries } && p@ == path@ && q@ == prefix
                && entries@.len() == 0
        },
        Command::Download { remote_path, local_path } => {
            &&& acts.len() == 1
            &&& acts[0] matches S3Action::Send(S3Request::Head { key }) && key@ == as_key_spec(
                remote_path@,
            )
            &&& t matches S3State::Probing { remote_path: r, local_path: l } && r@ == remote_path@
                && l@ == local_path@
        },
        Command::Upload { local_path, remote_path } => {
            &&& acts.len() == 1
            &&& if local_is_dir {
                acts[0] matches S3Action::Send(S3Request::UploadTree { from, remote_dir }) && from
                    == local_path && remote_dir@ == remote_path@
            } else {
                acts[0] matches S3Action::Send(S3Request::PutFile { key, from }) && key@ == as_key_spec(
                    remote_path@,
                ) && from == local_path
            }
            &&& t matches S3State::Sending { label } && label@ == remote_path@
        },
        Command::Mkdir { path } => {
            &&& acts.len() == 1
            &&& acts[0] matches S3Action::Send(S3Request::PutEmpty { key }) && key@ == as_prefix_spec(
                path@,
            )
            &&& t is Waiting
        },
        Command::Delete { path, is_dir } => {
            &&& acts.len() == 1
            &&& if is_dir {
                &&& sends_list(acts[0], as_prefix_spec(path@), false, None, false)
                &&& t matches S3State::Purging { prefix } && prefix@ == as_prefix_spec(path@)
            } else {
                &&& sends_delete(acts[0], as_key_spec(path@))
                &&& t is Waiting
            }
        },
        Command::Rename { from, to } => {
            &&& acts.len() == 1
            &&& acts[0] matches S3Action::Send(S3Request::Copy { source_key, key }) && source_key@
                == as_key_spec(from@) && key@ == as_key_spec(to@)
            &&& t matches S3State::Renaming { source_key } && source_key@ == as_key_spec(from@)
        },
        Command::Exec { .. } => {
            &&& acts.len() == 1
            &&& emits_error(acts[0], "S3 has no remote shell"@)
            &&& t is Idle
        },
        Command::ShellInput(_) => {
            &&& acts.len() == 1
            &&& emits_error(acts[0], "S3 has not remote shell"@)
            &&& t is Idle
        },
        Command::TrustHostKey => acts.len() == 0 && t is Idle,
        Command::Disconnect => {
            &&& acts.len() == 1
            &&& acts[0] matches S3Action::Emit(Event::Disconnected)
            &&& t is Closed
        },
    }
}

/// One step of the S3 worker: from state `s`, on input `i`, it goes to `t`
/// and does `acts`, in order. A failed request is reported as an error and
/// the command ends (while connecting, the connection fails instead; while
/// asking whether a download is a folder, it is taken as one object). An
/// input that the state does not wait for changes nothing.
pub open spec fn s3_moved(s: S3State, i: S3Input, t: S3State, acts: Seq<S3Action>) -> bool {
    match (s, i) {
        (S3State::Connecting, S3Input::Page { .. }) | (S3State::Connecting, S3Input::Done) => {
            &&& acts.len() == 1
            &&& acts[0] matches S3Action::Emit(Event::Connected)
            &&& t is Idle
        },
        (S3State::Connecting, S3Input::Failed { message }) => {
            &&& acts.len() == 1
            &&& acts[0] matches S3Action::Emit(Event::ConnectFailed(m)) && m@ == message@
            &&& t is Closed
        },
        (S3State::Idle, S3Input::Start { command, local_is_dir }) => s3_started(
            command,
            local_is_dir,
            t,
            acts,
        ),
        (S3State::Idle, S3Input::Hangup) => {
            &&& acts.len() == 1
            &&& acts[0] matches S3Action::Emit(Event::Disconnected)
            &&& t is Closed
        },
        (
            S3State::Listing { path, prefix, entries },
            S3Input::Page { prefixes, objects, next_token, truncated },
        ) => {
            let all = entries_view(entries@) + prefix_entries(prefixes@) + object_entries(objects@);
            match continuation(next_token, truncated) {
                Some(tok) => {
                    &&& acts.len() == 1
                    &&& sends_list(acts[0], prefix@, true, Some(tok), false)
                    &&& t matches S3State::Listing { path: p, prefix: q, entries: es } && p@ == path@
                        && q@ == prefix@ && entries_view(es@) == all
                },
                None => {
                    &&& acts.len() == 1
                    &&& acts[0] matches S3Action::Emit(Event::Listing { path: p, entries: es })
                        && p@ == path@ && entries_view(es@) == all
                    &&& t is Idle
                },
            }
        },
        (S3State::Probing { remote_path, local_path }, S3Input::Head { found }) => if found {
            &&& acts.len() == 1
            &&& sends_get(acts[0], as_key_spec(remote_path@), local_path@, false)
            &&& t matches S3State::Fetching { label, total, moved } && label@ == remote_path@ && total
                == 0 && moved == 0
        } else {
            &&& acts.len() == 1
            &&& sends_list(acts[0], as_prefix_spec(remote_path@), false, None, true)
            &&& t matches S3State::ProbeListing { remote_path: r, local_path: l } && r@
                == remote_path@ && l@ == local_path@
        },
        (S3State::ProbeListing { remote_path, local_path }, S3Input::Page { objects, .. }) => if objects@.len()
            > 0 {
            &&& acts.len() == 2
            &&& acts[0] matches S3Action::Send(S3Request::MakeDir { path }) && path@ == local_path@
            &&& sends_list(acts[1], as_prefix_spec(remote_path@), false, None, false)
            &&& t matches S3State::TreeListing { label, prefix, local_dir } && label@ == remote_path@
                && prefix@ == as_prefix_spec(remote_path@) && local_dir@ == local_path@
        } else {
            &&& acts.len() == 1
            &&& sends_get(acts[0], as_key_spec(remote_path@), local_path@, false)
            &&& t matches S3State::Fetching { label, total, moved } && label@ == remote_path@ && total
                == 0 && moved == 0
        },
        (S3State::ProbeListing { remote_path, local_path }, S3Input::Failed { .. }) => {
            &&& acts.len() == 1
            &&& sends_get(acts[0], as_key_spec(remote_path@), local_path@, false)
            &&& t matches S3State::Fetching { label, total, moved } && label@ == remote_path@ && total
                == 0 && moved == 0
        },
        (S3State::Fetching { label, total, moved }, S3Input::Opened { length }) => {
            &&& acts.len() == 0
            &&& t matches S3State::Fetching { label: l, total: n, moved: m } && l@ == label@ && n
                == object_length(length) && m == moved
        },
        (S3State::Fetching { label, total, moved }, S3Input::Chunk { len }) => {
            &&& acts.len() == 1
            &&& acts[0] matches S3Action::Emit(Event::Progress { transferred, total: n, label: l })
                && transferred == sat_add(moved, len) && n == total && l@ == label@
            &&& t matches S3State::Fetching { label: l, total: n, moved: m } && l@ == label@ && n
                == total && m == sat_add(moved, len)
        },
        (S3State::Fetching { label, .. }, S3Input::BodyEnd) => {
            &&& acts.len() == 1
            &&& emits_done(acts[0], label@)
            &&& t is Idle
        },
        (
            S3State::TreeListing { label, prefix, local_dir },
            S3Input::Page { objects, next_token, truncated, .. },
        ) => tree_advanced(
            label@,
            prefix@,
            local_dir@,
            tree_targets(objects@, prefix@, local_dir@),
            continuation(next_token, truncated),
            t,
            acts,
        ),
        (S3State::TreeFetching { .. }, S3Input::Opened { .. }) => t == s && acts.len() == 0,
        (
            S3State::TreeFetching { label, prefix, local_dir, key, pending, next, moved },
            S3Input::Chunk { len },
        ) => {
            &&& acts.len() == 0
            &&& t matches S3State::TreeFetching { label: l, prefix: p, local_dir: d, key: k, pending: q, next: n, moved: m }
                && l@ == label@ && p@ == prefix@ && d@ == local_dir@ && k@ == key@ && pairs_view(q@)
                == pairs_view(pending@) && opt_text(n) == opt_text(next) && m == sat_add(moved, len)
        },
        (
            S3State::TreeFetching { label, prefix, local_dir, key, pending, next, moved },
            S3Input::BodyEnd,
        ) => {
            &&& acts.len() >= 1
            &&& acts[0] matches S3Action::Emit(Event::Progress { transferred, total, label: l })
                && transferred == moved && total == moved && l@ == key@
            &&& tree_advanced(
                label@,
                prefix@,
                local_dir@,
                pairs_view(pending@),
                opt_text(next),
                t,
                acts.drop_first(),
            )
        },
        (S3State::Purging { prefix }, S3Input::Page { objects, next_token, truncated, .. }) => {
            let keys = object_keys(objects@);
            let n = keys.len();
            &&& forall|k: int| 0 <= k < n ==> sends_delete(#[trigger] acts[k], keys[k])
            &&& match continuation(next_token, truncated) {
                Some(tok) => {
                    &&& acts.len() == n + 1
                    &&& sends_list(acts[n as int], prefix@, false, Some(tok), false)
                    &&& t matches S3State::Purging { prefix: p } && p@ == prefix@
                },
                None => {
                    &&& acts.len() == n
                    &&& if n > 0 {
                        t is Waiting
                    } else {
                        t is Idle
                    }
                },
            }
        },
        (S3State::Renaming { source_key }, S3Input::Done) => {
            &&& acts.len() == 1
            &&& sends_delete(acts[0], source_key@)
            &&& t is Waiting
        },
        (S3State::Waiting, S3Input::Done) => acts.len() == 0 && t is Idle,
        (S3State::Sending { label }, S3Input::Done) => {
            &&& acts.len() == 1
            &&& emits_done(acts[0], label@)
            &&& t is Idle
        },
        (S3State::Listing { .. }, S3Input::Failed { message })
        | (S3State::Probing { .. }, S3Input::Failed { message })
        | (S3State::Fetching { .. }, S3Input::Failed { message })
        | (S3State::TreeListing { .. }, S3Input::Failed { message })
        | (S3State::TreeFetching { .. }, S3Input::Failed { message })
        | (S3State::Purging { .. }, S3Input::Failed { message })
        | (S3State::Renaming { .. }, S3Input::Failed { message })
        | (S3State::Waiting, S3Input::Failed { message })
        | (S3State::Sending { .. }, S3Input::Failed { message }) => {
            &&& acts.len() == 1
            &&& emits_error(acts[0], message@)
            &&& t is Idle
        },
        _ => t == s && acts.len() == 0,
    }
}

/// Adds the entries the common prefixes `ps` describe to `out`.
fn push_prefix_entries(out: &mut Vec<RemoteEntry>, ps: &Vec<Option<String>>)
    ensures
        entries_view(final(out)@) == entries_view(old(out)@) + prefix_entries(ps@),
{
    let ghost start = entries_view(out@);
    let mut i: usize = 0;
    assert(ps@.take(0) =~= Seq::<Option<String>>::empty());
    assert(start + prefix_entries(ps@.take(0)) =~= start);
    while i < ps.len()
        invariant
            i <= ps@.len(),
            entries_view(out@) == start + prefix_entries(ps@.take(i as int)),
        decreases ps@.len() - i,
    {
        assert(ps@.take(i + 1).drop_last() =~= ps@.take(i as int));
        assert(ps@.take(i + 1).last() == ps@[i as int]);
        match &ps[i] {
            Some(p) => match prefix_entry(p.as_str()) {
                Some(e) => {
                    let ghost before = out@;
                    out.push(e);
                    assert(entries_view(out@) =~= entries_view(before).push(e@));
                },
                None => {},
            },
            None => {},
        }
        i = i + 1;
    }
    assert(ps@.take(ps@.len() as int) =~= ps@);
}

/// Adds the entries the objects `os` describe to `out`.
fn push_object_entries(out: &mut Vec<RemoteEntry>, os: &Vec<S3Object>)
    ensures
        entries_view(final(out)@) == entries_view(old(out)@) + object_entries(os@),
{
    let ghost start = entries_view(out@);
    let mut i: usize = 0;
    assert(os@.take(0) =~= Seq::<S3Object>::empty());
    assert(start + object_entries(os@.take(0)) =~= start);
    while i < os.len()
        invariant
            i <= os@.len(),
            entries_view(out@) == start + object_entries(os@.take(i as int)),
        decreases os@.len() - i,
    {
        assert(os@.take(i + 1).drop_last() =~= os@.take(i as int));
        assert(os@.take(i + 1).last() == os@[i as int]);
        let o = &os[i];
        match &o.key {
            Some(k) => match object_entry(k.as_str(), o.size, o.modified) {
                Some(e) => {
                    let ghost before = out@;
                    out.push(e);
                    assert(entries_view(out@) =~= entries_view(before).push(e@));
                },
                None => {},
            },
            None => {},
        }
        i = i + 1;
    }
    assert(os@.take(os@.len() as int) =~= os@);
}

/// The objects of a folder download's page, each with its local file.
fn tree_targets_of(os: &Vec<S3Object>, prefix: &str, dir: &str) -> (r: Vec<(String, String)>)
    ensures
        pairs_view(r@) == tree_targets(os@, prefix@, dir@),
{
    let mut r: Vec<(String, String)> = Vec::new();
    let mut i: usize = 0;
    assert(os@.take(0) =~= Seq::<S3Object>::empty());
    assert(pairs_view(r@) =~= Seq::<(Seq<char>, Seq<char>)>::empty());
    while i < os.len()
        invariant
            i <= os@.len(),
            pairs_view(r@) == tree_targets(os@.take(i as int), prefix@, dir@),
        decreases os@.len() - i,
    {
        assert(os@.take(i + 1).drop_last() =~= os@.take(i as int));
        assert(os@.take(i + 1).last() == os@[i as int]);
        match &os[i].key {
            Some(k) => match tree_relative(k.as_str(), prefix) {
                Some(rel) => {
                    let to = local_target(dir, rel.as_str());
                    let ghost before = r@;
                    r.push((k.clone(), to));
                    assert(pairs_view(r@) =~= pairs_view(before).push((k@, local_join(dir@, rel@))));
                },
                None => {},
            },
            None => {},
        }
        i = i + 1;
    }
    assert(os@.take(os@.len() as int) =~= os@);
    r
}

/// A request to delete each keyed object of `os`, in order.
fn deletes_of(os: &Vec<S3Object>) -> (r: Vec<S3Action>)
    ensures
        r@.len() == object_keys(os@).len(),
        forall|k: int| 0 <= k < r@.len() ==> sends_delete(#[trigger] r@[k], object_keys(os@)[k]),
{
    let mut r: Vec<S3Action> = Vec::new();
    let mut i: usize = 0;
    assert(os@.take(0) =~= Seq::<S3Object>::empty());
    while i < os.len()
        invariant
            i <= os@.len(),
            r@.len() == object_keys(os@.take(i as int)).len(),
            forall|k: int|
                0 <= k < r@.len() ==> sends_delete(
                    #[trigger] r@[k],
                    object_keys(os@.take(i as int))[k],
                ),
        decreases os@.len() - i,
    {
        assert(os@.take(i + 1).drop_last() =~= os@.take(i as int));
        assert(os@.take(i + 1).last() == os@[i as int]);
        match &os[i].key {
            Some(k) => {
                r.push(S3Action::Send(S3Request::Delete { key: k.clone() }));
            },
            None => {},
        }
        i = i + 1;
    }
    assert(os@.take(os@.len() as int) =~= os@);
    r
}

/// The token to continue a listing with, if any.
fn continuation_of(next_token: Option<String>, truncated: Option<bool>) -> (r: Option<String>)
    ensures
        opt_text(r) == continuation(next_token, truncated),
{
    match next_token {
        Some(t) => if truncated == Some(true) {
            Some(t)
        } else {
            None
        },
        None => None,
    }
}

/// What follows an object or a page of a folder download.
fn tree_advance(
    label: String,
    prefix: String,
    local_dir: String,
    pending: Vec<(String, String)>,
    next: Option<String>,
) -> (r: (S3State, Vec<S3Action>))
    ensures
        tree_advanced(label@, prefix@, local_dir@, pairs_view(pending@), opt_text(next), r.0, r.1@),
{
    let mut pending = pending;
    if pending.len() > 0 {
        let ghost before = pending@;
        let (key, to) = pending.remove(0);
        assert(pairs_view(pending@) =~= pairs_view(before).drop_first());
        let acts = vec![S3Action::Send(S3Request::Get { key: key.clone(), to, make_parents: true })];
        (
            S3State::TreeFetching { label, prefix, local_dir, key, pending, next, moved: 0 },
            acts,
        )
    } else {
        match next {
            Some(tok) => {
                let acts = vec![
                    S3Action::Send(
                        S3Request::List {
                            prefix: prefix.clone(),
                            delimited: false,
                            token: Some(tok),
                            max_one: false,
                        },
                    ),
                ];
                (S3State::TreeListing { label, prefix, local_dir }, acts)
            },
            None => {
                let acts = vec![S3Action::Emit(Event::TransferDone { label })];
                (S3State::Idle, acts)
            },
        }
    }
}

/// Where an S3 worker starts once its client is built: it asks for one
/// object of the bucket, which proves the bucket can be reached.
pub fn s3_begin() -> (r: (S3State, Vec<S3Action>))
    ensures
        r.0 is Connecting,
        r.1@.len() == 1,
        sends_list(r.1@[0], Seq::empty(), false, None, true),
{
    let acts = vec![
        S3Action::Send(
            S3Request::List { prefix: String::new(), delimited: false, token: None, max_one: true },
        ),
    ];
    (S3State::Connecting, acts)
}

/// A command taken up by an idle worker.
fn s3_start(command: Command, local_is_dir: bool) -> (r: (S3State, Vec<S3Action>))
    ensures
        s3_started(command, local_is_dir, r.0, r.1@),
{
    match command {
        Command::List { path } => {
            let prefix = as_prefix(path.as_str());
            let acts = vec![
                S3Action::Send(
                    S3Request::List {
                        prefix: prefix.clone(),
                        delimited: true,
                        token: None,
                        max_one: false,
                    },
                ),
            ];
            (S3State::Listing { path, prefix, entries: Vec::new() }, acts)
        },
        Command::Download { remote_path, local_path } => {
            let key = as_key(remote_path.as_str());
            let acts = vec![S3Action::Send(S3Request::Head { key })];
            (S3State::Probing { remote_path, local_path }, acts)
        },
        Command::Upload { local_path, remote_path } => {
            let request = if local_is_dir {
                S3Request::UploadTree { from: local_path, remote_dir: remote_path.clone() }
            } else {
                S3Request::PutFile { key: as_key(remote_path.as_str()), from: local_path }
            };
            let acts = vec![S3Action::Send(request)];
            (S3State::Sending { label: remote_path }, acts)
        },
        Command::Mkdir { path } => {
            let acts = vec![S3Action::Send(S3Request::PutEmpty { key: as_prefix(path.as_str()) })];
            (S3State::Waiting, acts)
        },
        Command::Delete { path, is_dir } => {
            if is_dir {
                let prefix = as_prefix(path.as_str());
                let acts = vec![
                    S3Action::Send(
                        S3Request::List {
                            prefix: prefix.clone(),
                            delimited: false,
                            token: None,
                            max_one: false,
                        },
                    ),
                ];
                (S3State::Purging { prefix }, acts)
            } else {
                let acts = vec![S3Action::Send(S3Request::Delete { key: as_key(path.as_str()) })];
                (S3State::Waiting, acts)
            }
        },
        Command::Rename { from, to } => {
            let source_key = as_key(from.as_str());
            let acts = vec![
                S3Action::Send(
                    S3Request::Copy { source_key: source_key.clone(), key: as_key(to.as_str()) },
                ),
            ];
            (S3State::Renaming { source_key }, acts)
        },
        Command::TrustHostKey => (S3State::Idle, Vec::new()),
        Command::Disconnect => (S3State::Closed, vec![S3Action::Emit(Event::Disconnected)]),
        other => {
            let message = match s3_refusal(&other) {
                Some(m) => m,
                None => String::new(),
            };
            (S3State::Idle, vec![S3Action::Emit(Event::Error(message))])
        },
    }
}

/// The single download of `remote_path` into the file `local_path`.
fn fetch_one(remote_path: String, local_path: String) -> (r: (S3State, Vec<S3Action>))
    ensures
        r.1@.len() == 1,
        sends_get(r.1@[0], as_key_spec(remote_path@), local_path@, false),
        r.0 matches S3State::Fetching { label, total, moved } && label@ == remote_path@ && total == 0
            && moved == 0,
{
    let key = as_key(remote_path.as_str());
    let acts = vec![S3Action::Send(S3Request::Get { key, to: local_path, make_parents: false })];
    (S3State::Fetching { label: remote_path, total: 0, moved: 0 }, acts)
}

/// One step of the S3 worker: where it goes from `state` on `input`, and
/// what it does next, in order.
pub fn s3_step(state: S3State, input: S3Input) -> (r: (S3State, Vec<S3Action>))
    ensures
        s3_moved(state, input, r.0, r.1@),
{
    match (state, input) {
        (S3State::Connecting, S3Input::Page { .. }) | (S3State::Connecting, S3Input::Done) => (
            S3State::Idle,
            vec![S3Action::Emit(Event::Connected)],
        ),
        (S3State::Connecting, S3Input::Failed { message }) => (
            S3State::Closed,
            vec![S3Action::Emit(Event::ConnectFailed(message))],
        ),
        (S3State::Idle, S3Input::Start { command, local_is_dir }) => s3_start(command, local_is_dir),
        (S3State::Idle, S3Input::Hangup) => (S3State::Closed, vec![S3Action::Emit(Event::Disconnected)]),
        (
            S3State::Listing { path, prefix, entries },
            S3Input::Page { prefixes, objects, next_token, truncated },
        ) => {
            let mut entries = entries;
            push_prefix_entries(&mut entries, &prefixes);
            push_object_entries(&mut entries, &objects);
            match continuation_of(next_token, truncated) {
                Some(tok) => {
                    let acts = vec![
                        S3Action::Send(
                            S3Request::List {
                                prefix: prefix.clone(),
                                delimited: true,
                                token: Some(tok),
                                max_one: false,
                            },
                        ),
                    ];
                    (S3State::Listing { path, prefix, entries }, acts)
                },
                None => (S3State::Idle, vec![S3Action::Emit(Event::Listing { path, entries })]),
            }
        },
        (S3State::Probing { remote_path, local_path }, S3Input::Head { found }) => {
            if found {
                fetch_one(remote_path, local_path)
            } else {
                let acts = vec![
                    S3Action::Send(
                        S3Request::List {
                            prefix: as_prefix(remote_path.as_str()),
                            delimited: false,
                            token: None,
                            max_one: true,
                        },
                    ),
                ];
                (S3State::ProbeListing { remote_path, local_path }, acts)
            }
        },
        (S3State::ProbeListing { remote_path, local_path }, S3Input::Page { objects, .. }) => {
            if objects.len() > 0 {
                let prefix = as_prefix(remote_path.as_str());
                let acts = vec![
                    S3Action::Send(S3Request::MakeDir { path: local_path.clone() }),
                    S3Action::Send(
                        S3Request::List {
                            prefix: prefix.clone(),
                            delimited: false,
                            token: None,
                            max_one: false,
                        },
                    ),
                ];
                (S3State::TreeListing { label: remote_path, prefix, local_dir: local_path }, acts)
            } else {
                fetch_one(remote_path, local_path)
            }
        },
        (S3State::ProbeListing { remote_path, local_path }, S3Input::Failed { .. }) => fetch_one(
            remote_path,
            local_path,
        ),
        (S3State::Fetching { label, moved, .. }, S3Input::Opened { length }) => {
            let total: u64 = match length {
                Some(n) => if n > 0 {
                    n as u64
                } else {
                    0
                },
                None => 0,
            };
            (S3State::Fetching { label, total, moved }, Vec::new())
        },
        (S3State::Fetching { label, total, moved }, S3Input::Chunk { len }) => {
            let moved = moved.saturating_add(len);
            let acts = vec![
                S3Action::Emit(Event::Progress { transferred: moved, total, label: label.clone() }),
            ];
            (S3State::Fetching { label, total, moved }, acts)
        },
        (S3State::Fetching { label, .. }, S3Input::BodyEnd) => (
            S3State::Idle,
            vec![S3Action::Emit(Event::TransferDone { label })],
        ),
        (
            S3State::TreeListing { label, prefix, local_dir },
            S3Input::Page { objects, next_token, truncated, .. },
        ) => {
            let pending = tree_targets_of(&objects, prefix.as_str(), local_dir.as_str());
            let next = continuation_of(next_token, truncated);
            tree_advance(label, prefix, local_dir, pending, next)
        },
        (
            S3State::TreeFetching { label, prefix, local_dir, key, pending, next, moved },
            S3Input::Opened { length },
        ) => (
            S3State::TreeFetching { label, prefix, local_dir, key, pending, next, moved },
            Vec::new(),
        ),
        (
            S3State::TreeFetching { label, prefix, local_dir, key, pending, next, moved },
            S3Input::Chunk { len },
        ) => (
            S3State::TreeFetching {
                label,
                prefix,
                local_dir,
                key,
                pending,
                next,
                moved: moved.saturating_add(len),
            },
            Vec::new(),
        ),
        (
            S3State::TreeFetching { label, prefix, local_dir, key, pending, next, moved },
            S3Input::BodyEnd,
        ) => {
            let progress = S3Action::Emit(
                Event::Progress { transferred: moved, total: moved, label: key },
            );
            let (t, rest) = tree_advance(label, prefix, local_dir, pending, next);
            let mut acts = vec![progress];
            let ghost tail = rest@;
            let mut rest = rest;
            acts.append(&mut rest);
            assert(acts@.drop_first() =~= tail);
            (t, acts)
        },
        (S3State::Purging { prefix }, S3Input::Page { objects, next_token, truncated, .. }) => {
            let mut acts = deletes_of(&objects);
            let n = acts.len();
            match continuation_of(next_token, truncated) {
                Some(tok) => {
                    acts.push(
                        S3Action::Send(
                            S3Request::List {
                                prefix: prefix.clone(),
                                delimited: false,
                                token: Some(tok),
                                max_one: false,
                            },
                        ),
                    );
                    (S3State::Purging { prefix }, acts)
                },
                None => if n > 0 {
                    (S3State::Waiting, acts)
                } else {
                    (S3State::Idle, acts)
                },
            }
        },
        (S3State::Renaming { source_key }, S3Input::Done) => (
            S3State::Waiting,
            vec![S3Action::Send(S3Request::Delete { key: source_key })],
        ),
        (S3State::Waiting, S3Input::Done) => (S3State::Idle, Vec::new()),
        (S3State::Sending { label }, S3Input::Done) => (
            S3State::Idle,
            vec![S3Action::Emit(Event::TransferDone { label })],
        ),
        (S3State::Listing { .. }, S3Input::Failed { message })
        | (S3State::Probing { .. }, S3Input::Failed { message })
        | (S3State::Fetching { .. }, S3Input::Failed { message })
        | (S3State::TreeListing { .. }, S3Input::Failed { message })
        | (S3State::TreeFetching { .. }, S3Input::Failed { message })
        | (S3State::Purging { .. }, S3Input::Failed { message })
        | (S3State::Renaming { .. }, S3Input::Failed { message })
        | (S3State::Waiting, S3Input::Failed { message })
        | (S3State::Sending { .. }, S3Input::Failed { message }) => (
            S3State::Idle,
            vec![S3Action::Emit(Event::Error(message))],
        ),
        (state, _) => (state, Vec::new()),
    }
}

/// `a` reports that the worker is connected.
pub open spec fn emits_connected(a: S3Action) -> bool {
    a matches S3Action::Emit(Event::Connected)
}

/// `a` reports that the worker stopped: its connection failed or it
/// disconnected.
pub open spec fn emits_end(a: S3Action) -> bool {
    a matches S3Action::Emit(Event::Disconnected) || a matches S3Action::Emit(
        Event::ConnectFailed(_),
    )
}

/// The order of an S3 worker's events: `Connected` comes only from a
/// connecting worker, which then waits for commands; once the worker
/// reports that it stopped (`Disconnected`, or `ConnectFailed`) it is closed,
/// and a closed worker does nothing more, whatever it is handed.
pub proof fn lemma_s3_event_order(s: S3State, i: S3Input, t: S3State, acts: Seq<S3Action>)
    requires
        s3_moved(s, i, t, acts),
    ensures
        s is Closed ==> t is Closed && acts.len() == 0,
        forall|k: int|
            0 <= k < acts.len() && emits_connected(#[trigger] acts[k]) ==> s is Connecting && t is Idle,
        forall|k: int| 0 <= k < acts.len() && emits_end(#[trigger] acts[k]) ==> t is Closed,
{
    match (s, i) {
        (
            S3State::TreeListing { label, prefix, local_dir },
            S3Input::Page { objects, next_token, truncated, .. },
        ) => {
            let pending = tree_targets(objects@, prefix@, local_dir@);
            if pending.len() == 0 && continuation(next_token, truncated) is None {
                assert(acts.len() == 1 && emits_done(acts[0], label@));
            }
        },
        (S3State::TreeFetching { label, pending, next, .. }, S3Input::BodyEnd) => {
            let rest = acts.drop_first();
            assert forall|k: int| 0 < k < acts.len() implies acts[k] == rest[k - 1] by {}
            if pairs_view(pending@).len() == 0 && opt_text(next) is None {
                assert(emits_done(rest[0], label@));
            }
        },
        (S3State::Purging { prefix }, S3Input::Page { objects, next_token, truncated, .. }) => {
            let keys = object_keys(objects@);
            let n = keys.len();
            assert forall|k: int| 0 <= k < n implies sends_delete(acts[k], keys[k]) by {}
        },
        _ => {},
    }
}

} // verus!
