//! Saved hosts: saving the draft, opening sessions to them, searching them,
//! loading them at start-up and reporting how saving them went.
use std::collections::HashSet;
use std::time::Instant;
use vstd::prelude::*;

use crate::app::{Host, LogLevel, SessionKey, Status, Terminal};
use crate::connection::{Auth, AuthView, ConnectionProfile, ProfileView, Protocol};
use crate::session::Session;
use crate::state::{log_after, log_view, App, Effect, LOG_CAPACITY};
use crate::store::{hex, new_id};
use crate::text::{
    chars_contain, chars_of, contains_text, dec, lowercase, push_dec, push_str, string_of,
    to_lower, trim_chars, trim_ws,
};

verus! {

broadcast use vstd::std_specs::hash::group_hash_axioms;

/// The credentials leave out the secret the protocol needs.
pub open spec fn missing_secret_spec(auth: AuthView) -> bool {
    match auth {
        AuthView::Password(p) => p.len() == 0,
        AuthView::KeyFile { path, .. } => path.len() == 0,
        AuthView::S3Keys { secret_key, .. } => secret_key.len() == 0,
    }
}

/// The tab that a connection to saved host `index` (opened as
/// `as_protocol`, when given) goes to: a shell tab for SSH, a file tab else.
pub open spec fn session_key_for(
    hosts: Seq<Host>,
    index: usize,
    as_protocol: Option<Protocol>,
) -> SessionKey {
    SessionKey {
        host: index,
        shell: as_protocol == Some(Protocol::Ssh) || (index < hosts.len()
            && hosts[index as int].profile.protocol == Protocol::Ssh),
    }
}

/// `i` is the first open session with tab `key`.
pub open spec fn is_first_key(s: Seq<Session>, i: int, key: SessionKey) -> bool {
    &&& 0 <= i < s.len()
    &&& s[i].key == key
    &&& forall|j: int| 0 <= j < i ==> s[j].key != key
}

/// The profile a connection uses: the saved one, with its protocol replaced
/// when the connection asks for another.
pub open spec fn connect_profile(p: ProfileView, as_protocol: Option<Protocol>) -> ProfileView {
    match as_protocol {
        Some(q) => ProfileView { protocol: q, ..p },
        None => p,
    }
}

/// What is logged when a saved host has lost its secret.
pub open spec fn missing_secret_message(name: Seq<char>) -> Seq<char> {
    "No stored credentials for "@ + name
        + " -- open its Edit form and enter them again. (Saved hosts keep secrets in the OS keychain, which can refuse to forget them.)"@
}

/// What is logged when a connection starts.
pub open spec fn connecting_message(endpoint: Seq<char>) -> Seq<char> {
    "Connecting to "@ + endpoint + "..."@
}

/// What is logged when the draft cannot be saved.
pub open spec fn unsaveable_message() -> Seq<char> {
    "Cannot save: the host or bucket is empty"@
}

/// `s` is a new session for tab `key` on `p`, served by `worker`: it is
/// connecting, loading, in the start directory, with nothing listed or
/// selected, and with a terminal exactly when it speaks SSH.
pub open spec fn fresh_session(s: Session, key: SessionKey, p: ProfileView, worker: u64) -> bool {
    &&& s.key == key
    &&& s.profile@ == p
    &&& s.worker == worker
    &&& s.status == Status::Connecting
    &&& s.cwd@ == p.remote_start_dir
    &&& s.entries@.len() == 0
    &&& s.selection@ == Set::<usize>::empty()
    &&& s.anchor is None
    &&& s.loading
    &&& (s.terminal is Some) == (p.protocol == Protocol::Ssh)
    &&& (s.terminal matches Some(t) ==> t.output@.len() == 0)
    &&& s.path_edit is None
}

/// No two open tabs are for the same host and kind.
pub open spec fn distinct_keys(s: Seq<Session>) -> bool {
    forall|i: int, j: int| 0 <= i < j < s.len() ==> #[trigger] s[i].key != #[trigger] s[j].key
}

/// Connecting never opens a second tab for the same host and kind: when the
/// open tabs are for distinct hosts and kinds before, they are after.
pub proof fn lemma_connect_keeps_keys_distinct(
    a: App,
    b: App,
    index: usize,
    as_protocol: Option<Protocol>,
    e: Seq<Effect>,
)
    requires
        a.connected(&b, index, as_protocol, e),
        distinct_keys(a.sessions@),
    ensures
        distinct_keys(b.sessions@),
{
    let key = session_key_for(a.hosts@, index, as_protocol);
    if !(exists|i: int| is_first_key(a.sessions@, i, key)) && index < a.hosts@.len()
        && !missing_secret_spec(a.hosts@[index as int].profile@.auth) {
        let s = a.sessions@;
        let t = b.sessions@;
        assert forall|i: int| 0 <= i < s.len() implies s[i].key != key by {
            if s[i].key == key {
                assert forall|j: int| 0 <= j < i implies s[j].key != key by {
                    assert(s[j].key != s[i].key);
                }
                assert(is_first_key(s, i, key));
            }
        }
        assert forall|i: int, j: int| 0 <= i < j < t.len() implies #[trigger] t[i].key
            != #[trigger] t[j].key by {
            assert(t.drop_last() == s);
            if j == t.len() - 1 {
                assert(t[i] == s[i]);
                assert(t[j] == t.last());
            } else {
                assert(t[i] == s[i]);
                assert(t[j] == s[j]);
            }
        }
    }
}

/// Whether saved host `h` shows for the lower-cased search text `needle`:
/// every host shows for an empty needle, others when their shown name,
/// host or bucket contains it, ignoring case.
pub open spec fn host_matches(h: Host, needle: Seq<char>) -> bool {
    ||| needle.len() == 0
    ||| contains_text(lowercase(h.profile@.display_name()), needle)
    ||| contains_text(lowercase(h.profile.host@), needle)
    ||| contains_text(lowercase(h.profile.bucket@), needle)
}

/// The indices of the hosts among the first `n` that show for `needle`,
/// in order.
pub open spec fn matching_hosts(hosts: Seq<Host>, needle: Seq<char>, n: nat) -> Seq<usize>
    decreases n,
{
    if n == 0 {
        Seq::empty()
    } else {
        let prev = matching_hosts(hosts, needle, (n - 1) as nat);
        if host_matches(hosts[n - 1], needle) {
            prev.push((n - 1) as usize)
        } else {
            prev
        }
    }
}

/// The lower-cased search text, without surrounding whitespace.
pub open spec fn search_needle(search: Seq<char>) -> Seq<char> {
    lowercase(trim_ws(search))
}

proof fn lemma_matching_hosts_members(hosts: Seq<Host>, needle: Seq<char>, n: nat)
    requires
        n <= hosts.len(),
        n <= usize::MAX,
    ensures
        forall|k: int|
            0 <= k < matching_hosts(hosts, needle, n).len() ==> (#[trigger] matching_hosts(
                hosts,
                needle,
                n,
            )[k]) < n,
        forall|j: int|
            0 <= j < n ==> (matching_hosts(hosts, needle, n).contains(j as usize) <==> host_matches(
                #[trigger] hosts[j],
                needle,
            )),
    decreases n,
{
    if n > 0 {
        let prev = matching_hosts(hosts, needle, (n - 1) as nat);
        lemma_matching_hosts_members(hosts, needle, (n - 1) as nat);
        let m = matching_hosts(hosts, needle, n);
        assert forall|j: int| 0 <= j < n implies (m.contains(j as usize) <==> host_matches(
            #[trigger] hosts[j],
            needle,
        )) by {
            if host_matches(hosts[n - 1], needle) {
                assert(m == prev.push((n - 1) as usize));
                if m.contains(j as usize) {
                    let k = choose|k: int| 0 <= k < m.len() && m[k] == j as usize;
                    if k < prev.len() {
                        assert(prev[k] == m[k]);
                        assert(prev.contains(j as usize));
                    }
                }
                if j < n - 1 && prev.contains(j as usize) {
                    let k = choose|k: int| 0 <= k < prev.len() && prev[k] == j as usize;
                    assert(m[k] == j as usize);
                }
                if j == n - 1 {
                    assert(m[prev.len() as int] == j as usize);
                }
            } else {
                assert(m == prev);
                if j == n - 1 && m.contains(j as usize) {
                    let k = choose|k: int| 0 <= k < m.len() && m[k] == j as usize;
                    assert(prev[k] < n - 1);
                }
            }
        }
    }
}

/// Which saved hosts the dashboard shows for search text `search`: exactly
/// those for which the search text is blank, or whose shown name, host or
/// bucket, lower-cased, contains the trimmed, lower-cased search text. In
/// particular an S3 host shows when its bucket matches, and every host
/// shows for a blank search.
pub proof fn lemma_shown_hosts(hosts: Seq<Host>, search: Seq<char>, j: int)
    requires
        0 <= j < hosts.len(),
        hosts.len() <= usize::MAX,
    ensures
        ({
            let needle = lowercase(trim_ws(search));
            let h = hosts[j];
            matching_hosts(hosts, search_needle(search), hosts.len()).contains(j as usize) <==> (
            needle.len() == 0 || contains_text(lowercase(h.profile@.display_name()), needle)
                || contains_text(lowercase(h.profile.host@), needle) || contains_text(
                lowercase(h.profile.bucket@),
                needle,
            ))
        }),
{
    lemma_matching_hosts_members(hosts, search_needle(search), hosts.len());
    assert(host_matches(hosts[j], search_needle(search)) == matching_hosts(
        hosts,
        search_needle(search),
        hosts.len(),
    ).contains(j as usize));
}

/// What is logged when saved hosts are loaded.
pub open spec fn restored_message(n: nat) -> Seq<char> {
    "Restored "@ + dec(n) + " host"@ + if n == 1 {
        Seq::empty()
    } else {
        "s"@
    }
}

/// `names` joined with `sep` between them.
pub open spec fn joined(names: Seq<Seq<char>>, sep: Seq<char>) -> Seq<char>
    decreases names.len(),
{
    if names.len() == 0 {
        Seq::empty()
    } else if names.len() == 1 {
        names[0]
    } else {
        joined(names.drop_last(), sep) + sep + names.last()
    }
}

/// What is logged when the hosts file could not be written.
pub open spec fn save_failed_message(reason: Seq<char>) -> Seq<char> {
    "Could not save hosts: "@ + reason
}

/// What is logged when the keychain refused the secrets of some hosts.
pub open spec fn keychain_refused_message(names: Seq<Seq<char>>) -> Seq<char> {
    "Hosts saved, but the keychain refused credentials for "@ + joined(names, ", "@)
        + "; you will be asked for them again"@
}

/// The shown names of the hosts at `indices`.
pub open spec fn host_names(hosts: Seq<Host>, indices: Seq<usize>) -> Seq<Seq<char>> {
    indices.map_values(|i: usize| hosts[i as int].profile@.display_name())
}

/// Whether the clock reading `a` is no earlier than `b` (`Instant`'s `>=`).
pub uninterp spec fn instant_at_least(a: Instant, b: Instant) -> bool;

/// `Instant`'s `>=`: whether `a` is no earlier than `b`. `Instant` is
/// totally ordered (`Ord`), so when `a` is not at least `b`, `b` is at least
/// `a`; and the order is transitive, so whatever `b` is at least, `a` is too
/// when `a` is at least `b`.
#[verifier::external_body]
fn not_earlier(a: &Instant, b: &Instant) -> (r: bool)
    ensures
        r == instant_at_least(*a, *b),
        !r ==> instant_at_least(*b, *a),
        forall|c: Instant| #[trigger] instant_at_least(*b, c) ==> (r ==> instant_at_least(*a, c)),
{
    a >= b
}

impl App {
    /// The first open session with tab `key`.
    pub fn find_session(&self, key: SessionKey) -> (r: Option<usize>)
        ensures
            match r {
                Some(i) => is_first_key(self.sessions@, i as int, key),
                None => forall|j: int| 0 <= j < self.sessions@.len() ==> self.sessions@[j].key != key,
            },
    {
        let mut i: usize = 0;
        while i < self.sessions.len()
            invariant
                i <= self.sessions@.len(),
                forall|j: int| 0 <= j < i ==> self.sessions@[j].key != key,
            decreases self.sessions@.len() - i,
        {
            if self.sessions[i].key == key {
                return Some(i);
            }
            i = i + 1;
        }
        None
    }

    /// Whether `profile` has lost the secret its credentials need.
    pub fn missing_secret(profile: &ConnectionProfile) -> (b: bool)
        ensures
            b == missing_secret_spec(profile@.auth),
    {
        match &profile.auth {
            Auth::Password(p) => p.as_str().unicode_len() == 0,
            Auth::KeyFile { path, .. } => path.as_str().unicode_len() == 0,
            Auth::S3Keys { secret_key, .. } => secret_key.as_str().unicode_len() == 0,
        }
    }

    /// Connecting to saved host `index` (as `as_protocol`, when given) takes
    /// `self` to `b` with effects `e`: see [`App::connect`].
    pub open spec fn connected(
        &self,
        b: &App,
        index: usize,
        as_protocol: Option<Protocol>,
        e: Seq<Effect>,
    ) -> bool {
        &&& b.transfers_kept_but_worker(self)
        &&& b.pending_host_key == self.pending_host_key
        &&& b.search == self.search
        &&& b.draft == self.draft
        &&& b.show_log == self.show_log
        &&& ({
            let key = session_key_for(self.hosts@, index, as_protocol);
            if exists|i: int| is_first_key(self.sessions@, i, key) {
                &&& is_first_key(self.sessions@, b.active->0 as int, key)
                &&& b.active is Some
                &&& b.sessions == self.sessions
                &&& b.hosts == self.hosts
                &&& b.log == self.log
                &&& b.next_worker == self.next_worker
                &&& e.len() == 0
            } else if index >= self.hosts@.len() {
                &&& b.sessions_kept(self)
                &&& b.hosts == self.hosts
                &&& b.log == self.log
                &&& b.next_worker == self.next_worker
                &&& e.len() == 0
            } else if missing_secret_spec(self.hosts@[index as int].profile@.auth) {
                &&& b.sessions_kept(self)
                &&& b.hosts == self.hosts
                &&& log_view(b.log@) == log_after(
                    log_view(self.log@),
                    (
                        missing_secret_message(
                            self.hosts@[index as int].profile@.display_name(),
                        ),
                        LogLevel::Error,
                    ),
                )
                &&& b.next_worker == self.next_worker
                &&& e.len() == 0
            } else {
                let host = self.hosts@[index as int];
                let p = connect_profile(host.profile@, as_protocol);
                &&& b.hosts@.len() == self.hosts@.len()
                &&& forall|j: int|
                    0 <= j < self.hosts@.len() && j != index ==> b.hosts@[j]
                        == self.hosts@[j]
                &&& b.hosts@[index as int].id == host.id
                &&& b.hosts@[index as int].profile == host.profile
                &&& b.hosts@[index as int].last_used is Some
                &&& log_view(b.log@) == log_after(
                    log_view(self.log@),
                    (connecting_message(p.endpoint()), LogLevel::Info),
                )
                &&& b.sessions@.len() == self.sessions@.len() + 1
                &&& b.sessions@.drop_last() == self.sessions@
                &&& fresh_session(b.sessions@.last(), key, p, self.next_worker)
                &&& b.active == Some(self.sessions@.len() as usize)
                &&& b.next_worker == self.next_worker.wrapping_add(1)
                &&& e.len() == 1
                &&& e[0] matches Effect::Spawn { worker, profile }
                &&& worker == self.next_worker
                &&& profile@ == p
            }
        })
    }

    /// Opens (or returns to) the tab for saved host `index`, connecting as
    /// `as_protocol` when given. A tab already open for the same host and
    /// kind is made active; a host without its secret is refused with an
    /// error in the log; otherwise a worker is spawned for it.
    #[verifier::rlimit(80)]
    pub fn connect(&mut self, index: usize, as_protocol: Option<Protocol>, out: &mut Vec<Effect>)
        requires
            old(self).wf(),
        ensures
            final(self).wf(),
            old(self).connected(
                final(self),
                index,
                as_protocol,
                final(out)@.skip(old(out)@.len() as int),
            ),
            final(out)@.take(old(out)@.len() as int) == old(out)@,
    {
        let ghost o0 = out@;
        assert(o0.skip(o0.len() as int) =~= Seq::<Effect>::empty());
        assert(o0.take(o0.len() as int) =~= o0);
        let shell = match as_protocol {
            Some(q) => q == Protocol::Ssh,
            None => false,
        } || (index < self.hosts.len() && self.hosts[index].profile.protocol == Protocol::Ssh);
        let key = SessionKey { host: index, shell };
        assert(key == session_key_for(self.hosts@, index, as_protocol));
        match self.find_session(key) {
            Some(i) => {
                assert(is_first_key(self.sessions@, i as int, key));
                self.active = Some(i);
                return;
            },
            None => {
                assert(!exists|j: int| is_first_key(self.sessions@, j, key));
            },
        }
        if index >= self.hosts.len() {
            return;
        }
        if Self::missing_secret(&self.hosts[index].profile) {
            let mut text = String::new();
            push_str(&mut text, "No stored credentials for ");
            push_str(&mut text, self.hosts[index].profile.display_name());
            push_str(
                &mut text,
                " -- open its Edit form and enter them again. (Saved hosts keep secrets in the OS keychain, which can refuse to forget them.)",
            );
            self.error(text);
            return;
        }
        self.hosts[index].last_used = Some(Instant::now());
        let mut profile = self.hosts[index].profile.duplicate();
        match as_protocol {
            Some(q) => {
                profile.protocol = q;
            },
            None => {},
        }
        let start_dir = profile.remote_start_dir.clone();
        let is_shell = profile.protocol == Protocol::Ssh;
        let mut text = String::new();
        push_str(&mut text, "Connecting to ");
        let endpoint = profile.endpoint();
        push_str(&mut text, endpoint.as_str());
        push_str(&mut text, "...");
        self.info(text);

        let worker = self.next_worker;
        self.next_worker = self.next_worker.wrapping_add(1);
        out.push(Effect::Spawn { worker, profile: profile.duplicate() });
        let terminal = if is_shell {
            Some(Terminal { output: String::new() })
        } else {
            None
        };
        self.sessions.push(
            Session {
                key,
                profile,
                worker,
                status: Status::Connecting,
                cwd: start_dir,
                entries: Vec::new(),
                selection: HashSet::new(),
                anchor: None,
                loading: true,
                terminal,
                path_edit: None,
            },
        );
        self.active = Some(self.sessions.len() - 1);
        assert(self.sessions@.drop_last() =~= old(self).sessions@);
        assert(out@.skip(o0.len() as int) =~= seq![out@.last()]);
        assert(out@.take(o0.len() as int) =~= o0);
    }

    /// The index under which [`App::commit_draft`] saves the draft.
    pub open spec fn commit_result(&self) -> Option<usize> {
        match self.draft {
            None => None,
            Some((profile, editing)) => if !profile@.normalized().is_connectable() {
                None
            } else {
                match editing {
                    Some(i) if i < self.hosts@.len() => Some(i),
                    _ => Some(self.hosts@.len() as usize),
                }
            },
        }
    }

    /// Saving the draft takes `self` to `b`: see [`App::commit_draft`].
    pub open spec fn committed(&self, b: &App) -> bool {
        &&& b.sessions_kept(self)
        &&& b.transfers_kept(self)
        &&& b.search == self.search
        &&& b.show_log == self.show_log
        &&& match self.draft {
            None => {
                &&& b.hosts == self.hosts
                &&& b.draft == self.draft
                &&& b.log == self.log
            },
            Some((profile, editing)) => {
                let p = profile@.normalized();
                if !p.is_connectable() {
                    &&& b.hosts == self.hosts
                    &&& b.draft matches Some((q, ed)) && q@ == p && ed == editing
                    &&& log_view(b.log@) == log_after(
                        log_view(self.log@),
                        (unsaveable_message(), LogLevel::Error),
                    )
                } else {
                    &&& b.draft is None
                    &&& b.log == self.log
                    &&& match editing {
                        Some(i) if i < self.hosts@.len() => {
                            &&& b.hosts@.len() == self.hosts@.len()
                            &&& forall|j: int|
                                0 <= j < self.hosts@.len() && j != i ==> b.hosts@[j]
                                    == self.hosts@[j]
                            &&& b.hosts@[i as int].id == self.hosts@[i as int].id
                            &&& b.hosts@[i as int].last_used == self.hosts@[i as int].last_used
                            &&& b.hosts@[i as int].profile@ == p
                        },
                        _ => {
                            &&& b.hosts@.len() == self.hosts@.len() + 1
                            &&& b.hosts@.drop_last() == self.hosts@
                            &&& b.hosts@.last().profile@ == p
                            &&& b.hosts@.last().last_used is None
                            &&& exists|nanos: u128| b.hosts@.last().id@ == "host-"@ + hex(nanos as nat)
                        },
                    }
                }
            },
        }
    }

    /// Saves the draft host: its endpoint is normalised, and a draft with no
    /// host (or bucket) stays open with an error in the log. An edited host
    /// takes the new profile in place; a new one is added at the end with a
    /// fresh id. Returns the index of the saved host.
    pub fn commit_draft(&mut self) -> (r: Option<usize>)
        requires
            old(self).wf(),
        ensures
            final(self).wf(),
            r == old(self).commit_result(),
            old(self).committed(final(self)),
    {
        let taken = self.draft.take();
        let (mut profile, editing) = match taken {
            Some(d) => d,
            None => {
                return None;
            },
        };
        profile.normalize_endpoint();
        if !profile.is_connectable() {
            let mut text = String::new();
            push_str(&mut text, "Cannot save: the host or bucket is empty");
            self.error(text);
            self.draft = Some((profile, editing));
            return None;
        }
        match editing {
            Some(index) => {
                if index < self.hosts.len() {
                    self.hosts[index].profile = profile;
                    return Some(index);
                }
            },
            None => {},
        }
        let id = new_id();
        self.hosts.push(Host { id, profile, last_used: None });
        assert(self.hosts@.drop_last() =~= old(self).hosts@);
        Some(self.hosts.len() - 1)
    }

    /// The state at start-up with the saved `hosts`, logging how many were
    /// restored when there are any.
    pub fn with_hosts(hosts: Vec<Host>) -> (app: App)
        ensures
            app.wf(),
            app.hosts@ == hosts@,
            app.sessions@.len() == 0,
            app.active is None,
            app.draft is None,
            app.search@.len() == 0,
            app.history@.len() == 0,
            app.jobs@.len() == 0,
            app.queue@.len() == 0,
            app.pending_host_key is None,
            !app.show_history,
            app.show_log,
            log_view(app.log@) == if hosts@.len() > 0 {
                seq![(restored_message(hosts@.len()), LogLevel::Info)]
            } else {
                Seq::empty()
            },
    {
        let restored = hosts.len();
        let mut app = App::new();
        app.hosts = hosts;
        if restored > 0 {
            let mut text = String::new();
            push_str(&mut text, "Restored ");
            push_dec(&mut text, restored as u128);
            push_str(&mut text, " host");
            if restored != 1 {
                push_str(&mut text, "s");
            }
            assert(text@ =~= restored_message(restored as nat));
            app.info(text);
            assert(log_view(app.log@) =~= seq![(restored_message(restored as nat), LogLevel::Info)]);
        } else {
            assert(log_view(app.log@) =~= Seq::<(Seq<char>, LogLevel)>::empty());
        }
        app
    }

    /// Reports how saving went: `save_error` is why the hosts file could not
    /// be written, when it could not; otherwise `refused` holds the hosts
    /// whose secrets the keychain refused, in order.
    pub fn persisted(&mut self, save_error: Option<String>, refused: Vec<usize>)
        requires
            old(self).wf(),
            forall|k: int| 0 <= k < refused@.len() ==> refused@[k] < old(self).hosts@.len(),
        ensures
            final(self).wf(),
            final(self).hosts_kept(old(self)),
            final(self).sessions_kept(old(self)),
            final(self).transfers_kept(old(self)),
            log_view(final(self).log@) == match save_error {
                Some(reason) => log_after(
                    log_view(old(self).log@),
                    (save_failed_message(reason@), LogLevel::Error),
                ),
                None => if refused@.len() > 0 {
                    log_after(
                        log_view(old(self).log@),
                        (
                            keychain_refused_message(host_names(old(self).hosts@, refused@)),
                            LogLevel::Error,
                        ),
                    )
                } else {
                    log_view(old(self).log@)
                },
            },
    {
        match save_error {
            Some(reason) => {
                let mut text = String::new();
                push_str(&mut text, "Could not save hosts: ");
                push_str(&mut text, reason.as_str());
                self.error(text);
                return;
            },
            None => {},
        }
        if refused.len() == 0 {
            return;
        }
        let ghost names = host_names(self.hosts@, refused@);
        let mut list = String::new();
        let mut k: usize = 0;
        while k < refused.len()
            invariant
                k <= refused@.len(),
                names == host_names(self.hosts@, refused@),
                forall|j: int| 0 <= j < refused@.len() ==> refused@[j] < self.hosts@.len(),
                list@ == joined(names.take(k as int), ", "@),
            decreases refused@.len() - k,
        {
            assert(names.take(k + 1).drop_last() =~= names.take(k as int));
            if k > 0 {
                push_str(&mut list, ", ");
            } else {
                assert(names.take(1) =~= seq![names[0]]);
            }
            push_str(&mut list, self.hosts[refused[k]].profile.display_name());
            k = k + 1;
        }
        assert(names.take(refused@.len() as int) =~= names);
        let mut text = String::new();
        push_str(&mut text, "Hosts saved, but the keychain refused credentials for ");
        push_str(&mut text, list.as_str());
        push_str(&mut text, "; you will be asked for them again");
        self.error(text);
    }

    /// The saved hosts that show for the search text, with their indices, in
    /// order.
    pub fn visible_hosts(&self) -> (r: Vec<(usize, &Host)>)
        ensures
            ({
                let m = matching_hosts(self.hosts@, search_needle(self.search@), self.hosts@.len());
                &&& r@.len() == m.len()
                &&& forall|k: int|
                    0 <= k < r@.len() ==> (#[trigger] r@[k]).0 == m[k] && *r@[k].1
                        == self.hosts@[m[k] as int]
            }),
    {
        let trimmed = string_of(&trim_chars(&chars_of(self.search.as_str())));
        let needle_s = to_lower(trimmed.as_str());
        let needle = chars_of(needle_s.as_str());
        let ghost nd = search_needle(self.search@);
        let mut r: Vec<(usize, &Host)> = Vec::new();
        let mut i: usize = 0;
        while i < self.hosts.len()
            invariant
                i <= self.hosts@.len(),
                needle@ == nd,
                nd == search_needle(self.search@),
                ({
                    let m = matching_hosts(self.hosts@, nd, i as nat);
                    &&& r@.len() == m.len()
                    &&& forall|k: int|
                        0 <= k < r@.len() ==> (#[trigger] r@[k]).0 == m[k] && *r@[k].1
                            == self.hosts@[m[k] as int]
                }),
            decreases self.hosts@.len() - i,
        {
            let host = &self.hosts[i];
            let shows = needle.len() == 0 || chars_contain(
                &chars_of(to_lower(host.profile.display_name()).as_str()),
                &needle,
            ) || chars_contain(&chars_of(to_lower(host.profile.host.as_str()).as_str()), &needle)
                || chars_contain(&chars_of(to_lower(host.profile.bucket.as_str()).as_str()), &needle);
            if shows {
                r.push((i, host));
            }
            i = i + 1;
        }
        r
    }

    /// The host used last, with its index, among those used at all; among
    /// hosts used at the same instant the last one is taken.
    pub fn most_recent(&self) -> (r: Option<(usize, &Host)>)
        ensures
            match r {
                Some((i, h)) => {
                    &&& i < self.hosts@.len()
                    &&& *h == self.hosts@[i as int]
                    &&& h.last_used is Some
                    &&& forall|j: int|
                        0 <= j < self.hosts@.len() && j != i && (
                        #[trigger] self.hosts@[j]).last_used is Some ==> (j < i
                            ==> instant_at_least(
                            h.last_used->0,
                            self.hosts@[j].last_used->0,
                        )) && (j > i ==> !instant_at_least(
                            self.hosts@[j].last_used->0,
                            h.last_used->0,
                        ))
                },
                None => forall|j: int|
                    0 <= j < self.hosts@.len() ==> self.hosts@[j].last_used is None,
            },
    {
        let mut best: Option<usize> = None;
        let mut i: usize = 0;
        while i < self.hosts.len()
            invariant
                i <= self.hosts@.len(),
                match best {
                    Some(b) => {
                        &&& b < i
                        &&& self.hosts@[b as int].last_used is Some
                        &&& forall|j: int|
                            0 <= j < i && j != b && (#[trigger] self.hosts@[j]).last_used is Some
                                ==> instant_at_least(
                                self.hosts@[b as int].last_used->0,
                                self.hosts@[j].last_used->0,
                            )
                        &&& forall|j: int|
                            b < j < i && (#[trigger] self.hosts@[j]).last_used is Some
                                ==> !instant_at_least(
                                self.hosts@[j].last_used->0,
                                self.hosts@[b as int].last_used->0,
                            )
                    },
                    None => forall|j: int| 0 <= j < i ==> self.hosts@[j].last_used is None,
                },
            decreases self.hosts@.len() - i,
        {
            match &self.hosts[i].last_used {
                Some(t) => {
                    best = match best {
                        Some(b) => match &self.hosts[b].last_used {
                            Some(u) => if not_earlier(t, u) {
                                Some(i)
                            } else {
                                Some(b)
                            },
                            None => Some(i),
                        },
                        None => Some(i),
                    };
                },
                None => {},
            }
            i = i + 1;
        }
        match best {
            Some(b) => Some((b, &self.hosts[b])),
            None => None,
        }
    }
}

} // verus!
