//! The reducer: what each action of the interface does to the state, and
//! what it asks the caller to carry out.
use vstd::prelude::*;

use crate::app::{join_path, join_path_spec, LogLevel};
use crate::backend::Command;
use crate::connection::{ConnectionProfile, ProfileView, Protocol};
use crate::session::{clicked_selection, Session, SessionView};
use crate::state::{log_after, log_view, Action, App, Effect, LOG_CAPACITY};
use crate::text::{chars_of, push_str, string_of, trim_chars, trim_ws};

verus! {

/// The directory a typed path goes to: the text without surrounding
/// whitespace, or the root when nothing is left.
pub open spec fn commit_target(typed: Seq<char>) -> Seq<char> {
    if trim_ws(typed).len() == 0 {
        "/"@
    } else {
        trim_ws(typed)
    }
}

/// What is logged when a host is removed.
pub open spec fn removed_message(name: Seq<char>) -> Seq<char> {
    "Removed "@ + name
}

/// What is logged when a host key is trusted.
pub open spec fn trusted_message(host: Seq<char>) -> Seq<char> {
    "Trusted the host key for "@ + host
}

/// What is logged when a host key is refused.
pub open spec fn refused_message(host: Seq<char>) -> Seq<char> {
    "Refused the host key for "@ + host
}

impl App {
    /// The session of the active tab, when there is one.
    pub open spec fn active_session(&self) -> Option<Session> {
        match self.active {
            Some(i) if i < self.sessions@.len() => Some(self.sessions@[i as int]),
            _ => None,
        }
    }

    /// Only the session of the active tab changes, to one whose view is `v`.
    pub open spec fn active_becomes(&self, b: &App, v: SessionView) -> bool {
        &&& self.active matches Some(i) && i < self.sessions@.len()
        &&& b.sessions@.len() == self.sessions@.len()
        &&& forall|j: int|
            0 <= j < self.sessions@.len() && j != self.active->0 ==> b.sessions@[j]
                == self.sessions@[j]
        &&& b.sessions@[self.active->0 as int]@ == v
        &&& b.active == self.active
        &&& b.pending_host_key == self.pending_host_key
        &&& b.hosts_kept(self)
        &&& b.transfers_kept(self)
        &&& b.log == self.log
    }

    /// Everything but the draft is as in `b`.
    pub open spec fn same_but_draft(&self, b: &App) -> bool {
        &&& b.hosts == self.hosts
        &&& b.search == self.search
        &&& b.show_log == self.show_log
        &&& b.sessions_kept(self)
        &&& b.transfers_kept(self)
        &&& b.log == self.log
    }

    /// Removing saved host `index` takes `self` to `b` with effects `e`: see
    /// [`App::delete_host`].
    pub open spec fn host_deleted(&self, b: &App, index: usize, e: Seq<Effect>) -> bool {
        if index < self.hosts@.len() {
            &&& b.hosts@ == self.hosts@.remove(index as int)
            &&& log_view(b.log@) == log_after(
                log_view(self.log@),
                (removed_message(self.hosts@[index as int].profile@.display_name()), LogLevel::Info),
            )
            &&& e == seq![Effect::ForgetSecret { id: self.hosts@[index as int].id }, Effect::Persist]
            &&& match self.draft {
                Some((p, Some(ed))) => if ed == index {
                    b.draft is None
                } else if ed > index {
                    b.draft == Some((p, Some((ed - 1) as usize)))
                } else {
                    b.draft == self.draft
                },
                _ => b.draft == self.draft,
            }
            &&& b.search == self.search
            &&& b.show_log == self.show_log
            &&& b.sessions_kept(self)
            &&& b.transfers_kept(self)
        } else {
            *b == *self && e.len() == 0
        }
    }

    /// Applying `action` takes `self` to `b` with effects `e`.
    pub open spec fn applied(&self, b: &App, action: Action, e: Seq<Effect>) -> bool {
        match action {
            Action::NewHost(protocol) => {
                &&& b.draft matches Some((p, None)) && p@ == ProfileView::fresh(protocol)
                &&& self.same_but_draft(b)
                &&& e.len() == 0
            },
            Action::EditHost(index) => {
                &&& if index < self.hosts@.len() {
                    b.draft matches Some((p, Some(j))) && j == index && p@
                        == self.hosts@[index as int].profile@
                } else {
                    b.draft == self.draft
                }
                &&& self.same_but_draft(b)
                &&& e.len() == 0
            },
            Action::DeleteHost(index) => self.host_deleted(b, index, e),
            Action::CancelEdit => {
                &&& b.draft is None
                &&& self.same_but_draft(b)
                &&& e.len() == 0
            },
            Action::SaveDraft => {
                &&& self.committed(b)
                &&& e == if self.commit_result() is Some {
                    seq![Effect::Persist]
                } else {
                    Seq::empty()
                }
            },
            Action::SaveDraftAndConnect => {
                &&& self.committed(b)
                &&& e == match self.commit_result() {
                    Some(i) => seq![Effect::Persist, Effect::Connect { host: i }],
                    None => Seq::empty(),
                }
            },
            Action::Connect(index) => self.connected(b, index, None, e),
            Action::OpenShell(index) => self.connected(b, index, Some(Protocol::Ssh), e),
            Action::Disconnect => {
                &&& *b == App { active: None, ..*self }
                &&& e.len() == 0
            },
            Action::SelectTab(index) => {
                &&& *b == App {
                    active: match index {
                        Some(i) if i < self.sessions@.len() => Some(i),
                        _ => None,
                    },
                    ..*self
                }
                &&& e.len() == 0
            },
            Action::CloseTab(index) => self.closed_tab(b, index, e),
            Action::Navigate(path) => match self.active_session() {
                Some(s) => {
                    &&& self.active_becomes(b, SessionView { loading: true, ..s@ })
                    &&& e == seq![Effect::Send { worker: s.worker, command: Command::List { path } }]
                },
                None => *b == *self && e.len() == 0,
            },
            Action::ShellBytes(bytes) => {
                &&& *b == *self
                &&& match self.active_session() {
                    Some(s) if s.terminal is Some => e == seq![
                        Effect::Send { worker: s.worker, command: Command::ShellInput(bytes) },
                    ],
                    _ => e.len() == 0,
                }
            },
            Action::EditPath => match self.active_session() {
                Some(s) => {
                    &&& self.active_becomes(b, SessionView { path_edit: Some(s.cwd@), ..s@ })
                    &&& e.len() == 0
                },
                None => *b == *self && e.len() == 0,
            },
            Action::CommitPath => match self.active_session() {
                Some(s) => match s.path_edit {
                    Some(typed) => {
                        &&& self.active_becomes(
                            b,
                            SessionView { path_edit: None, loading: true, ..s@ },
                        )
                        &&& e.len() == 1
                        &&& e[0] matches Effect::Send { worker, command: Command::List { path } }
                            && worker == s.worker && path@ == commit_target(typed@)
                    },
                    None => *b == *self && e.len() == 0,
                },
                None => *b == *self && e.len() == 0,
            },
            Action::CancelPath => match self.active_session() {
                Some(s) => {
                    &&& self.active_becomes(b, SessionView { path_edit: None, ..s@ })
                    &&& e.len() == 0
                },
                None => *b == *self && e.len() == 0,
            },
            Action::Refresh => match self.active_session() {
                Some(s) => {
                    &&& self.active_becomes(b, SessionView { loading: true, ..s@ })
                    &&& e.len() == 1
                    &&& e[0] matches Effect::Send { worker, command: Command::List { path } }
                        && worker == s.worker && path@ == s.cwd@
                },
                None => *b == *self && e.len() == 0,
            },
            Action::ClickRow(index, mods) => match self.active_session() {
                Some(s) => {
                    let (sel, anchor) = clicked_selection(s.selection@, s.anchor, index, mods);
                    &&& self.active_becomes(b, SessionView { selection: sel, anchor, ..s@ })
                    &&& e.len() == 0
                },
                None => *b == *self && e.len() == 0,
            },
            Action::OpenRow(index) => match self.active_session() {
                Some(s) => if index < s.entries@.len() && s.entries@[index as int].is_dir {
                    &&& self.active_becomes(b, SessionView { loading: true, ..s@ })
                    &&& e.len() == 1
                    &&& e[0] matches Effect::Send { worker, command: Command::List { path } }
                        && worker == s.worker && path@ == join_path_spec(
                        s.cwd@,
                        s.entries@[index as int].name@,
                    )
                } else {
                    *b == *self && e.len() == 0
                },
                None => *b == *self && e.len() == 0,
            },
            Action::Download => *b == *self && self.download_asked(e),
            Action::Upload => *b == *self && e == seq![Effect::ChooseUploads { folders: false }],
            Action::UploadFolder => *b == *self && e == seq![Effect::ChooseUploads { folders: true }],
            Action::DroppedFiles(items) => self.uploads_queued(b, items@, e),
            Action::ToggleHistory => {
                &&& *b == App { show_history: !self.show_history, ..*self }
                &&& e.len() == 0
            },
            Action::ClearHistory => {
                &&& b.history@.len() == 0
                &&& *b == App { history: b.history, ..*self }
                &&& e.len() == 0
            },
            Action::TrustHostKey => {
                &&& b.pending_host_key is None
                &&& b.hosts_kept(self)
                &&& b.transfers_kept(self)
                &&& b.sessions == self.sessions
                &&& b.active == self.active
                &&& match self.pending_host_key {
                    Some(k) if k.session < self.sessions@.len() => {
                        &&& log_view(b.log@) == log_after(
                            log_view(self.log@),
                            (trusted_message(k.host@), LogLevel::Info),
                        )
                        &&& e == seq![
                            Effect::Send {
                                worker: self.sessions@[k.session as int].worker,
                                command: Command::TrustHostKey,
                            },
                        ]
                    },
                    _ => b.log == self.log && e.len() == 0,
                }
            },
            Action::RejectHostKey => {
                &&& b.pending_host_key is None
                &&& b.hosts_kept(self)
                &&& b.transfers_kept(self)
                &&& match self.pending_host_key {
                    Some(k) => {
                        &&& log_view(b.log@) == log_after(
                            log_view(self.log@),
                            (refused_message(k.host@), LogLevel::Error),
                        )
                        &&& if k.session < self.sessions@.len() {
                            &&& b.sessions@ == self.sessions@.remove(k.session as int)
                            &&& b.active == crate::state::active_after_close(
                                self.active,
                                k.session,
                                self.sessions@.len(),
                            )
                            &&& e == seq![
                                Effect::Send {
                                    worker: self.sessions@[k.session as int].worker,
                                    command: Command::Disconnect,
                                },
                            ]
                        } else {
                            &&& b.sessions == self.sessions
                            &&& b.active == self.active
                            &&& e.len() == 0
                        }
                    },
                    None => {
                        &&& b.log == self.log
                        &&& b.sessions == self.sessions
                        &&& b.active == self.active
                        &&& e.len() == 0
                    },
                }
            },
            Action::Mkdir => match self.active_session() {
                Some(s) => {
                    &&& self.active_becomes(b, SessionView { loading: true, ..s@ })
                    &&& e.len() == 2
                    &&& e[0] matches Effect::Send { worker, command: Command::Mkdir { path } }
                        && worker == s.worker && path@ == join_path_spec(s.cwd@, "new-folder"@)
                    &&& e[1] matches Effect::Send { worker, command: Command::List { path } }
                        && worker == s.worker && path@ == s.cwd@
                },
                None => *b == *self && e.len() == 0,
            },
            Action::DeleteSelected => self.deleted(b, e),
            Action::ClearLog => {
                &&& b.log@.len() == 0
                &&& *b == App { log: b.log, ..*self }
                &&& e.len() == 0
            },
        }
    }

    /// The session of the active tab, to change it.
    pub fn session_mut(&mut self) -> (r: Option<&mut Session>)
        ensures
            match old(self).active_session() {
                Some(s) => r matches Some(m) && *m == s && final(self).sessions@ == old(
                    self,
                ).sessions@.update(old(self).active->0 as int, *final(m)),
                None => r is None && *final(self) == *old(self),
            },
            final(self).active == old(self).active,
            final(self).pending_host_key == old(self).pending_host_key,
            final(self).hosts_kept(old(self)),
            final(self).transfers_kept(old(self)),
            final(self).log == old(self).log,
    {
        match self.active {
            Some(i) => if i < self.sessions.len() {
                Some(&mut self.sessions[i])
            } else {
                None
            },
            None => None,
        }
    }

    /// The index of the active tab, when it names an open session.
    fn active_index(&self) -> (r: Option<usize>)
        ensures
            match self.active {
                Some(i) if i < self.sessions@.len() => r == Some(i),
                _ => r is None,
            },
    {
        match self.active {
            Some(i) => if i < self.sessions.len() {
                Some(i)
            } else {
                None
            },
            None => None,
        }
    }

    /// Removes saved host `index`: its secret is forgotten, the hosts are
    /// saved, and a draft editing a later host follows it down.
    pub fn delete_host(&mut self, index: usize, out: &mut Vec<Effect>)
        requires
            old(self).wf(),
        ensures
            final(self).wf(),
            old(self).host_deleted(final(self), index, final(out)@.skip(old(out)@.len() as int)),
            final(out)@.take(old(out)@.len() as int) == old(out)@,
    {
        let ghost o0 = out@;
        assert(o0.skip(o0.len() as int) =~= Seq::<Effect>::empty());
        assert(o0.take(o0.len() as int) =~= o0);
        if index >= self.hosts.len() {
            return;
        }
        let ghost before = self.hosts@;
        let host = self.hosts.remove(index);
        assert(self.hosts@ =~= before.remove(index as int));
        let mut text = String::new();
        push_str(&mut text, "Removed ");
        push_str(&mut text, host.profile.display_name());
        self.info(text);
        out.push(Effect::ForgetSecret { id: host.id });
        out.push(Effect::Persist);
        self.draft = match self.draft.take() {
            Some((p, Some(ed))) => if ed == index {
                None
            } else if ed > index {
                Some((p, Some(ed - 1)))
            } else {
                Some((p, Some(ed)))
            },
            other => other,
        };
        assert(out@.skip(o0.len() as int) =~= seq![
            Effect::ForgetSecret { id: old(self).hosts@[index as int].id },
            Effect::Persist,
        ]);
        assert(out@.take(o0.len() as int) =~= o0);
    }

    /// The directory that `typed` names, for [`Action::CommitPath`].
    fn commit_target_of(typed: &String) -> (t: String)
        ensures
            t@ == commit_target(typed@),
    {
        let v = trim_chars(&chars_of(typed.as_str()));
        if v.len() == 0 {
            let mut t = String::new();
            push_str(&mut t, "/");
            t
        } else {
            string_of(&v)
        }
    }

    /// Applies an action of the interface and returns what the caller has to
    /// carry out, in order.
    #[verifier::rlimit(60)]
    pub fn apply(&mut self, action: Action) -> (e: Vec<Effect>)
        requires
            old(self).wf(),
        ensures
            final(self).wf(),
            old(self).applied(final(self), action, e@),
    {
        let ghost action0 = action;
        let mut out: Vec<Effect> = Vec::new();
        match action {
            Action::NewHost(protocol) => {
                self.draft = Some((ConnectionProfile::new(protocol), None));
            },
            Action::EditHost(index) => {
                if index < self.hosts.len() {
                    self.draft = Some((self.hosts[index].profile.duplicate(), Some(index)));
                }
            },
            Action::DeleteHost(index) => {
                self.delete_host(index, &mut out);
                assert(out@.skip(0) =~= out@);
            },
            Action::CancelEdit => {
                self.draft = None;
            },
            Action::SaveDraft => {
                if self.commit_draft().is_some() {
                    out.push(Effect::Persist);
                    assert(out@ =~= seq![Effect::Persist]);
                }
            },
            Action::SaveDraftAndConnect => {
                match self.commit_draft() {
                    Some(index) => {
                        out.push(Effect::Persist);
                        out.push(Effect::Connect { host: index });
                        assert(out@ =~= seq![Effect::Persist, Effect::Connect { host: index }]);
                    },
                    None => {},
                }
            },
            Action::Connect(index) => {
                self.connect(index, None, &mut out);
                assert(out@.skip(0) =~= out@);
            },
            Action::OpenShell(index) => {
                self.connect(index, Some(Protocol::Ssh), &mut out);
                assert(out@.skip(0) =~= out@);
            },
            Action::Disconnect => {
                self.active = None;
            },
            Action::SelectTab(index) => {
                self.active = match index {
                    Some(i) => if i < self.sessions.len() {
                        Some(i)
                    } else {
                        None
                    },
                    None => None,
                };
            },
            Action::CloseTab(index) => {
                self.close_session(index, &mut out);
                assert(out@.skip(0) =~= out@);
            },
            Action::Navigate(path) => {
                match self.active_index() {
                    Some(i) => {
                        let worker = self.sessions[i].worker;
                        let ghost path0 = path;
                        let command = self.sessions[i].navigate(path);
                        out.push(Effect::Send { worker, command });
                        assert(out@ =~= seq![
                            Effect::Send { worker, command: Command::List { path: path0 } },
                        ]);
                        assert(self.sessions@[i as int]@ =~= (SessionView {
                            loading: true,
                            ..old(self).sessions@[i as int]@
                        }));
                    },
                    None => {},
                }
            },
            Action::ShellBytes(bytes) => {
                match self.active_index() {
                    Some(i) => {
                        if self.sessions[i].terminal.is_some() {
                            let ghost bytes0 = bytes;
                            out.push(
                                Effect::Send {
                                    worker: self.sessions[i].worker,
                                    command: Command::ShellInput(bytes),
                                },
                            );
                            assert(out@ =~= seq![
                                Effect::Send {
                                    worker: self.sessions@[i as int].worker,
                                    command: Command::ShellInput(bytes0),
                                },
                            ]);
                        }
                    },
                    None => {},
                }
            },
            Action::EditPath => {
                match self.active_index() {
                    Some(i) => {
                        let cwd = self.sessions[i].cwd.clone();
                        self.sessions[i].path_edit = Some(cwd);
                        assert(self.sessions@[i as int]@ =~= (SessionView {
                            path_edit: Some(old(self).sessions@[i as int].cwd@),
                            ..old(self).sessions@[i as int]@
                        }));
                    },
                    None => {},
                }
            },
            Action::CommitPath => {
                match self.active_index() {
                    Some(i) => {
                        if self.sessions[i].path_edit.is_some() {
                            let typed = self.sessions[i].path_edit.take().unwrap();
                            let target = Self::commit_target_of(&typed);
                            let worker = self.sessions[i].worker;
                            let command = self.sessions[i].navigate(target);
                            out.push(Effect::Send { worker, command });
                            assert(self.sessions@[i as int]@ =~= (SessionView {
                                path_edit: None,
                                loading: true,
                                ..old(self).sessions@[i as int]@
                            }));
                        }
                    },
                    None => {},
                }
            },
            Action::CancelPath => {
                match self.active_index() {
                    Some(i) => {
                        self.sessions[i].path_edit = None;
                        assert(self.sessions@[i as int]@ =~= (SessionView {
                            path_edit: None,
                            ..old(self).sessions@[i as int]@
                        }));
                    },
                    None => {},
                }
            },
            Action::Refresh => {
                match self.active_index() {
                    Some(i) => {
                        let worker = self.sessions[i].worker;
                        let command = self.sessions[i].refresh();
                        out.push(Effect::Send { worker, command });
                        assert(self.sessions@[i as int]@ =~= (SessionView {
                            loading: true,
                            ..old(self).sessions@[i as int]@
                        }));
                    },
                    None => {},
                }
            },
            Action::ClickRow(index, mods) => {
                match self.active_index() {
                    Some(i) => {
                        self.sessions[i].click_row(index, mods);
                        let ghost cs = clicked_selection(
                            old(self).sessions@[i as int].selection@,
                            old(self).sessions@[i as int].anchor,
                            index,
                            mods,
                        );
                        assert(self.sessions@[i as int]@ =~= (SessionView {
                            selection: cs.0,
                            anchor: cs.1,
                            ..old(self).sessions@[i as int]@
                        }));
                    },
                    None => {},
                }
            },
            Action::OpenRow(index) => {
                match self.active_index() {
                    Some(i) => {
                        if index < self.sessions[i].entries.len()
                            && self.sessions[i].entries[index].is_dir {
                            let path = join_path(
                                self.sessions[i].cwd.as_str(),
                                self.sessions[i].entries[index].name.as_str(),
                            );
                            let worker = self.sessions[i].worker;
                            let command = self.sessions[i].navigate(path);
                            out.push(Effect::Send { worker, command });
                            assert(self.sessions@[i as int]@ =~= (SessionView {
                                loading: true,
                                ..old(self).sessions@[i as int]@
                            }));
                        }
                    },
                    None => {},
                }
            },
            Action::Download => {
                out = self.download_selection();
            },
            Action::Upload => {
                out.push(Effect::ChooseUploads { folders: false });
                assert(out@ =~= seq![Effect::ChooseUploads { folders: false }]);
            },
            Action::UploadFolder => {
                out.push(Effect::ChooseUploads { folders: true });
                assert(out@ =~= seq![Effect::ChooseUploads { folders: true }]);
            },
            Action::DroppedFiles(items) => {
                out = self.upload_paths(items);
            },
            Action::ToggleHistory => {
                self.show_history = !self.show_history;
            },
            Action::ClearHistory => {
                self.history.clear();
            },
            Action::TrustHostKey => {
                match self.pending_host_key.take() {
                    Some(pending) => {
                        if pending.session < self.sessions.len() {
                            out.push(
                                Effect::Send {
                                    worker: self.sessions[pending.session].worker,
                                    command: Command::TrustHostKey,
                                },
                            );
                            assert(out@ =~= seq![
                                Effect::Send {
                                    worker: self.sessions@[pending.session as int].worker,
                                    command: Command::TrustHostKey,
                                },
                            ]);
                            let mut text = String::new();
                            push_str(&mut text, "Trusted the host key for ");
                            push_str(&mut text, pending.host.as_str());
                            self.info(text);
                        }
                    },
                    None => {},
                }
            },
            Action::RejectHostKey => {
                match self.pending_host_key.take() {
                    Some(pending) => {
                        let mut text = String::new();
                        push_str(&mut text, "Refused the host key for ");
                        push_str(&mut text, pending.host.as_str());
                        self.error(text);
                        if pending.session < self.sessions.len() {
                            self.close_session(pending.session, &mut out);
                            assert(out@.skip(0) =~= out@);
                        }
                    },
                    None => {},
                }
            },
            Action::Mkdir => {
                match self.active_index() {
                    Some(i) => {
                        let path = join_path(self.sessions[i].cwd.as_str(), "new-folder");
                        let worker = self.sessions[i].worker;
                        out.push(Effect::Send { worker, command: Command::Mkdir { path } });
                        let command = self.sessions[i].refresh();
                        out.push(Effect::Send { worker, command });
                        assert(self.sessions@[i as int]@ =~= (SessionView {
                            loading: true,
                            ..old(self).sessions@[i as int]@
                        }));
                    },
                    None => {},
                }
            },
            Action::DeleteSelected => {
                out = self.delete_selection();
            },
            Action::ClearLog => {
                self.log.clear();
            },
        }
        out
    }
}

} // verus!
