use rwinscp::app::{Host, LogLevel, Status, TransferState};
use rwinscp::backend::{Command, Event, RemoteEntry};
use rwinscp::connection::{Auth, ConnectionProfile, Protocol};
use rwinscp::session::ClickMods;
use rwinscp::state::{Action, App, Effect, LocalItem, HISTORY_CAPACITY, LOG_CAPACITY};
use std::path::PathBuf;

fn host(name: &str, protocol: Protocol, password: &str) -> Host {
    let mut profile = ConnectionProfile::new(protocol);
    profile.name = name.to_string();
    profile.host = format!("{name}.example.com");
    profile.username = "me".to_string();
    profile.auth = Auth::Password(password.to_string());
    Host { id: format!("id-{name}"), profile, last_used: None }
}

fn last_log(app: &App) -> (String, LogLevel) {
    let line = app.log.last().expect("a log line");
    (line.text.clone(), line.level)
}

fn entry(name: &str, is_dir: bool) -> RemoteEntry {
    RemoteEntry { name: name.to_string(), is_dir, size: 1, modified: None }
}

/// A state with one connected SFTP session listing /home.
fn connected_app() -> App {
    let mut app = App::with_hosts(vec![host("alpha", Protocol::Sftp, "pw")]);
    let e = app.apply(Action::Connect(0));
    assert_eq!(e.len(), 1);
    let e = app.poll_worker(vec![vec![
        Event::Connected,
        Event::Listing {
            path: "/home".to_string(),
            entries: vec![entry("b.txt", false), entry("Docs", true), entry("a.txt", false)],
        },
    ]]);
    assert!(matches!(e.last(), Some(Effect::RepaintSoon)));
    app
}

#[test]
fn restoring_hosts_logs_their_number() {
    let app = App::with_hosts(vec![host("a", Protocol::Sftp, "x"), host("b", Protocol::Ftp, "y")]);
    assert_eq!(last_log(&app), ("Restored 2 hosts".to_string(), LogLevel::Info));
    let one = App::with_hosts(vec![host("a", Protocol::Sftp, "x")]);
    assert_eq!(last_log(&one).0, "Restored 1 host");
    assert!(App::with_hosts(Vec::new()).log.is_empty());
}

#[test]
fn the_log_keeps_its_newest_lines() {
    let mut app = App::new();
    for i in 0..(LOG_CAPACITY + 3) {
        app.info(format!("line {i}"));
    }
    assert_eq!(app.log.len(), LOG_CAPACITY);
    assert_eq!(app.log[0].text, "line 3");
    assert_eq!(app.log[LOG_CAPACITY - 1].text, format!("line {}", LOG_CAPACITY + 2));
}

#[test]
fn an_empty_draft_is_refused_and_kept() {
    let mut app = App::new();
    app.apply(Action::NewHost(Protocol::Sftp));
    let e = app.apply(Action::SaveDraft);
    assert!(e.is_empty());
    assert!(app.draft.is_some());
    assert_eq!(
        last_log(&app),
        ("Cannot save: the host or bucket is empty".to_string(), LogLevel::Error)
    );
}

#[test]
fn saving_a_draft_normalises_its_endpoint() {
    let mut app = App::new();
    app.apply(Action::NewHost(Protocol::Sftp));
    if let Some((profile, _)) = app.draft.as_mut() {
        profile.host = "  example.com:2222 ".to_string();
    }
    let e = app.apply(Action::SaveDraft);
    assert!(matches!(e.as_slice(), [Effect::Persist]));
    assert!(app.draft.is_none());
    assert_eq!(app.hosts.len(), 1);
    assert_eq!(app.hosts[0].profile.host, "example.com");
    assert_eq!(app.hosts[0].profile.port, 2222);
    assert!(app.hosts[0].id.starts_with("host-"));

    app.apply(Action::EditHost(0));
    if let Some((profile, _)) = app.draft.as_mut() {
        profile.name = "box".to_string();
    }
    let e = app.apply(Action::SaveDraftAndConnect);
    assert!(matches!(e.as_slice(), [Effect::Persist, Effect::Connect { host: 0 }]));
    assert_eq!(app.hosts.len(), 1);
    assert_eq!(app.hosts[0].profile.name, "box");
}

#[test]
fn a_host_without_its_secret_is_not_connected() {
    let mut app = App::with_hosts(vec![host("alpha", Protocol::Sftp, "")]);
    let e = app.apply(Action::Connect(0));
    assert!(e.is_empty());
    assert!(app.sessions.is_empty());
    let (text, level) = last_log(&app);
    assert_eq!(level, LogLevel::Error);
    assert_eq!(
        text,
        "No stored credentials for alpha -- open its Edit form and enter them again. (Saved hosts keep secrets in the OS keychain, which can refuse to forget them.)"
    );
}

#[test]
fn connecting_spawns_a_worker_once_per_tab() {
    let mut app = App::with_hosts(vec![host("alpha", Protocol::Sftp, "pw")]);
    let e = app.apply(Action::Connect(0));
    match e.as_slice() {
        [Effect::Spawn { worker, profile }] => {
            assert_eq!(*worker, 0);
            assert_eq!(profile.host, "alpha.example.com");
        }
        _ => panic!("expected one spawn"),
    }
    assert_eq!(app.sessions.len(), 1);
    assert_eq!(app.active, Some(0));
    assert_eq!(app.sessions[0].status, Status::Connecting);
    assert!(app.sessions[0].loading);
    assert!(app.sessions[0].terminal.is_none());
    assert!(app.hosts[0].last_used.is_some());
    assert_eq!(
        last_log(&app).0,
        format!("Connecting to {}...", app.sessions[0].profile.endpoint())
    );
    assert_eq!(last_log(&app).0, "Connecting to SFTP \u{b7} me@alpha.example.com:22...");

    app.apply(Action::SelectTab(None));
    let e = app.apply(Action::Connect(0));
    assert!(e.is_empty());
    assert_eq!(app.sessions.len(), 1);
    assert_eq!(app.active, Some(0));

    let e = app.apply(Action::OpenShell(0));
    assert!(matches!(e.as_slice(), [Effect::Spawn { worker: 1, .. }]));
    assert_eq!(app.sessions.len(), 2);
    assert!(app.sessions[1].key.shell);
    assert_eq!(app.sessions[1].profile.protocol, Protocol::Ssh);
    assert!(app.sessions[1].terminal.is_some());
    assert_eq!(app.next_worker, 2);
}

#[test]
fn a_listing_is_sorted_and_resets_the_selection() {
    let app = connected_app();
    let s = &app.sessions[0];
    assert_eq!(s.status, Status::Connected);
    assert_eq!(s.cwd, "/home");
    let names: Vec<&str> = s.entries.iter().map(|e| e.name.as_str()).collect();
    assert_eq!(names, vec!["Docs", "a.txt", "b.txt"]);
    assert!(!s.loading);
    assert!(s.selection.is_empty());
    assert_eq!(app.log[app.log.len() - 1].text, "Connected to alpha");
}

#[test]
fn connecting_lists_the_start_directory() {
    let mut app = App::with_hosts(vec![host("alpha", Protocol::Ftp, "pw")]);
    app.apply(Action::Connect(0));
    let e = app.poll_worker(vec![vec![Event::Connected]]);
    match e.as_slice() {
        [Effect::Send { worker: 0, command: Command::List { path } }, Effect::Repaint] => {
            assert_eq!(path, "/")
        }
        _ => panic!("expected a listing request and a repaint"),
    }
    assert_eq!(last_log(&app), ("Connected to alpha".to_string(), LogLevel::Success));
}

#[test]
fn opening_a_folder_and_typing_a_path_navigate() {
    let mut app = connected_app();
    let e = app.apply(Action::OpenRow(0));
    match e.as_slice() {
        [Effect::Send { command: Command::List { path }, .. }] => assert_eq!(path, "/home/Docs"),
        _ => panic!("expected a listing request"),
    }
    assert!(app.sessions[0].loading);
    let e = app.apply(Action::OpenRow(1));
    assert!(e.is_empty());

    app.apply(Action::EditPath);
    assert_eq!(app.sessions[0].path_edit.as_deref(), Some("/home"));
    app.sessions[0].path_edit = Some("   ".to_string());
    let e = app.apply(Action::CommitPath);
    match e.as_slice() {
        [Effect::Send { command: Command::List { path }, .. }] => assert_eq!(path, "/"),
        _ => panic!("expected a listing request"),
    }
    assert!(app.sessions[0].path_edit.is_none());
    assert!(app.apply(Action::CommitPath).is_empty());
}

#[test]
fn mkdir_creates_and_lists_again() {
    let mut app = connected_app();
    let e = app.apply(Action::Mkdir);
    match e.as_slice() {
        [Effect::Send { command: Command::Mkdir { path }, .. }, Effect::Send { command: Command::List { path: again }, .. }] =>
        {
            assert_eq!(path, "/home/new-folder");
            assert_eq!(again, "/home");
        }
        _ => panic!("expected mkdir and a listing"),
    }
}

#[test]
fn selected_rows_are_downloaded_and_deleted() {
    let mut app = connected_app();
    let plain = ClickMods { shift: false, command: false, ctrl: false };
    let shift = ClickMods { shift: true, command: false, ctrl: false };
    app.apply(Action::ClickRow(1, plain));
    app.apply(Action::ClickRow(2, shift));
    let e = app.apply(Action::Download);
    match e.as_slice() {
        [Effect::ChooseDownloadFolder { targets }] => {
            assert_eq!(
                targets,
                &vec![
                    ("/home/a.txt".to_string(), "a.txt".to_string()),
                    ("/home/b.txt".to_string(), "b.txt".to_string())
                ]
            );
        }
        _ => panic!("expected a folder question"),
    }
    let e = app.apply(Action::DeleteSelected);
    assert_eq!(e.len(), 3);
    assert!(matches!(&e[0], Effect::Send { command: Command::Delete { path, is_dir: false }, .. } if path == "/home/a.txt"));
    assert!(matches!(&e[2], Effect::Send { command: Command::List { path }, .. } if path == "/home"));
}

#[test]
fn downloads_start_three_at_a_time() {
    let mut app = connected_app();
    let targets: Vec<(String, String)> =
        (0..5).map(|i| (format!("/home/f{i}"), format!("f{i}"))).collect();
    let e = app.queue_downloads("/tmp/dl", targets);
    assert_eq!(e.len(), 3);
    for (i, effect) in e.iter().enumerate() {
        match effect {
            Effect::StartTransfer { worker, command: Command::Download { remote_path, local_path }, .. } => {
                assert_eq!(*worker, 1 + i as u64);
                assert_eq!(remote_path, &format!("/home/f{i}"));
                assert_eq!(local_path, &format!("/tmp/dl/f{i}"));
            }
            _ => panic!("expected a started download"),
        }
    }
    assert_eq!(app.jobs.len(), 3);
    assert_eq!(app.queue.len(), 2);
    assert_eq!(app.history.len(), 5);
    assert!(app.show_history);
    assert!(app.history[..3].iter().all(|r| r.state == TransferState::Running));
    assert!(app.history[3..].iter().all(|r| r.state == TransferState::Queued));
    assert_eq!(app.history[0].host, "alpha");

    // The first transfer reports progress, then finishes; the second fails.
    let e = app.poll_transfers(vec![
        vec![
            Event::Progress { transferred: 40, total: 100, label: "/home/f0".to_string() },
            Event::Progress { transferred: 60, total: 100, label: "/home/f0/inner".to_string() },
            Event::TransferDone { label: "/home/f0".to_string() },
        ],
        vec![Event::Error("permission denied".to_string())],
        vec![Event::Progress { transferred: 7, total: 0, label: "/home/f2".to_string() }],
    ]);
    assert_eq!(app.history[0].state, TransferState::Done);
    assert_eq!(app.history[0].bytes, 100);
    assert_eq!(app.history[0].total, Some(100));
    assert_eq!(app.history[1].state, TransferState::Failed);
    assert_eq!(app.history[2].bytes, 7);
    assert_eq!(app.history[2].total, None);
    assert!(matches!(&e[0], Effect::Send { worker: 1, command: Command::Disconnect }));
    assert!(matches!(&e[1], Effect::Send { worker: 2, command: Command::Disconnect }));
    assert!(matches!(&e[2], Effect::StartTransfer { worker: 4, .. }));
    assert!(matches!(&e[3], Effect::StartTransfer { worker: 5, .. }));
    assert!(matches!(e.last(), Some(Effect::Repaint)));
    assert_eq!(app.jobs.len(), 3);
    assert!(app.queue.is_empty());
    let texts: Vec<&str> = app.log.iter().map(|l| l.text.as_str()).collect();
    assert!(texts.contains(&"Finished /home/f0"));
    assert!(texts.contains(&"/home/f1: permission denied"));
}

#[test]
fn the_history_keeps_its_newest_records() {
    let mut app = connected_app();
    let targets: Vec<(String, String)> = (0..(HISTORY_CAPACITY + 2))
        .map(|i| (format!("/home/f{i}"), format!("f{i}")))
        .collect();
    app.queue_downloads("/tmp", targets);
    assert_eq!(app.history.len(), HISTORY_CAPACITY);
    assert_eq!(app.history[0].label, "/home/f2");
    assert_eq!(app.jobs.len(), 3);
    assert!(app.jobs.iter().all(|j| j.record == 0));
    let mut app2 = App::new();
    app2.apply(Action::ClearHistory);
    assert!(app2.history.is_empty());
}

#[test]
fn uploads_skip_names_that_are_not_utf8() {
    let mut app = connected_app();
    let e = app.upload_paths(vec![
        LocalItem { path: PathBuf::from("/x/report.pdf"), name: Some("report.pdf".to_string()), size: Some(10) },
        LocalItem { path: PathBuf::from("/x/bad"), name: None, size: Some(1) },
    ]);
    assert_eq!(e.len(), 1);
    match &e[0] {
        Effect::StartTransfer { command: Command::Upload { local_path, remote_path }, .. } => {
            assert_eq!(local_path, &PathBuf::from("/x/report.pdf"));
            assert_eq!(remote_path, "/home/report.pdf");
        }
        _ => panic!("expected a started upload"),
    }
    assert_eq!(app.history[0].total, Some(10));
    assert!(app
        .log
        .iter()
        .any(|l| l.text == "Skipped 1 item(s) whose names are not valid UTF-8" && l.level == LogLevel::Error));
    assert!(matches!(app.apply(Action::Upload).as_slice(), [Effect::ChooseUploads { folders: false }]));
    assert!(matches!(app.apply(Action::UploadFolder).as_slice(), [Effect::ChooseUploads { folders: true }]));
}

#[test]
fn closing_tabs_moves_the_active_one_left() {
    let mut app = App::with_hosts(vec![
        host("a", Protocol::Sftp, "1"),
        host("b", Protocol::Sftp, "2"),
        host("c", Protocol::Sftp, "3"),
    ]);
    for i in 0..3 {
        app.apply(Action::Connect(i));
    }
    assert_eq!(app.active, Some(2));
    let e = app.apply(Action::CloseTab(2));
    assert!(matches!(e.as_slice(), [Effect::Send { worker: 2, command: Command::Disconnect }]));
    assert_eq!(app.active, Some(1));
    app.apply(Action::SelectTab(Some(0)));
    app.apply(Action::CloseTab(0));
    assert_eq!(app.active, Some(0));
    assert_eq!(app.sessions[0].key.host, 1);
    app.apply(Action::CloseTab(0));
    assert_eq!(app.active, None);
    assert!(app.apply(Action::CloseTab(0)).is_empty());
    app.apply(Action::SelectTab(Some(5)));
    assert_eq!(app.active, None);
}

#[test]
fn failed_and_dropped_sessions_close() {
    let mut app = App::with_hosts(vec![
        host("a", Protocol::Sftp, "1"),
        host("b", Protocol::Sftp, "2"),
        host("c", Protocol::Sftp, "3"),
    ]);
    for i in 0..3 {
        app.apply(Action::Connect(i));
    }
    app.apply(Action::SelectTab(Some(2)));
    app.poll_worker(vec![
        vec![Event::ConnectFailed("refused".to_string()), Event::Disconnected],
        vec![],
        vec![Event::ExecOutput("hello".to_string())],
    ]);
    assert_eq!(app.sessions.len(), 2);
    assert_eq!(app.active, Some(1));
    let texts: Vec<&str> = app.log.iter().map(|l| l.text.as_str()).collect();
    assert!(texts.contains(&"a: refused"));
    assert!(texts.contains(&"a disconnected"));
    assert!(texts.contains(&"hello"));
}

#[test]
fn an_unknown_host_key_is_asked_about_once() {
    let mut app = App::with_hosts(vec![host("a", Protocol::Sftp, "1"), host("b", Protocol::Sftp, "2")]);
    app.apply(Action::Connect(0));
    app.apply(Action::Connect(1));
    let key = |h: &str| Event::HostKeyUnknown {
        host: h.to_string(),
        fingerprint: "SHA256:abc".to_string(),
        key_type: "ssh-ed25519".to_string(),
    };
    app.poll_worker(vec![vec![key("a.example.com")], vec![key("b.example.com")]]);
    let pending = app.pending_host_key.as_ref().expect("a question");
    assert_eq!(pending.session, 0);
    assert_eq!(pending.host, "a.example.com");
    let e = app.apply(Action::TrustHostKey);
    assert!(matches!(e.as_slice(), [Effect::Send { worker: 0, command: Command::TrustHostKey }]));
    assert_eq!(last_log(&app).0, "Trusted the host key for a.example.com");
    assert!(app.pending_host_key.is_none());

    app.poll_worker(vec![vec![], vec![key("b.example.com")]]);
    let e = app.apply(Action::RejectHostKey);
    assert!(matches!(e.as_slice(), [Effect::Send { worker: 1, command: Command::Disconnect }]));
    assert_eq!(app.sessions.len(), 1);
    assert_eq!(
        last_log(&app),
        ("Refused the host key for b.example.com".to_string(), LogLevel::Error)
    );
}

#[test]
fn deleting_a_host_shifts_the_draft() {
    let mut app = App::with_hosts(vec![host("a", Protocol::Sftp, "1"), host("b", Protocol::Sftp, "2")]);
    app.apply(Action::EditHost(1));
    let e = app.apply(Action::DeleteHost(0));
    assert!(matches!(e.as_slice(), [Effect::ForgetSecret { id }, Effect::Persist] if id == "id-a"));
    assert_eq!(app.hosts.len(), 1);
    assert!(matches!(app.draft, Some((_, Some(0)))));
    assert_eq!(last_log(&app).0, "Removed a");
    app.apply(Action::DeleteHost(0));
    assert!(app.draft.is_none());
    assert!(app.apply(Action::DeleteHost(3)).is_empty());
}

#[test]
fn searching_hosts_ignores_case_and_padding() {
    let mut app = App::with_hosts(vec![
        host("Alpha", Protocol::Sftp, "1"),
        host("beta", Protocol::Sftp, "2"),
    ]);
    app.search = "  ALP ".to_string();
    let shown: Vec<usize> = app.visible_hosts().iter().map(|(i, _)| *i).collect();
    assert_eq!(shown, vec![0]);
    app.search = "example".to_string();
    assert_eq!(app.visible_hosts().len(), 2);
    app.search = String::new();
    assert_eq!(app.visible_hosts().len(), 2);
    app.search = "gamma".to_string();
    assert!(app.visible_hosts().is_empty());
}

#[test]
fn the_most_recent_host_is_the_last_used() {
    let mut app = App::with_hosts(vec![
        host("a", Protocol::Sftp, "1"),
        host("b", Protocol::Sftp, "2"),
    ]);
    assert!(app.most_recent().is_none());
    app.apply(Action::Connect(1));
    app.apply(Action::Connect(0));
    let (i, _) = app.most_recent().expect("a recent host");
    assert_eq!(i, 0);
}

#[test]
fn saving_reports_failures() {
    let mut app = App::with_hosts(vec![host("a", Protocol::Sftp, "1"), host("b", Protocol::Sftp, "2")]);
    app.persisted(Some("disk full".to_string()), vec![]);
    assert_eq!(last_log(&app), ("Could not save hosts: disk full".to_string(), LogLevel::Error));
    app.persisted(None, vec![0, 1]);
    assert_eq!(
        last_log(&app).0,
        "Hosts saved, but the keychain refused credentials for a, b; you will be asked for them again"
    );
    let before = app.log.len();
    app.persisted(None, vec![]);
    assert_eq!(app.log.len(), before);
}

#[test]
fn shell_output_reaches_the_terminal() {
    let mut app = App::with_hosts(vec![host("a", Protocol::Ssh, "1")]);
    app.apply(Action::Connect(0));
    let e = app.poll_worker(vec![vec![Event::Connected, Event::ShellOutput("hi\r\n$ ".to_string())]]);
    assert!(matches!(e.as_slice(), [Effect::Repaint]));
    assert_eq!(app.sessions[0].terminal.as_ref().unwrap().output, "hi\n$ ");
    assert!(!app.sessions[0].loading);
    let e = app.apply(Action::ShellBytes("ls\r".to_string()));
    assert!(matches!(e.as_slice(), [Effect::Send { command: Command::ShellInput(b), .. }] if b == "ls\r"));
}

#[test]
fn oversized_shell_output_cut_inside_a_character_is_reported() {
    let mut app = App::with_hosts(vec![host("a", Protocol::Ssh, "1")]);
    app.apply(Action::Connect(0));
    app.sessions[0].terminal.as_mut().unwrap().output = "\u{e9}".repeat(60_001);
    let e = app.poll_worker(vec![vec![Event::ShellOutput("a".to_string())]]);
    assert!(matches!(e.as_slice(), [Effect::TerminalOverflow { worker: 0 }, Effect::Repaint]));
    assert_eq!(app.sessions[0].terminal.as_ref().unwrap().output.len(), 120_002);
}

#[test]
fn toggles_and_clears() {
    let mut app = connected_app();
    app.apply(Action::ToggleHistory);
    assert!(app.show_history);
    app.apply(Action::ClearLog);
    assert!(app.log.is_empty());
    app.apply(Action::Disconnect);
    assert_eq!(app.active, None);
    assert!(app.apply(Action::Refresh).is_empty());
    app.apply(Action::CancelEdit);
    assert!(app.draft.is_none());
}

#[test]
fn the_active_session_can_be_edited_in_place() {
    let mut app = connected_app();
    app.session_mut().expect("an active session").path_edit = Some("/tmp".to_string());
    assert_eq!(app.sessions[0].path_edit.as_deref(), Some("/tmp"));
    app.apply(Action::SelectTab(None));
    assert!(app.session_mut().is_none());
}
