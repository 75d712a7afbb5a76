use rwinscp::backend::s3_worker::{
    s3_begin, s3_step, S3Action, S3Input, S3Object, S3Request, S3State,
};
use rwinscp::backend::{Command, Event};

fn object(key: &str, size: i64) -> S3Object {
    S3Object { key: Some(key.to_string()), size: Some(size), modified: None }
}

fn page(prefixes: Vec<&str>, objects: Vec<S3Object>, next: Option<&str>) -> S3Input {
    S3Input::Page {
        prefixes: prefixes.into_iter().map(|p| Some(p.to_string())).collect(),
        objects,
        next_token: next.map(str::to_string),
        truncated: Some(next.is_some()),
    }
}

fn start(command: Command) -> S3Input {
    S3Input::Start { command, local_is_dir: false }
}

#[test]
fn s3_worker_connects_then_waits_for_commands() {
    let (state, actions) = s3_begin();
    assert!(matches!(state, S3State::Connecting));
    assert!(matches!(
        &actions[..],
        [S3Action::Send(S3Request::List { prefix, delimited: false, token: None, max_one: true })]
            if prefix.is_empty()
    ));
    let (state, actions) = s3_step(state, page(vec![], vec![], None));
    assert!(matches!(state, S3State::Idle));
    assert!(matches!(&actions[..], [S3Action::Emit(Event::Connected)]));
    let (state, actions) = s3_step(state, S3Input::Hangup);
    assert!(matches!(state, S3State::Closed));
    assert!(matches!(&actions[..], [S3Action::Emit(Event::Disconnected)]));
    let (state, actions) = s3_step(state, start(Command::Disconnect));
    assert!(matches!(state, S3State::Closed));
    assert!(actions.is_empty());
}

#[test]
fn s3_worker_reports_a_failed_connection() {
    let (state, _) = s3_begin();
    let (state, actions) = s3_step(state, S3Input::Failed { message: "denied".to_string() });
    assert!(matches!(state, S3State::Closed));
    assert!(matches!(&actions[..], [S3Action::Emit(Event::ConnectFailed(m))] if m == "denied"));
}

#[test]
fn s3_listing_follows_every_page() {
    let (state, actions) = s3_step(S3State::Idle, start(Command::List { path: "/photos/".to_string() }));
    assert!(matches!(
        &actions[..],
        [S3Action::Send(S3Request::List { prefix, delimited: true, token: None, max_one: false })]
            if prefix == "photos/"
    ));
    let (state, actions) =
        s3_step(state, page(vec!["photos/2021/"], vec![object("photos/a.jpg", 10)], Some("t1")));
    assert!(matches!(
        &actions[..],
        [S3Action::Send(S3Request::List { prefix, delimited: true, token: Some(t), .. })]
            if prefix == "photos/" && t == "t1"
    ));
    let (state, actions) = s3_step(state, page(vec![], vec![object("photos/b.jpg", 20)], None));
    assert!(matches!(state, S3State::Idle));
    match &actions[..] {
        [S3Action::Emit(Event::Listing { path, entries })] => {
            assert_eq!(path, "/photos/");
            let names: Vec<&str> = entries.iter().map(|e| e.name.as_str()).collect();
            assert_eq!(names, vec!["2021", "a.jpg", "b.jpg"]);
            assert!(entries[0].is_dir);
            assert_eq!(entries[2].size, 20);
        }
        _ => panic!("expected the listing"),
    }
}

#[test]
fn s3_download_of_one_object_reports_running_progress() {
    let command =
        Command::Download { remote_path: "/a.txt".to_string(), local_path: "/tmp/a.txt".to_string() };
    let (state, actions) = s3_step(S3State::Idle, start(command));
    assert!(matches!(&actions[..], [S3Action::Send(S3Request::Head { key })] if key == "a.txt"));
    let (state, actions) = s3_step(state, S3Input::Head { found: true });
    assert!(matches!(
        &actions[..],
        [S3Action::Send(S3Request::Get { key, to, make_parents: false })]
            if key == "a.txt" && to == "/tmp/a.txt"
    ));
    let (state, actions) = s3_step(state, S3Input::Opened { length: Some(7) });
    assert!(actions.is_empty());
    let (state, _) = s3_step(state, S3Input::Chunk { len: 3 });
    let (state, actions) = s3_step(state, S3Input::Chunk { len: 4 });
    assert!(matches!(
        &actions[..],
        [S3Action::Emit(Event::Progress { transferred: 7, total: 7, label })] if label == "/a.txt"
    ));
    let (state, actions) = s3_step(state, S3Input::BodyEnd);
    assert!(matches!(state, S3State::Idle));
    assert!(matches!(&actions[..], [S3Action::Emit(Event::TransferDone { label })] if label == "/a.txt"));
}

#[test]
fn s3_download_of_a_folder_fetches_each_object() {
    let command =
        Command::Download { remote_path: "/docs".to_string(), local_path: "/tmp/docs".to_string() };
    let (state, _) = s3_step(S3State::Idle, start(command));
    let (state, actions) = s3_step(state, S3Input::Head { found: false });
    assert!(matches!(
        &actions[..],
        [S3Action::Send(S3Request::List { prefix, delimited: false, max_one: true, .. })]
            if prefix == "docs/"
    ));
    let (state, actions) = s3_step(state, page(vec![], vec![object("docs/x", 1)], None));
    assert!(matches!(
        &actions[..],
        [
            S3Action::Send(S3Request::MakeDir { path }),
            S3Action::Send(S3Request::List { max_one: false, .. }),
        ] if path == "/tmp/docs"
    ));
    let objects = vec![object("docs/", 0), object("docs/x", 1), object("docs/sub/y", 2)];
    let (state, actions) = s3_step(state, page(vec![], objects, None));
    assert!(matches!(
        &actions[..],
        [S3Action::Send(S3Request::Get { key, to, make_parents: true })]
            if key == "docs/x" && to == "/tmp/docs/x"
    ));
    let (state, _) = s3_step(state, S3Input::Opened { length: None });
    let (state, actions) = s3_step(state, S3Input::Chunk { len: 1 });
    assert!(actions.is_empty());
    let (state, actions) = s3_step(state, S3Input::BodyEnd);
    assert!(matches!(
        &actions[..],
        [
            S3Action::Emit(Event::Progress { transferred: 1, total: 1, label }),
            S3Action::Send(S3Request::Get { key, to, .. }),
        ] if label == "docs/x" && key == "docs/sub/y" && to == "/tmp/docs/sub/y"
    ));
    let (state, actions) = s3_step(state, S3Input::BodyEnd);
    assert!(matches!(state, S3State::Idle));
    assert!(matches!(
        &actions[..],
        [
            S3Action::Emit(Event::Progress { transferred: 0, .. }),
            S3Action::Emit(Event::TransferDone { label }),
        ] if label == "/docs"
    ));
}

#[test]
fn s3_failures_end_the_command_with_an_error() {
    let (state, _) = s3_step(S3State::Idle, start(Command::Mkdir { path: "/new".to_string() }));
    let (state, actions) = s3_step(state, S3Input::Failed { message: "no".to_string() });
    assert!(matches!(state, S3State::Idle));
    assert!(matches!(&actions[..], [S3Action::Emit(Event::Error(m))] if m == "no"));
}

#[test]
fn s3_deleting_a_folder_deletes_every_object_page_by_page() {
    let command = Command::Delete { path: "/old".to_string(), is_dir: true };
    let (state, _) = s3_step(S3State::Idle, start(command));
    let (state, actions) = s3_step(state, page(vec![], vec![object("old/a", 1)], Some("t")));
    assert!(matches!(
        &actions[..],
        [
            S3Action::Send(S3Request::Delete { key }),
            S3Action::Send(S3Request::List { token: Some(_), .. }),
        ] if key == "old/a"
    ));
    let (state, actions) = s3_step(state, page(vec![], vec![object("old/b", 1)], None));
    assert!(matches!(&actions[..], [S3Action::Send(S3Request::Delete { key })] if key == "old/b"));
    let (state, actions) = s3_step(state, S3Input::Done);
    assert!(matches!(state, S3State::Idle));
    assert!(actions.is_empty());
}

#[test]
fn s3_rename_copies_then_deletes_the_source() {
    let command = Command::Rename { from: "/a".to_string(), to: "/b".to_string() };
    let (state, actions) = s3_step(S3State::Idle, start(command));
    assert!(matches!(
        &actions[..],
        [S3Action::Send(S3Request::Copy { source_key, key })] if source_key == "a" && key == "b"
    ));
    let (state, actions) = s3_step(state, S3Input::Done);
    assert!(matches!(&actions[..], [S3Action::Send(S3Request::Delete { key })] if key == "a"));
    let (state, _) = s3_step(state, S3Input::Done);
    assert!(matches!(state, S3State::Idle));
}
