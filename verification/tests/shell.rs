use rwinscp::backend::lifecycle::{life_step, LifeInput, WorkerLife};
use rwinscp::backend::shell::{shell_begin, shell_tick, ShellAction, ShellInput, ShellPhase};
use rwinscp::backend::{Command, Event};

#[test]
fn typed_text_is_written_until_the_channel_takes_it_all() {
    let (state, actions) = shell_begin();
    assert!(matches!(&actions[..], [ShellAction::ReceiveCommand]));
    let command = Command::ShellInput("ls\n".to_string());
    let (state, actions) = shell_tick(state, ShellInput::Command { command, now: 100 });
    assert!(matches!(&actions[..], [ShellAction::Write { bytes }] if bytes == b"ls\n"));
    assert!(matches!(state.phase, ShellPhase::Writing { deadline: 5100, .. }));
    let (state, actions) = shell_tick(state, ShellInput::Wrote { n: 1 });
    assert!(matches!(&actions[..], [ShellAction::Write { bytes }] if bytes == b"s\n"));
    let (state, actions) = shell_tick(state, ShellInput::WouldBlock { now: 200 });
    assert!(matches!(
        &actions[..],
        [ShellAction::Sleep { millis: 5 }, ShellAction::Write { bytes }] if bytes == b"s\n"
    ));
    let (state, actions) = shell_tick(state, ShellInput::Wrote { n: 2 });
    assert!(matches!(state.phase, ShellPhase::Commands));
    assert!(matches!(&actions[..], [ShellAction::ReceiveCommand]));
}

#[test]
fn a_write_that_blocks_past_five_seconds_is_given_up() {
    let (state, _) = shell_begin();
    let command = Command::ShellInput("x".to_string());
    let (state, _) = shell_tick(state, ShellInput::Command { command, now: 0 });
    let (state, actions) = shell_tick(state, ShellInput::WouldBlock { now: 5000 });
    assert!(matches!(&actions[..], [ShellAction::Sleep { .. }, ShellAction::Write { .. }]));
    let (state, actions) = shell_tick(state, ShellInput::WouldBlock { now: 5001 });
    assert!(matches!(state.phase, ShellPhase::Commands));
    assert!(matches!(&actions[..], [ShellAction::ReceiveCommand]));
}

#[test]
fn a_write_error_ends_the_shell_once_no_command_waits() {
    let (state, _) = shell_begin();
    let command = Command::ShellInput("x".to_string());
    let (state, _) = shell_tick(state, ShellInput::Command { command, now: 0 });
    let (state, actions) = shell_tick(state, ShellInput::WriteFailed { message: "broken".to_string() });
    assert!(matches!(&actions[..], [ShellAction::ReceiveCommand]));
    let (state, actions) = shell_tick(state, ShellInput::NoCommand);
    assert!(matches!(state.phase, ShellPhase::Ended));
    assert!(matches!(&actions[..], [ShellAction::Finish(Some(m))] if m == "broken"));
}

#[test]
fn the_shell_reads_reports_and_pauses_when_idle() {
    let (state, _) = shell_begin();
    let (state, actions) = shell_tick(state, ShellInput::NoCommand);
    assert!(matches!(&actions[..], [ShellAction::Read]));
    let (state, actions) = shell_tick(state, ShellInput::Output { text: "hi".to_string() });
    assert!(matches!(
        &actions[..],
        [ShellAction::Emit(Event::ShellOutput(t)), ShellAction::ReceiveCommand] if t == "hi"
    ));
    let (state, _) = shell_tick(state, ShellInput::NoCommand);
    let (state, actions) = shell_tick(state, ShellInput::ReadBlocked);
    assert!(matches!(&actions[..], [ShellAction::Sleep { millis: 20 }, ShellAction::ReceiveCommand]));
    let (state, actions) = shell_tick(state, ShellInput::Command { command: Command::Mkdir { path: "/a".to_string() }, now: 0 });
    assert!(matches!(
        &actions[..],
        [ShellAction::Emit(Event::Error(m)), ShellAction::ReceiveCommand]
            if m == "That operation needs SFTP; this is a shell session"
    ));
    let (state, _) = shell_tick(state, ShellInput::NoCommand);
    let (state, actions) = shell_tick(state, ShellInput::ReadNothing { eof: true });
    assert!(matches!(state.phase, ShellPhase::Ended));
    assert!(matches!(&actions[..], [ShellAction::Finish(None)]));
    let (_, actions) = shell_tick(state, ShellInput::NoCommand);
    assert!(actions.is_empty());
}

#[test]
fn a_worker_reports_connected_first_and_disconnected_last() {
    let (life, events) = life_step(WorkerLife::Connecting, LifeInput::ConnectOk);
    assert!(matches!(&events[..], [Event::Connected]));
    let (life, events) =
        life_step(life, LifeInput::Handled { error: Some("nope".to_string()), disconnect: false });
    assert!(matches!(&events[..], [Event::Error(m)] if m == "nope"));
    let (life, events) = life_step(life, LifeInput::Handled { error: None, disconnect: true });
    assert!(matches!(life, WorkerLife::Closed));
    assert!(matches!(&events[..], [Event::Disconnected]));
    let (_, events) = life_step(life, LifeInput::Hangup);
    assert!(events.is_empty());
}

#[test]
fn a_worker_that_cannot_connect_reports_only_that() {
    let (life, events) =
        life_step(WorkerLife::Connecting, LifeInput::ConnectErr { message: "refused".to_string() });
    assert!(matches!(life, WorkerLife::Closed));
    assert!(matches!(&events[..], [Event::ConnectFailed(m)] if m == "refused"));
}

#[test]
fn an_ended_shell_reports_its_error_then_disconnects() {
    let (life, _) = life_step(WorkerLife::Connecting, LifeInput::ConnectOk);
    let (life, events) = life_step(life, LifeInput::ShellEnded { error: Some("eof".to_string()) });
    assert!(matches!(life, WorkerLife::Closed));
    assert!(matches!(&events[..], [Event::Error(m), Event::Disconnected] if m == "eof"));
}
