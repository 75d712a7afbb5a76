use rwinscp::backend::ftp::{ftp_password, ftp_step, FtpStep};
use rwinscp::backend::s3::{s3_keys, s3_refusal};
use rwinscp::backend::ssh_sftp_scp::{
    is_dot_name, pump_step, remote_child, sftp_listing, shell_step, ssh_sign_in, ssh_step,
    stops_worker, trust_reply, SftpRecord, ShellStep, SignIn, SshStep,
};
use rwinscp::backend::{Command, Event};
use rwinscp::connection::{Auth, Protocol};
use std::path::PathBuf;

fn download() -> Command {
    Command::Download { remote_path: "/r".to_string(), local_path: "/l".to_string() }
}

fn upload() -> Command {
    Command::Upload { local_path: PathBuf::from("/l"), remote_path: "/r".to_string() }
}

#[test]
fn sftp_profiles_transfer_over_sftp() {
    assert!(matches!(ssh_step(Protocol::Sftp, true, &download()), SshStep::SftpDownload));
    assert!(matches!(ssh_step(Protocol::Sftp, true, &upload()), SshStep::SftpUpload));
    assert!(matches!(
        ssh_step(Protocol::Sftp, false, &download()),
        SshStep::Refuse(m) if m == "this operation requires SFTP"
    ));
}

#[test]
fn scp_profiles_transfer_over_scp() {
    assert!(matches!(ssh_step(Protocol::Scp, false, &download()), SshStep::ScpDownload));
    assert!(matches!(ssh_step(Protocol::Scp, true, &upload()), SshStep::ScpUpload));
}

#[test]
fn other_protocols_cannot_transfer() {
    assert!(matches!(
        ssh_step(Protocol::Ssh, true, &download()),
        SshStep::LocalThenRefuse(m) if m == "SSH cannot transfer files"
    ));
    assert!(matches!(
        ssh_step(Protocol::Ftp, true, &upload()),
        SshStep::LocalThenRefuse(m) if m == "FTP cannot transfer files"
    ));
}

#[test]
fn directory_operations_need_sftp() {
    let list = Command::List { path: "/".to_string() };
    assert!(matches!(ssh_step(Protocol::Scp, true, &list), SshStep::List));
    assert!(matches!(
        ssh_step(Protocol::Scp, false, &Command::Mkdir { path: "/d".to_string() }),
        SshStep::Refuse(m) if m == "this operation requires SFTP"
    ));
    assert!(matches!(
        ssh_step(Protocol::Sftp, true, &Command::Delete { path: "/d".to_string(), is_dir: true }),
        SshStep::Delete
    ));
    assert!(matches!(
        ssh_step(Protocol::Sftp, true, &Command::Exec { command: "ls".to_string() }),
        SshStep::Exec
    ));
    assert!(matches!(
        ssh_step(Protocol::Sftp, true, &Command::ShellInput("x".to_string())),
        SshStep::Refuse(m) if m == "the interactive shell is only available over SSH"
    ));
    assert!(matches!(ssh_step(Protocol::Sftp, true, &Command::Disconnect), SshStep::Nothing));
}

#[test]
fn shell_sessions_take_typed_text_only() {
    assert!(matches!(shell_step(&Command::ShellInput("ls".to_string())), ShellStep::Write));
    assert!(matches!(shell_step(&Command::Disconnect), ShellStep::Stop));
    assert!(matches!(
        shell_step(&Command::List { path: "/".to_string() }),
        ShellStep::Refuse(m) if m == "That operation needs SFTP; this is a shell session"
    ));
    assert!(stops_worker(&Command::Disconnect));
    assert!(!stops_worker(&Command::TrustHostKey));
}

#[test]
fn credentials_fit_their_protocol() {
    assert!(matches!(ssh_sign_in(&Auth::Password("p".to_string())), SignIn::Password));
    assert!(matches!(
        ssh_sign_in(&Auth::KeyFile { path: "k".to_string(), passphrase: String::new() }),
        SignIn::KeyFile
    ));
    let keys = Auth::S3Keys { access_key: "a".to_string(), secret_key: "s".to_string() };
    assert!(matches!(
        ssh_sign_in(&keys),
        SignIn::Refuse(m) if m == "S3 credentials cannot authenticate an SSH session"
    ));
    assert_eq!(ftp_password(&Auth::Password("p".to_string())), Ok("p".to_string()));
    assert_eq!(
        ftp_password(&keys),
        Err("FTP requires username/password authentication".to_string())
    );
    assert_eq!(s3_keys(&keys), Ok(("a".to_string(), "s".to_string())));
    assert_eq!(
        s3_keys(&Auth::Password("p".to_string())),
        Err("S3 requires an access key / secret key pair".to_string())
    );
}

#[test]
fn ftp_has_no_shell() {
    assert!(matches!(ftp_step(&Command::List { path: "/".to_string() }), FtpStep::List));
    assert!(matches!(ftp_step(&download()), FtpStep::Download));
    assert!(matches!(
        ftp_step(&Command::Exec { command: "ls".to_string() }),
        FtpStep::Refuse(m) if m == "FTP has no remote shell"
    ));
    assert!(matches!(ftp_step(&Command::TrustHostKey), FtpStep::Nothing));
}

#[test]
fn s3_has_no_shell() {
    assert_eq!(
        s3_refusal(&Command::ShellInput("x".to_string())),
        Some("S3 has not remote shell".to_string())
    );
    assert_eq!(
        s3_refusal(&Command::Exec { command: "ls".to_string() }),
        Some("S3 has no remote shell".to_string())
    );
    assert_eq!(s3_refusal(&Command::Mkdir { path: "/a".to_string() }), None);
}

fn record(name: Option<&str>, is_dir: bool, size: u64) -> SftpRecord {
    SftpRecord { name: name.map(str::to_string), is_dir, size: Some(size), mtime: None }
}

#[test]
fn an_sftp_listing_keeps_the_named_entries_in_order() {
    let entries = sftp_listing(vec![
        record(Some("."), true, 0),
        record(Some("src"), true, 4096),
        record(None, false, 1),
        record(Some(".."), true, 0),
        record(Some("a.txt"), false, 12),
    ]);
    let names: Vec<&str> = entries.iter().map(|e| e.name.as_str()).collect();
    assert_eq!(names, vec!["src", "a.txt"]);
    assert!(entries[0].is_dir);
    assert_eq!(entries[1].size, 12);
}

#[test]
fn only_a_trust_reply_records_the_host_key() {
    assert_eq!(trust_reply(Some(Command::TrustHostKey), "example.com", 22), Ok("example.com".to_string()));
    assert_eq!(
        trust_reply(Some(Command::TrustHostKey), "example.com", 2222),
        Ok("[example.com]:2222".to_string())
    );
    assert_eq!(trust_reply(Some(Command::Disconnect), "h", 22), Err("host key was not trusted".to_string()));
    assert_eq!(trust_reply(None, "h", 22), Err("host key was not trusted".to_string()));
}

#[test]
fn each_chunk_of_a_copy_reports_the_bytes_so_far() {
    let (moved, event) = pump_step(100, 28, 500, "/f");
    assert_eq!(moved, 128);
    assert!(matches!(event, Event::Progress { transferred: 128, total: 500, label } if label == "/f"));
    let (moved, _) = pump_step(u64::MAX - 1, 5, 0, "/f");
    assert_eq!(moved, u64::MAX);
}

#[test]
fn folder_copies_name_children_and_skip_dots() {
    assert_eq!(remote_child("/home/me//", "a.txt"), "/home/me/a.txt");
    assert_eq!(remote_child("/", "etc"), "/etc");
    assert_eq!(remote_child("", "x"), "/x");
    assert!(is_dot_name("."));
    assert!(is_dot_name(".."));
    assert!(!is_dot_name("..."));
    assert!(!is_dot_name(".hidden"));
}
