use rwinscp::app::{host_color_index, Host};
use rwinscp::connection::{Auth, ConnectionProfile, Protocol};
use rwinscp::store::{
    from_host, id_for, into_host, keychain_step, new_id, protocol_from_name, protocol_name,
    KeychainStep,
};

#[test]
fn protocol_facts() {
    assert_eq!(Protocol::Scp.label(), "SCP");
    assert_eq!(Protocol::S3.default_port(), 443);
    assert_eq!(Protocol::Ftp.default_port(), 21);
    assert!(!Protocol::Ssh.browsable());
    assert!(Protocol::Ftp.browsable());
    assert!(Protocol::S3.is_object_store());
    assert!(!Protocol::Ftp.has_shell());
    assert!(Protocol::Scp.has_shell());
    assert_eq!(Protocol::all().len(), 5);
}

#[test]
fn fresh_profiles() {
    let p = ConnectionProfile::new(Protocol::S3);
    assert_eq!(p.port, 443);
    assert_eq!(p.region, "us-east-1");
    assert_eq!(p.remote_start_dir, "/");
    assert!(matches!(p.auth, Auth::S3Keys { .. }));
    assert!(!p.is_connectable());
    let d = ConnectionProfile::default();
    assert_eq!(d.protocol, Protocol::Sftp);
    assert!(matches!(d.auth, Auth::Password(ref s) if s.is_empty()));
    assert_eq!(Auth::for_protocol(Protocol::Ftp), Auth::Password(String::new()));
}

#[test]
fn names_and_endpoints() {
    let mut p = ConnectionProfile::new(Protocol::Sftp);
    p.host = "example.com".to_owned();
    assert_eq!(p.display_name(), "example.com");
    p.name = "  Work  ".to_owned();
    assert_eq!(p.display_name(), "Work");
    assert_eq!(p.endpoint(), "SFTP \u{b7} example.com:22");
    p.username = "me".to_owned();
    assert_eq!(p.endpoint(), "SFTP \u{b7} me@example.com:22");
    assert!(p.is_connectable());
    let mut s = ConnectionProfile::new(Protocol::S3);
    s.bucket = "photos".to_owned();
    s.name = "   ".to_owned();
    assert_eq!(s.display_name(), "photos");
    assert_eq!(s.endpoint(), "S3 \u{b7} us-east-1/photos");
    assert!(s.is_connectable());
}

#[test]
fn switching_protocol_keeps_fitting_credentials() {
    let mut p = ConnectionProfile::new(Protocol::Sftp);
    p.auth = Auth::KeyFile { path: "~/.ssh/id".to_owned(), passphrase: "pp".to_owned() };
    p.port = 2200;
    p.set_protocol(Protocol::Sftp);
    assert_eq!(p.port, 2200);
    p.set_protocol(Protocol::Scp);
    assert_eq!(p.port, 22);
    assert!(matches!(p.auth, Auth::KeyFile { .. }));
    p.set_protocol(Protocol::S3);
    assert_eq!(p.port, 443);
    assert_eq!(p.auth, Auth::S3Keys { access_key: String::new(), secret_key: String::new() });
    p.set_protocol(Protocol::Ssh);
    assert_eq!(p.auth, Auth::Password(String::new()));
}

#[test]
fn protocol_names_round_trip() {
    for p in Protocol::all() {
        assert_eq!(protocol_from_name(protocol_name(p)), p);
    }
    assert_eq!(protocol_from_name("gopher"), Protocol::Sftp);
}

#[test]
fn a_saved_host_reads_back_with_its_secret() {
    let mut profile = ConnectionProfile::new(Protocol::Scp);
    profile.name = "box".to_owned();
    profile.host = "10.0.0.2".to_owned();
    profile.port = 2022;
    profile.username = "root".to_owned();
    profile.auth = Auth::KeyFile { path: "/k".to_owned(), passphrase: "secret".to_owned() };
    profile.remote_start_dir = "/srv".to_owned();
    let host = Host { id: "host-1".to_owned(), profile, last_used: None };
    let stored = from_host(&host);
    assert_eq!(stored.auth_kind, "key");
    assert_eq!(stored.key_path, "/k");
    assert_eq!(stored.protocol, "scp");
    let back = into_host(stored, "secret".to_owned());
    assert_eq!(back.id, "host-1");
    assert_eq!(back.profile.auth, host.profile.auth);
    assert_eq!(back.profile.port, 2022);
    assert_eq!(back.profile.protocol, Protocol::Scp);
    assert_eq!(back.profile.remote_start_dir, "/srv");
    assert!(back.last_used.is_none());
}

#[test]
fn an_empty_start_directory_reads_as_root() {
    let mut profile = ConnectionProfile::new(Protocol::S3);
    profile.remote_start_dir = String::new();
    profile.auth = Auth::S3Keys { access_key: "AK".to_owned(), secret_key: "SK".to_owned() };
    let host = Host { id: "h".to_owned(), profile, last_used: None };
    let stored = from_host(&host);
    assert_eq!(stored.access_key, "AK");
    let back = into_host(stored, "SK2".to_owned());
    assert_eq!(back.profile.remote_start_dir, "/");
    assert_eq!(back.profile.auth, Auth::S3Keys { access_key: "AK".to_owned(), secret_key: "SK2".to_owned() });
}

#[test]
fn host_ids() {
    assert_eq!(id_for(0), "host-0");
    assert_eq!(id_for(255), "host-ff");
    assert_eq!(id_for(0x1a2b), "host-1a2b");
    assert!(new_id().starts_with("host-"));
}

fn hashed_color(name: &str, n: usize) -> usize {
    let mut hash: i32 = 0;
    for c in name.chars() {
        hash = hash.wrapping_mul(31).wrapping_add(c as i32);
    }
    (hash.unsigned_abs() as usize) % n
}

#[test]
fn host_colours_follow_the_name_hash() {
    for name in ["", "a", "alpha", "production-database-eu-west-1", "\u{e9}t\u{e9}", "zzzzzzzzzzzzzzzz"] {
        assert_eq!(host_color_index(name, 8), hashed_color(name, 8), "{name}");
    }
    assert_eq!(host_color_index("a", 8), 97 % 8);
}

#[test]
fn the_keychain_keeps_only_real_secrets() {
    let mut profile = ConnectionProfile::new(Protocol::Sftp);
    profile.auth = Auth::Password("s3cret".to_string());
    let host = Host { id: "h".to_string(), profile, last_used: None };
    assert!(matches!(keychain_step(&host), KeychainStep::Store(s) if s == "s3cret"));
    let empty = Host { id: "e".to_string(), profile: ConnectionProfile::new(Protocol::Ftp), last_used: None };
    assert!(matches!(keychain_step(&empty), KeychainStep::Forget));
}
