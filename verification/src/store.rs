//! The saved-hosts file: how a host is written to it and read back. The
//! secret of each host lives in the OS keychain, not in the file.
use vstd::prelude::*;

use crate::app::Host;
use crate::clock::nanos_since_epoch;
use crate::connection::{Auth, AuthView, ConnectionProfile, ProfileView, Protocol};
use crate::text::{chars_of, push_str, same_chars};

verus! {

/// One host as the hosts file records it.
pub struct StoredHost {
    pub id: String,
    pub name: String,
    pub protocol: String,
    pub host: String,
    pub port: u16,
    pub username: String,
    pub bucket: String,
    pub region: String,
    pub remote_start_dir: String,
    pub auth_kind: String,
    pub key_path: String,
    pub access_key: String,
}

/// The contents of a [`StoredHost`], as character sequences.
pub struct StoredView {
    pub id: Seq<char>,
    pub name: Seq<char>,
    pub protocol: Seq<char>,
    pub host: Seq<char>,
    pub port: u16,
    pub username: Seq<char>,
    pub bucket: Seq<char>,
    pub region: Seq<char>,
    pub remote_start_dir: Seq<char>,
    pub auth_kind: Seq<char>,
    pub key_path: Seq<char>,
    pub access_key: Seq<char>,
}

impl View for StoredHost {
    type V = StoredView;

    open spec fn view(&self) -> StoredView {
        StoredView {
            id: self.id@,
            name: self.name@,
            protocol: self.protocol@,
            host: self.host@,
            port: self.port,
            username: self.username@,
            bucket: self.bucket@,
            region: self.region@,
            remote_start_dir: self.remote_start_dir@,
            auth_kind: self.auth_kind@,
            key_path: self.key_path@,
            access_key: self.access_key@,
        }
    }
}

pub open spec fn protocol_name_spec(p: Protocol) -> Seq<char> {
    match p {
        Protocol::Ssh => "ssh"@,
        Protocol::Sftp => "sftp"@,
        Protocol::Scp => "scp"@,
        Protocol::Ftp => "ftp"@,
        Protocol::S3 => "s3"@,
    }
}

/// The protocol a name in the file stands for; unknown names read as SFTP.
pub open spec fn protocol_from_name_spec(name: Seq<char>) -> Protocol {
    if name == "ssh"@ {
        Protocol::Ssh
    } else if name == "scp"@ {
        Protocol::Scp
    } else if name == "ftp"@ {
        Protocol::Ftp
    } else if name == "s3"@ {
        Protocol::S3
    } else {
        Protocol::Sftp
    }
}

/// How the file names a protocol.
pub fn protocol_name(protocol: Protocol) -> (s: &'static str)
    ensures
        s@ == protocol_name_spec(protocol),
{
    match protocol {
        Protocol::Ssh => "ssh",
        Protocol::Sftp => "sftp",
        Protocol::Scp => "scp",
        Protocol::Ftp => "ftp",
        Protocol::S3 => "s3",
    }
}

fn is_text(v: &Vec<char>, t: &str) -> (b: bool)
    ensures
        b == (v@ == t@),
{
    let w = chars_of(t);
    same_chars(v, &w)
}

/// The protocol a name in the hosts file stands for.
pub fn protocol_from_name(name: &str) -> (p: Protocol)
    ensures
        p == protocol_from_name_spec(name@),
{
    let v = chars_of(name);
    if is_text(&v, "ssh") {
        Protocol::Ssh
    } else if is_text(&v, "scp") {
        Protocol::Scp
    } else if is_text(&v, "ftp") {
        Protocol::Ftp
    } else if is_text(&v, "s3") {
        Protocol::S3
    } else {
        Protocol::Sftp
    }
}

/// The secret a profile keeps in the keychain: its password, its key's
/// passphrase, or its S3 secret key.
pub open spec fn secret_of(auth: AuthView) -> Seq<char> {
    match auth {
        AuthView::Password(p) => p,
        AuthView::KeyFile { passphrase, .. } => passphrase,
        AuthView::S3Keys { secret_key, .. } => secret_key,
    }
}

/// The secret of a host's credentials, which goes to the keychain.
pub fn host_secret(host: &Host) -> (s: &String)
    ensures
        s@ == secret_of(host.profile.auth@),
{
    match &host.profile.auth {
        Auth::Password(p) => p,
        Auth::KeyFile { passphrase, .. } => passphrase,
        Auth::S3Keys { secret_key, .. } => secret_key,
    }
}

/// What saving a host does in the keychain.
pub enum KeychainStep {
    /// Remove the host's entry: it has no secret to keep.
    Forget,
    /// Store this secret under the host's id.
    Store(String),
}

/// Decides what saving `host` does in the keychain: an empty secret removes
/// its entry, any other is stored.
pub fn keychain_step(host: &Host) -> (r: KeychainStep)
    ensures
        secret_of(host.profile.auth@).len() == 0 ==> r is Forget,
        secret_of(host.profile.auth@).len() > 0 ==> (r matches KeychainStep::Store(s) && s@
            == secret_of(host.profile.auth@)),
{
    let secret = host_secret(host);
    if secret.as_str().unicode_len() == 0 {
        KeychainStep::Forget
    } else {
        KeychainStep::Store(secret.clone())
    }
}

/// What the hosts file records of a host with id `id` and profile `p`.
pub open spec fn stored_of(id: Seq<char>, p: ProfileView) -> StoredView {
    StoredView {
        id,
        name: p.name,
        protocol: protocol_name_spec(p.protocol),
        host: p.host,
        port: p.port,
        username: p.username,
        bucket: p.bucket,
        region: p.region,
        remote_start_dir: p.remote_start_dir,
        auth_kind: match p.auth {
            AuthView::Password(_) => "password"@,
            AuthView::KeyFile { .. } => "key"@,
            AuthView::S3Keys { .. } => "s3"@,
        },
        key_path: match p.auth {
            AuthView::KeyFile { path, .. } => path,
            _ => Seq::empty(),
        },
        access_key: match p.auth {
            AuthView::S3Keys { access_key, .. } => access_key,
            _ => Seq::empty(),
        },
    }
}

/// The profile a file record describes, given the secret the keychain holds
/// for it; an empty start directory reads as `/`.
pub open spec fn profile_of(s: StoredView, secret: Seq<char>) -> ProfileView {
    ProfileView {
        name: s.name,
        protocol: protocol_from_name_spec(s.protocol),
        host: s.host,
        port: s.port,
        username: s.username,
        auth: if s.auth_kind == "key"@ {
            AuthView::KeyFile { path: s.key_path, passphrase: secret }
        } else if s.auth_kind == "s3"@ {
            AuthView::S3Keys { access_key: s.access_key, secret_key: secret }
        } else {
            AuthView::Password(secret)
        },
        bucket: s.bucket,
        region: s.region,
        remote_start_dir: if s.remote_start_dir.len() == 0 {
            "/"@
        } else {
            s.remote_start_dir
        },
    }
}

/// The record the hosts file keeps of `host`.
pub fn from_host(host: &Host) -> (s: StoredHost)
    ensures
        s@ == stored_of(host.id@, host.profile@),
{
    let profile = &host.profile;
    let (auth_kind, key_path, access_key) = match &profile.auth {
        Auth::Password(_) => ("password", String::new(), String::new()),
        Auth::KeyFile { path, .. } => ("key", path.clone(), String::new()),
        Auth::S3Keys { access_key, .. } => ("s3", String::new(), access_key.clone()),
    };
    StoredHost {
        id: host.id.clone(),
        name: profile.name.clone(),
        protocol: String::from_str(protocol_name(profile.protocol)),
        host: profile.host.clone(),
        port: profile.port,
        username: profile.username.clone(),
        bucket: profile.bucket.clone(),
        region: profile.region.clone(),
        remote_start_dir: profile.remote_start_dir.clone(),
        auth_kind: String::from_str(auth_kind),
        key_path,
        access_key,
    }
}

/// The host a file record describes, given the secret the keychain holds
/// for it. A freshly read host has never been connected to.
pub fn into_host(stored: StoredHost, secret: String) -> (h: Host)
    ensures
        h.id@ == stored.id@,
        h.profile@ == profile_of(stored@, secret@),
        h.last_used is None,
{
    let kind = chars_of(stored.auth_kind.as_str());
    let auth = if is_text(&kind, "key") {
        Auth::KeyFile { path: stored.key_path, passphrase: secret }
    } else if is_text(&kind, "s3") {
        Auth::S3Keys { access_key: stored.access_key, secret_key: secret }
    } else {
        Auth::Password(secret)
    };
    let protocol = protocol_from_name(stored.protocol.as_str());
    let start_is_empty = stored.remote_start_dir.as_str().unicode_len() == 0;
    let remote_start_dir = if start_is_empty {
        String::from_str("/")
    } else {
        stored.remote_start_dir
    };
    let profile = ConnectionProfile {
        name: stored.name,
        protocol,
        host: stored.host,
        port: stored.port,
        username: stored.username,
        auth,
        bucket: stored.bucket,
        region: stored.region,
        remote_start_dir,
    };
    Host { id: stored.id, profile, last_used: None }
}

/// Every protocol name the file writes reads back as that protocol.
pub proof fn lemma_protocol_name_round_trip(p: Protocol)
    ensures
        protocol_from_name_spec(protocol_name_spec(p)) == p,
{
    reveal_strlit("ssh");
    reveal_strlit("sftp");
    reveal_strlit("scp");
    reveal_strlit("ftp");
    reveal_strlit("s3");
    assert("ssh"@.len() == 3 && "scp"@.len() == 3 && "ftp"@.len() == 3);
    assert("sftp"@.len() == 4 && "s3"@.len() == 2);
    assert("scp"@[1] != "ssh"@[1]);
    assert("ftp"@[0] != "ssh"@[0]);
    assert("ftp"@[0] != "scp"@[0]);
}

/// Saving a host and loading it back, with the secret the keychain kept for
/// it, gives back the same profile, provided it has a start directory.
pub proof fn lemma_store_round_trip(id: Seq<char>, p: ProfileView)
    requires
        p.remote_start_dir.len() > 0,
    ensures
        profile_of(stored_of(id, p), secret_of(p.auth)) == p,
        stored_of(id, p).id == id,
{
    lemma_protocol_name_round_trip(p.protocol);
    reveal_strlit("password");
    reveal_strlit("key");
    reveal_strlit("s3");
    let back = profile_of(stored_of(id, p), secret_of(p.auth));
    match p.auth {
        AuthView::Password(_) => {
            assert("password"@.len() == 8 && "key"@.len() == 3 && "s3"@.len() == 2);
        },
        AuthView::KeyFile { .. } => {},
        AuthView::S3Keys { .. } => {
            assert("key"@.len() == 3 && "s3"@.len() == 2);
        },
    }
}

/// Lower-case hexadecimal digits of `n`, without leading zeros.
pub open spec fn hex(n: nat) -> Seq<char>
    decreases n,
{
    if n < 16 {
        seq![hex_digit(n)]
    } else {
        hex(n / 16).push(hex_digit(n % 16))
    }
}

pub open spec fn hex_digit(d: nat) -> char {
    if d < 10 {
        ('0' as nat + d) as char
    } else {
        ('a' as nat + (d - 10)) as char
    }
}

fn push_hex(s: &mut String, n: u128)
    ensures
        final(s)@ == old(s)@ + hex(n as nat),
    decreases n,
{
    if n >= 16 {
        push_hex(s, n / 16);
    }
    let d = (n % 16) as u8;
    let c = if d < 10 {
        (48 + d) as char
    } else {
        (97 + (d - 10)) as char
    };
    s.push(c);
    assert(s@ =~= old(s)@ + hex(n as nat));
}

/// The id of a host created `nanos` nanoseconds after the Unix epoch.
pub fn id_for(nanos: u128) -> (s: String)
    ensures
        s@ == "host-"@ + hex(nanos as nat),
{
    let mut s = String::new();
    push_str(&mut s, "host-");
    push_hex(&mut s, nanos);
    s
}

/// A fresh host id, from the wall clock.
pub fn new_id() -> (s: String)
    ensures
        exists|nanos: u128| s@ == "host-"@ + hex(nanos as nat),
{
    let now = std::time::SystemTime::now();
    let nanos = nanos_since_epoch(&now);
    id_for(nanos)
}

} // verus!
