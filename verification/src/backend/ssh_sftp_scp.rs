//! SSH, SFTP and SCP: how a worker carries out each command, host-key
//! fingerprints, known-hosts entries, and the directory entries an SFTP
//! listing produces.
use vstd::prelude::*;

use crate::backend::{
    entries_view, opt_text, utc_minute_text, utc_minutes, Command, EntryView, Event, RemoteEntry,
};
use crate::connection::{Auth, Protocol};
use crate::text::{
    chars_of, dec, push_all, push_dec, push_str, slice_of, trailing_char_cut, trim_end_char,
};

verus! {

/// The base64 alphabet: `A`-`Z`, `a`-`z`, `0`-`9`, `+`, `/`.
pub open spec fn b64_char(i: nat) -> char {
    if i < 26 {
        ('A' as nat + i) as char
    } else if i < 52 {
        ('a' as nat + (i - 26)) as char
    } else if i < 62 {
        ('0' as nat + (i - 52)) as char
    } else if i == 62 {
        '+'
    } else {
        '/'
    }
}

/// The four base64 characters of three bytes.
pub open spec fn b64_group(b0: nat, b1: nat, b2: nat) -> Seq<char> {
    let n = b0 * 65536 + b1 * 256 + b2;
    seq![b64_char(n / 262144 % 64), b64_char(n / 4096 % 64), b64_char(n / 64 % 64), b64_char(n % 64)]
}

/// Standard base64 of `bytes`, without `=` padding.
pub open spec fn base64_spec(bytes: Seq<u8>) -> Seq<char>
    decreases bytes.len(),
{
    if bytes.len() == 0 {
        Seq::empty()
    } else if bytes.len() == 1 {
        b64_group(bytes[0] as nat, 0, 0).take(2)
    } else if bytes.len() == 2 {
        b64_group(bytes[0] as nat, bytes[1] as nat, 0).take(3)
    } else {
        b64_group(bytes[0] as nat, bytes[1] as nat, bytes[2] as nat) + base64_spec(bytes.skip(3))
    }
}

/// Unpadded base64 turns every 3 bytes into 4 characters, and a trailing
/// 1 or 2 bytes into 2 or 3.
pub proof fn lemma_base64_len(bytes: Seq<u8>)
    ensures
        base64_spec(bytes).len() == (4 * bytes.len() + 2) / 3,
    decreases bytes.len(),
{
    if bytes.len() >= 3 {
        lemma_base64_len(bytes.skip(3));
    }
}

fn b64_char_exec(i: u32) -> (c: char)
    requires
        i < 64,
    ensures
        c == b64_char(i as nat),
{
    if i < 26 {
        ((65 + i) as u8) as char
    } else if i < 52 {
        ((97 + (i - 26)) as u8) as char
    } else if i < 62 {
        ((48 + (i - 52)) as u8) as char
    } else if i == 62 {
        '+'
    } else {
        '/'
    }
}

/// Unpadded standard base64, as OpenSSH prints key fingerprints.
#[verifier::rlimit(50)]
pub fn base64_no_pad(bytes: &[u8]) -> (s: String)
    ensures
        s@ == base64_spec(bytes@),
        s@.len() == (4 * bytes@.len() + 2) / 3,
{
    let mut s = String::new();
    let mut i: usize = 0;
    assert(bytes@.skip(0) =~= bytes@);
    while i < bytes.len()
        invariant
            i <= bytes.len(),
            base64_spec(bytes@) == s@ + base64_spec(bytes@.skip(i as int)),
        decreases bytes.len() - i,
    {
        let left = bytes.len() - i;
        let b0 = bytes[i] as u32;
        let b1 = if left > 1 {
            bytes[i + 1] as u32
        } else {
            0
        };
        let b2 = if left > 2 {
            bytes[i + 2] as u32
        } else {
            0
        };
        let n: u32 = b0 * 65536 + b1 * 256 + b2;
        let ghost group = b64_group(b0 as nat, b1 as nat, b2 as nat);
        let ghost rest = bytes@.skip(i as int);
        let ghost before = s@;
        s.push(b64_char_exec(n / 262144 % 64));
        s.push(b64_char_exec(n / 4096 % 64));
        if left > 1 {
            s.push(b64_char_exec(n / 64 % 64));
        }
        if left > 2 {
            s.push(b64_char_exec(n % 64));
        }
        if left >= 3 {
            assert(rest[0] == bytes@[i as int] && rest[1] == bytes@[i + 1] && rest[2]
                == bytes@[i + 2]);
            assert(rest.skip(3) =~= bytes@.skip(i + 3));
            assert(s@ =~= before + group);
            i = i + 3;
        } else {
            if left == 2 {
                assert(s@ =~= before + group.take(3));
            } else {
                assert(s@ =~= before + group.take(2));
            }
            assert(bytes@.skip(bytes.len() as int) =~= Seq::<u8>::empty());
            i = bytes.len();
        }
    }
    proof {
        lemma_base64_len(bytes@);
    }
    s
}

/// `SHA256:` and the unpadded base64 of the host key's hash, or
/// `unavailable` when the server gave none.
pub open spec fn fingerprint_spec(hash: Option<Seq<u8>>) -> Seq<char> {
    match hash {
        Some(h) => "SHA256:"@ + base64_spec(h),
        None => "unavailable"@,
    }
}

/// The fingerprint shown when asking whether to trust a host key.
pub fn fingerprint_text(hash: Option<&[u8]>) -> (s: String)
    ensures
        s@ == fingerprint_spec(
            match hash {
                Some(h) => Some(h@),
                None => None,
            },
        ),
{
    match hash {
        Some(h) => {
            let mut s = String::new();
            push_str(&mut s, "SHA256:");
            let b = base64_no_pad(h);
            push_str(&mut s, b.as_str());
            s
        },
        None => String::from_str("unavailable"),
    }
}

/// How `~/.ssh/known_hosts` names a host: bare on port 22, else `[host]:port`.
pub open spec fn known_host_entry_spec(host: Seq<char>, port: u16) -> Seq<char> {
    if port == 22 {
        host
    } else {
        seq!['['] + host + "]:"@ + dec(port as nat)
    }
}

/// The name under which a newly trusted key is recorded.
pub fn known_host_entry(host: &str, port: u16) -> (s: String)
    ensures
        s@ == known_host_entry_spec(host@, port),
{
    if port == 22 {
        return String::from_str(host);
    }
    let mut s = String::new();
    s.push('[');
    push_str(&mut s, host);
    push_str(&mut s, "]:");
    push_dec(&mut s, port as u128);
    assert(s@ =~= seq!['['] + host@ + "]:"@ + dec(port as nat));
    s
}

/// The kinds of host key a server can present.
#[derive(Debug, Clone, Copy, PartialEq, Eq, Structural)]
pub enum HostKeyKind {
    Rsa,
    Dss,
    Ecdsa256,
    Ecdsa384,
    Ecdsa521,
    Ed25519,
    Unknown,
}

impl HostKeyKind {
    pub open spec fn name_spec(self) -> Seq<char> {
        match self {
            HostKeyKind::Rsa => "ssh-rsa"@,
            HostKeyKind::Dss => "ssh-dss"@,
            HostKeyKind::Ecdsa256 => "ecdsa-sha2-nistp256"@,
            HostKeyKind::Ecdsa384 => "ecdsa-sha2-nistp384"@,
            HostKeyKind::Ecdsa521 => "ecdsa-sha2-nistp521"@,
            HostKeyKind::Ed25519 => "ssh-ed25519"@,
            HostKeyKind::Unknown => "unknown"@,
        }
    }
}

/// The OpenSSH name of a host key type.
pub fn describe_key_type(kind: HostKeyKind) -> (s: String)
    ensures
        s@ == kind.name_spec(),
{
    let name = match kind {
        HostKeyKind::Rsa => "ssh-rsa",
        HostKeyKind::Dss => "ssh-dss",
        HostKeyKind::Ecdsa256 => "ecdsa-sha2-nistp256",
        HostKeyKind::Ecdsa384 => "ecdsa-sha2-nistp384",
        HostKeyKind::Ecdsa521 => "ecdsa-sha2-nistp521",
        HostKeyKind::Ed25519 => "ssh-ed25519",
        HostKeyKind::Unknown => "unknown",
    };
    String::from_str(name)
}

/// How a worker of the SSH family carries out a command.
pub enum SshStep {
    /// List the directory over SFTP.
    List,
    /// Download over SFTP: the whole tree when the remote path is a
    /// directory, else the file.
    SftpDownload,
    /// Upload over SFTP: the whole tree when the local path is a directory,
    /// else the file.
    SftpUpload,
    /// Create the local file, then receive the remote one over SCP.
    ScpDownload,
    /// Open the local file, then send it over SCP.
    ScpUpload,
    /// Create the directory over SFTP.
    Mkdir,
    /// Remove the file or directory over SFTP.
    Delete,
    /// Rename over SFTP.
    Rename,
    /// Run the command on a channel of its own and report its output.
    Exec,
    /// Fail with this message.
    Refuse(String),
    /// Create (for a download) or open (for an upload) the local file, then
    /// fail with this message.
    LocalThenRefuse(String),
    /// Nothing to do.
    Nothing,
}

pub open spec fn needs_sftp_message() -> Seq<char> {
    "this operation requires SFTP"@
}

pub open spec fn no_transfer_message(protocol: Protocol) -> Seq<char> {
    protocol.label_spec() + " cannot transfer files"@
}

pub open spec fn shell_only_message() -> Seq<char> {
    "the interactive shell is only available over SSH"@
}

/// `r` refuses with `message`.
pub open spec fn refuses(r: SshStep, message: Seq<char>) -> bool {
    r matches SshStep::Refuse(m) && m@ == message
}

/// Decides how a worker for `protocol` carries out `cmd`, given whether an
/// SFTP channel could be opened on its connection: directory operations
/// need SFTP; transfers go over SFTP for SFTP profiles and over SCP for SCP
/// profiles, and other protocols cannot transfer; the shell belongs to SSH
/// sessions.
pub fn ssh_step(protocol: Protocol, has_sftp: bool, cmd: &Command) -> (r: SshStep)
    ensures
        match *cmd {
            Command::List { .. } => if has_sftp {
                r is List
            } else {
                refuses(r, needs_sftp_message())
            },
            Command::Mkdir { .. } => if has_sftp {
                r is Mkdir
            } else {
                refuses(r, needs_sftp_message())
            },
            Command::Delete { .. } => if has_sftp {
                r is Delete
            } else {
                refuses(r, needs_sftp_message())
            },
            Command::Rename { .. } => if has_sftp {
                r is Rename
            } else {
                refuses(r, needs_sftp_message())
            },
            Command::Download { .. } => if protocol == Protocol::Sftp {
                if has_sftp {
                    r is SftpDownload
                } else {
                    refuses(r, needs_sftp_message())
                }
            } else if protocol == Protocol::Scp {
                r is ScpDownload
            } else {
                r matches SshStep::LocalThenRefuse(m) && m@ == no_transfer_message(protocol)
            },
            Command::Upload { .. } => if protocol == Protocol::Sftp {
                if has_sftp {
                    r is SftpUpload
                } else {
                    refuses(r, needs_sftp_message())
                }
            } else if protocol == Protocol::Scp {
                r is ScpUpload
            } else {
                r matches SshStep::LocalThenRefuse(m) && m@ == no_transfer_message(protocol)
            },
            Command::Exec { .. } => r is Exec,
            Command::ShellInput(_) => refuses(r, shell_only_message()),
            Command::TrustHostKey => r is Nothing,
            Command::Disconnect => r is Nothing,
        },
{
    let needs = |step: SshStep| -> (r: SshStep)
        ensures
            has_sftp ==> r == step,
            !has_sftp ==> refuses(r, needs_sftp_message()),
        {
            if has_sftp {
                step
            } else {
                SshStep::Refuse(String::from_str("this operation requires SFTP"))
            }
        };
    match cmd {
        Command::List { .. } => needs(SshStep::List),
        Command::Mkdir { .. } => needs(SshStep::Mkdir),
        Command::Delete { .. } => needs(SshStep::Delete),
        Command::Rename { .. } => needs(SshStep::Rename),
        Command::Download { .. } => if protocol == Protocol::Sftp {
            needs(SshStep::SftpDownload)
        } else if protocol == Protocol::Scp {
            SshStep::ScpDownload
        } else {
            let mut m = String::new();
            push_str(&mut m, protocol.label());
            push_str(&mut m, " cannot transfer files");
            SshStep::LocalThenRefuse(m)
        },
        Command::Upload { .. } => if protocol == Protocol::Sftp {
            needs(SshStep::SftpUpload)
        } else if protocol == Protocol::Scp {
            SshStep::ScpUpload
        } else {
            let mut m = String::new();
            push_str(&mut m, protocol.label());
            push_str(&mut m, " cannot transfer files");
            SshStep::LocalThenRefuse(m)
        },
        Command::Exec { .. } => SshStep::Exec,
        Command::ShellInput(_) => SshStep::Refuse(
            String::from_str("the interactive shell is only available over SSH"),
        ),
        Command::TrustHostKey => SshStep::Nothing,
        Command::Disconnect => SshStep::Nothing,
    }
}

/// What an interactive shell session does with a command.
pub enum ShellStep {
    /// Write the typed text to the shell.
    Write,
    /// Close the shell.
    Stop,
    /// Report this error and go on.
    Refuse(String),
}

pub open spec fn needs_sftp_shell_message() -> Seq<char> {
    "That operation needs SFTP; this is a shell session"@
}

/// Decides what an interactive shell session does with `cmd`: typed text
/// goes to the shell, a disconnection closes it, and anything else is
/// refused.
pub fn shell_step(cmd: &Command) -> (r: ShellStep)
    ensures
        match *cmd {
            Command::ShellInput(_) => r is Write,
            Command::Disconnect => r is Stop,
            _ => r matches ShellStep::Refuse(m) && m@ == needs_sftp_shell_message(),
        },
{
    match cmd {
        Command::ShellInput(_) => ShellStep::Write,
        Command::Disconnect => ShellStep::Stop,
        _ => ShellStep::Refuse(String::from_str("That operation needs SFTP; this is a shell session")),
    }
}

/// How an SSH connection signs in with `auth`, or why it cannot.
pub enum SignIn {
    Password,
    KeyFile,
    Refuse(String),
}

/// Decides how an SSH connection authenticates: with the password, with the
/// key file (and its passphrase, when one is set), and never with S3 keys.
pub fn ssh_sign_in(auth: &Auth) -> (r: SignIn)
    ensures
        match *auth {
            Auth::Password(_) => r is Password,
            Auth::KeyFile { .. } => r is KeyFile,
            Auth::S3Keys { .. } => r matches SignIn::Refuse(m) && m@
                == "S3 credentials cannot authenticate an SSH session"@,
        },
{
    match auth {
        Auth::Password(_) => SignIn::Password,
        Auth::KeyFile { .. } => SignIn::KeyFile,
        Auth::S3Keys { .. } => SignIn::Refuse(
            String::from_str("S3 credentials cannot authenticate an SSH session"),
        ),
    }
}

/// Whether a worker stops after carrying out `cmd`.
pub fn stops_worker(cmd: &Command) -> (b: bool)
    ensures
        b == (*cmd is Disconnect),
{
    match cmd {
        Command::Disconnect => true,
        _ => false,
    }
}

/// What checking a presented key against `known_hosts` found.
#[derive(Debug, Clone, Copy, PartialEq, Eq, Structural)]
pub enum KnownHostCheck {
    Match,
    Mismatch,
    NotFound,
    Failure,
}

/// What to do about a presented host key.
pub enum HostKeyStep {
    /// The key is the one on record: go on.
    Accept,
    /// The user has to decide whether to trust this new key.
    Ask,
    /// Stop, with this message.
    Refuse(String),
}

pub open spec fn mismatch_message(host: Seq<char>, port: u16) -> Seq<char> {
    "HOST KEY CHANGED FOR "@ + host + ":"@ + dec(port as nat)
        + ". The server is not the one previously trusted! If you did not just rebuild it, someone may be intercepting the connection! Remove the old entry from ~/.ssh/known_hosts only if you are certain!"@
}

/// Decides, from a known-hosts check, whether the connection may go on: a
/// recorded key goes on, an unknown key is put to the user, and a changed
/// key or a failed check stops the connection.
pub fn host_key_step(check: KnownHostCheck, host: &str, port: u16) -> (r: HostKeyStep)
    ensures
        (r is Accept) <==> check == KnownHostCheck::Match,
        (r is Ask) <==> check == KnownHostCheck::NotFound,
        check == KnownHostCheck::Mismatch ==> (r matches HostKeyStep::Refuse(m) && m@
            == mismatch_message(host@, port)),
        check == KnownHostCheck::Failure ==> (r matches HostKeyStep::Refuse(m) && m@
            == "could not check the host key"@),
{
    match check {
        KnownHostCheck::Match => HostKeyStep::Accept,
        KnownHostCheck::NotFound => HostKeyStep::Ask,
        KnownHostCheck::Failure => HostKeyStep::Refuse(String::from_str("could not check the host key")),
        KnownHostCheck::Mismatch => {
            let mut m = String::new();
            push_str(&mut m, "HOST KEY CHANGED FOR ");
            push_str(&mut m, host);
            push_str(&mut m, ":");
            push_dec(&mut m, port as u128);
            push_str(
                &mut m,
                ". The server is not the one previously trusted! If you did not just rebuild it, someone may be intercepting the connection! Remove the old entry from ~/.ssh/known_hosts only if you are certain!",
            );
            HostKeyStep::Refuse(m)
        },
    }
}

/// A Unix modification time as `YYYY-MM-DD HH:MM` (UTC), empty when it
/// cannot be represented.
pub fn format_unix_time(secs: u64) -> (s: String)
    ensures
        s@ == match utc_minute_text(secs as i64) {
            Some(t) => t,
            None => Seq::empty(),
        },
{
    match utc_minutes(secs as i64) {
        Some(t) => t,
        None => String::new(),
    }
}

/// The entry an SFTP `readdir` result describes, or nothing for a path
/// without a final name and for `.` and `..`.
pub open spec fn sftp_entry_spec(
    name: Option<Seq<char>>,
    is_dir: bool,
    size: Option<u64>,
    mtime: Option<u64>,
) -> Option<EntryView> {
    match name {
        None => None,
        Some(n) => if n == seq!['.'] || n == seq!['.', '.'] {
            None
        } else {
            Some(
                EntryView {
                    name: n,
                    is_dir,
                    size: match size {
                        Some(s) => s,
                        None => 0,
                    },
                    modified: match mtime {
                        Some(t) => Some(
                            match utc_minute_text(t as i64) {
                                Some(x) => x,
                                None => Seq::empty(),
                            },
                        ),
                        None => None,
                    },
                },
            )
        },
    }
}

/// Turns one SFTP directory record (final name, whether it is a directory,
/// size, modification time) into a listing entry.
pub fn sftp_entry(name: Option<String>, is_dir: bool, size: Option<u64>, mtime: Option<u64>) -> (r:
    Option<RemoteEntry>)
    ensures
        r matches Some(e) ==> sftp_entry_spec(opt_text(name), is_dir, size, mtime) == Some(e@),
        r is None ==> sftp_entry_spec(opt_text(name), is_dir, size, mtime) is None,
{
    let name = match name {
        Some(n) => n,
        None => return None,
    };
    let v = chars_of(name.as_str());
    if (v.len() == 1 && v[0] == '.') || (v.len() == 2 && v[0] == '.' && v[1] == '.') {
        assert(v@.len() == 1 && v@[0] == '.' ==> v@ =~= seq!['.']);
        assert(v@.len() == 2 && v@[0] == '.' && v@[1] == '.' ==> v@ =~= seq!['.', '.']);
        return None;
    }
    assert(name@ != seq!['.']) by {
        if name@ == seq!['.'] {
            assert(v@.len() == 1 && v@[0] == '.');
        }
    }
    assert(name@ != seq!['.', '.']) by {
        if name@ == seq!['.', '.'] {
            assert(v@.len() == 2 && v@[0] == '.' && v@[1] == '.');
        }
    }
    let size = match size {
        Some(s) => s,
        None => 0,
    };
    let modified = match mtime {
        Some(t) => Some(format_unix_time(t)),
        None => None,
    };
    Some(RemoteEntry { name, is_dir, size, modified })
}

/// One record of an SFTP directory read: the entry's name (when it is valid
/// text), whether it is a folder, its size and its modification time.
pub struct SftpRecord {
    pub name: Option<String>,
    pub is_dir: bool,
    pub size: Option<u64>,
    pub mtime: Option<u64>,
}

/// The entries that the records of an SFTP directory read describe, in
/// order; `.`, `..` and unnamed records are left out.
pub open spec fn sftp_entries(rs: Seq<SftpRecord>) -> Seq<EntryView>
    decreases rs.len(),
{
    if rs.len() == 0 {
        Seq::empty()
    } else {
        let prev = sftp_entries(rs.drop_last());
        let r = rs.last();
        match sftp_entry_spec(opt_text(r.name), r.is_dir, r.size, r.mtime) {
            Some(e) => prev.push(e),
            None => prev,
        }
    }
}

/// The listing an SFTP directory read gives.
pub fn sftp_listing(records: Vec<SftpRecord>) -> (r: Vec<RemoteEntry>)
    ensures
        entries_view(r@) == sftp_entries(records@),
{
    let mut out: Vec<RemoteEntry> = Vec::new();
    let mut i: usize = 0;
    assert(records@.take(0) =~= Seq::<SftpRecord>::empty());
    assert(entries_view(out@) =~= Seq::<EntryView>::empty());
    while i < records.len()
        invariant
            i <= records@.len(),
            entries_view(out@) == sftp_entries(records@.take(i as int)),
        decreases records@.len() - i,
    {
        assert(records@.take(i + 1).drop_last() =~= records@.take(i as int));
        assert(records@.take(i + 1).last() == records@[i as int]);
        let rec = &records[i];
        match sftp_entry(rec.name.clone(), rec.is_dir, rec.size, rec.mtime) {
            Some(e) => {
                let ghost before = out@;
                out.push(e);
                assert(entries_view(out@) =~= entries_view(before).push(e@));
            },
            None => {},
        }
        i = i + 1;
    }
    assert(records@.take(records@.len() as int) =~= records@);
    out
}

/// What an SFTP connection makes of the reply to "trust this host key?":
/// the known-hosts name to record the key under when the reply is
/// [`Command::TrustHostKey`]; with any other reply, or none, the connection
/// is refused.
pub fn trust_reply(reply: Option<Command>, host: &str, port: u16) -> (r: Result<String, String>)
    ensures
        match reply {
            Some(Command::TrustHostKey) => r matches Ok(e) && e@ == known_host_entry_spec(host@, port),
            _ => r matches Err(m) && m@ == "host key was not trusted"@,
        },
{
    match reply {
        Some(Command::TrustHostKey) => Ok(known_host_entry(host, port)),
        _ => Err(String::from_str("host key was not trusted")),
    }
}

/// `moved` plus `n`, stopping at `u64::MAX`.
pub open spec fn moved_after(moved: u64, n: nat) -> u64 {
    if moved + n > u64::MAX {
        u64::MAX
    } else {
        (moved + n) as u64
    }
}

/// One chunk of a copy: the bytes moved so far, and the progress report
/// for the transfer `label` of `total` bytes.
pub fn pump_step(moved: u64, read: usize, total: u64, label: &str) -> (r: (u64, Event))
    ensures
        r.0 == moved_after(moved, read as nat),
        r.1 matches Event::Progress { transferred, total: t, label: l } && transferred == r.0
            && t == total && l@ == label@,
{
    let now = moved.saturating_add(read as u64);
    (now, Event::Progress { transferred: now, total, label: String::from_str(label) })
}

/// The remote path of `name` inside the remote folder `dir`: the folder
/// without its trailing slashes, a slash, then the name.
pub open spec fn remote_child_spec(dir: Seq<char>, name: Seq<char>) -> Seq<char> {
    trim_end_char(dir, '/') + seq!['/'] + name
}

/// The remote path of `name` inside the remote folder `dir`.
pub fn remote_child(dir: &str, name: &str) -> (s: String)
    ensures
        s@ == remote_child_spec(dir@, name@),
{
    let v = chars_of(dir);
    let cut = trailing_char_cut(&v, '/');
    let head = slice_of(&v, 0, cut);
    assert(head@ =~= v@.take(cut as int));
    let mut s = String::new();
    push_all(&mut s, &head);
    s.push('/');
    push_str(&mut s, name);
    assert(s@ =~= remote_child_spec(dir@, name@));
    s
}

/// `.` or `..`: the entries a folder copy leaves out.
pub fn is_dot_name(name: &str) -> (r: bool)
    ensures
        r == (name@ == seq!['.'] || name@ == seq!['.', '.']),
{
    let v = chars_of(name);
    let r = (v.len() == 1 && v[0] == '.') || (v.len() == 2 && v[0] == '.' && v[1] == '.');
    assert(v@.len() == 1 && v@[0] == '.' ==> v@ =~= seq!['.']);
    assert(v@.len() == 2 && v@[0] == '.' && v@[1] == '.' ==> v@ =~= seq!['.', '.']);
    assert(v@ == seq!['.'] ==> v@.len() == 1 && v@[0] == '.');
    assert(v@ == seq!['.', '.'] ==> v@.len() == 2 && v@[0] == '.' && v@[1] == '.');
    r
}

} // verus!
