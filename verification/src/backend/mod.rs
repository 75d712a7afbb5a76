//! The contract between the interface and the protocol workers: the commands
//! the interface sends, the events a worker answers with, and the helpers the
//! workers use to turn what a server says into those events.
pub mod ftp;
pub mod lifecycle;
pub mod s3;
pub mod s3_worker;
pub mod shell;
pub mod ssh_sftp_scp;

use std::path::PathBuf;
use vstd::prelude::*;

verus! {

#[verifier::external_type_specification]
#[verifier::external_body]
pub struct ExPathBuf(PathBuf);

/// One line of a directory listing.
#[derive(Debug, Clone)]
pub struct RemoteEntry {
    pub name: String,
    pub is_dir: bool,
    pub size: u64,
    pub modified: Option<String>,
}

/// The contents of a [`RemoteEntry`], as character sequences.
pub struct EntryView {
    pub name: Seq<char>,
    pub is_dir: bool,
    pub size: u64,
    pub modified: Option<Seq<char>>,
}

impl View for RemoteEntry {
    type V = EntryView;

    open spec fn view(&self) -> EntryView {
        EntryView {
            name: self.name@,
            is_dir: self.is_dir,
            size: self.size,
            modified: match &self.modified {
                Some(m) => Some(m@),
                None => None,
            },
        }
    }
}

/// Directory entries, by their contents.
pub open spec fn entries_view(es: Seq<RemoteEntry>) -> Seq<EntryView> {
    es.map_values(|e: RemoteEntry| e@)
}

/// Interface -> worker.
#[derive(Debug)]
pub enum Command {
    List { path: String },
    Download { remote_path: String, local_path: String },
    Upload { local_path: PathBuf, remote_path: String },
    Mkdir { path: String },
    Delete { path: String, is_dir: bool },
    Rename { from: String, to: String },
    /// SSH only: run a shell command, return combined output.
    Exec { command: String },
    /// SSH only: raw bytes typed into the interactive shell.
    ShellInput(String),
    TrustHostKey,
    Disconnect,
}

/// Worker -> interface.
#[derive(Debug)]
pub enum Event {
    Connected,
    ConnectFailed(String),
    HostKeyUnknown { host: String, fingerprint: String, key_type: String },
    Listing { path: String, entries: Vec<RemoteEntry> },
    Progress { transferred: u64, total: u64, label: String },
    TransferDone { label: String },
    ExecOutput(String),
    ShellOutput(String),
    Error(String),
    Disconnected,
}

/// An optional string, taken by its characters.
pub open spec fn opt_text(o: Option<String>) -> Option<Seq<char>> {
    match o {
        Some(s) => Some(s@),
        None => None,
    }
}

/// The `%Y-%m-%d %H:%M` text that chrono gives for the UTC time `secs`
/// seconds after the Unix epoch, or nothing when chrono cannot represent it.
pub uninterp spec fn utc_minute_text(secs: i64) -> Option<Seq<char>>;

/// Formats a Unix time (seconds) as UTC `YYYY-MM-DD HH:MM`, through chrono's
/// `DateTime::from_timestamp` and `DateTime::format`; the result is exactly
/// [`utc_minute_text`] of `secs`.
#[verifier::external_body]
pub fn utc_minutes(secs: i64) -> (r: Option<String>)
    ensures
        opt_text(r) == utc_minute_text(secs),
{
    match chrono::DateTime::from_timestamp(secs, 0) {
        Some(dt) => Some(dt.format("%Y-%m-%d %H:%M").to_string()),
        None => None,
    }
}

} // verus!
