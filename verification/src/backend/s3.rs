//! S3: mapping remote paths onto object keys and prefixes, and listing
//! results onto directory entries.
use vstd::prelude::*;

use crate::app::{find_last, last_index};
use crate::backend::{opt_text, utc_minute_text, utc_minutes, Command, EntryView, RemoteEntry};
use crate::connection::Auth;
use crate::text::{
    chars_of, leading_char, slice_of, string_of, trailing_char_cut, trim_end_char,
    trim_start_char,
};

verus! {

/// Why an S3 worker refuses `cmd`, when it does: an object store has no
/// remote shell.
pub fn s3_refusal(cmd: &Command) -> (r: Option<String>)
    ensures
        match *cmd {
            Command::ShellInput(_) => r matches Some(m) && m@ == "S3 has not remote shell"@,
            Command::Exec { .. } => r matches Some(m) && m@ == "S3 has no remote shell"@,
            _ => r is None,
        },
{
    match cmd {
        Command::ShellInput(_) => Some(String::from_str("S3 has not remote shell")),
        Command::Exec { .. } => Some(String::from_str("S3 has no remote shell")),
        _ => None,
    }
}

/// The access key and secret key an S3 client signs requests with; S3
/// takes no other credentials.
pub fn s3_keys(auth: &Auth) -> (r: Result<(String, String), String>)
    ensures
        match *auth {
            Auth::S3Keys { access_key, secret_key } => r matches Ok((a, k)) && a@ == access_key@
                && k@ == secret_key@,
            _ => r matches Err(m) && m@ == "S3 requires an access key / secret key pair"@,
        },
{
    match auth {
        Auth::S3Keys { access_key, secret_key } => Ok((access_key.clone(), secret_key.clone())),
        _ => Err(String::from_str("S3 requires an access key / secret key pair")),
    }
}

/// The object key of a remote path: the path without leading slashes.
pub open spec fn as_key_spec(path: Seq<char>) -> Seq<char> {
    trim_start_char(path, '/')
}

/// The key prefix that lists a remote directory: the path without leading
/// or trailing slashes, plus one slash; empty for the bucket's root.
pub open spec fn as_prefix_spec(path: Seq<char>) -> Seq<char> {
    let t = trim_end_char(trim_start_char(path, '/'), '/');
    if t.len() == 0 {
        t
    } else {
        t.push('/')
    }
}

/// The object key for a remote path.
pub fn as_key(path: &str) -> (s: String)
    ensures
        s@ == as_key_spec(path@),
{
    let v = chars_of(path);
    let k = leading_char(&v, '/');
    let r = slice_of(&v, k, v.len());
    assert(r@ =~= v@.skip(k as int));
    string_of(&r)
}

/// The key prefix under which a remote directory's objects lie.
pub fn as_prefix(path: &str) -> (s: String)
    ensures
        s@ == as_prefix_spec(path@),
{
    let v = chars_of(path);
    let k = leading_char(&v, '/');
    let rest = slice_of(&v, k, v.len());
    assert(rest@ =~= v@.skip(k as int));
    let cut = trailing_char_cut(&rest, '/');
    let t = slice_of(&rest, 0, cut);
    assert(t@ =~= rest@.take(cut as int));
    let mut s = string_of(&t);
    if t.len() > 0 {
        s.push('/');
    }
    s
}

/// What follows the last slash of `s` (all of `s` when it has none).
pub open spec fn last_segment(s: Seq<char>) -> Seq<char> {
    s.skip(last_index(s, '/') + 1)
}

fn last_segment_exec(v: &Vec<char>) -> (r: Vec<char>)
    ensures
        r@ == last_segment(v@),
{
    let start = match find_last(v, '/') {
        Some(i) => i + 1,
        None => 0,
    };
    let r = slice_of(v, start, v.len());
    assert(r@ =~= v@.skip(start as int));
    r
}

/// The directory entry for a common prefix of a delimited listing: its last
/// segment, named without the trailing slash; nothing when that is empty.
pub open spec fn prefix_entry_spec(full: Seq<char>) -> Option<EntryView> {
    let name = last_segment(trim_end_char(full, '/'));
    if name.len() == 0 {
        None
    } else {
        Some(EntryView { name, is_dir: true, size: 0, modified: None })
    }
}

/// Turns a common prefix of a listing into a directory entry.
pub fn prefix_entry(full: &str) -> (r: Option<RemoteEntry>)
    ensures
        r matches Some(e) ==> prefix_entry_spec(full@) == Some(e@),
        r is None ==> prefix_entry_spec(full@) is None,
{
    let v = chars_of(full);
    let cut = trailing_char_cut(&v, '/');
    let t = slice_of(&v, 0, cut);
    assert(t@ =~= v@.take(cut as int));
    let name = last_segment_exec(&t);
    if name.len() == 0 {
        None
    } else {
        Some(RemoteEntry { name: string_of(&name), is_dir: true, size: 0, modified: None })
    }
}

/// The file entry for an object of a listing: the last segment of its key,
/// its size (negative sizes read as 0), and its modification time; nothing
/// when the key ends in a slash.
pub open spec fn object_entry_spec(key: Seq<char>, size: Option<i64>, modified: Option<i64>) -> Option<
    EntryView,
> {
    let name = last_segment(key);
    if name.len() == 0 {
        None
    } else {
        Some(
            EntryView {
                name,
                is_dir: false,
                size: match size {
                    Some(n) => if n > 0 {
                        n as u64
                    } else {
                        0
                    },
                    None => 0,
                },
                modified: match modified {
                    Some(t) => utc_minute_text(t),
                    None => None,
                },
            },
        )
    }
}

/// Turns an object of a listing into a file entry.
pub fn object_entry(key: &str, size: Option<i64>, modified: Option<i64>) -> (r: Option<RemoteEntry>)
    ensures
        r matches Some(e) ==> object_entry_spec(key@, size, modified) == Some(e@),
        r is None ==> object_entry_spec(key@, size, modified) is None,
{
    let v = chars_of(key);
    let name = last_segment_exec(&v);
    if name.len() == 0 {
        return None;
    }
    let size: u64 = match size {
        Some(n) => if n > 0 {
            n as u64
        } else {
            0
        },
        None => 0,
    };
    let modified = match modified {
        Some(t) => utc_minutes(t),
        None => None,
    };
    Some(RemoteEntry { name: string_of(&name), is_dir: false, size, modified })
}

/// The path, relative to the downloaded directory, that an object under
/// `prefix` is written to; nothing for the placeholder keys that end in a
/// slash. Keys outside the prefix keep their whole key.
pub open spec fn tree_relative_spec(key: Seq<char>, prefix: Seq<char>) -> Option<Seq<char>> {
    if key.len() > 0 && key.last() == '/' {
        None
    } else if prefix.len() <= key.len() && key.take(prefix.len() as int) == prefix {
        Some(key.skip(prefix.len() as int))
    } else {
        Some(key)
    }
}

/// Where an object of a downloaded directory goes, relative to it.
pub fn tree_relative(key: &str, prefix: &str) -> (r: Option<String>)
    ensures
        opt_text(r) == tree_relative_spec(key@, prefix@),
{
    let k = chars_of(key);
    let p = chars_of(prefix);
    if k.len() > 0 && k[k.len() - 1] == '/' {
        return None;
    }
    if p.len() <= k.len() {
        let head = slice_of(&k, 0, p.len());
        assert(head@ =~= k@.take(p.len() as int));
        if crate::text::same_chars(&head, &p) {
            let tail = slice_of(&k, p.len(), k.len());
            assert(tail@ =~= k@.skip(p.len() as int));
            return Some(string_of(&tail));
        }
    }
    Some(string_of(&k))
}

} // verus!
