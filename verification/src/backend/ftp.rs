//! FTP: how a worker carries out each command, and reading the Unix-style
//! `LIST` lines an FTP server answers with.
use vstd::prelude::*;

use crate::backend::{Command, EntryView, RemoteEntry};
use crate::connection::Auth;
use crate::text::{
    char_is_ws, chars_of, is_ws, leading_ws, parse_unsigned, parse_unsigned_chars, push_all,
    slice_of, string_of, trim_start_ws,
};

verus! {

/// How an FTP worker carries out a command.
pub enum FtpStep {
    /// Change to the directory and list it.
    List,
    /// Retrieve the remote file into a new local file.
    Download,
    /// Store the local file under the remote path.
    Upload,
    Mkdir,
    /// Remove the directory or the file.
    Delete,
    Rename,
    /// Fail with this message.
    Refuse(String),
    /// Nothing to do.
    Nothing,
}

pub open spec fn no_shell_message() -> Seq<char> {
    "FTP has no remote shell"@
}

/// Decides how an FTP worker carries out `cmd`: FTP has no shell, so shell
/// input and commands to run are refused.
pub fn ftp_step(cmd: &Command) -> (r: FtpStep)
    ensures
        match *cmd {
            Command::List { .. } => r is List,
            Command::Download { .. } => r is Download,
            Command::Upload { .. } => r is Upload,
            Command::Mkdir { .. } => r is Mkdir,
            Command::Delete { .. } => r is Delete,
            Command::Rename { .. } => r is Rename,
            Command::Exec { .. } => r matches FtpStep::Refuse(m) && m@ == no_shell_message(),
            Command::ShellInput(_) => r matches FtpStep::Refuse(m) && m@ == no_shell_message(),
            Command::TrustHostKey => r is Nothing,
            Command::Disconnect => r is Nothing,
        },
{
    match cmd {
        Command::List { .. } => FtpStep::List,
        Command::Download { .. } => FtpStep::Download,
        Command::Upload { .. } => FtpStep::Upload,
        Command::Mkdir { .. } => FtpStep::Mkdir,
        Command::Delete { .. } => FtpStep::Delete,
        Command::Rename { .. } => FtpStep::Rename,
        Command::Exec { .. } => FtpStep::Refuse(String::from_str("FTP has no remote shell")),
        Command::ShellInput(_) => FtpStep::Refuse(String::from_str("FTP has no remote shell")),
        Command::TrustHostKey => FtpStep::Nothing,
        Command::Disconnect => FtpStep::Nothing,
    }
}

/// The password an FTP login uses; FTP signs in with a username and
/// password only.
pub fn ftp_password(auth: &Auth) -> (r: Result<String, String>)
    ensures
        match *auth {
            Auth::Password(p) => r matches Ok(q) && q@ == p@,
            _ => r matches Err(m) && m@ == "FTP requires username/password authentication"@,
        },
{
    match auth {
        Auth::Password(p) => Ok(p.clone()),
        _ => Err(String::from_str("FTP requires username/password authentication")),
    }
}

/// Length of the run of non-whitespace characters that `s` starts with.
pub open spec fn word_len(s: Seq<char>) -> nat
    decreases s.len(),
{
    if s.len() > 0 && !is_ws(s[0]) {
        1 + word_len(s.drop_first())
    } else {
        0
    }
}

pub proof fn lemma_word_len_bound(s: Seq<char>)
    ensures
        word_len(s) <= s.len(),
    decreases s.len(),
{
    if s.len() > 0 {
        lemma_word_len_bound(s.drop_first());
    }
}

/// The whitespace-separated words of `s` (`str::split_whitespace`).
pub open spec fn words(s: Seq<char>) -> Seq<Seq<char>>
    decreases s.len(),
{
    if s.len() == 0 {
        Seq::empty()
    } else if is_ws(s[0]) {
        words(s.drop_first())
    } else {
        let w = word_len(s);
        proof {
            lemma_word_len_bound(s);
        }
        seq![s.take(w as int)] + words(s.skip(w as int))
    }
}

/// What follows the first `n` whitespace-separated words of `s`.
pub open spec fn after_words(s: Seq<char>, n: nat) -> Seq<char>
    decreases s.len(),
{
    if n == 0 || s.len() == 0 {
        s
    } else if is_ws(s[0]) {
        after_words(s.drop_first(), n)
    } else {
        let w = word_len(s);
        proof {
            lemma_word_len_bound(s);
        }
        after_words(s.skip(w as int), (n - 1) as nat)
    }
}

/// The entry a `LIST` line describes: permissions, links, owner, group,
/// size, month, day, time-or-year, then the name (spaces and all): the rest
/// of the line after the eighth field, its leading whitespace left out.
/// Lines with fewer fields, an empty name, `.` or `..` describe nothing.
pub open spec fn list_line_entry(line: Seq<char>) -> Option<EntryView> {
    let ws = words(line);
    if ws.len() < 8 {
        None
    } else {
        let name = trim_start_ws(after_words(line, 8));
        if name.len() == 0 || name == seq!['.'] || name == seq!['.', '.'] {
            None
        } else {
            Some(
                EntryView {
                    name,
                    is_dir: ws[0].len() > 0 && ws[0][0] == 'd',
                    size: match parse_unsigned(ws[4], u64::MAX as nat) {
                        Some(n) => n as u64,
                        None => 0,
                    },
                    modified: Some(ws[5] + seq![' '] + ws[6] + seq![' '] + ws[7]),
                },
            )
        }
    }
}

/// The first (up to) `max` words of `v`, as index ranges.
fn first_words(v: &Vec<char>, max: usize) -> (r: Vec<(usize, usize)>)
    ensures
        r.len() <= max,
        r.len() < max ==> r.len() == words(v@).len(),
        r.len() == max ==> words(v@).len() >= max,
        r.len() == max && max > 0 ==> after_words(v@, max as nat) == v@.skip(r@[max - 1].1 as int),
        forall|k: int|
            0 <= k < r.len() ==> {
                &&& (#[trigger] r@[k]).0 <= r@[k].1 <= v.len()
                &&& words(v@)[k] == v@.subrange(r@[k].0 as int, r@[k].1 as int)
            },
{
    let mut r: Vec<(usize, usize)> = Vec::new();
    let ghost mut found: Seq<Seq<char>> = Seq::empty();
    let mut i: usize = 0;
    assert(v@.skip(0) =~= v@);
    while i < v.len() && r.len() < max
        invariant
            i <= v.len(),
            r.len() <= max,
            found.len() == r.len(),
            words(v@) == found + words(v@.skip(i as int)),
            after_words(v@, max as nat) == after_words(v@.skip(i as int), (max - r.len()) as nat),
            r.len() == max && max > 0 ==> r@[max - 1].1 == i,
            forall|k: int|
                0 <= k < r.len() ==> {
                    &&& (#[trigger] r@[k]).0 <= r@[k].1 <= v.len()
                    &&& found[k] == v@.subrange(r@[k].0 as int, r@[k].1 as int)
                },
        decreases v.len() - i,
    {
        let ghost s = v@.skip(i as int);
        assert(s.drop_first() =~= v@.skip(i + 1));
        if char_is_ws(v[i]) {
            i = i + 1;
        } else {
            let mut j = i;
            while j < v.len() && !char_is_ws(v[j])
                invariant
                    i <= j <= v.len(),
                    word_len(s) == (j - i) + word_len(v@.skip(j as int)),
                    s == v@.skip(i as int),
                decreases v.len() - j,
            {
                assert(v@.skip(j as int).drop_first() =~= v@.skip(j + 1));
                j = j + 1;
            }
            assert(word_len(v@.skip(j as int)) == 0);
            assert(s.take(j - i) =~= v@.subrange(i as int, j as int));
            assert(s.skip(j - i) =~= v@.skip(j as int));
            assert(word_len(s) == j - i);
            proof {
                found = found.push(v@.subrange(i as int, j as int));
            }
            r.push((i, j));
            assert(words(v@) =~= found + words(v@.skip(j as int)));
            i = j;
        }
    }
    if r.len() < max {
        assert(v@.skip(i as int) =~= Seq::<char>::empty());
        assert(words(v@) =~= found);
    } else {
        assert(words(v@).len() >= found.len());
    }
    r
}

/// Reads one line of an FTP `LIST` reply, such as
/// `drwxr-xr-x  2 user group 4096 Jan  1 00:00 some name with spaces`.
pub fn parse_list_line(line: &str) -> (r: Option<RemoteEntry>)
    ensures
        r matches Some(e) ==> list_line_entry(line@) == Some(e@),
        r is None ==> list_line_entry(line@) is None,
{
    let v = chars_of(line);
    let spans = first_words(&v, 8);
    if spans.len() < 8 {
        return None;
    }
    let ghost ws = words(v@);
    let (s0, e0) = spans[0];
    let (s4, e4) = spans[4];
    let (s5, e5) = spans[5];
    let (s6, e6) = spans[6];
    let (s7, e7) = spans[7];
    let stamp = slice_of(&v, s7, e7);
    let after = slice_of(&v, e7, v.len());
    assert(after@ =~= v@.skip(e7 as int));
    let lead = leading_ws(&after);
    let name = slice_of(&after, lead, after.len());
    assert(name@ =~= after@.skip(lead as int));
    if name.len() == 0 || (name.len() == 1 && name[0] == '.') || (name.len() == 2 && name[0] == '.'
        && name[1] == '.') {
        assert(name@.len() == 1 && name@[0] == '.' ==> name@ =~= seq!['.']);
        assert(name@.len() == 2 && name@[0] == '.' && name@[1] == '.' ==> name@ =~= seq!['.', '.']);
        return None;
    }
    assert(name@ != seq!['.']) by {
        if name@ == seq!['.'] {
            assert(name@.len() == 1 && name@[0] == '.');
        }
    }
    assert(name@ != seq!['.', '.']) by {
        if name@ == seq!['.', '.'] {
            assert(name@.len() == 2 && name@[0] == '.' && name@[1] == '.');
        }
    }
    let is_dir = e0 > s0 && v[s0] == 'd';
    assert(ws[0] == v@.subrange(s0 as int, e0 as int));
    let size_text = slice_of(&v, s4, e4);
    let size = match parse_unsigned_chars(&size_text, u64::MAX) {
        Some(n) => n,
        None => 0,
    };
    let month = slice_of(&v, s5, e5);
    let day = slice_of(&v, s6, e6);
    let mut modified = String::new();
    push_all(&mut modified, &month);
    modified.push(' ');
    push_all(&mut modified, &day);
    modified.push(' ');
    push_all(&mut modified, &stamp);
    assert(modified@ =~= ws[5] + seq![' '] + ws[6] + seq![' '] + ws[7]);
    Some(RemoteEntry { name: string_of(&name), is_dir, size, modified: Some(modified) })
}

/// The entries among the lines of a `LIST` reply, in order; lines that
/// describe nothing are skipped.
pub open spec fn listing_entries(lines: Seq<Seq<char>>) -> Seq<EntryView>
    decreases lines.len(),
{
    if lines.len() == 0 {
        Seq::empty()
    } else {
        let rest = listing_entries(lines.drop_last());
        match list_line_entry(lines.last()) {
            Some(e) => rest.push(e),
            None => rest,
        }
    }
}

/// Reads the lines of a `LIST` reply into directory entries.
pub fn parse_listing(lines: &Vec<String>) -> (r: Vec<RemoteEntry>)
    ensures
        r@.map_values(|e: RemoteEntry| e@) == listing_entries(lines@.map_values(|l: String| l@)),
{
    let ghost texts = lines@.map_values(|l: String| l@);
    let mut r: Vec<RemoteEntry> = Vec::new();
    let mut i: usize = 0;
    assert(texts.take(0) =~= Seq::<Seq<char>>::empty());
    assert(r@.map_values(|e: RemoteEntry| e@) =~= Seq::<EntryView>::empty());
    while i < lines.len()
        invariant
            i <= lines.len(),
            texts == lines@.map_values(|l: String| l@),
            r@.map_values(|e: RemoteEntry| e@) == listing_entries(texts.take(i as int)),
        decreases lines.len() - i,
    {
        assert(texts.take(i + 1).drop_last() =~= texts.take(i as int));
        assert(texts.take(i + 1).last() == lines@[i as int]@);
        match parse_list_line(lines[i].as_str()) {
            Some(e) => {
                let ghost before = r@;
                r.push(e);
                assert(r@.map_values(|e: RemoteEntry| e@) =~= before.map_values(
                    |e: RemoteEntry| e@,
                ).push(e@));
            },
            None => {},
        }
        i = i + 1;
    }
    assert(texts.take(lines.len() as int) =~= texts);
    r
}

} // verus!
