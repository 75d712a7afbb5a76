//! Application state: saved hosts, open sessions, the transfer history and the
//! activity log, with the text helpers the interface shows them through.
use std::time::Instant;
use vstd::prelude::*;

use crate::backend::{Command, RemoteEntry};
use crate::clock::{nanos_since, seconds_since};
use crate::connection::ConnectionProfile;
use crate::text::{
    find_char_from, first_index, is_first_index, chars_of, dec, digit_char, leading_char, push_all, push_dec, push_str, slice_of,
    string_of, trailing_char_cut, trim_end_char, trim_start_char,
};

verus! {

pub struct Host {
    pub id: String,
    pub profile: ConnectionProfile,
    pub last_used: Option<Instant>,
}

#[derive(Debug, Clone, Copy, PartialEq, Eq, Structural)]
pub enum Status {
    Connecting,
    Connected,
}

#[derive(Debug, Clone, Copy, PartialEq, Eq, Structural)]
pub enum Direction {
    Upload,
    Download,
}

impl Direction {
    pub open spec fn label_spec(self) -> Seq<char> {
        match self {
            Direction::Upload => "up"@,
            Direction::Download => "down"@,
        }
    }

    /// The word the history shows for the direction.
    pub fn label(self) -> (s: &'static str)
        ensures
            s@ == self.label_spec(),
    {
        match self {
            Direction::Upload => "up",
            Direction::Download => "down",
        }
    }
}

#[derive(Debug, Clone, Copy, PartialEq, Eq, Structural)]
pub enum TransferState {
    Queued,
    Running,
    Done,
    Failed,
}

pub struct TransferRecord {
    pub label: String,
    pub host: String,
    pub direction: Direction,
    pub bytes: u64,
    pub total: Option<u64>,
    pub state: TransferState,
    pub at: Instant,
}

/// Seconds left for a transfer that has moved `bytes` of `total` in
/// `nanos` nanoseconds, at the average rate so far, rounded up; `None` when
/// nothing has moved yet, no time has passed, or nothing is left.
pub open spec fn eta_spec(bytes: u64, total: u64, nanos: u64) -> Option<u64> {
    if bytes == 0 || nanos == 0 || bytes >= total {
        None
    } else {
        let num = (total - bytes) * nanos;
        let den = bytes * 1_000_000_000;
        let secs = if num % den == 0 {
            num / den
        } else {
            num / den + 1
        };
        Some(if secs > u64::MAX {
            u64::MAX
        } else {
            secs as u64
        })
    }
}

impl TransferRecord {
    /// Estimated seconds left for a running transfer whose record is
    /// `nanos` nanoseconds old.
    pub fn eta_after(&self, nanos: u64) -> (r: Option<u64>)
        ensures
            r == self.eta_after_spec(nanos),
    {
        if self.state != TransferState::Running {
            return None;
        }
        let total = match self.total {
            Some(t) => t,
            None => return None,
        };
        if self.bytes == 0 || nanos == 0 || self.bytes >= total {
            return None;
        }
        let left: u128 = (total - self.bytes) as u128;
        let n: u128 = nanos as u128;
        assert(left * n <= 0xffff_ffff_ffff_ffffu128 * 0xffff_ffff_ffff_ffffu128) by (nonlinear_arith)
            requires
                left <= 0xffff_ffff_ffff_ffffu128,
                n <= 0xffff_ffff_ffff_ffffu128,
        ;
        let num: u128 = left * n;
        let den: u128 = self.bytes as u128 * 1_000_000_000;
        let secs = if num % den == 0 {
            num / den
        } else {
            num / den + 1
        };
        if secs > u64::MAX as u128 {
            Some(u64::MAX)
        } else {
            Some(secs as u64)
        }
    }

    /// Estimated seconds left for a running transfer, from how long ago its
    /// record was started.
    pub fn eta_seconds(&self) -> (r: Option<u64>)
        ensures
            exists|nanos: u64| r == self.eta_after_spec(nanos),
    {
        let nanos = nanos_since(&self.at);
        self.eta_after(nanos)
    }

    pub open spec fn eta_after_spec(&self, nanos: u64) -> Option<u64> {
        if self.state != TransferState::Running {
            None
        } else {
            match self.total {
                Some(total) => eta_spec(self.bytes, total, nanos),
                None => None,
            }
        }
    }
}

pub struct PendingHostKey {
    pub session: usize,
    pub host: String,
    pub fingerprint: String,
    pub key_type: String,
}

pub struct PendingTransfer {
    pub profile: ConnectionProfile,
    pub command: Command,
    pub record: usize,
}

pub struct Terminal {
    pub output: String,
}

#[derive(Debug, Clone, Copy, PartialEq, Eq, Structural)]
pub struct SessionKey {
    pub host: usize,
    pub shell: bool,
}

pub struct LogLine {
    pub text: String,
    pub level: LogLevel,
}

#[derive(Debug, Clone, Copy, PartialEq, Eq, Structural)]
pub enum LogLevel {
    Info,
    Success,
    Error,
}

/// The directories along a remote path: its non-empty parts between
/// slashes, in order.
pub open spec fn path_segments(s: Seq<char>) -> Seq<Seq<char>>
    decreases s.len(),
{
    if s.len() == 0 {
        Seq::empty()
    } else if s[0] == '/' {
        path_segments(s.drop_first())
    } else {
        let k = first_index(s, '/');
        if k < 0 {
            seq![s]
        } else {
            proof {
                assert(is_first_index(s, k, '/'));
            }
            seq![s.take(k)] + path_segments(s.skip(k))
        }
    }
}

/// The path of the `i`-th directory along a path with segments `segs`:
/// a slash before each of the first `i + 1` segments.
pub open spec fn crumb_path(segs: Seq<Seq<char>>, i: int) -> Seq<char>
    decreases i,
{
    if i <= 0 {
        seq!['/'] + segs[0]
    } else {
        crumb_path(segs, i - 1) + seq!['/'] + segs[i]
    }
}

/// The breadcrumbs of a remote directory: each directory along `cwd` with
/// the path that opens it.
pub fn breadcrumbs(cwd: &str) -> (r: Vec<(String, String)>)
    ensures
        r@.len() == path_segments(cwd@).len(),
        forall|i: int|
            0 <= i < r@.len() ==> (#[trigger] r@[i]).0@ == path_segments(cwd@)[i] && r@[i].1@
                == crumb_path(path_segments(cwd@), i),
{
    let v = chars_of(cwd);
    let ghost all = path_segments(v@);
    let mut r: Vec<(String, String)> = Vec::new();
    let mut path = String::new();
    let mut i: usize = 0;
    assert(v@.skip(0) =~= v@);
    assert(all =~= Seq::<Seq<char>>::empty() + path_segments(v@.skip(0)));
    while i < v.len()
        invariant
            i <= v.len(),
            v@ == cwd@,
            all == path_segments(v@),
            ({
                let done = all.take(r@.len() as int);
                &&& r@.len() <= all.len()
                &&& all == done + path_segments(v@.skip(i as int))
                &&& forall|k: int|
                    0 <= k < r@.len() ==> (#[trigger] r@[k]).0@ == all[k] && r@[k].1@
                        == crumb_path(all, k)
                &&& r@.len() > 0 ==> path@ == crumb_path(all, r@.len() - 1)
            }),
        decreases v.len() - i,
    {
        let ghost rest = v@.skip(i as int);
        if v[i] == '/' {
            assert(rest.drop_first() =~= v@.skip(i + 1));
            i = i + 1;
        } else {
            let ghost n = r@.len();
            let end = match find_char_from(&v, i, '/') {
                Some(j) => i + j,
                None => v.len(),
            };
            let seg = slice_of(&v, i, end);
            proof {
                if end < v.len() {
                    assert(seg@ =~= rest.take(end - i));
                    assert(rest.skip(end - i) =~= v@.skip(end as int));
                } else {
                    assert(seg@ =~= rest);
                    assert(v@.skip(end as int) =~= Seq::<char>::empty());
                }
                assert(path_segments(rest) =~= seq![seg@] + path_segments(v@.skip(end as int)));
                assert(all =~= all.take(n as int) + seq![seg@] + path_segments(v@.skip(end as int)));
                assert(all[n as int] == seg@);
            }
            if r.len() == 0 {
                path = String::new();
            }
            let ghost before = path@;
            path.push('/');
            push_all(&mut path, &seg);
            proof {
                if n > 0 {
                    assert(path@ =~= crumb_path(all, n - 1) + seq!['/'] + all[n as int]);
                } else {
                    assert(path@ =~= seq!['/'] + all[0]);
                }
            }
            r.push((string_of(&seg), path.clone()));
            assert(all.take((n + 1) as int) =~= all.take(n as int).push(seg@));
            i = end;
        }
    }
    assert(v@.skip(v.len() as int) =~= Seq::<char>::empty());
    assert(all.take(r@.len() as int) =~= all);
    r
}

/// The hash of a host's name that picks its colour: for each character,
/// times 31 plus the character's code, wrapping in an `i32`.
pub open spec fn name_hash(s: Seq<char>) -> i32
    decreases s.len(),
{
    if s.len() == 0 {
        0
    } else {
        name_hash(s.drop_last()).wrapping_mul(31).wrapping_add((s.last() as u32) as i32)
    }
}

/// Which of `n` colours a host named `name` gets: its hash's magnitude,
/// modulo `n`.
pub open spec fn color_index_spec(name: Seq<char>, n: nat) -> nat {
    let h = name_hash(name) as int;
    (if h < 0 {
        -h
    } else {
        h
    }) as nat % n
}

/// The colour, among `n`, of the host named `name`.
pub fn host_color_index(name: &str, n: usize) -> (i: usize)
    requires
        n > 0,
    ensures
        i == color_index_spec(name@, n as nat),
{
    let chars = chars_of(name);
    let mut hash: i32 = 0;
    let mut k: usize = 0;
    assert(chars@.take(0) =~= Seq::<char>::empty());
    while k < chars.len()
        invariant
            k <= chars@.len(),
            chars@ == name@,
            hash == name_hash(chars@.take(k as int)),
        decreases chars@.len() - k,
    {
        assert(chars@.take(k + 1).drop_last() =~= chars@.take(k as int));
        let c = chars[k];
        let code = c as u32;
        hash = hash.wrapping_mul(31).wrapping_add(code as i32);
        k = k + 1;
    }
    assert(chars@.take(chars@.len() as int) =~= chars@);
    let magnitude: u64 = if hash < 0 {
        (0 - (hash as i64)) as u64
    } else {
        hash as u64
    };
    (magnitude % (n as u64)) as usize
}

/// `dir` and `name` joined by exactly one slash.
pub open spec fn join_path_spec(dir: Seq<char>, name: Seq<char>) -> Seq<char> {
    if dir.len() == 0 || dir == seq!['/'] {
        seq!['/'] + trim_start_char(name, '/')
    } else {
        trim_end_char(dir, '/') + seq!['/'] + trim_start_char(name, '/')
    }
}

/// Joins a remote directory and an entry name.
pub fn join_path(dir: &str, name: &str) -> (s: String)
    ensures
        s@ == join_path_spec(dir@, name@),
{
    let d = chars_of(dir);
    let n = chars_of(name);
    let lead = leading_char(&n, '/');
    let tail = slice_of(&n, lead, n.len());
    assert(tail@ =~= n@.skip(lead as int));
    let mut s = String::new();
    if d.len() == 0 || (d.len() == 1 && d[0] == '/') {
        assert(d.len() == 1 && d[0] == '/' ==> d@ =~= seq!['/']);
        s.push('/');
        push_all(&mut s, &tail);
    } else {
        assert(d@.len() == 1 ==> d@ == seq!['/'] ==> d@[0] == '/');
        let cut = trailing_char_cut(&d, '/');
        let head = slice_of(&d, 0, cut);
        assert(head@ =~= d@.take(cut as int));
        push_all(&mut s, &head);
        s.push('/');
        push_all(&mut s, &tail);
    }
    s
}

/// `i` is where `c` last occurs in `s`.
pub open spec fn is_last_index(s: Seq<char>, i: int, c: char) -> bool {
    &&& 0 <= i < s.len()
    &&& s[i] == c
    &&& forall|j: int| i < j < s.len() ==> s[j] != c
}

/// Index of the last `c` in `s`, or -1.
pub open spec fn last_index(s: Seq<char>, c: char) -> int {
    if exists|i: int| is_last_index(s, i, c) {
        choose|i: int| is_last_index(s, i, c)
    } else {
        -1
    }
}

proof fn lemma_last_index_unique(s: Seq<char>, i: int, k: int, c: char)
    requires
        is_last_index(s, i, c),
        is_last_index(s, k, c),
    ensures
        i == k,
{
    if i < k {
        assert(s[k] != c);
    } else if k < i {
        assert(s[i] != c);
    }
}

/// Where `c` last occurs in `v`.
pub fn find_last(v: &Vec<char>, c: char) -> (r: Option<usize>)
    ensures
        r matches Some(i) ==> is_last_index(v@, i as int, c) && last_index(v@, c) == i && i
            < v.len(),
        r is None ==> last_index(v@, c) == -1 && forall|j: int| 0 <= j < v.len() ==> v@[j] != c,
{
    let mut i: usize = v.len();
    while i > 0
        invariant
            i <= v.len(),
            forall|j: int| i <= j < v.len() ==> v@[j] != c,
        decreases i,
    {
        if v[i - 1] == c {
            assert(is_last_index(v@, i - 1, c));
            proof {
                lemma_last_index_unique(v@, i - 1, last_index(v@, c), c);
            }
            return Some(i - 1);
        }
        i = i - 1;
    }
    None
}

/// The directory above `path`; `/` at the top.
pub open spec fn parent_path_spec(path: Seq<char>) -> Seq<char> {
    let trimmed = trim_end_char(path, '/');
    let i = last_index(trimmed, '/');
    if i <= 0 {
        seq!['/']
    } else {
        trimmed.take(i)
    }
}

/// Going up from an entry opened in a directory gives the directory back
/// (the root for the root): for a directory without a trailing slash and a
/// name that is not empty and holds no slash, the parent of their join is
/// the directory.
pub proof fn lemma_parent_of_join(dir: Seq<char>, name: Seq<char>)
    requires
        dir.len() == 0 || dir == seq!['/'] || dir.last() != '/',
        name.len() > 0,
        forall|j: int| 0 <= j < name.len() ==> name[j] != '/',
    ensures
        parent_path_spec(join_path_spec(dir, name)) == if dir.len() == 0 || dir == seq!['/'] {
            seq!['/']
        } else {
            dir
        },
{
    assert(trim_start_char(name, '/') == name);
    let root = dir.len() == 0 || dir == seq!['/'];
    let prefix = if root {
        Seq::<char>::empty()
    } else {
        dir
    };
    if !root {
        assert(trim_end_char(dir, '/') == dir);
    }
    let p = join_path_spec(dir, name);
    assert(p =~= prefix + seq!['/'] + name);
    assert(p.last() == name.last());
    assert(trim_end_char(p, '/') == p);
    let i = prefix.len() as int;
    assert(is_last_index(p, i, '/')) by {
        assert forall|j: int| i < j < p.len() implies p[j] != '/' by {
            assert(p[j] == name[j - i - 1]);
        }
    }
    lemma_last_index_unique(p, i, last_index(p, '/'), '/');
    if !root {
        assert(p.take(i) =~= dir);
    }
}

/// The directory above a remote path.
pub fn parent_path(path: &str) -> (s: String)
    ensures
        s@ == parent_path_spec(path@),
{
    let p = chars_of(path);
    let cut = trailing_char_cut(&p, '/');
    let trimmed = slice_of(&p, 0, cut);
    assert(trimmed@ =~= p@.take(cut as int));
    match find_last(&trimmed, '/') {
        Some(i) => {
            if i == 0 {
                let mut s = String::new();
                s.push('/');
                assert(s@ =~= seq!['/']);
                s
            } else {
                let head = slice_of(&trimmed, 0, i);
                assert(head@ =~= trimmed@.take(i as int));
                string_of(&head)
            }
        },
        None => {
            let mut s = String::new();
            s.push('/');
            assert(s@ =~= seq!['/']);
            s
        },
    }
}

/// `num / den` rounded to the nearest integer, ties to even.
pub open spec fn round_half_even(num: nat, den: nat) -> nat
    recommends
        den > 0,
{
    let q = num / den;
    let r = num % den;
    if 2 * r > den || (2 * r == den && q % 2 == 1) {
        q + 1
    } else {
        q
    }
}

/// How many low bits of `n` a 64-bit float drops: floats carry 53 significant
/// bits, so integers from 2^53 up are rounded to a multiple of a power of two.
pub open spec fn dropped_bits(n: nat) -> nat {
    if n < 0x20_0000_0000_0000 { 0 }
    else if n < 0x40_0000_0000_0000 { 1 }
    else if n < 0x80_0000_0000_0000 { 2 }
    else if n < 0x100_0000_0000_0000 { 3 }
    else if n < 0x200_0000_0000_0000 { 4 }
    else if n < 0x400_0000_0000_0000 { 5 }
    else if n < 0x800_0000_0000_0000 { 6 }
    else if n < 0x1000_0000_0000_0000 { 7 }
    else if n < 0x2000_0000_0000_0000 { 8 }
    else if n < 0x4000_0000_0000_0000 { 9 }
    else if n < 0x8000_0000_0000_0000 { 10 }
    else { 11 }
}

/// Two to the power `e`, for the `e` that [`dropped_bits`] yields.
pub open spec fn pow2_upto11(e: nat) -> nat {
    if e == 0 { 1 }
    else if e == 1 { 2 }
    else if e == 2 { 4 }
    else if e == 3 { 8 }
    else if e == 4 { 16 }
    else if e == 5 { 32 }
    else if e == 6 { 64 }
    else if e == 7 { 128 }
    else if e == 8 { 256 }
    else if e == 9 { 512 }
    else if e == 10 { 1024 }
    else { 2048 }
}

/// The 64-bit float nearest to `n` (ties to even), as an integer.
pub open spec fn as_float(n: nat) -> nat {
    let p = pow2_upto11(dropped_bits(n));
    round_half_even(n, p) * p
}

/// 1024 to the power `u`, for `u` up to 4.
pub open spec fn kib_pow(u: nat) -> nat {
    if u == 0 { 1 }
    else if u == 1 { 1024 }
    else if u == 2 { 1048576 }
    else if u == 3 { 1073741824 }
    else { 1099511627776 }
}

/// The largest unit (up to TB) that `f` reaches.
pub open spec fn size_unit(f: nat) -> nat {
    if f >= 1099511627776 { 4 }
    else if f >= 1073741824 { 3 }
    else if f >= 1048576 { 2 }
    else if f >= 1024 { 1 }
    else { 0 }
}

pub open spec fn unit_name(u: nat) -> Seq<char> {
    if u == 1 { "KB"@ }
    else if u == 2 { "MB"@ }
    else if u == 3 { "GB"@ }
    else { "TB"@ }
}

/// A byte count as people read it: whole bytes below a kilobyte, else one
/// decimal in the largest unit reached (binary multiples, up to TB), rounded
/// as a 64-bit float formatted with one decimal is.
pub open spec fn human_size_spec(bytes: u64) -> Seq<char> {
    if bytes < 1024 {
        dec(bytes as nat) + " B"@
    } else {
        let f = as_float(bytes as nat);
        let u = size_unit(f);
        let tenths = round_half_even(f * 10, kib_pow(u));
        dec(tenths / 10) + "."@ + seq![digit_char(tenths % 10)] + " "@ + unit_name(u)
    }
}

fn round_half_even_exec(num: u128, den: u128) -> (r: u128)
    requires
        den > 0,
        den < 0x1_0000_0000_0000_0000_0000,
        num < 0x1_0000_0000_0000_0000_0000,
    ensures
        r == round_half_even(num as nat, den as nat),
{
    let q = num / den;
    let r = num % den;
    if 2 * r > den || (2 * r == den && q % 2 == 1) {
        q + 1
    } else {
        q
    }
}

fn dropped_bits_exec(n: u64) -> (r: (u64, u128))
    ensures
        r.0 == dropped_bits(n as nat),
        r.1 == pow2_upto11(r.0 as nat),
{
    if n < 0x20_0000_0000_0000 { (0, 1) }
    else if n < 0x40_0000_0000_0000 { (1, 2) }
    else if n < 0x80_0000_0000_0000 { (2, 4) }
    else if n < 0x100_0000_0000_0000 { (3, 8) }
    else if n < 0x200_0000_0000_0000 { (4, 16) }
    else if n < 0x400_0000_0000_0000 { (5, 32) }
    else if n < 0x800_0000_0000_0000 { (6, 64) }
    else if n < 0x1000_0000_0000_0000 { (7, 128) }
    else if n < 0x2000_0000_0000_0000 { (8, 256) }
    else if n < 0x4000_0000_0000_0000 { (9, 512) }
    else if n < 0x8000_0000_0000_0000 { (10, 1024) }
    else { (11, 2048) }
}

/// Formats a byte count for display.
pub fn human_size(bytes: u64) -> (s: String)
    ensures
        s@ == human_size_spec(bytes),
{
    let mut s = String::new();
    if bytes < 1024 {
        push_dec(&mut s, bytes as u128);
        push_str(&mut s, " B");
        return s;
    }
    let (_e, p) = dropped_bits_exec(bytes);
    let q = round_half_even_exec(bytes as u128, p);
    assert(q <= bytes as u128 / p + 1);
    assert(bytes as u128 / p <= bytes as u128) by (nonlinear_arith)
        requires p >= 1;
    assert(q * p <= 0x1_0000_0000_0000_0000 * 2048) by (nonlinear_arith)
        requires q <= 0x1_0000_0000_0000_0000, p <= 2048;
    let f: u128 = q * p;
    let (u, unit): (u128, &str) = if f >= 1099511627776 {
        (1099511627776, "TB")
    } else if f >= 1073741824 {
        (1073741824, "GB")
    } else if f >= 1048576 {
        (1048576, "MB")
    } else if f >= 1024 {
        (1024, "KB")
    } else {
        (1, "B")
    };
    assert(f >= 1024) by (nonlinear_arith)
        requires
            f == q * p,
            q == round_half_even(bytes as nat, p as nat),
            bytes >= 1024,
            p == 1 || p == 2 || p == 4 || p == 8 || p == 16 || p == 32 || p == 64 || p == 128
                || p == 256 || p == 512 || p == 1024 || p == 2048,
            p == 1 || bytes >= 0x20_0000_0000_0000,
    ;
    assert(u == kib_pow(size_unit(f as nat)));
    assert(unit@ == unit_name(size_unit(f as nat)));
    let tenths = round_half_even_exec(f * 10, u);
    push_dec(&mut s, tenths / 10);
    push_str(&mut s, ".");
    s.push(char_digit((tenths % 10) as u32));
    push_str(&mut s, " ");
    push_str(&mut s, unit);
    s
}

fn char_digit(d: u32) -> (c: char)
    requires
        d < 10,
    ensures
        c == digit_char(d as nat),
{
    crate::text::char_from_digit(d)
}

/// How long ago something happened, from the seconds since it did.
pub open spec fn relative_time_spec(secs: u64) -> Seq<char> {
    if secs < 60 {
        "just now"@
    } else if secs < 3600 {
        dec((secs / 60) as nat) + "m ago"@
    } else if secs < 86400 {
        dec((secs / 3600) as nat) + "h ago"@
    } else {
        dec((secs / 86400) as nat) + "d ago"@
    }
}

/// Describes how long ago something happened `secs` seconds ago.
pub fn relative_time_secs(secs: u64) -> (s: String)
    ensures
        s@ == relative_time_spec(secs),
{
    let mut s = String::new();
    if secs < 60 {
        push_str(&mut s, "just now");
    } else if secs < 3600 {
        push_dec(&mut s, (secs / 60) as u128);
        push_str(&mut s, "m ago");
    } else if secs < 86400 {
        push_dec(&mut s, (secs / 3600) as u128);
        push_str(&mut s, "h ago");
    } else {
        push_dec(&mut s, (secs / 86400) as u128);
        push_str(&mut s, "d ago");
    }
    s
}

/// Describes how long ago `instant` was.
pub fn relative_time(instant: Instant) -> (s: String)
    ensures
        exists|secs: u64| s@ == relative_time_spec(secs),
{
    let secs = seconds_since(&instant);
    relative_time_secs(secs)
}

/// `text` cut to at most `max_chars` characters, the last of them an ellipsis
/// when anything was cut (a lone ellipsis when `max_chars` is 0).
pub open spec fn ellipsize_spec(text: Seq<char>, max_chars: nat) -> Seq<char> {
    if text.len() <= max_chars {
        text
    } else {
        let keep: nat = if max_chars == 0 {
            0
        } else {
            (max_chars - 1) as nat
        };
        text.take(keep as int).push('\u{2026}')
    }
}

/// Shortens `text` to fit `max_chars` characters.
pub fn ellipsize(text: &str, max_chars: usize) -> (s: String)
    ensures
        s@ == ellipsize_spec(text@, max_chars as nat),
{
    let t = chars_of(text);
    if t.len() <= max_chars {
        string_of(&t)
    } else {
        let keep = if max_chars == 0 {
            0
        } else {
            max_chars - 1
        };
        let head = slice_of(&t, 0, keep);
        assert(head@ =~= t@.take(keep as int));
        let mut s = string_of(&head);
        s.push('\u{2026}');
        s
    }
}

/// Most bytes of shell output a terminal keeps.
pub const TERMINAL_CAPACITY: usize = 120_000;

/// C0 and C1 control characters (`char::is_control`).
pub open spec fn is_control(c: char) -> bool {
    c <= '\u{1f}' || ('\u{7f}' <= c && c <= '\u{9f}')
}

/// What follows a CSI escape's parameters and final byte (0x40..=0x7E).
pub open spec fn after_csi(s: Seq<char>) -> Seq<char>
    decreases s.len(),
{
    if s.len() == 0 {
        s
    } else if '\u{40}' <= s[0] && s[0] <= '\u{7e}' {
        s.drop_first()
    } else {
        after_csi(s.drop_first())
    }
}

/// What follows an OSC escape: up to a BEL, or an ESC and the character
/// after it.
pub open spec fn after_osc(s: Seq<char>) -> Seq<char>
    decreases s.len(),
{
    if s.len() == 0 {
        s
    } else if s[0] == '\u{7}' {
        s.drop_first()
    } else if s[0] == '\u{1b}' {
        if s.len() >= 2 {
            s.skip(2)
        } else {
            s.drop_first()
        }
    } else {
        after_osc(s.drop_first())
    }
}

pub proof fn lemma_after_csi_len(s: Seq<char>)
    ensures
        after_csi(s).len() <= s.len(),
    decreases s.len(),
{
    if s.len() > 0 {
        lemma_after_csi_len(s.drop_first());
    }
}

pub proof fn lemma_after_osc_len(s: Seq<char>)
    ensures
        after_osc(s).len() <= s.len(),
    decreases s.len(),
{
    if s.len() > 0 {
        lemma_after_osc_len(s.drop_first());
    }
}

/// Where the last line of `buf` starts.
pub open spec fn line_start(buf: Seq<char>) -> int {
    last_index(buf, '\n') + 1
}

/// `buf` after the shell output `s` is written to it: escape sequences are
/// dropped, CR LF becomes LF, a lone CR clears the current line, backspace
/// erases a character, other control characters (but LF and tab) are dropped.
pub open spec fn feed(buf: Seq<char>, s: Seq<char>) -> Seq<char>
    decreases s.len(),
{
    if s.len() == 0 {
        buf
    } else {
        let c = s[0];
        let rest = s.drop_first();
        if c == '\u{1b}' {
            if rest.len() == 0 {
                buf
            } else if rest[0] == '[' {
                proof {
                    lemma_after_csi_len(rest.drop_first());
                }
                feed(buf, after_csi(rest.drop_first()))
            } else if rest[0] == ']' {
                proof {
                    lemma_after_osc_len(rest.drop_first());
                }
                feed(buf, after_osc(rest.drop_first()))
            } else {
                feed(buf, rest.drop_first())
            }
        } else if c == '\r' {
            if rest.len() > 0 && rest[0] == '\n' {
                feed(buf.push('\n'), rest.drop_first())
            } else {
                feed(buf.take(line_start(buf)), rest)
            }
        } else if c == '\u{8}' {
            feed(
                if buf.len() > 0 {
                    buf.drop_last()
                } else {
                    buf
                },
                rest,
            )
        } else if is_control(c) && c != '\n' && c != '\t' {
            feed(buf, rest)
        } else {
            feed(buf.push(c), rest)
        }
    }
}

/// Bytes that `c` takes in UTF-8.
pub open spec fn utf8_width(c: char) -> nat {
    if c <= '\u{7f}' {
        1
    } else if c <= '\u{7ff}' {
        2
    } else if c <= '\u{ffff}' {
        3
    } else {
        4
    }
}

/// Bytes that `s` takes in UTF-8.
pub open spec fn utf8_len(s: Seq<char>) -> nat
    decreases s.len(),
{
    if s.len() == 0 {
        0
    } else {
        utf8_len(s.drop_last()) + utf8_width(s.last())
    }
}

/// Cutting `out` down to the capacity lands on a character boundary.
pub open spec fn cut_on_boundary(out: Seq<char>) -> bool {
    utf8_len(out) > TERMINAL_CAPACITY ==> exists|k: int|
        0 <= k <= out.len() && utf8_len(out.take(k)) == utf8_len(out) - TERMINAL_CAPACITY
}

/// Where the kept part of `out` starts: nothing is cut within the capacity;
/// past it, the excess bytes go, and the rest of the line they end in.
pub open spec fn cut_point(out: Seq<char>) -> int {
    if utf8_len(out) <= TERMINAL_CAPACITY {
        0
    } else {
        let k = choose|k: int|
            0 <= k <= out.len() && utf8_len(out.take(k)) == utf8_len(out) - TERMINAL_CAPACITY;
        let j = first_index(out.skip(k), '\n');
        if j >= 0 {
            k + j + 1
        } else {
            k
        }
    }
}

/// The terminal text after `chunk` of shell output is appended to `buf`.
pub open spec fn terminal_append(buf: Seq<char>, chunk: Seq<char>) -> Seq<char> {
    let out = feed(buf, chunk);
    out.skip(cut_point(out))
}

/// Every character of `s` is ASCII.
pub open spec fn all_ascii(s: Seq<char>) -> bool {
    forall|i: int| 0 <= i < s.len() ==> #[trigger] s[i] <= '\u{7f}'
}

proof fn lemma_ascii_skip(s: Seq<char>, n: int)
    requires
        all_ascii(s),
        0 <= n <= s.len(),
    ensures
        all_ascii(s.skip(n)),
{
    assert forall|i: int| 0 <= i < s.skip(n).len() implies #[trigger] s.skip(n)[i] <= '\u{7f}' by {
        assert(s.skip(n)[i] == s[i + n]);
    }
}

proof fn lemma_after_csi_ascii(s: Seq<char>)
    requires
        all_ascii(s),
    ensures
        all_ascii(after_csi(s)),
    decreases s.len(),
{
    if s.len() > 0 {
        lemma_ascii_skip(s, 1);
        assert(s.drop_first() =~= s.skip(1));
        lemma_after_csi_ascii(s.drop_first());
    }
}

proof fn lemma_after_osc_ascii(s: Seq<char>)
    requires
        all_ascii(s),
    ensures
        all_ascii(after_osc(s)),
    decreases s.len(),
{
    if s.len() > 0 {
        lemma_ascii_skip(s, 1);
        assert(s.drop_first() =~= s.skip(1));
        if s.len() >= 2 {
            lemma_ascii_skip(s, 2);
        }
        lemma_after_osc_ascii(s.drop_first());
    }
}

/// Writing ASCII output to an ASCII buffer leaves it ASCII.
proof fn lemma_feed_ascii(buf: Seq<char>, s: Seq<char>)
    requires
        all_ascii(buf),
        all_ascii(s),
    ensures
        all_ascii(feed(buf, s)),
    decreases s.len(),
{
    if s.len() > 0 {
        let c = s[0];
        let rest = s.drop_first();
        lemma_ascii_skip(s, 1);
        assert(rest =~= s.skip(1));
        if rest.len() > 0 {
            lemma_ascii_skip(rest, 1);
            assert(rest.drop_first() =~= rest.skip(1));
        }
        if c == '\u{1b}' {
            if rest.len() == 0 {
            } else if rest[0] == '[' {
                lemma_after_csi_ascii(rest.drop_first());
                lemma_after_csi_len(rest.drop_first());
                lemma_feed_ascii(buf, after_csi(rest.drop_first()));
            } else if rest[0] == ']' {
                lemma_after_osc_ascii(rest.drop_first());
                lemma_after_osc_len(rest.drop_first());
                lemma_feed_ascii(buf, after_osc(rest.drop_first()));
            } else {
                lemma_feed_ascii(buf, rest.drop_first());
            }
        } else if c == '\r' {
            if rest.len() > 0 && rest[0] == '\n' {
                let b2 = buf.push('\n');
                assert forall|i: int| 0 <= i < b2.len() implies #[trigger] b2[i] <= '\u{7f}' by {
                    if i < buf.len() {
                        assert(b2[i] == buf[i]);
                    }
                }
                lemma_feed_ascii(b2, rest.drop_first());
            } else {
                let ls = line_start(buf);
                let b2 = buf.take(ls);
                assert forall|i: int| 0 <= i < b2.len() implies #[trigger] b2[i] <= '\u{7f}' by {
                    assert(b2[i] == buf[i]);
                }
                lemma_feed_ascii(b2, rest);
            }
        } else if c == '\u{8}' {
            let b2 = if buf.len() > 0 {
                buf.drop_last()
            } else {
                buf
            };
            assert forall|i: int| 0 <= i < b2.len() implies #[trigger] b2[i] <= '\u{7f}' by {
                assert(b2[i] == buf[i]);
            }
            lemma_feed_ascii(b2, rest);
        } else if is_control(c) && c != '\n' && c != '\t' {
            lemma_feed_ascii(buf, rest);
        } else {
            let b2 = buf.push(c);
            assert(c == s[0]);
            assert forall|i: int| 0 <= i < b2.len() implies #[trigger] b2[i] <= '\u{7f}' by {
                if i < buf.len() {
                    assert(b2[i] == buf[i]);
                }
            }
            lemma_feed_ascii(b2, rest);
        }
    }
}

/// ASCII text takes one byte per character.
proof fn lemma_ascii_utf8_len(s: Seq<char>)
    requires
        all_ascii(s),
    ensures
        utf8_len(s) == s.len(),
    decreases s.len(),
{
    if s.len() > 0 {
        let d = s.drop_last();
        assert forall|i: int| 0 <= i < d.len() implies #[trigger] d[i] <= '\u{7f}' by {
            assert(d[i] == s[i]);
        }
        lemma_ascii_utf8_len(d);
        assert(s.last() == s[s.len() - 1]);
    }
}

/// Shell output written to a terminal, when the buffer and the output are
/// ASCII: the cut never falls inside a character; within the capacity the
/// buffer is the written text `b`; past it, the first `e` characters of `b`
/// go (`e` being the excess over the capacity) and the rest of the line
/// they end in, up to and with its line feed, so the buffer holds at most
/// [`TERMINAL_CAPACITY`] bytes and is a suffix of `b`.
pub proof fn lemma_terminal_ascii_cut(buf: Seq<char>, chunk: Seq<char>)
    requires
        all_ascii(buf),
        all_ascii(chunk),
    ensures
        ({
            let b = feed(buf, chunk);
            let e = b.len() - TERMINAL_CAPACITY;
            let i = first_index(b.skip(e), '\n');
            &&& cut_on_boundary(b)
            &&& b.len() <= TERMINAL_CAPACITY ==> terminal_append(buf, chunk) == b
            &&& b.len() > TERMINAL_CAPACITY ==> terminal_append(buf, chunk) == b.skip(
                if i >= 0 {
                    e + i + 1
                } else {
                    e
                },
            )
        }),
{
    let b = feed(buf, chunk);
    lemma_feed_ascii(buf, chunk);
    lemma_ascii_utf8_len(b);
    if b.len() > TERMINAL_CAPACITY {
        let e = b.len() - TERMINAL_CAPACITY;
        assert forall|k: int| 0 <= k <= b.len() implies utf8_len(#[trigger] b.take(k)) == k by {
            assert forall|i: int| 0 <= i < b.take(k).len() implies #[trigger] b.take(k)[i]
                <= '\u{7f}' by {
                assert(b.take(k)[i] == b[i]);
            }
            lemma_ascii_utf8_len(b.take(k));
        }
        assert(utf8_len(b.take(e)) == e);
        let k = choose|k: int|
            0 <= k <= b.len() && utf8_len(b.take(k)) == utf8_len(b) - TERMINAL_CAPACITY;
        assert(k == e);
    } else {
        assert(b.skip(0) =~= b);
    }
}

pub proof fn lemma_utf8_prefix_step(s: Seq<char>, k: int)
    requires
        0 <= k < s.len(),
    ensures
        utf8_len(s.take(k + 1)) == utf8_len(s.take(k)) + utf8_width(s[k]),
{
    assert(s.take(k + 1).drop_last() =~= s.take(k));
}

pub proof fn lemma_utf8_prefix_increasing(s: Seq<char>, i: int, j: int)
    requires
        0 <= i < j <= s.len(),
    ensures
        utf8_len(s.take(i)) < utf8_len(s.take(j)),
    decreases j - i,
{
    lemma_utf8_prefix_step(s, j - 1);
    if i < j - 1 {
        lemma_utf8_prefix_increasing(s, i, j - 1);
    }
}

pub proof fn lemma_utf8_split(s: Seq<char>, k: int)
    requires
        0 <= k <= s.len(),
    ensures
        utf8_len(s) == utf8_len(s.take(k)) + utf8_len(s.skip(k)),
    decreases s.len(),
{
    if k == s.len() {
        assert(s.take(k) =~= s);
        assert(s.skip(k) =~= Seq::<char>::empty());
    } else {
        lemma_utf8_split(s.drop_last(), k);
        assert(s.drop_last().take(k) =~= s.take(k));
        assert(s.skip(k).drop_last() =~= s.drop_last().skip(k));
        assert(s.skip(k).last() == s.last());
    }
}

fn utf8_width_exec(c: char) -> (w: u128)
    ensures
        w == utf8_width(c),
{
    if c <= '\u{7f}' {
        1
    } else if c <= '\u{7ff}' {
        2
    } else if c <= '\u{ffff}' {
        3
    } else {
        4
    }
}

/// The index in `v` just past the CSI escape whose parameters start at `k`.
fn skip_csi(v: &Vec<char>, k: usize) -> (j: usize)
    requires
        k <= v.len(),
    ensures
        k <= j <= v.len(),
        v@.skip(j as int) == after_csi(v@.skip(k as int)),
{
    let mut j = k;
    while j < v.len()
        invariant
            k <= j <= v.len(),
            after_csi(v@.skip(j as int)) == after_csi(v@.skip(k as int)),
        decreases v.len() - j,
    {
        assert(v@.skip(j as int).drop_first() =~= v@.skip(j + 1));
        if '\u{40}' <= v[j] && v[j] <= '\u{7e}' {
            return j + 1;
        }
        j = j + 1;
    }
    assert(v@.skip(j as int) =~= Seq::<char>::empty());
    j
}

/// The index in `v` just past the OSC escape whose text starts at `k`.
fn skip_osc(v: &Vec<char>, k: usize) -> (j: usize)
    requires
        k <= v.len(),
    ensures
        k <= j <= v.len(),
        v@.skip(j as int) == after_osc(v@.skip(k as int)),
{
    let mut j = k;
    while j < v.len()
        invariant
            k <= j <= v.len(),
            after_osc(v@.skip(j as int)) == after_osc(v@.skip(k as int)),
        decreases v.len() - j,
    {
        assert(v@.skip(j as int).drop_first() =~= v@.skip(j + 1));
        if v[j] == '\u{7}' {
            return j + 1;
        }
        if v[j] == '\u{1b}' {
            if j + 1 < v.len() {
                assert(v@.skip(j as int).skip(2) =~= v@.skip(j + 2));
                return j + 2;
            }
            return j + 1;
        }
        j = j + 1;
    }
    assert(v@.skip(j as int) =~= Seq::<char>::empty());
    j
}

/// The characters of `buffer` after `chunk` is fed to it, before the
/// buffer is cut to capacity.
fn feed_chars(buffer: &str, chunk: &str) -> (b: Vec<char>)
    ensures
        b@ == feed(buffer@, chunk@),
{
    let mut b = chars_of(buffer);
    let c = chars_of(chunk);
    let ghost out = feed(buffer@, chunk@);
    let mut i: usize = 0;
    assert(c@.skip(0) =~= c@);
    while i < c.len()
        invariant
            i <= c.len(),
            out == feed(b@, c@.skip(i as int)),
        decreases c.len() - i,
    {
        let ch = c[i];
        let ghost s = c@.skip(i as int);
        assert(s[0] == ch);
        assert(s.drop_first() =~= c@.skip(i + 1));
        if ch == '\u{1b}' {
            if i + 1 >= c.len() {
                assert(c@.skip(c.len() as int) =~= Seq::<char>::empty());
                i = c.len();
            } else if c[i + 1] == '[' {
                assert(s.drop_first().drop_first() =~= c@.skip(i + 2));
                i = skip_csi(&c, i + 2);
            } else if c[i + 1] == ']' {
                assert(s.drop_first().drop_first() =~= c@.skip(i + 2));
                i = skip_osc(&c, i + 2);
            } else {
                assert(s.drop_first().drop_first() =~= c@.skip(i + 2));
                i = i + 2;
            }
        } else if ch == '\r' {
            if i + 1 < c.len() && c[i + 1] == '\n' {
                assert(s.drop_first().drop_first() =~= c@.skip(i + 2));
                b.push('\n');
                i = i + 2;
            } else {
                let blen = b.len();
                let keep = match find_last(&b, '\n') {
                    Some(k) => {
                        assert(is_last_index(b@, k as int, '\n'));
                        assert(k < blen);
                        k + 1
                    },
                    None => 0,
                };
                let ghost prev = b@;
                b.truncate(keep);
                assert(b@ =~= prev.take(line_start(prev)));
                i = i + 1;
            }
        } else if ch == '\u{8}' {
            if b.len() > 0 {
                b.pop();
            }
            i = i + 1;
        } else if (ch <= '\u{1f}' || ('\u{7f}' <= ch && ch <= '\u{9f}')) && ch != '\n' && ch != '\t' {
            i = i + 1;
        } else {
            b.push(ch);
            i = i + 1;
        }
    }
    b
}

/// Bytes that the characters of `b` take in UTF-8.
fn utf8_total(b: &Vec<char>) -> (t: u128)
    ensures
        t == utf8_len(b@),
{
    let mut total: u128 = 0;
    let mut k: usize = 0;
    assert(b@.take(0) =~= Seq::<char>::empty());
    while k < b.len()
        invariant
            k <= b.len(),
            total == utf8_len(b@.take(k as int)),
            total <= 4 * k,
        decreases b.len() - k,
    {
        proof {
            lemma_utf8_prefix_step(b@, k as int);
        }
        total = total + utf8_width_exec(b[k]);
        k = k + 1;
    }
    assert(b@.take(b.len() as int) =~= b@);
    total
}

/// Whether appending `chunk` to the terminal text `buffer` cuts the text on
/// a character boundary, as [`append_terminal_output`] needs.
pub fn fits_terminal(buffer: &str, chunk: &str) -> (r: bool)
    ensures
        r == cut_on_boundary(feed(buffer@, chunk@)),
{
    let b = feed_chars(buffer, chunk);
    let total = utf8_total(&b);
    if total <= TERMINAL_CAPACITY as u128 {
        return true;
    }
    let excess = total - TERMINAL_CAPACITY as u128;
    let mut acc: u128 = 0;
    let mut k: usize = 0;
    assert(b@.take(0) =~= Seq::<char>::empty());
    while k < b.len() && acc < excess
        invariant
            k <= b.len(),
            acc == utf8_len(b@.take(k as int)),
            acc <= 4 * k,
            k > 0 ==> utf8_len(b@.take(k - 1)) < excess,
            excess == utf8_len(b@) - TERMINAL_CAPACITY,
        decreases b.len() - k,
    {
        proof {
            lemma_utf8_prefix_step(b@, k as int);
        }
        acc = acc + utf8_width_exec(b[k]);
        k = k + 1;
    }
    proof {
        assert(b@.take(b@.len() as int) =~= b@);
        if acc == excess {
            assert(utf8_len(b@.take(k as int)) == utf8_len(b@) - TERMINAL_CAPACITY);
        } else {
            assert(acc > excess);
            assert forall|k0: int| 0 <= k0 <= b@.len() implies utf8_len(b@.take(k0)) != utf8_len(b@)
                - TERMINAL_CAPACITY by {
                if k0 < k {
                    if k0 < k - 1 {
                        lemma_utf8_prefix_increasing(b@, k0, k - 1);
                    }
                } else if k0 > k {
                    lemma_utf8_prefix_increasing(b@, k as int, k0);
                }
            }
        }
    }
    acc == excess
}

/// Writes shell output to a terminal buffer, interpreting the control
/// characters a line-oriented view can honour, and keeps the buffer within
/// [`TERMINAL_CAPACITY`] bytes by dropping its oldest lines.
pub fn append_terminal_output(buffer: &mut String, chunk: &str)
    requires
        cut_on_boundary(feed(old(buffer)@, chunk@)),
    ensures
        final(buffer)@ == terminal_append(old(buffer)@, chunk@),
        utf8_len(final(buffer)@) <= TERMINAL_CAPACITY,
{
    let b = feed_chars(buffer.as_str(), chunk);
    let total = utf8_total(&b);
    if total <= TERMINAL_CAPACITY as u128 {
        assert(b@.skip(0) =~= b@);
        *buffer = string_of(&b);
        return;
    }
    let excess = total - TERMINAL_CAPACITY as u128;
    let mut acc: u128 = 0;
    let mut k: usize = 0;
    while k < b.len() && acc < excess
        invariant
            k <= b.len(),
            acc == utf8_len(b@.take(k as int)),
            acc <= 4 * k,
            k > 0 ==> utf8_len(b@.take(k - 1)) < excess,
            excess == utf8_len(b@) - TERMINAL_CAPACITY,
        decreases b.len() - k,
    {
        proof {
            lemma_utf8_prefix_step(b@, k as int);
        }
        acc = acc + utf8_width_exec(b[k]);
        k = k + 1;
    }
    proof {
        let k0 = choose|k0: int|
            0 <= k0 <= b@.len() && utf8_len(b@.take(k0)) == utf8_len(b@) - TERMINAL_CAPACITY;
        assert(acc >= excess);
        if k0 < k {
            if k0 < k - 1 {
                lemma_utf8_prefix_increasing(b@, k0, k - 1);
            }
        } else if k0 > k {
            lemma_utf8_prefix_increasing(b@, k as int, k0);
        }
        assert(k0 == k);
    }
    let cut = match find_char_from(&b, k, '\n') {
        Some(j) => k + j + 1,
        None => k,
    };
    proof {
        lemma_utf8_split(b@, k as int);
        lemma_utf8_split(b@, cut as int);
        if cut > k {
            lemma_utf8_prefix_increasing(b@, k as int, cut as int);
        }
    }
    let kept = slice_of(&b, cut, b.len());
    assert(kept@ =~= b@.skip(cut as int));
    *buffer = string_of(&kept);
}

} // verus!
