//! Connection profiles: the protocols the client speaks, how it authenticates,
//! and the host/port/bucket details of a saved server.
use vstd::prelude::*;
use vstd::string::StrSliceExecFns;

use crate::text::{
    find_char, first_index, is_first_index, lemma_first_index_unique,
    chars_of, dec, leading_ws, parse_unsigned, parse_unsigned_chars, push_all, push_dec,
    push_str, slice_of, string_of, trailing_ws_cut, trim_chars, trim_ws,
};

verus! {

#[derive(Debug, Clone, Copy, PartialEq, Eq, Structural)]
pub enum Protocol {
    Ssh,
    Sftp,
    Scp,
    Ftp,
    S3,
}

impl Protocol {
    pub open spec fn label_spec(self) -> Seq<char> {
        match self {
            Protocol::Ssh => "SSH"@,
            Protocol::Sftp => "SFTP"@,
            Protocol::Scp => "SCP"@,
            Protocol::Ftp => "FTP"@,
            Protocol::S3 => "S3"@,
        }
    }

    pub open spec fn default_port_spec(self) -> u16 {
        match self {
            Protocol::Ssh | Protocol::Sftp | Protocol::Scp => 22,
            Protocol::Ftp => 21,
            Protocol::S3 => 443,
        }
    }

    pub open spec fn browsable_spec(self) -> bool {
        !(self is Ssh)
    }

    pub open spec fn is_object_store_spec(self) -> bool {
        self is S3
    }

    pub open spec fn has_shell_spec(self) -> bool {
        self is Ssh || self is Sftp || self is Scp
    }

    /// Every protocol, in the order the host form lists them.
    pub fn all() -> (r: [Protocol; 5])
        ensures
            r@ == seq![Protocol::Ssh, Protocol::Sftp, Protocol::Scp, Protocol::Ftp, Protocol::S3],
    {
        let r = [Protocol::Ssh, Protocol::Sftp, Protocol::Scp, Protocol::Ftp, Protocol::S3];
        assert(r@ =~= seq![Protocol::Ssh, Protocol::Sftp, Protocol::Scp, Protocol::Ftp, Protocol::S3]);
        r
    }

    /// Short upper-case name of the protocol.
    pub fn label(self) -> (s: &'static str)
        ensures
            s@ == self.label_spec(),
    {
        match self {
            Protocol::Ssh => "SSH",
            Protocol::Sftp => "SFTP",
            Protocol::Scp => "SCP",
            Protocol::Ftp => "FTP",
            Protocol::S3 => "S3",
        }
    }

    /// The well-known port of the protocol.
    pub fn default_port(self) -> (p: u16)
        ensures
            p == self.default_port_spec(),
    {
        match self {
            Protocol::Ssh | Protocol::Sftp | Protocol::Scp => 22,
            Protocol::Ftp => 21,
            Protocol::S3 => 443,
        }
    }

    /// Whether sessions of this protocol show a file browser.
    pub fn browsable(self) -> (b: bool)
        ensures
            b == self.browsable_spec(),
    {
        match self {
            Protocol::Sftp | Protocol::Scp | Protocol::Ftp | Protocol::S3 => true,
            _ => false,
        }
    }

    /// Whether the protocol addresses a bucket of objects rather than a host.
    pub fn is_object_store(self) -> (b: bool)
        ensures
            b == self.is_object_store_spec(),
    {
        match self {
            Protocol::S3 => true,
            _ => false,
        }
    }

    /// Whether the protocol runs over SSH and can therefore open a shell.
    pub fn has_shell(self) -> (b: bool)
        ensures
            b == self.has_shell_spec(),
    {
        match self {
            Protocol::Ssh | Protocol::Sftp | Protocol::Scp => true,
            _ => false,
        }
    }
}

#[derive(Debug, Clone, PartialEq, Eq)]
pub enum Auth {
    Password(String),
    KeyFile { path: String, passphrase: String },
    S3Keys { access_key: String, secret_key: String },
}

/// The contents of an [`Auth`], as character sequences.
pub enum AuthView {
    Password(Seq<char>),
    KeyFile { path: Seq<char>, passphrase: Seq<char> },
    S3Keys { access_key: Seq<char>, secret_key: Seq<char> },
}

impl View for Auth {
    type V = AuthView;

    open spec fn view(&self) -> AuthView {
        match self {
            Auth::Password(p) => AuthView::Password(p@),
            Auth::KeyFile { path, passphrase } => AuthView::KeyFile {
                path: path@,
                passphrase: passphrase@,
            },
            Auth::S3Keys { access_key, secret_key } => AuthView::S3Keys {
                access_key: access_key@,
                secret_key: secret_key@,
            },
        }
    }
}

impl AuthView {
    /// The blank credentials that a profile of `protocol` starts with.
    pub open spec fn blank_for(protocol: Protocol) -> AuthView {
        if protocol.is_object_store_spec() {
            AuthView::S3Keys { access_key: Seq::empty(), secret_key: Seq::empty() }
        } else {
            AuthView::Password(Seq::empty())
        }
    }

    /// S3 keys go with the object store and only with it.
    pub open spec fn fits(self, protocol: Protocol) -> bool {
        (self is S3Keys) == protocol.is_object_store_spec()
    }
}

/// Switching a profile's protocol keeps the credentials that the new
/// protocol can use: a password or a key file stays as typed when neither
/// protocol is S3, and S3 keys stay when the protocol stays S3. Credentials
/// of the wrong kind (S3 keys for another protocol, a password or key file
/// for S3) give way to blank ones of the right kind. The port moves to the
/// new protocol's default, and nothing else changes.
pub proof fn lemma_switching_protocol_keeps_usable_credentials(p: ProfileView, q: Protocol)
    ensures
        p.with_protocol(q).protocol == q,
        p.with_protocol(q).host == p.host && p.with_protocol(q).username == p.username
            && p.with_protocol(q).bucket == p.bucket && p.with_protocol(q).name == p.name,
        p.protocol != q ==> p.with_protocol(q).port == q.default_port_spec(),
        (p.auth is Password || p.auth is KeyFile) && q != Protocol::S3 ==> p.with_protocol(q).auth
            == p.auth,
        p.auth is S3Keys && q == Protocol::S3 ==> p.with_protocol(q).auth == p.auth,
        p.protocol != q && p.auth is S3Keys && q != Protocol::S3 ==> p.with_protocol(q).auth
            == AuthView::Password(Seq::empty()),
        p.protocol != q && !(p.auth is S3Keys) && q == Protocol::S3 ==> p.with_protocol(q).auth
            == (AuthView::S3Keys { access_key: Seq::empty(), secret_key: Seq::empty() }),
{
}

impl Auth {
    /// Blank credentials of the kind `protocol` uses.
    pub fn for_protocol(protocol: Protocol) -> (a: Auth)
        ensures
            a@ == AuthView::blank_for(protocol),
    {
        if protocol.is_object_store() {
            Auth::S3Keys { access_key: String::new(), secret_key: String::new() }
        } else {
            Auth::Password(String::new())
        }
    }

    /// A copy of these credentials.
    pub fn duplicate(&self) -> (a: Auth)
        ensures
            a@ == self@,
    {
        match self {
            Auth::Password(p) => Auth::Password(p.clone()),
            Auth::KeyFile { path, passphrase } => Auth::KeyFile {
                path: path.clone(),
                passphrase: passphrase.clone(),
            },
            Auth::S3Keys { access_key, secret_key } => Auth::S3Keys {
                access_key: access_key.clone(),
                secret_key: secret_key.clone(),
            },
        }
    }
}

#[derive(Debug, Clone)]
pub struct ConnectionProfile {
    pub name: String,
    pub protocol: Protocol,
    pub host: String,
    pub port: u16,
    pub username: String,
    pub auth: Auth,
    /// S3 only.
    pub bucket: String,
    pub region: String,
    pub remote_start_dir: String,
}

/// The contents of a [`ConnectionProfile`], as character sequences.
pub struct ProfileView {
    pub name: Seq<char>,
    pub protocol: Protocol,
    pub host: Seq<char>,
    pub port: u16,
    pub username: Seq<char>,
    pub auth: AuthView,
    pub bucket: Seq<char>,
    pub region: Seq<char>,
    pub remote_start_dir: Seq<char>,
}

impl View for ConnectionProfile {
    type V = ProfileView;

    open spec fn view(&self) -> ProfileView {
        ProfileView {
            name: self.name@,
            protocol: self.protocol,
            host: self.host@,
            port: self.port,
            username: self.username@,
            auth: self.auth@,
            bucket: self.bucket@,
            region: self.region@,
            remote_start_dir: self.remote_start_dir@,
        }
    }
}

/// `s[i]` is `a` and `s[i + 1]` is `b`.
pub open spec fn pair_at(s: Seq<char>, i: int, a: char, b: char) -> bool {
    0 <= i && i + 1 < s.len() && s[i] == a && s[i + 1] == b
}

/// `i` is where `a` followed by `b` first occurs in `s`.
pub open spec fn is_first_pair(s: Seq<char>, i: int, a: char, b: char) -> bool {
    &&& pair_at(s, i, a, b)
    &&& forall|j: int| 0 <= j < i ==> !pair_at(s, j, a, b)
}

/// Index of the first `a` directly followed by `b` in `s`, or -1.
pub open spec fn first_pair_index(s: Seq<char>, a: char, b: char) -> int {
    if exists|i: int| is_first_pair(s, i, a, b) {
        choose|i: int| is_first_pair(s, i, a, b)
    } else {
        -1
    }
}

/// How many times `c` occurs in `s`.
pub open spec fn count_char(s: Seq<char>, c: char) -> nat
    decreases s.len(),
{
    if s.len() == 0 {
        0
    } else {
        count_char(s.drop_last(), c) + if s.last() == c {
            1nat
        } else {
            0nat
        }
    }
}

/// A host field split into an address and the text after the port colon:
/// `[addr]:port` for bracketed IPv6 literals, `addr:port` when there is exactly
/// one colon, and nothing otherwise.
pub open spec fn endpoint_split(h: Seq<char>) -> Option<(Seq<char>, Seq<char>)> {
    if h.len() > 0 && h[0] == '[' {
        let rest = h.drop_first();
        let i = first_pair_index(rest, ']', ':');
        if i >= 0 {
            Some((seq!['['] + rest.take(i) + seq![']'], rest.skip(i + 2)))
        } else {
            None
        }
    } else if count_char(h, ':') == 1 {
        let i = first_index(h, ':');
        Some((h.take(i), h.skip(i + 1)))
    } else {
        None
    }
}

/// The port number in `text`, when it is a valid non-zero `u16`.
pub open spec fn port_in(text: Seq<char>) -> Option<u16> {
    match parse_unsigned(text, 65535) {
        Some(n) => if n > 0 {
            Some(n as u16)
        } else {
            None
        },
        None => None,
    }
}

impl ProfileView {
    pub open spec fn display_name(self) -> Seq<char> {
        if trim_ws(self.name).len() > 0 {
            trim_ws(self.name)
        } else if self.protocol.is_object_store_spec() {
            self.bucket
        } else {
            self.host
        }
    }

    pub open spec fn endpoint(self) -> Seq<char> {
        let head = self.protocol.label_spec() + " \u{b7} "@;
        if self.protocol.is_object_store_spec() {
            head + self.region + "/"@ + self.bucket
        } else if self.username.len() == 0 {
            head + self.host + ":"@ + dec(self.port as nat)
        } else {
            head + self.username + "@"@ + self.host + ":"@ + dec(self.port as nat)
        }
    }

    pub open spec fn is_connectable(self) -> bool {
        if self.protocol.is_object_store_spec() {
            trim_ws(self.bucket).len() > 0
        } else {
            trim_ws(self.host).len() > 0
        }
    }

    /// The profile after switching to `protocol`.
    pub open spec fn with_protocol(self, protocol: Protocol) -> ProfileView {
        if self.protocol == protocol {
            self
        } else {
            ProfileView {
                protocol,
                port: protocol.default_port_spec(),
                auth: if self.auth.fits(protocol) {
                    self.auth
                } else {
                    AuthView::blank_for(protocol)
                },
                ..self
            }
        }
    }

    /// The profile after an inline `:port` in the host field is moved into
    /// the port field (or the port reset to the protocol's default).
    pub open spec fn normalized(self) -> ProfileView {
        let h = trim_ws(self.host);
        let fallback = ProfileView { host: h, port: self.protocol.default_port_spec(), ..self };
        match endpoint_split(h) {
            Some((addr, port_text)) => match port_in(port_text) {
                Some(p) => ProfileView { host: addr, port: p, ..self },
                None => fallback,
            },
            None => fallback,
        }
    }

    /// A fresh profile for `protocol`.
    pub open spec fn fresh(protocol: Protocol) -> ProfileView {
        ProfileView {
            name: Seq::empty(),
            protocol,
            host: Seq::empty(),
            port: protocol.default_port_spec(),
            username: Seq::empty(),
            auth: AuthView::blank_for(protocol),
            bucket: Seq::empty(),
            region: "us-east-1"@,
            remote_start_dir: "/"@,
        }
    }
}

proof fn lemma_first_pair_unique(s: Seq<char>, i: int, k: int, a: char, b: char)
    requires
        is_first_pair(s, i, a, b),
        is_first_pair(s, k, a, b),
    ensures
        i == k,
{
    if i < k {
        assert(!pair_at(s, i, a, b));
    } else if k < i {
        assert(!pair_at(s, k, a, b));
    }
}

/// Where `a` directly followed by `b` first occurs in `v`, from index `from` on.
fn find_pair(v: &Vec<char>, from: usize, a: char, b: char) -> (r: Option<usize>)
    requires
        from <= v.len(),
    ensures
        r matches Some(i) ==> from <= i && is_first_pair(v@.skip(from as int), i - from, a, b),
        r is None ==> first_pair_index(v@.skip(from as int), a, b) == -1,
{
    let ghost s = v@.skip(from as int);
    let mut i = from;
    while i < v.len() && v.len() - i > 1
        invariant
            from <= i <= v.len(),
            s == v@.skip(from as int),
            forall|j: int| 0 <= j < i - from ==> !pair_at(s, j, a, b),
        decreases v.len() - i,
    {
        if v[i] == a && v[i + 1] == b {
            assert(pair_at(s, i - from, a, b));
            return Some(i);
        }
        i = i + 1;
    }
    assert forall|k: int| !is_first_pair(s, k, a, b) by {
        if is_first_pair(s, k, a, b) {
            assert(pair_at(s, k, a, b));
        }
    }
    None
}

/// How many times `c` occurs in `v`.
fn count_chars(v: &Vec<char>, c: char) -> (n: usize)
    ensures
        n == count_char(v@, c),
{
    let mut n: usize = 0;
    let mut i: usize = 0;
    assert(v@.take(0) =~= Seq::<char>::empty());
    while i < v.len()
        invariant
            i <= v.len(),
            n <= i,
            n == count_char(v@.take(i as int), c),
        decreases v.len() - i,
    {
        assert(v@.take(i + 1).drop_last() =~= v@.take(i as int));
        if v[i] == c {
            n = n + 1;
        }
        i = i + 1;
    }
    assert(v@.take(v.len() as int) =~= v@);
    n
}

/// Splits a trimmed host field into address and port text.
fn split_endpoint(h: &Vec<char>) -> (r: Option<(Vec<char>, Vec<char>)>)
    ensures
        r matches Some((a, p)) ==> endpoint_split(h@) == Some((a@, p@)),
        r is None ==> endpoint_split(h@) is None,
{
    if h.len() > 0 && h[0] == '[' {
        let ghost rest = h@.drop_first();
        assert(rest =~= h@.skip(1));
        match find_pair(h, 1, ']', ':') {
            Some(i) => {
                proof {
                    lemma_first_pair_unique(rest, i - 1, first_pair_index(rest, ']', ':'), ']', ':');
                }
                let mut addr: Vec<char> = Vec::new();
                addr.push('[');
                let inner = slice_of(h, 1, i);
                let mut k: usize = 0;
                while k < inner.len()
                    invariant
                        k <= inner.len(),
                        addr@ == seq!['['] + inner@.take(k as int),
                    decreases inner.len() - k,
                {
                    addr.push(inner[k]);
                    k = k + 1;
                }
                addr.push(']');
                let port = slice_of(h, i + 2, h.len());
                assert(inner@ =~= rest.take(i - 1));
                assert(inner@.take(inner.len() as int) =~= inner@);
                assert(addr@ =~= seq!['['] + rest.take(i - 1) + seq![']']);
                assert(port@ =~= rest.skip(i - 1 + 2));
                Some((addr, port))
            },
            None => None,
        }
    } else if count_chars(h, ':') == 1 {
        match find_char(h, ':') {
            Some(i) => {
                proof {
                    lemma_first_index_unique(h@, i as int, first_index(h@, ':'), ':');
                }
                let addr = slice_of(h, 0, i);
                let port = slice_of(h, i + 1, h.len());
                assert(addr@ =~= h@.take(i as int));
                assert(port@ =~= h@.skip(i + 1));
                Some((addr, port))
            },
            None => {
                proof {
                    lemma_no_char_count(h@, ':');
                }
                None
            },
        }
    } else {
        None
    }
}

proof fn lemma_no_char_count(s: Seq<char>, c: char)
    requires
        forall|j: int| 0 <= j < s.len() ==> s[j] != c,
    ensures
        count_char(s, c) == 0,
    decreases s.len(),
{
    if s.len() > 0 {
        lemma_no_char_count(s.drop_last(), c);
    }
}

impl ConnectionProfile {
    /// A blank profile for `protocol`.
    pub fn new(protocol: Protocol) -> (p: ConnectionProfile)
        ensures
            p@ == ProfileView::fresh(protocol),
    {
        ConnectionProfile {
            name: String::new(),
            protocol,
            host: String::new(),
            port: protocol.default_port(),
            username: String::new(),
            auth: Auth::for_protocol(protocol),
            bucket: String::new(),
            region: String::from_str("us-east-1"),
            remote_start_dir: String::from_str("/"),
        }
    }

    /// A copy of this profile.
    pub fn duplicate(&self) -> (p: ConnectionProfile)
        ensures
            p@ == self@,
    {
        ConnectionProfile {
            name: self.name.clone(),
            protocol: self.protocol,
            host: self.host.clone(),
            port: self.port,
            username: self.username.clone(),
            auth: self.auth.duplicate(),
            bucket: self.bucket.clone(),
            region: self.region.clone(),
            remote_start_dir: self.remote_start_dir.clone(),
        }
    }

    /// The name shown for the host: its label, else its bucket or host.
    pub fn display_name(&self) -> (s: &str)
        ensures
            s@ == self@.display_name(),
    {
        let v = chars_of(self.name.as_str());
        let lo = leading_ws(&v);
        let hi = trailing_ws_cut(&v, lo);
        assert(v@.subrange(lo as int, v.len() as int) =~= v@.skip(lo as int));
        if lo < hi {
            self.name.as_str().substring_char(lo, hi)
        } else if self.protocol.is_object_store() {
            self.bucket.as_str()
        } else {
            self.host.as_str()
        }
    }

    /// One line describing where the profile connects to.
    pub fn endpoint(&self) -> (s: String)
        ensures
            s@ == self@.endpoint(),
    {
        let mut s = String::new();
        push_str(&mut s, self.protocol.label());
        push_str(&mut s, " \u{b7} ");
        if self.protocol.is_object_store() {
            push_str(&mut s, self.region.as_str());
            push_str(&mut s, "/");
            push_str(&mut s, self.bucket.as_str());
        } else {
            if self.username.as_str().unicode_len() > 0 {
                push_str(&mut s, self.username.as_str());
                push_str(&mut s, "@");
            }
            push_str(&mut s, self.host.as_str());
            push_str(&mut s, ":");
            push_dec(&mut s, self.port as u128);
        }
        s
    }

    /// Whether the profile names something to connect to.
    pub fn is_connectable(&self) -> (b: bool)
        ensures
            b == self@.is_connectable(),
    {
        let field = if self.protocol.is_object_store() {
            chars_of(self.bucket.as_str())
        } else {
            chars_of(self.host.as_str())
        };
        trim_chars(&field).len() > 0
    }

    /// Switches the protocol, moving the port to its default and replacing
    /// credentials the new protocol cannot use.
    pub fn set_protocol(&mut self, protocol: Protocol)
        ensures
            final(self)@ == old(self)@.with_protocol(protocol),
    {
        if self.protocol == protocol {
            return;
        }
        self.protocol = protocol;
        self.port = protocol.default_port();
        let compatible = match &self.auth {
            Auth::S3Keys { .. } => protocol.is_object_store(),
            _ => !protocol.is_object_store(),
        };
        if !compatible {
            self.auth = Auth::for_protocol(protocol);
        }
    }

    /// Moves a `host:port` (or `[v6]:port`) typed into the host field into
    /// the port field, and trims the host.
    pub fn normalize_endpoint(&mut self)
        ensures
            final(self)@ == old(self)@.normalized(),
    {
        let host = trim_chars(&chars_of(self.host.as_str()));
        match split_endpoint(&host) {
            Some((addr, port_text)) => {
                match parse_unsigned_chars(&port_text, 65535) {
                    Some(p) => {
                        if p > 0 {
                            self.host = string_of(&addr);
                            self.port = p as u16;
                            return;
                        }
                    },
                    None => {},
                }
            },
            None => {},
        }
        self.host = string_of(&host);
        self.port = self.protocol.default_port();
    }
}

impl Default for ConnectionProfile {
    fn default() -> (p: ConnectionProfile)
        ensures
            p@ == ProfileView::fresh(Protocol::Sftp),
    {
        ConnectionProfile::new(Protocol::Sftp)
    }
}

} // verus!
