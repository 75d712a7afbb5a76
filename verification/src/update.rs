//! Update check: whether the latest published release is newer than the
//! running build, and which of its downloads fits this platform.
use std::sync::mpsc::{Receiver, TryRecvError};
use vstd::prelude::*;

use crate::text::{
    leading_char, trim_start_char,
    chars_of, char_is_ws, parse_unsigned, parse_unsigned_chars, slice_of, string_of, trim_chars,
    trim_ws,
};

verus! {

#[verifier::external_type_specification]
#[verifier::external_body]
#[verifier::reject_recursive_types(T)]
pub struct ExReceiver<T>(Receiver<T>);

#[verifier::external_type_specification]
#[verifier::external_body]
pub struct ExTryRecvError(TryRecvError);

/// `Receiver::try_recv`: the next value waiting in the channel, if any.
pub assume_specification<T>[ Receiver::<T>::try_recv ](r: &Receiver<T>) -> Result<T, TryRecvError>;

#[derive(Debug, Clone)]
pub struct Available {
    pub version: String,
    pub url: String,
    pub asset: Option<Asset>,
}

#[derive(Debug, Clone)]
pub struct Asset {
    pub name: String,
    pub url: String,
}

/// An update check running in the background.
pub struct UpdateCheck {
    pub rx: Receiver<Available>,
}

impl UpdateCheck {
    /// The newer release the update check found, once it has found one.
    pub fn poll(&self) -> Option<Available> {
        match self.rx.try_recv() {
            Ok(a) => Some(a),
            Err(_) => None,
        }
    }
}

/// `s` without its leading `v`s and `V`s.
pub open spec fn trim_start_v(s: Seq<char>) -> Seq<char>
    decreases s.len(),
{
    if s.len() > 0 && (s[0] == 'v' || s[0] == 'V') {
        trim_start_v(s.drop_first())
    } else {
        s
    }
}

/// `s` up to its first `-` or `+` (the pre-release or build suffix).
pub open spec fn before_suffix(s: Seq<char>) -> Seq<char>
    decreases s.len(),
{
    if s.len() == 0 {
        s
    } else if s[0] == '-' || s[0] == '+' {
        Seq::empty()
    } else {
        seq![s[0]] + before_suffix(s.drop_first())
    }
}

/// The parts of `s` between the `c`s (`str::split`).
pub open spec fn split_on(s: Seq<char>, c: char) -> Seq<Seq<char>>
    decreases s.len(),
{
    if s.len() == 0 {
        seq![Seq::empty()]
    } else {
        let prev = split_on(s.drop_last(), c);
        if s.last() == c {
            prev.push(Seq::empty())
        } else {
            prev.update(prev.len() - 1, prev.last().push(s.last()))
        }
    }
}

pub proof fn lemma_split_on_nonempty(s: Seq<char>, c: char)
    ensures
        split_on(s, c).len() >= 1,
    decreases s.len(),
{
    if s.len() > 0 {
        lemma_split_on_nonempty(s.drop_last(), c);
    }
}

/// A dotted part as a number; parts that are not numbers count as 0.
pub open spec fn part_value(part: Seq<char>) -> nat {
    match parse_unsigned(part, u64::MAX as nat) {
        Some(n) => n,
        None => 0,
    }
}

/// The values of dotted parts.
pub open spec fn part_values(parts: Seq<Seq<char>>) -> Seq<nat> {
    parts.map_values(|p: Seq<char>| part_value(p))
}

/// Machine integers as naturals.
pub open spec fn nats(s: Seq<u64>) -> Seq<nat> {
    s.map_values(|n: u64| n as nat)
}

/// The characters of each vector.
pub open spec fn texts_of(s: Seq<Vec<char>>) -> Seq<Seq<char>> {
    s.map_values(|p: Vec<char>| p@)
}

/// The numbers of a version tag such as `v1.2.3-rc1`: surrounding
/// whitespace, leading `v`s and any `-`/`+` suffix are dropped, and the rest
/// is split on dots.
pub open spec fn version_numbers(v: Seq<char>) -> Seq<nat> {
    part_values(split_on(before_suffix(trim_start_v(trim_ws(v))), '.'))
}

/// The number at position `i`, 0 past the end.
pub open spec fn num_at(xs: Seq<nat>, i: int) -> nat {
    if 0 <= i < xs.len() {
        xs[i]
    } else {
        0
    }
}

pub open spec fn max_len(a: Seq<nat>, b: Seq<nat>) -> nat {
    if a.len() >= b.len() {
        a.len()
    } else {
        b.len()
    }
}

/// `a` is greater than `b` when both are compared position by position from
/// `i` on, missing positions counting as 0.
pub open spec fn greater_from(a: Seq<nat>, b: Seq<nat>, i: nat) -> bool
    decreases max_len(a, b) - i,
{
    if i >= max_len(a, b) {
        false
    } else if num_at(a, i as int) != num_at(b, i as int) {
        num_at(a, i as int) > num_at(b, i as int)
    } else {
        greater_from(a, b, i + 1)
    }
}

/// Release `candidate` is newer than version `current`.
pub open spec fn is_newer_spec(candidate: Seq<char>, current: Seq<char>) -> bool {
    let a = version_numbers(candidate);
    a.len() > 0 && greater_from(a, version_numbers(current), 0)
}

/// The dotted part of a version tag: trimmed, without leading `v`s and
/// without a `-`/`+` suffix.
fn version_head(v: &str) -> (head: Vec<char>)
    ensures
        head@ == before_suffix(trim_start_v(trim_ws(v@))),
{
    let t = trim_chars(&chars_of(v));
    let mut k: usize = 0;
    assert(t@.skip(0) =~= t@);
    while k < t.len() && (t[k] == 'v' || t[k] == 'V')
        invariant
            k <= t.len(),
            trim_start_v(t@.skip(k as int)) == trim_start_v(t@),
        decreases t.len() - k,
    {
        assert(t@.skip(k as int).drop_first() =~= t@.skip(k + 1));
        k = k + 1;
    }
    let mut end = k;
    while end < t.len() && t[end] != '-' && t[end] != '+'
        invariant
            k <= end <= t.len(),
            before_suffix(t@.skip(k as int)) == t@.subrange(k as int, end as int) + before_suffix(
                t@.skip(end as int),
            ),
        decreases t.len() - end,
    {
        assert(t@.skip(end as int).drop_first() =~= t@.skip(end + 1));
        assert(t@.subrange(k as int, end + 1) =~= t@.subrange(k as int, end as int) + seq![
            t@[end as int],
        ]);
        end = end + 1;
    }
    assert(before_suffix(t@.skip(end as int)) =~= Seq::<char>::empty());
    let head = slice_of(&t, k, end);
    assert(head@ =~= before_suffix(trim_start_v(t@)));
    head
}

/// The parts of `head` between its dots.
fn split_dots(head: &Vec<char>) -> (parts: Vec<Vec<char>>)
    ensures
        texts_of(parts@) == split_on(head@, '.'),
{
    let mut parts: Vec<Vec<char>> = Vec::new();
    let mut cur: Vec<char> = Vec::new();
    let mut i: usize = 0;
    assert(head@.take(0) =~= Seq::<char>::empty());
    assert(texts_of(parts@).push(cur@) =~= seq![Seq::<char>::empty()]);
    while i < head.len()
        invariant
            i <= head.len(),
            split_on(head@.take(i as int), '.') == texts_of(parts@).push(cur@),
        decreases head.len() - i,
    {
        assert(head@.take(i + 1).drop_last() =~= head@.take(i as int));
        let ghost before = texts_of(parts@).push(cur@);
        if head[i] == '.' {
            let done = cur;
            parts.push(done);
            cur = Vec::new();
            assert(texts_of(parts@).push(cur@) =~= before.push(Seq::empty()));
        } else {
            cur.push(head[i]);
            assert(texts_of(parts@).push(cur@) =~= before.update(
                before.len() - 1,
                before.last().push(head@[i as int]),
            ));
        }
        i = i + 1;
    }
    assert(head@.take(head.len() as int) =~= head@);
    let ghost before = texts_of(parts@).push(cur@);
    parts.push(cur);
    assert(texts_of(parts@) =~= before);
    parts
}

/// The value of each dotted part.
fn part_numbers(parts: &Vec<Vec<char>>) -> (r: Vec<u64>)
    ensures
        nats(r@) == part_values(texts_of(parts@)),
{
    let ghost texts = texts_of(parts@);
    let mut r: Vec<u64> = Vec::new();
    let mut j: usize = 0;
    assert(nats(r@) =~= part_values(texts.take(0)));
    while j < parts.len()
        invariant
            j <= parts.len(),
            r.len() == j,
            texts == texts_of(parts@),
            nats(r@) == part_values(texts.take(j as int)),
        decreases parts.len() - j,
    {
        let n = match parse_unsigned_chars(&parts[j], u64::MAX) {
            Some(n) => n,
            None => 0,
        };
        assert(texts[j as int] == parts@[j as int]@);
        assert(n as nat == part_value(texts[j as int]));
        let ghost before = r@;
        r.push(n);
        assert(r@ == before.push(n));
        assert(texts.len() == parts.len());
        assert(nats(r@).len() == j + 1);
        assert(part_values(texts.take(j + 1)).len() == j + 1);
        assert forall|k: int| 0 <= k < j + 1 implies nats(r@)[k] == part_values(texts.take(j + 1))[k] by {
            assert(nats(r@)[k] == r@[k] as nat);
            assert(part_values(texts.take(j + 1))[k] == part_value(texts.take(j + 1)[k]));
            assert(texts.take(j + 1)[k] == texts[k]);
            if k < j {
                assert(nats(before)[k] == part_values(texts.take(j as int))[k]);
                assert(nats(before)[k] == before[k] as nat);
                assert(part_values(texts.take(j as int))[k] == part_value(texts.take(j as int)[k]));
            }
        }
        assert(nats(r@) =~= part_values(texts.take(j + 1)));
        j = j + 1;
    }
    assert(texts.take(parts.len() as int) =~= texts);
    r
}

/// The numbers of a version tag.
fn version_numbers_exec(v: &str) -> (r: Vec<u64>)
    ensures
        nats(r@) == version_numbers(v@),
{
    let head = version_head(v);
    let parts = split_dots(&head);
    part_numbers(&parts)
}

/// Whether release tag `candidate` is a newer version than `current`,
/// comparing the dotted numbers as numbers.
pub fn is_newer(candidate: &str, current: &str) -> (b: bool)
    ensures
        b == is_newer_spec(candidate@, current@),
{
    let a = version_numbers_exec(candidate);
    let c = version_numbers_exec(current);
    let ghost av = nats(a@);
    let ghost cv = nats(c@);
    if a.len() == 0 {
        return false;
    }
    let len = if a.len() >= c.len() {
        a.len()
    } else {
        c.len()
    };
    let mut i: usize = 0;
    while i < len
        invariant
            i <= len,
            len == max_len(av, cv),
            av == version_numbers(candidate@),
            cv == version_numbers(current@),
            av.len() == a.len(),
            cv.len() == c.len(),
            forall|k: int| 0 <= k < a.len() ==> av[k] == a@[k] as nat,
            forall|k: int| 0 <= k < c.len() ==> cv[k] == c@[k] as nat,
            greater_from(av, cv, 0) == greater_from(av, cv, i as nat),
        decreases len - i,
    {
        let x = if i < a.len() {
            a[i]
        } else {
            0
        };
        let y = if i < c.len() {
            c[i]
        } else {
            0
        };
        assert(x as nat == num_at(av, i as int));
        assert(y as nat == num_at(cv, i as int));
        if x != y {
            assert(greater_from(av, cv, i as nat) == (x > y));
            return x > y;
        }
        i = i + 1;
    }
    false
}

/// Where `a` and `b` first differ from position `i` on, `a` is greater.
pub open spec fn greater_at(a: Seq<nat>, b: Seq<nat>, i: nat, j: nat) -> bool {
    &&& i <= j
    &&& num_at(a, j as int) > num_at(b, j as int)
    &&& forall|k: nat| i <= k < j ==> num_at(a, k as int) == num_at(b, k as int)
}

proof fn lemma_greater_from_witness(a: Seq<nat>, b: Seq<nat>, i: nat)
    ensures
        greater_from(a, b, i) <==> exists|j: nat| greater_at(a, b, i, j),
    decreases max_len(a, b) - i,
{
    if i >= max_len(a, b) {
        assert forall|j: nat| !greater_at(a, b, i, j) by {
            if greater_at(a, b, i, j) {
                assert(num_at(a, j as int) == 0 && num_at(b, j as int) == 0);
            }
        }
    } else if num_at(a, i as int) != num_at(b, i as int) {
        if num_at(a, i as int) > num_at(b, i as int) {
            assert(greater_at(a, b, i, i));
        } else {
            assert forall|j: nat| !greater_at(a, b, i, j) by {
                if greater_at(a, b, i, j) && j > i {
                    assert(num_at(a, i as int) == num_at(b, i as int));
                }
            }
        }
    } else {
        let i1: nat = i + 1;
        lemma_greater_from_witness(a, b, i1);
        if greater_from(a, b, i1) {
            let j = choose|j: nat| greater_at(a, b, i1, j);
            assert(greater_at(a, b, i, j));
        }
        if exists|j: nat| greater_at(a, b, i, j) {
            let j = choose|j: nat| greater_at(a, b, i, j);
            assert(j != i);
            assert(greater_at(a, b, i1, j));
        }
    }
}

/// No version is newer than itself, and of two versions at most one is
/// newer than the other.
pub proof fn lemma_is_newer_asymmetric(x: Seq<char>, y: Seq<char>)
    ensures
        !(is_newer_spec(x, y) && is_newer_spec(y, x)),
        !is_newer_spec(x, x),
{
    let a = version_numbers(x);
    let b = version_numbers(y);
    lemma_greater_from_witness(a, b, 0);
    lemma_greater_from_witness(b, a, 0);
    lemma_greater_from_witness(a, a, 0);
    if greater_from(a, b, 0) && greater_from(b, a, 0) {
        let j = choose|j: nat| greater_at(a, b, 0, j);
        let k = choose|k: nat| greater_at(b, a, 0, k);
        if j < k {
            assert(num_at(b, j as int) == num_at(a, j as int));
        } else if k < j {
            assert(num_at(a, k as int) == num_at(b, k as int));
        }
    }
}

/// Being newer is transitive.
pub proof fn lemma_is_newer_transitive(x: Seq<char>, y: Seq<char>, z: Seq<char>)
    requires
        is_newer_spec(x, y),
        is_newer_spec(y, z),
    ensures
        is_newer_spec(x, z),
{
    let a = version_numbers(x);
    let b = version_numbers(y);
    let c = version_numbers(z);
    lemma_greater_from_witness(a, b, 0);
    lemma_greater_from_witness(b, c, 0);
    lemma_greater_from_witness(a, c, 0);
    let j = choose|j: nat| greater_at(a, b, 0, j);
    let k = choose|k: nat| greater_at(b, c, 0, k);
    let m = if j <= k {
        j
    } else {
        k
    };
    assert forall|q: nat| 0 <= q < m implies num_at(a, q as int) == num_at(c, q as int) by {
        assert(num_at(a, q as int) == num_at(b, q as int));
        assert(num_at(b, q as int) == num_at(c, q as int));
    }
    if j < k {
        assert(num_at(b, j as int) == num_at(c, j as int));
    } else if k < j {
        assert(num_at(a, k as int) == num_at(b, k as int));
    }
    assert(greater_at(a, c, 0, m));
}

/// One download listed in a release, with the fields the update check reads when
/// they are strings.
pub struct ReleaseAsset {
    pub name: Option<String>,
    pub url: Option<String>,
}

/// `s` ends with `t`.
pub open spec fn ends_with(s: Seq<char>, t: Seq<char>) -> bool {
    t.len() <= s.len() && s.skip(s.len() - t.len()) == t
}

/// The release asset at `i` is a download for a platform whose file names
/// end in `suffix`.
pub open spec fn fits_platform(assets: Seq<ReleaseAsset>, i: int, suffix: Seq<char>) -> bool {
    &&& 0 <= i < assets.len()
    &&& assets[i].name matches Some(n) && ends_with(n@, suffix)
    &&& assets[i].url is Some
}

/// The first asset that fits the platform, as (name, url).
pub open spec fn platform_asset_spec(assets: Seq<ReleaseAsset>, suffix: Option<Seq<char>>) -> Option<
    (Seq<char>, Seq<char>),
> {
    match suffix {
        None => None,
        Some(sfx) => if exists|i: int| fits_platform(assets, i, sfx) {
            let i = choose|i: int|
                fits_platform(assets, i, sfx) && forall|j: int|
                    0 <= j < i ==> !fits_platform(assets, j, sfx);
            Some((assets[i].name->0@, assets[i].url->0@))
        } else {
            None
        },
    }
}

fn ends_with_exec(s: &Vec<char>, t: &Vec<char>) -> (b: bool)
    ensures
        b == ends_with(s@, t@),
{
    if t.len() > s.len() {
        return false;
    }
    let tail = slice_of(s, s.len() - t.len(), s.len());
    assert(tail@ =~= s@.skip(s.len() - t.len()));
    crate::text::same_chars(&tail, t)
}

/// An optional string slice, taken by its characters.
pub open spec fn opt_str(o: Option<&str>) -> Option<Seq<char>> {
    match o {
        Some(s) => Some(s@),
        None => None,
    }
}

/// The download among a release's assets for the platform whose installers
/// end in `suffix` (none when the platform builds none).
pub fn platform_asset(assets: &Vec<ReleaseAsset>, suffix: Option<&str>) -> (r: Option<Asset>)
    ensures
        match platform_asset_spec(assets@, opt_str(suffix)) {
            Some((n, u)) => r matches Some(a) && a.name@ == n && a.url@ == u,
            None => r is None,
        },
{
    let sfx = match suffix {
        Some(s) => chars_of(s),
        None => return None,
    };
    let ghost sv = sfx@;
    let mut i: usize = 0;
    while i < assets.len()
        invariant
            i <= assets.len(),
            sfx@ == sv,
            opt_str(suffix) == Some(sv),
            forall|j: int| 0 <= j < i ==> !fits_platform(assets@, j, sv),
        decreases assets.len() - i,
    {
        let a = &assets[i];
        match &a.name {
            Some(n) => {
                if ends_with_exec(&chars_of(n.as_str()), &sfx) {
                    match &a.url {
                        Some(u) => {
                            assert(fits_platform(assets@, i as int, sv));
                            proof {
                                let k = choose|k: int|
                                    fits_platform(assets@, k, sv) && forall|j: int|
                                        0 <= j < k ==> !fits_platform(assets@, j, sv);
                                assert(fits_platform(assets@, k, sv));
                                if k < i {
                                } else if k > i {
                                    assert(!fits_platform(assets@, i as int, sv));
                                }
                            }
                            return Some(Asset { name: n.clone(), url: u.clone() });
                        },
                        None => {},
                    }
                }
            },
            None => {},
        }
        i = i + 1;
    }
    None
}

/// The release page shown when the release names none.
pub open spec fn releases_page() -> Seq<char> {
    "https://github.com/Rinny-Inc/rwinSCP/releases"@
}

/// The update a release announces to a build of version `current`: nothing
/// unless its tag is newer; else the tag without its leading `v`s, the
/// release page, and the platform's download if there is one.
pub open spec fn release_update_spec(
    tag: Option<Seq<char>>,
    page: Option<Seq<char>>,
    assets: Seq<ReleaseAsset>,
    suffix: Option<Seq<char>>,
    current: Seq<char>,
) -> Option<(Seq<char>, Seq<char>, Option<(Seq<char>, Seq<char>)>)> {
    match tag {
        None => None,
        Some(t) => if !is_newer_spec(t, current) {
            None
        } else {
            Some(
                (
                    trim_start_char(t, 'v'),
                    match page {
                        Some(p) => p,
                        None => releases_page(),
                    },
                    platform_asset_spec(assets, suffix),
                ),
            )
        },
    }
}

/// Decides what a fetched release announces: `tag` and `page` are the
/// release's `tag_name` and `html_url` when they are strings.
pub fn release_update(
    tag: Option<&str>,
    page: Option<&str>,
    assets: &Vec<ReleaseAsset>,
    suffix: Option<&str>,
    current: &str,
) -> (r: Option<Available>)
    ensures
        match release_update_spec(opt_str(tag), opt_str(page), assets@, opt_str(suffix), current@) {
            None => r is None,
            Some((v, u, a)) => r matches Some(av) && av.version@ == v && av.url@ == u && match a {
                Some((n, l)) => av.asset matches Some(x) && x.name@ == n && x.url@ == l,
                None => av.asset is None,
            },
        },
{
    let t = match tag {
        Some(t) => t,
        None => return None,
    };
    if !is_newer(t, current) {
        return None;
    }
    let url = match page {
        Some(p) => String::from_str(p),
        None => String::from_str("https://github.com/Rinny-Inc/rwinSCP/releases"),
    };
    let tv = chars_of(t);
    let k = leading_char(&tv, 'v');
    let version = slice_of(&tv, k, tv.len());
    assert(version@ =~= tv@.skip(k as int));
    Some(Available { version: string_of(&version), url, asset: platform_asset(assets, suffix) })
}

} // verus!
