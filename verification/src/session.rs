//! An open connection as the interface sees it: where it is in the remote
//! file system, what the listing holds, and which rows are selected.
use std::collections::HashSet;
use vstd::prelude::*;

use crate::app::{SessionKey, Status, Terminal};
use crate::backend::{Command, EntryView, RemoteEntry};
use crate::connection::{ConnectionProfile, ProfileView};
use crate::text::{chars_lt, chars_of, lowercase, seq_lt, to_lower};

verus! {

broadcast use vstd::std_specs::hash::group_hash_axioms;

/// Identifies the worker that serves a session or a transfer.
pub type WorkerId = u64;

pub struct Session {
    pub key: SessionKey,
    pub profile: ConnectionProfile,
    pub worker: WorkerId,
    pub status: Status,
    pub cwd: String,
    pub entries: Vec<RemoteEntry>,
    pub selection: HashSet<usize>,
    pub anchor: Option<usize>,
    pub loading: bool,
    pub terminal: Option<Terminal>,
    pub path_edit: Option<String>,
}

/// What a [`Session`] holds, with its texts as character sequences and its
/// listing by entry views.
#[verifier::ext_equal]
pub struct SessionView {
    pub key: SessionKey,
    pub profile: ProfileView,
    pub worker: WorkerId,
    pub status: Status,
    pub cwd: Seq<char>,
    pub entries: Seq<EntryView>,
    pub selection: Set<usize>,
    pub anchor: Option<usize>,
    pub loading: bool,
    pub terminal: Option<Seq<char>>,
    pub path_edit: Option<Seq<char>>,
}

impl View for Session {
    type V = SessionView;

    open spec fn view(&self) -> SessionView {
        SessionView {
            key: self.key,
            profile: self.profile@,
            worker: self.worker,
            status: self.status,
            cwd: self.cwd@,
            entries: entry_views(self.entries@),
            selection: self.selection@,
            anchor: self.anchor,
            loading: self.loading,
            terminal: match self.terminal {
                Some(t) => Some(t.output@),
                None => None,
            },
            path_edit: match self.path_edit {
                Some(p) => Some(p@),
                None => None,
            },
        }
    }
}

/// The modifier keys held during a click on a row.
#[derive(Clone, Copy, PartialEq, Eq, Structural)]
pub struct ClickMods {
    pub shift: bool,
    pub command: bool,
    pub ctrl: bool,
}

/// The indices below `n` that are in `sel`, in increasing order.
pub open spec fn selected_indices(n: nat, sel: Set<usize>) -> Seq<usize>
    decreases n,
{
    if n == 0 {
        Seq::empty()
    } else {
        let prev = selected_indices((n - 1) as nat, sel);
        if sel.contains((n - 1) as usize) {
            prev.push((n - 1) as usize)
        } else {
            prev
        }
    }
}

/// The indices from `lo` to `hi`, both included.
pub open spec fn index_range(lo: usize, hi: usize) -> Set<usize> {
    Set::new(|i: usize| lo <= i <= hi)
}

/// The selection after a click on row `index` with `mods` held: with shift
/// and an anchor, the rows between the anchor and the click are added; with
/// ctrl or command, the row is toggled; otherwise only the row stays.
pub open spec fn clicked_selection(
    sel: Set<usize>,
    anchor: Option<usize>,
    index: usize,
    mods: ClickMods,
) -> (Set<usize>, Option<usize>) {
    if mods.shift && anchor is Some {
        let a = anchor->0;
        let (lo, hi) = if a <= index {
            (a, index)
        } else {
            (index, a)
        };
        (sel.union(index_range(lo, hi)), anchor)
    } else if mods.command || mods.ctrl {
        (
            if sel.contains(index) {
                sel.remove(index)
            } else {
                sel.insert(index)
            },
            Some(index),
        )
    } else {
        (Set::empty().insert(index), Some(index))
    }
}

impl Session {
    /// The selected entries, in listing order.
    pub fn selected_entries(&self) -> (r: Vec<&RemoteEntry>)
        ensures
            r@.len() == selected_indices(self.entries@.len(), self.selection@).len(),
            forall|k: int|
                0 <= k < r@.len() ==> *r@[k] == self.entries@[selected_indices(
                    self.entries@.len(),
                    self.selection@,
                )[k] as int],
    {
        let mut r: Vec<&RemoteEntry> = Vec::new();
        let mut i: usize = 0;
        while i < self.entries.len()
            invariant
                i <= self.entries.len(),
                r@.len() == selected_indices(i as nat, self.selection@).len(),
                forall|k: int|
                    0 <= k < r@.len() ==> *r@[k] == self.entries@[selected_indices(
                        i as nat,
                        self.selection@,
                    )[k] as int],
                forall|k: int|
                    0 <= k < selected_indices(i as nat, self.selection@).len() ==> selected_indices(
                        i as nat,
                        self.selection@,
                    )[k] < i,
            decreases self.entries.len() - i,
        {
            let ghost prev = selected_indices(i as nat, self.selection@);
            assert(selected_indices((i + 1) as nat, self.selection@) == if self.selection@.contains(
                i,
            ) {
                prev.push(i)
            } else {
                prev
            });
            if self.selection.contains(&i) {
                r.push(&self.entries[i]);
            }
            i = i + 1;
        }
        r
    }

    /// The selection after a click on row `index`.
    pub fn click_row(&mut self, index: usize, mods: ClickMods)
        ensures
            (final(self).selection@, final(self).anchor) == clicked_selection(
                old(self).selection@,
                old(self).anchor,
                index,
                mods,
            ),
            final(self).key == old(self).key,
            final(self).profile == old(self).profile,
            final(self).worker == old(self).worker,
            final(self).status == old(self).status,
            final(self).cwd == old(self).cwd,
            final(self).entries == old(self).entries,
            final(self).loading == old(self).loading,
            final(self).terminal == old(self).terminal,
            final(self).path_edit == old(self).path_edit,
    {
        if mods.shift && self.anchor.is_some() {
            let anchor = self.anchor.unwrap();
            let (lo, hi) = if anchor <= index {
                (anchor, index)
            } else {
                (index, anchor)
            };
            let mut sel: HashSet<usize> = HashSet::new();
            std::mem::swap(&mut sel, &mut self.selection);
            let ghost start = sel@;
            let mut i = lo;
            assert(sel@ =~= start.union(Set::new(|j: usize| lo <= j < i)));
            loop
                invariant_except_break
                    lo <= i <= hi,
                    sel@ == start.union(Set::new(|j: usize| lo <= j < i)),
                ensures
                    sel@ == start.union(index_range(lo, hi)),
                decreases hi - i,
            {
                sel.insert(i);
                if i == hi {
                    assert(sel@ =~= start.union(index_range(lo, hi)));
                    break;
                }
                assert(sel@ =~= start.union(Set::new(|j: usize| lo <= j < i + 1)));
                i = i + 1;
            }
            self.selection = sel;
        } else if mods.command || mods.ctrl {
            if !self.selection.insert(index) {
                self.selection.remove(&index);
            }
            self.anchor = Some(index);
        } else {
            self.selection.clear();
            self.selection.insert(index);
            assert(self.selection@ =~= Set::empty().insert(index));
            self.anchor = Some(index);
        }
    }

    /// Starts listing `path`; the command goes to the session's worker.
    pub fn navigate(&mut self, path: String) -> (c: Command)
        ensures
            c == (Command::List { path }),
            final(self).loading,
            final(self).key == old(self).key,
            final(self).profile == old(self).profile,
            final(self).worker == old(self).worker,
            final(self).status == old(self).status,
            final(self).cwd == old(self).cwd,
            final(self).entries == old(self).entries,
            final(self).selection == old(self).selection,
            final(self).anchor == old(self).anchor,
            final(self).terminal == old(self).terminal,
            final(self).path_edit == old(self).path_edit,
    {
        self.loading = true;
        Command::List { path }
    }

    /// Lists the current directory again.
    pub fn refresh(&mut self) -> (c: Command)
        ensures
            c matches Command::List { path } && path@ == old(self).cwd@,
            final(self).loading,
            final(self).key == old(self).key,
            final(self).profile == old(self).profile,
            final(self).worker == old(self).worker,
            final(self).status == old(self).status,
            final(self).cwd == old(self).cwd,
            final(self).entries == old(self).entries,
            final(self).selection == old(self).selection,
            final(self).anchor == old(self).anchor,
            final(self).terminal == old(self).terminal,
            final(self).path_edit == old(self).path_edit,
    {
        let cwd = self.cwd.clone();
        self.navigate(cwd)
    }
}

/// Listing order: directories first, then by lower-cased name.
pub open spec fn sorts_after(a: EntryView, b: EntryView) -> bool {
    ||| (!a.is_dir && b.is_dir)
    ||| (a.is_dir == b.is_dir && seq_lt(lowercase(b.name), lowercase(a.name)))
}

/// Where `x` goes in the sorted `s`: before the first entry that sorts
/// after it.
pub open spec fn insert_position(s: Seq<EntryView>, x: EntryView) -> int {
    if exists|j: int| 0 <= j < s.len() && sorts_after(s[j], x) {
        choose|j: int|
            0 <= j < s.len() && sorts_after(s[j], x) && forall|k: int|
                0 <= k < j ==> !sorts_after(s[k], x)
    } else {
        s.len() as int
    }
}

/// `s` in listing order, entries that tie keeping their order.
pub open spec fn listing_order(s: Seq<EntryView>) -> Seq<EntryView>
    decreases s.len(),
{
    if s.len() == 0 {
        s
    } else {
        let sorted = listing_order(s.drop_last());
        sorted.insert(insert_position(sorted, s.last()), s.last())
    }
}

proof fn lemma_seq_lt_transitive(a: Seq<char>, b: Seq<char>, c: Seq<char>)
    requires
        seq_lt(a, b),
        seq_lt(b, c),
    ensures
        seq_lt(a, c),
    decreases a.len(),
{
    if a.len() > 0 && b.len() > 0 && c.len() > 0 && a[0] == b[0] && b[0] == c[0] {
        lemma_seq_lt_transitive(a.drop_first(), b.drop_first(), c.drop_first());
    }
}

proof fn lemma_seq_lt_asymmetric(a: Seq<char>, b: Seq<char>)
    ensures
        !(seq_lt(a, b) && seq_lt(b, a)),
    decreases a.len(),
{
    if a.len() > 0 && b.len() > 0 && a[0] == b[0] {
        lemma_seq_lt_asymmetric(a.drop_first(), b.drop_first());
    }
}

proof fn lemma_sorts_after_order(a: EntryView, b: EntryView, c: EntryView)
    ensures
        !(sorts_after(a, b) && sorts_after(b, a)),
        sorts_after(a, b) && sorts_after(b, c) ==> sorts_after(a, c),
{
    lemma_seq_lt_asymmetric(lowercase(a.name), lowercase(b.name));
    if sorts_after(a, b) && sorts_after(b, c) && a.is_dir == c.is_dir {
        lemma_seq_lt_transitive(lowercase(c.name), lowercase(b.name), lowercase(a.name));
    }
}

/// No entry of `s` sorts after an entry behind it.
pub open spec fn in_listing_order(s: Seq<EntryView>) -> bool {
    forall|i: int, j: int| 0 <= i < j < s.len() ==> !sorts_after(#[trigger] s[i], #[trigger] s[j])
}

/// A listing comes out in order, directories first and names ascending
/// without regard to case, with every entry kept.
pub proof fn lemma_listing_order_sorted(s: Seq<EntryView>)
    ensures
        in_listing_order(listing_order(s)),
        listing_order(s).len() == s.len(),
        forall|x: EntryView| listing_order(s).contains(x) <==> s.contains(x),
    decreases s.len(),
{
    if s.len() > 0 {
        let prev = s.drop_last();
        let x = s.last();
        lemma_listing_order_sorted(prev);
        let sorted = listing_order(prev);
        let p = insert_position(sorted, x);
        if exists|j: int| 0 <= j < sorted.len() && sorts_after(sorted[j], x) {
            let j0 = choose|j: int| 0 <= j < sorted.len() && sorts_after(sorted[j], x);
            assert(exists|c: int|
                0 <= c < sorted.len() && sorts_after(sorted[c], x) && forall|k: int|
                    0 <= k < c ==> !sorts_after(sorted[k], x)) by {
                lemma_first_sorting_after(sorted, x, j0);
            }
        }
        assert(0 <= p <= sorted.len());
        let r = sorted.insert(p, x);
        assert forall|i: int, j: int| 0 <= i < j < r.len() implies !sorts_after(
            #[trigger] r[i],
            #[trigger] r[j],
        ) by {
            if j < p {
                assert(r[i] == sorted[i] && r[j] == sorted[j]);
            } else if j == p {
                assert(r[i] == sorted[i]);
            } else if i < p {
                assert(r[i] == sorted[i] && r[j] == sorted[j - 1]);
            } else if i == p {
                assert(r[j] == sorted[j - 1]);
                if sorts_after(x, sorted[j - 1]) {
                    lemma_sorts_after_order(sorted[p], x, sorted[j - 1]);
                    if p < j - 1 {
                        assert(!sorts_after(sorted[p], sorted[j - 1]));
                    }
                    lemma_sorts_after_order(sorted[p], x, sorted[p]);
                }
            } else {
                assert(r[i] == sorted[i - 1] && r[j] == sorted[j - 1]);
            }
        }
        assert forall|y: EntryView| r.contains(y) <==> s.contains(y) by {
            if r.contains(y) {
                let k = choose|k: int| 0 <= k < r.len() && r[k] == y;
                if k < p {
                    assert(sorted[k] == y);
                    assert(prev.contains(y));
                    let m = choose|m: int| 0 <= m < prev.len() && prev[m] == y;
                    assert(s[m] == y);
                } else if k > p {
                    assert(sorted[k - 1] == y);
                    assert(prev.contains(y));
                    let m = choose|m: int| 0 <= m < prev.len() && prev[m] == y;
                    assert(s[m] == y);
                } else {
                    assert(s[s.len() - 1] == y);
                }
            }
            if s.contains(y) {
                let k = choose|k: int| 0 <= k < s.len() && s[k] == y;
                if k < s.len() - 1 {
                    assert(prev[k] == y);
                    assert(prev.contains(y));
                    assert(sorted.contains(y));
                    let m = choose|m: int| 0 <= m < sorted.len() && sorted[m] == y;
                    if m < p {
                        assert(r[m] == y);
                    } else {
                        assert(r[m + 1] == y);
                    }
                } else {
                    assert(r[p] == y);
                }
            }
        }
    }
}

/// Putting a listing in order keeps each entry as often as it came.
pub proof fn lemma_listing_order_permutes(s: Seq<EntryView>)
    ensures
        listing_order(s).to_multiset() == s.to_multiset(),
    decreases s.len(),
{
    if s.len() > 0 {
        let prev = s.drop_last();
        let x = s.last();
        lemma_listing_order_permutes(prev);
        lemma_listing_order_sorted(prev);
        let sorted = listing_order(prev);
        let p = insert_position(sorted, x);
        if exists|j: int| 0 <= j < sorted.len() && sorts_after(sorted[j], x) {
            let j0 = choose|j: int| 0 <= j < sorted.len() && sorts_after(sorted[j], x);
            lemma_first_sorting_after(sorted, x, j0);
        }
        assert(0 <= p <= sorted.len());
        vstd::seq_lib::to_multiset_insert(sorted, p, x);
        vstd::seq_lib::to_multiset_build(prev, x);
        assert(prev.push(x) =~= s);
    }
}

/// When some entry of `s` sorts after `x`, a first one does.
proof fn lemma_first_sorting_after(s: Seq<EntryView>, x: EntryView, j: int)
    requires
        0 <= j < s.len(),
        sorts_after(s[j], x),
    ensures
        exists|c: int|
            0 <= c < s.len() && sorts_after(s[c], x) && forall|k: int|
                0 <= k < c ==> !sorts_after(s[k], x),
    decreases j,
{
    if exists|k: int| 0 <= k < j && sorts_after(s[k], x) {
        let k = choose|k: int| 0 <= k < j && sorts_after(s[k], x);
        lemma_first_sorting_after(s, x, k);
    } else {
        assert(forall|k: int| 0 <= k < j ==> !sorts_after(s[k], x));
    }
}

/// The views of a sequence of entries.
pub open spec fn entry_views(s: Seq<RemoteEntry>) -> Seq<EntryView> {
    s.map_values(|e: RemoteEntry| e@)
}

fn sorts_after_exec(a: &RemoteEntry, a_key: &Vec<char>, b: &RemoteEntry, b_key: &Vec<char>) -> (r:
    bool)
    requires
        a_key@ == lowercase(a.name@),
        b_key@ == lowercase(b.name@),
    ensures
        r == sorts_after(a@, b@),
{
    (!a.is_dir && b.is_dir) || (a.is_dir == b.is_dir && chars_lt(b_key, a_key))
}

/// Puts a listing in display order: directories first, then by name
/// without regard to case, ties keeping their order.
pub fn sort_listing(entries: Vec<RemoteEntry>) -> (r: Vec<RemoteEntry>)
    ensures
        entry_views(r@) == listing_order(entry_views(entries@)),
{
    let ghost orig = entries@;
    let ghost input = entry_views(entries@);
    let mut sorted: Vec<RemoteEntry> = Vec::new();
    let mut keys: Vec<Vec<char>> = Vec::new();
    let mut rest = entries;
    let mut taken: usize = 0;
    let n = rest.len();
    assert(input.take(0) =~= Seq::<EntryView>::empty());
    assert(entry_views(sorted@) =~= Seq::<EntryView>::empty());
    assert(rest@ =~= orig.skip(0));
    while rest.len() > 0
        invariant
            taken + rest.len() == orig.len(),
            orig.len() == n,
            input == entry_views(orig),
            rest@ == orig.skip(taken as int),
            entry_views(sorted@) == listing_order(input.take(taken as int)),
            keys.len() == sorted.len(),
            forall|k: int| 0 <= k < keys.len() ==> (#[trigger] keys@[k])@ == lowercase(sorted@[k].name@),
        decreases rest.len(),
    {
        let e = rest.remove(0);
        assert(e == orig[taken as int]);
        let lower = to_lower(e.name.as_str());
        let key = chars_of(lower.as_str());
        let ghost prev = entry_views(sorted@);
        let mut j: usize = 0;
        while j < sorted.len() && !sorts_after_exec(&sorted[j], &keys[j], &e, &key)
            invariant
                j <= sorted.len(),
                keys.len() == sorted.len(),
                prev == entry_views(sorted@),
                key@ == lowercase(e.name@),
                forall|k: int| 0 <= k < keys.len() ==> (#[trigger] keys@[k])@ == lowercase(sorted@[k].name@),
                forall|k: int| 0 <= k < j ==> !sorts_after(prev[k], e@),
            decreases sorted.len() - j,
        {
            j = j + 1;
        }
        proof {
            if j < sorted.len() {
                assert(sorts_after(prev[j as int], e@));
                let c = choose|c: int|
                    0 <= c < prev.len() && sorts_after(prev[c], e@) && forall|k: int|
                        0 <= k < c ==> !sorts_after(prev[k], e@);
                if c < j {
                    assert(!sorts_after(prev[c], e@));
                } else if c > j {
                    assert(!sorts_after(prev[j as int], e@));
                }
            }
            assert(insert_position(prev, e@) == j);
            assert(input.take(taken + 1).drop_last() =~= input.take(taken as int));
            assert(input.take(taken + 1).last() == e@);
        }
        let ghost before = sorted@;
        sorted.insert(j, e);
        keys.insert(j, key);
        assert(entry_views(sorted@) =~= prev.insert(j as int, e@));
        assert forall|k: int| 0 <= k < keys.len() implies (#[trigger] keys@[k])@ == lowercase(sorted@[k].name@) by {
            if k < j {
            } else if k > j {
                assert(sorted@[k] == before[k - 1]);
            }
        }
        taken = taken + 1;
        assert(rest@ =~= orig.skip(taken as int));
    }
    assert(input.take(taken as int) =~= input);
    sorted
}

} // verus!
