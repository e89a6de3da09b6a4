//! What the prompt shows, gathered from the repository: the bookmarks near the
//! working copy with their distances, and facts about the working-copy commit.
use vstd::prelude::*;
use vstd::seq_lib::group_to_multiset_ensures;
use crate::text::{code_point_lt, lemma_text_lt_code_points, lemma_text_lt_total, lemma_text_lt_transitive, str_lt, text_lt};

verus! {

/// A bookmark as the specifications see it: its name and how many commits
/// the working copy is ahead of it.
pub type BookmarkEntry = (Seq<char>, usize);

/// The order in which bookmarks are shown: nearest first, then by name.
pub open spec fn entry_lt(a: BookmarkEntry, b: BookmarkEntry) -> bool {
    a.1 < b.1 || (a.1 == b.1 && text_lt(a.0, b.0))
}

/// No name occurs twice.
pub open spec fn names_distinct(s: Seq<BookmarkEntry>) -> bool {
    forall|i: int, j: int| 0 <= i < s.len() && 0 <= j < s.len() && i != j ==> s[i].0 != s[j].0
}

/// Every entry comes strictly before every later one.
pub open spec fn strictly_sorted(s: Seq<BookmarkEntry>) -> bool {
    forall|i: int, j: int| 0 <= i < j < s.len() ==> entry_lt(s[i], s[j])
}

/// Where `x` goes in `t`: before the first entry that it comes before.
pub open spec fn insert_pos(x: BookmarkEntry, t: Seq<BookmarkEntry>) -> nat
    decreases t.len(),
{
    if t.len() == 0 || entry_lt(x, t[0]) {
        0
    } else {
        1 + insert_pos(x, t.drop_first())
    }
}

/// `t` with `x` inserted before the first entry that `x` comes before.
pub open spec fn insert_sorted(x: BookmarkEntry, t: Seq<BookmarkEntry>) -> Seq<BookmarkEntry> {
    t.insert(insert_pos(x, t) as int, x)
}

/// The entries of `s` in the order in which they are shown.
pub open spec fn sort_entries(s: Seq<BookmarkEntry>) -> Seq<BookmarkEntry>
    decreases s.len(),
{
    if s.len() == 0 {
        Seq::empty()
    } else {
        insert_sorted(s.last(), sort_entries(s.drop_last()))
    }
}

/// The bookmarks are shown each once, nearest first, and those at the same
/// distance in the order of the code points of their names.
pub proof fn lemma_shown_order(s: Seq<BookmarkEntry>)
    requires
        names_distinct(s),
    ensures
        sort_entries(s).to_multiset() =~= s.to_multiset(),
        forall|i: int, j: int|
            0 <= i < j < sort_entries(s).len() ==> #[trigger] sort_entries(s)[i].1 < #[trigger] sort_entries(s)[j].1
                || (sort_entries(s)[i].1 == sort_entries(s)[j].1 && code_point_lt(
                sort_entries(s)[i].0,
                sort_entries(s)[j].0,
            )),
{
    lemma_sort_entries(s);
    let r = sort_entries(s);
    assert forall|i: int, j: int| 0 <= i < j < r.len() implies #[trigger] r[i].1 < #[trigger] r[j].1 || (r[i].1
        == r[j].1 && code_point_lt(r[i].0, r[j].0)) by {
        assert(entry_lt(r[i], r[j]));
        lemma_entry_order(r[i], r[j]);
    }
}

/// The entries of a vector of named distances, by value.
pub open spec fn entries_view(v: Seq<(String, usize)>) -> Seq<BookmarkEntry> {
    v.map_values(|e: (String, usize)| (e.0@, e.1))
}

/// `s` after recording `name` at distance `depth`, keeping the smaller
/// distance when the name is already there.
pub open spec fn with_min(s: Seq<BookmarkEntry>, name: Seq<char>, depth: usize) -> Seq<BookmarkEntry> {
    if exists|i: int| 0 <= i < s.len() && s[i].0 == name {
        let i = choose|i: int| 0 <= i < s.len() && s[i].0 == name;
        if s[i].1 > depth {
            s.update(i, (name, depth))
        } else {
            s
        }
    } else {
        s.push((name, depth))
    }
}

/// An entry comes before another when it is nearer, or at the same distance
/// and its name comes first in the order of code points.
pub proof fn lemma_entry_order(a: BookmarkEntry, b: BookmarkEntry)
    ensures
        entry_lt(a, b) <==> (a.1 < b.1 || (a.1 == b.1 && code_point_lt(a.0, b.0))),
{
    lemma_text_lt_code_points(a.0, b.0);
}

/// The order of entries is transitive.
pub proof fn lemma_entry_lt_transitive(a: BookmarkEntry, b: BookmarkEntry, c: BookmarkEntry)
    requires
        entry_lt(a, b),
        entry_lt(b, c),
    ensures
        entry_lt(a, c),
{
    if a.1 == b.1 && b.1 == c.1 {
        lemma_text_lt_transitive(a.0, b.0, c.0);
    }
}

/// Of two entries with different names, one comes before the other, and never both.
pub proof fn lemma_entry_lt_total(a: BookmarkEntry, b: BookmarkEntry)
    ensures
        a.0 != b.0 ==> entry_lt(a, b) || entry_lt(b, a),
        !(entry_lt(a, b) && entry_lt(b, a)),
{
    lemma_text_lt_total(a.0, b.0);
}

/// `insert_pos` is the first position whose entry `x` comes before.
pub proof fn lemma_insert_pos(x: BookmarkEntry, t: Seq<BookmarkEntry>)
    ensures
        insert_pos(x, t) <= t.len(),
        forall|j: int| 0 <= j < insert_pos(x, t) ==> !entry_lt(x, #[trigger] t[j]),
        insert_pos(x, t) == t.len() || entry_lt(x, t[insert_pos(x, t) as int]),
    decreases t.len(),
{
    if !(t.len() == 0 || entry_lt(x, t[0])) {
        let r = t.drop_first();
        lemma_insert_pos(x, r);
        assert forall|j: int| 0 <= j < insert_pos(x, t) implies !entry_lt(x, #[trigger] t[j]) by {
            if j > 0 {
                assert(t[j] == r[j - 1]);
            }
        }
    }
}

/// Sorting keeps the number of entries.
pub proof fn lemma_sort_entries_len(s: Seq<BookmarkEntry>)
    ensures
        sort_entries(s).len() == s.len(),
    decreases s.len(),
{
    if s.len() > 0 {
        lemma_sort_entries_len(s.drop_last());
        lemma_insert_pos(s.last(), sort_entries(s.drop_last()));
    }
}

/// Any position that is the first one whose entry `x` comes before is `insert_pos`.
pub proof fn lemma_insert_pos_at(x: BookmarkEntry, t: Seq<BookmarkEntry>, p: int)
    requires
        0 <= p <= t.len(),
        forall|j: int| 0 <= j < p ==> !entry_lt(x, #[trigger] t[j]),
        p == t.len() || entry_lt(x, t[p]),
    ensures
        insert_pos(x, t) == p,
    decreases p,
{
    if p > 0 {
        assert(!entry_lt(x, t[0]));
        let r = t.drop_first();
        assert forall|j: int| 0 <= j < p - 1 implies !entry_lt(x, #[trigger] r[j]) by {
            assert(r[j] == t[j + 1]);
        }
        lemma_insert_pos_at(x, r, p - 1);
    }
}

/// Inserting an entry with a new name into a sorted sequence keeps it sorted
/// and adds exactly that entry.
pub proof fn lemma_insert_sorted(x: BookmarkEntry, t: Seq<BookmarkEntry>)
    requires
        strictly_sorted(t),
        forall|j: int| 0 <= j < t.len() ==> (#[trigger] t[j]).0 != x.0,
    ensures
        strictly_sorted(insert_sorted(x, t)),
        insert_sorted(x, t).to_multiset() =~= t.to_multiset().insert(x),
        insert_sorted(x, t).len() == t.len() + 1,
{
    broadcast use group_to_multiset_ensures;

    lemma_insert_pos(x, t);
    let p = insert_pos(x, t) as int;
    let u = insert_sorted(x, t);
    assert forall|j: int| 0 <= j < p implies entry_lt(#[trigger] t[j], x) by {
        lemma_entry_lt_total(x, t[j]);
    }
    assert forall|j: int| p <= j < t.len() implies entry_lt(x, #[trigger] t[j]) by {
        if j > p {
            lemma_entry_lt_transitive(x, t[p], t[j]);
        }
    }
    assert forall|i: int, j: int| 0 <= i < j < u.len() implies entry_lt(u[i], u[j]) by {
        if j < p {
            assert(u[i] == t[i] && u[j] == t[j]);
        } else if j == p {
            assert(u[i] == t[i]);
        } else if i < p {
            assert(u[i] == t[i] && u[j] == t[j - 1]);
            lemma_entry_lt_transitive(t[i], x, t[j - 1]);
        } else if i == p {
            assert(u[j] == t[j - 1]);
        } else {
            assert(u[i] == t[i - 1] && u[j] == t[j - 1]);
        }
    }
    assert(u.remove(p) =~= t);
    assert(u.to_multiset().count(x) > 0) by {
        assert(u[p] == x);
        assert(u.contains(x));
    }
}

/// The shown order is a sorted rearrangement of the bookmarks.
pub proof fn lemma_sort_entries(s: Seq<BookmarkEntry>)
    requires
        names_distinct(s),
    ensures
        strictly_sorted(sort_entries(s)),
        sort_entries(s).to_multiset() =~= s.to_multiset(),
        sort_entries(s).len() == s.len(),
    decreases s.len(),
{
    broadcast use group_to_multiset_ensures;

    if s.len() > 0 {
        let r = s.drop_last();
        let x = s.last();
        assert(names_distinct(r));
        lemma_sort_entries(r);
        let t = sort_entries(r);
        assert forall|j: int| 0 <= j < t.len() implies (#[trigger] t[j]).0 != x.0 by {
            assert(t.contains(t[j]));
            assert(t.to_multiset().count(t[j]) > 0);
            assert(r.to_multiset().count(t[j]) > 0);
            assert(r.contains(t[j]));
            let k = choose|k: int| 0 <= k < r.len() && r[k] == t[j];
            assert(s[k] == r[k]);
        }
        lemma_insert_sorted(x, t);
        assert(s =~= r.push(x));
    }
}

/// Two strictly sorted sequences with the same entries are the same sequence.
pub proof fn lemma_sorted_unique(a: Seq<BookmarkEntry>, b: Seq<BookmarkEntry>)
    requires
        strictly_sorted(a),
        strictly_sorted(b),
        a.to_multiset() =~= b.to_multiset(),
    ensures
        a == b,
    decreases a.len(),
{
    broadcast use group_to_multiset_ensures;

    assert(a.len() == b.len()) by {
        assert(a.len() == a.to_multiset().len());
        assert(b.len() == b.to_multiset().len());
    }
    if a.len() > 0 {
        assert(a.contains(a[0]));
        assert(b.contains(b[0]));
        assert(a.to_multiset().count(a[0]) > 0);
        assert(b.to_multiset().count(b[0]) > 0);
        assert(b.contains(a[0]));
        assert(a.contains(b[0]));
        if a[0] != b[0] {
            let j = choose|j: int| 0 <= j < b.len() && b[j] == a[0];
            let i = choose|i: int| 0 <= i < a.len() && a[i] == b[0];
            assert(entry_lt(b[0], a[0]));
            assert(entry_lt(a[0], b[0]));
            lemma_entry_lt_total(a[0], b[0]);
        }
        assert(a.remove(0) =~= a.drop_first());
        assert(b.remove(0) =~= b.drop_first());
        assert(a.drop_first().to_multiset() =~= b.drop_first().to_multiset());
        lemma_sorted_unique(a.drop_first(), b.drop_first());
        assert(a =~= seq![a[0]] + a.drop_first());
        assert(b =~= seq![b[0]] + b.drop_first());
    } else {
        assert(a =~= b);
    }
}

/// The shown order depends only on which bookmarks there are, not on the
/// order in which they were recorded.
pub proof fn lemma_sort_entries_canonical(s: Seq<BookmarkEntry>, t: Seq<BookmarkEntry>)
    requires
        names_distinct(s),
        names_distinct(t),
        s.to_multiset() =~= t.to_multiset(),
    ensures
        sort_entries(s) == sort_entries(t),
{
    lemma_sort_entries(s);
    lemma_sort_entries(t);
    lemma_sorted_unique(sort_entries(s), sort_entries(t));
}

/// Recording a bookmark keeps names distinct; afterwards `name` is there, at
/// a distance no greater than `depth` nor than any distance it had, and equal
/// to `depth` or to the distance it had; the other entries stay as they were.
pub proof fn lemma_with_min(s: Seq<BookmarkEntry>, name: Seq<char>, depth: usize)
    requires
        names_distinct(s),
    ensures
        names_distinct(with_min(s, name, depth)),
        exists|k: int| 0 <= k < with_min(s, name, depth).len() && #[trigger] with_min(s, name, depth)[k].0 == name,
        forall|k: int|
            0 <= k < with_min(s, name, depth).len() && #[trigger] with_min(s, name, depth)[k].0 == name
                ==> with_min(s, name, depth)[k].1 <= depth && (with_min(s, name, depth)[k].1 == depth || s.contains(
                with_min(s, name, depth)[k],
            )),
        forall|i: int, k: int|
            0 <= i < s.len() && 0 <= k < with_min(s, name, depth).len() && #[trigger] s[i].0 == name
                && #[trigger] with_min(s, name, depth)[k].0 == name ==> with_min(s, name, depth)[k].1 <= s[i].1,
        forall|e: BookmarkEntry| e.0 != name ==> (s.contains(e) <==> #[trigger] with_min(s, name, depth).contains(e)),
{
    let w = with_min(s, name, depth);
    if exists|i: int| 0 <= i < s.len() && s[i].0 == name {
        let i = choose|i: int| 0 <= i < s.len() && s[i].0 == name;
        assert(w[i].0 == name);
        assert forall|k: int| 0 <= k < w.len() && #[trigger] w[k].0 == name implies w[k].1 <= depth && (w[k].1
            == depth || s.contains(w[k])) by {
            assert(k == i);
            if w[k].1 != depth {
                assert(s[i] == w[k]);
            }
        }
        assert forall|j: int, k: int|
            0 <= j < s.len() && 0 <= k < w.len() && #[trigger] s[j].0 == name && #[trigger] w[k].0
                == name implies w[k].1 <= s[j].1 by {
            assert(j == i && k == i);
        }
    } else {
        assert(w[s.len() as int].0 == name);
        assert forall|k: int| 0 <= k < w.len() && #[trigger] w[k].0 == name implies w[k].1 <= depth && (w[k].1
            == depth || s.contains(w[k])) by {
            if k < s.len() {
                assert(s[k].0 == name);
            }
        }
    }
    assert forall|e: BookmarkEntry| e.0 != name implies (s.contains(e) <==> #[trigger] w.contains(e)) by {
        if s.contains(e) {
            let k = choose|k: int| 0 <= k < s.len() && s[k] == e;
            assert(w[k] == e);
        }
        if w.contains(e) {
            let k = choose|k: int| 0 <= k < w.len() && w[k] == e;
            assert(s[k] == e);
        }
    }
}

/// Whether entry `(a, ad)` is shown before entry `(b, bd)`.
pub fn entry_before(a: &str, ad: usize, b: &str, bd: usize) -> (r: bool)
    ensures
        r == entry_lt((a@, ad), (b@, bd)),
{
    ad < bd || (ad == bd && str_lt(a, b))
}

/// The bookmarks found near the working copy, each with the number of commits
/// that the working copy is ahead of it. Each name occurs once; the entries
/// are kept in a vector, so that contracts speak of them as a sequence.
pub struct BookmarkMap {
    entries: Vec<(String, usize)>,
}

impl View for BookmarkMap {
    type V = Seq<BookmarkEntry>;

    closed spec fn view(&self) -> Seq<BookmarkEntry> {
        entries_view(self.entries@)
    }
}

impl BookmarkMap {
    #[verifier::type_invariant]
    spec fn inv(&self) -> bool {
        names_distinct(entries_view(self.entries@))
    }

    /// An empty map.
    pub fn new() -> (r: Self)
        ensures
            r@ == Seq::<BookmarkEntry>::empty(),
            names_distinct(r@),
    {
        let r = BookmarkMap { entries: Vec::new() };
        assert(entries_view(r.entries@) =~= Seq::<BookmarkEntry>::empty());
        r
    }

    /// The number of bookmarks.
    pub fn len(&self) -> (r: usize)
        ensures
            r == self@.len(),
    {
        self.entries.len()
    }

    /// The bookmarks, in the order in which they were first recorded.
    pub fn entries(&self) -> (r: &Vec<(String, usize)>)
        ensures
            entries_view(r@) == self@,
            names_distinct(self@),
    {
        proof {
            use_type_invariant(self);
        }
        &self.entries
    }

    /// Records `name` at distance `depth`; a name that is already there keeps
    /// the smaller of its two distances.
    pub fn insert_min(&mut self, name: String, depth: usize)
        ensures
            final(self)@ == with_min(old(self)@, name@, depth),
            names_distinct(final(self)@),
    {
        proof {
            use_type_invariant(&*self);
        }
        let ghost s = self@;
        let n = self.entries.len();
        let mut i: usize = 0;
        while i < n && !(self.entries[i].0 == name)
            invariant
                n == self.entries@.len(),
                s == entries_view(self.entries@),
                i <= n,
                forall|j: int| 0 <= j < i ==> s[j].0 != name@,
            decreases n - i,
        {
            i = i + 1;
        }
        if i < n {
            assert(s[i as int].0 == name@);
            proof {
                let c = choose|c: int| 0 <= c < s.len() && s[c].0 == name@;
                assert(names_distinct(s));
                assert(c == i);
            }
            if self.entries[i].1 > depth {
                let mut entries = Vec::new();
                std::mem::swap(&mut entries, &mut self.entries);
                entries.set(i, (name, depth));
                proof {
                    assert(entries_view(entries@) =~= s.update(i as int, (name@, depth)));
                    lemma_with_min(s, name@, depth);
                }
                self.entries = entries;
            }
        } else {
            let mut entries = Vec::new();
            std::mem::swap(&mut entries, &mut self.entries);
            entries.push((name, depth));
            proof {
                assert(entries_view(entries@) =~= s.push((name@, depth)));
                lemma_with_min(s, name@, depth);
            }
            self.entries = entries;
        }
    }

    /// The bookmarks in the order in which they are shown: nearest first,
    /// then by name.
    pub fn sorted_entries(&self) -> (r: Vec<(String, usize)>)
        ensures
            entries_view(r@) == sort_entries(self@),
    {
        let ghost s = self@;
        let n = self.entries.len();
        let mut out: Vec<(String, usize)> = Vec::new();
        let mut i: usize = 0;
        assert(entries_view(out@) =~= sort_entries(s.take(0)));
        while i < n
            invariant
                n == self.entries@.len(),
                s == entries_view(self.entries@),
                i <= n,
                entries_view(out@) == sort_entries(s.take(i as int)),
            decreases n - i,
        {
            let name = &self.entries[i].0;
            let depth = self.entries[i].1;
            let ghost x: BookmarkEntry = (name@, depth);
            assert(x == s[i as int]);
            let mut p: usize = 0;
            while p < out.len() && !entry_before(name.as_str(), depth, out[p].0.as_str(), out[p].1)
                invariant
                    p <= out@.len(),
                    x == (name@, depth),
                    forall|j: int| 0 <= j < p ==> !entry_lt(x, #[trigger] entries_view(out@)[j]),
                decreases out@.len() - p,
            {
                p = p + 1;
            }
            proof {
                lemma_insert_pos_at(x, entries_view(out@), p as int);
            }
            let ghost before = out@;
            out.insert(p, (name.clone(), depth));
            proof {
                assert(entries_view(out@) =~= entries_view(before).insert(p as int, x));
                assert(s.take(i + 1).drop_last() =~= s.take(i as int));
            }
            i = i + 1;
        }
        assert(s.take(n as int) =~= s);
        out
    }
}

/// Whether the working-copy commit is in one of the states that the prompt warns of.
pub struct CommitWarnings {
    pub hidden: bool,
    pub conflict: bool,
    pub divergent: bool,
    pub immutable: bool,
    pub empty: bool,
}

/// How much the working-copy commit changes.
pub struct CommitDiff {
    pub files_added: usize,
    pub files_removed: usize,
    pub files_modified: usize,
    pub files_changed: usize,
    pub lines_added: usize,
    pub lines_removed: usize,
}

/// What is known of the working-copy commit.
pub struct CommitData {
    /// The shortest unique prefix of its change id.
    pub id: Option<String>,
    /// Its description.
    pub desc: Option<String>,
    pub warnings: CommitWarnings,
    pub diff: Option<CommitDiff>,
}

/// Everything the prompt modules print from.
pub struct JJData {
    pub bookmarks: Option<BookmarkMap>,
    pub commit: CommitData,
}

} // verus!
