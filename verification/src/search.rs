//! The decisions of the search for bookmarks in the working copy's
//! ancestors: which bookmarks of a commit are recorded, at which distance,
//! and whether the search goes on to the commit's parents.
use vstd::prelude::*;
use crate::config::BookmarkConfig;
use crate::config::util::glob_matches;
use crate::data::{BookmarkEntry, BookmarkMap, lemma_with_min, names_distinct, with_min};

verus! {

impl BookmarkConfig {
    /// Whether one of the exclusion patterns matches `name`.
    pub open spec fn excludes(self, name: Seq<char>) -> bool {
        exists|i: int| 0 <= i < self.exclude@.len() && glob_matches(#[trigger] self.exclude@[i].pattern@, name)
    }

    /// Whether the search stops at distance `depth` when a commit carries
    /// no bookmark.
    pub open spec fn depth_reached(self, depth: usize) -> bool {
        match self.search_depth {
            Some(max) => depth >= max,
            None => false,
        }
    }

    /// Whether one of the exclusion patterns matches `name`.
    pub fn is_excluded(&self, name: &str) -> (r: bool)
        ensures
            r == self.excludes(name@),
    {
        let n = self.exclude.len();
        let mut i: usize = 0;
        while i < n
            invariant
                n == self.exclude@.len(),
                i <= n,
                forall|j: int| 0 <= j < i ==> !glob_matches(#[trigger] self.exclude@[j].pattern@, name@),
            decreases n - i,
        {
            if self.exclude[i].matches(name) {
                return true;
            }
            i = i + 1;
        }
        false
    }
}

/// `m` after recording, at distance `depth`, each of `names` that the
/// configuration does not exclude.
pub open spec fn record_all(
    m: Seq<BookmarkEntry>,
    names: Seq<Seq<char>>,
    depth: usize,
    config: BookmarkConfig,
) -> Seq<BookmarkEntry>
    decreases names.len(),
{
    if names.len() == 0 {
        m
    } else {
        let before = record_all(m, names.drop_last(), depth, config);
        if config.excludes(names.last()) {
            before
        } else {
            with_min(before, names.last(), depth)
        }
    }
}

/// The names of a list of bookmark names, by value.
pub open spec fn names_view(v: Seq<String>) -> Seq<Seq<char>> {
    v.map_values(|s: String| s@)
}

/// Whether `m` has an entry named `name` at distance at most `d`.
pub open spec fn has_within(m: Seq<BookmarkEntry>, name: Seq<char>, d: usize) -> bool {
    exists|e: BookmarkEntry| #[trigger] m.contains(e) && e.0 == name && e.1 <= d
}

/// Whether every name of `m` is in `m2` too, at no greater distance.
pub open spec fn keeps_names(m: Seq<BookmarkEntry>, m2: Seq<BookmarkEntry>) -> bool {
    forall|f: BookmarkEntry| #[trigger] m.contains(f) ==> has_within(m2, f.0, f.1)
}

/// Keeping names is transitive.
proof fn lemma_keeps_names_transitive(a: Seq<BookmarkEntry>, b: Seq<BookmarkEntry>, c: Seq<BookmarkEntry>)
    requires
        keeps_names(a, b),
        keeps_names(b, c),
    ensures
        keeps_names(a, c),
{
    assert forall|f: BookmarkEntry| #[trigger] a.contains(f) implies has_within(c, f.0, f.1) by {
        let g = choose|g: BookmarkEntry| #[trigger] b.contains(g) && g.0 == f.0 && g.1 <= f.1;
        let h = choose|h: BookmarkEntry| #[trigger] c.contains(h) && h.0 == g.0 && h.1 <= g.1;
        assert(c.contains(h) && h.0 == f.0 && h.1 <= f.1);
    }
}

/// Recording one name keeps every name, at no greater distance.
proof fn lemma_with_min_keeps_names(s: Seq<BookmarkEntry>, name: Seq<char>, depth: usize)
    requires
        names_distinct(s),
    ensures
        keeps_names(s, with_min(s, name, depth)),
{
    let w = with_min(s, name, depth);
    lemma_with_min(s, name, depth);
    assert forall|f: BookmarkEntry| #[trigger] s.contains(f) implies has_within(w, f.0, f.1) by {
        if f.0 == name {
            let i = choose|i: int| 0 <= i < s.len() && s[i] == f;
            let k = choose|k: int| 0 <= k < w.len() && #[trigger] w[k].0 == name;
            assert(s[i].0 == name);
            assert(w[k].1 <= s[i].1);
            assert(w.contains(w[k]));
        } else {
            assert(w.contains(f));
        }
    }
}

/// What recording the bookmarks of a commit does: names stay distinct;
/// every entry afterwards was there before or is a recorded name that no
/// pattern excludes, at distance `depth`; every name that was there still is,
/// at no greater distance; every recorded name that no pattern excludes is
/// there at distance at most `depth`; and the entries of names that are not
/// recorded stay as they were.
#[verifier::spinoff_prover]
#[verifier::rlimit(60)]
pub proof fn lemma_record_all(m: Seq<BookmarkEntry>, names: Seq<Seq<char>>, depth: usize, config: BookmarkConfig)
    requires
        names_distinct(m),
    ensures
        names_distinct(record_all(m, names, depth, config)),
        forall|e: BookmarkEntry| #[trigger] record_all(m, names, depth, config).contains(e) ==> m.contains(e)
            || (names.contains(e.0) && !config.excludes(e.0) && e.1 == depth),
        keeps_names(m, record_all(m, names, depth, config)),
        forall|k: int| 0 <= k < names.len() && !config.excludes(#[trigger] names[k]) ==> has_within(
            record_all(m, names, depth, config),
            names[k],
            depth,
        ),
        forall|f: BookmarkEntry| #[trigger] m.contains(f) && (!names.contains(f.0) || config.excludes(f.0))
            ==> record_all(m, names, depth, config).contains(f),
    decreases names.len(),
{
    if names.len() == 0 {
        assert forall|f: BookmarkEntry| #[trigger] m.contains(f) implies has_within(m, f.0, f.1) by {}
    } else {
        let rest = names.drop_last();
        let last = names.last();
        let before = record_all(m, rest, depth, config);
        lemma_record_all(m, rest, depth, config);
        let after = record_all(m, names, depth, config);
        assert forall|x: Seq<char>| rest.contains(x) implies names.contains(x) by {
            let t = choose|t: int| 0 <= t < rest.len() && rest[t] == x;
            assert(names[t] == x);
        }
        assert(names.contains(last)) by {
            assert(names[names.len() - 1] == last);
        }
        if config.excludes(last) {
            assert(after == before);
            assert forall|f: BookmarkEntry| #[trigger] m.contains(f) && (!names.contains(f.0) || config.excludes(
                f.0,
            )) implies after.contains(f) by {
                if !names.contains(f.0) {
                    assert(!rest.contains(f.0));
                }
            }
            assert forall|k: int| 0 <= k < names.len() && !config.excludes(#[trigger] names[k]) implies has_within(
                after,
                names[k],
                depth,
            ) by {
                assert(k < names.len() - 1);
                assert(rest[k] == names[k]);
            }
        } else {
            lemma_with_min(before, last, depth);
            lemma_with_min_keeps_names(before, last, depth);
            lemma_keeps_names_transitive(m, before, after);
            assert forall|e: BookmarkEntry| #[trigger] after.contains(e) implies m.contains(e) || (names.contains(e.0)
                && !config.excludes(e.0) && e.1 == depth) by {
                if e.0 == last {
                    let k = choose|k: int| 0 <= k < after.len() && after[k] == e;
                    assert(after[k].0 == last);
                    if e.1 != depth {
                        assert(before.contains(e));
                    }
                } else {
                    assert(before.contains(e));
                }
            }
            assert forall|k: int| 0 <= k < names.len() && !config.excludes(#[trigger] names[k]) implies has_within(
                after,
                names[k],
                depth,
            ) by {
                if names[k] == last {
                    let j = choose|j: int| 0 <= j < after.len() && #[trigger] after[j].0 == last;
                    assert(after.contains(after[j]));
                } else {
                    assert(rest[k] == names[k]);
                    let e = choose|e: BookmarkEntry| #[trigger] before.contains(e) && e.0 == rest[k] && e.1 <= depth;
                    assert(after.contains(e));
                }
            }
            assert forall|f: BookmarkEntry| #[trigger] m.contains(f) && (!names.contains(f.0) || config.excludes(
                f.0,
            )) implies after.contains(f) by {
                if !names.contains(f.0) {
                    assert(!rest.contains(f.0));
                    assert(before.contains(f));
                } else {
                    if f.0 == last {
                        assert(config.excludes(last));
                    }
                    assert(before.contains(f));
                }
            }
        }
    }
}

/// `m` after visiting, one after another, commits that carry the bookmark
/// names `visits[i].0`, each at distance `visits[i].1` from the working copy.
pub open spec fn record_walk(
    m: Seq<BookmarkEntry>,
    visits: Seq<(Seq<Seq<char>>, usize)>,
    config: BookmarkConfig,
) -> Seq<BookmarkEntry>
    decreases visits.len(),
{
    if visits.len() == 0 {
        m
    } else {
        record_all(record_walk(m, visits.drop_last(), config), visits.last().0, visits.last().1, config)
    }
}

/// Two entries of a list with distinct names that have the same name are the same.
proof fn lemma_same_name(s: Seq<BookmarkEntry>, e: BookmarkEntry, g: BookmarkEntry)
    requires
        names_distinct(s),
        s.contains(e),
        s.contains(g),
        e.0 == g.0,
    ensures
        e == g,
{
    let i = choose|i: int| 0 <= i < s.len() && s[i] == e;
    let j = choose|j: int| 0 <= j < s.len() && s[j] == g;
    assert(i == j);
}

/// Whether `d` is the distance of a visit among `visits` that carried the
/// name `name`, which no pattern of `config` excludes.
pub open spec fn visited_at(
    visits: Seq<(Seq<Seq<char>>, usize)>,
    config: BookmarkConfig,
    name: Seq<char>,
    d: usize,
) -> bool {
    exists|i: int, k: int|
        0 <= i < visits.len() && 0 <= k < visits[i].0.len() && #[trigger] visits[i].0[k] == name
            && !config.excludes(name) && visits[i].1 == d
}

/// What a whole search does to the bookmarks found so far, whatever commits
/// it visits at distances of at least `d0`: names stay distinct; every name
/// found before is still there, at no greater distance; every entry was there
/// before or is a name that no pattern excludes, at distance at least `d0`;
/// every visited name that no pattern excludes is there at no greater
/// distance than that of a visit that carried it. So each entry's distance
/// is the least of its earlier distance and the distances of the visits that
/// carried it: it is one of them and no greater than any.
pub proof fn lemma_record_walk(m: Seq<BookmarkEntry>, visits: Seq<(Seq<Seq<char>>, usize)>, config: BookmarkConfig, d0: usize)
    requires
        names_distinct(m),
        forall|i: int| 0 <= i < visits.len() ==> d0 <= (#[trigger] visits[i]).1,
    ensures
        names_distinct(record_walk(m, visits, config)),
        keeps_names(m, record_walk(m, visits, config)),
        forall|e: BookmarkEntry| #[trigger] record_walk(m, visits, config).contains(e) ==> m.contains(e)
            || (!config.excludes(e.0) && d0 <= e.1),
        forall|i: int, k: int|
            0 <= i < visits.len() && 0 <= k < visits[i].0.len() && !config.excludes(#[trigger] visits[i].0[k])
                ==> has_within(record_walk(m, visits, config), visits[i].0[k], visits[i].1),
        forall|e: BookmarkEntry| #[trigger] record_walk(m, visits, config).contains(e) ==> m.contains(e)
            || visited_at(visits, config, e.0, e.1),
        forall|e: BookmarkEntry, f: BookmarkEntry|
            #[trigger] record_walk(m, visits, config).contains(e) && #[trigger] m.contains(f) && f.0 == e.0
                ==> e.1 <= f.1,
        forall|e: BookmarkEntry, i: int, k: int|
            #[trigger] record_walk(m, visits, config).contains(e) && 0 <= i < visits.len() && 0 <= k
                < visits[i].0.len() && #[trigger] visits[i].0[k] == e.0 && !config.excludes(e.0) ==> e.1
                <= visits[i].1,
{
    lemma_record_walk_steps(m, visits, config, d0);
    let r = record_walk(m, visits, config);
    assert forall|e: BookmarkEntry, f: BookmarkEntry|
        #[trigger] r.contains(e) && #[trigger] m.contains(f) && f.0 == e.0 implies e.1 <= f.1 by {
        let g = choose|g: BookmarkEntry| #[trigger] r.contains(g) && g.0 == f.0 && g.1 <= f.1;
        lemma_same_name(r, e, g);
    }
    assert forall|e: BookmarkEntry, i: int, k: int|
        #[trigger] r.contains(e) && 0 <= i < visits.len() && 0 <= k < visits[i].0.len() && #[trigger] visits[i].0[k]
            == e.0 && !config.excludes(e.0) implies e.1 <= visits[i].1 by {
        assert(has_within(r, visits[i].0[k], visits[i].1));
        let g = choose|g: BookmarkEntry| #[trigger] r.contains(g) && g.0 == visits[i].0[k] && g.1 <= visits[i].1;
        lemma_same_name(r, e, g);
    }
}

/// The inductive part of `lemma_record_walk`.
proof fn lemma_record_walk_steps(m: Seq<BookmarkEntry>, visits: Seq<(Seq<Seq<char>>, usize)>, config: BookmarkConfig, d0: usize)
    requires
        names_distinct(m),
        forall|i: int| 0 <= i < visits.len() ==> d0 <= (#[trigger] visits[i]).1,
    ensures
        names_distinct(record_walk(m, visits, config)),
        keeps_names(m, record_walk(m, visits, config)),
        forall|e: BookmarkEntry| #[trigger] record_walk(m, visits, config).contains(e) ==> m.contains(e)
            || (!config.excludes(e.0) && d0 <= e.1),
        forall|i: int, k: int|
            0 <= i < visits.len() && 0 <= k < visits[i].0.len() && !config.excludes(#[trigger] visits[i].0[k])
                ==> has_within(record_walk(m, visits, config), visits[i].0[k], visits[i].1),
        forall|e: BookmarkEntry| #[trigger] record_walk(m, visits, config).contains(e) ==> m.contains(e)
            || visited_at(visits, config, e.0, e.1),
    decreases visits.len(),
{
    if visits.len() == 0 {
        assert forall|f: BookmarkEntry| #[trigger] m.contains(f) implies has_within(m, f.0, f.1) by {}
    } else {
        let earlier = visits.drop_last();
        let before = record_walk(m, earlier, config);
        let (names, depth) = visits.last();
        let after = record_walk(m, visits, config);
        assert forall|i: int| 0 <= i < earlier.len() implies d0 <= (#[trigger] earlier[i]).1 by {
            assert(earlier[i] == visits[i]);
        }
        lemma_record_walk_steps(m, earlier, config, d0);
        lemma_record_all(before, names, depth, config);
        assert(after == record_all(before, names, depth, config));
        assert(d0 <= visits[visits.len() - 1].1);
        lemma_keeps_names_transitive(m, before, after);
        assert forall|e: BookmarkEntry| #[trigger] after.contains(e) implies m.contains(e) || (!config.excludes(e.0)
            && d0 <= e.1) by {
            if !before.contains(e) {
                assert(names.contains(e.0) && !config.excludes(e.0) && e.1 == depth);
            }
        }
        assert forall|e: BookmarkEntry| #[trigger] after.contains(e) implies m.contains(e) || visited_at(
            visits,
            config,
            e.0,
            e.1,
        ) by {
            if before.contains(e) {
                if !m.contains(e) {
                    let (i, k) = choose|i: int, k: int|
                        0 <= i < earlier.len() && 0 <= k < earlier[i].0.len() && #[trigger] earlier[i].0[k] == e.0
                            && !config.excludes(e.0) && earlier[i].1 == e.1;
                    assert(earlier[i] == visits[i]);
                    assert(visits[i].0[k] == e.0);
                }
            } else {
                assert(names.contains(e.0) && !config.excludes(e.0) && e.1 == depth);
                let k = choose|k: int| 0 <= k < names.len() && names[k] == e.0;
                let i = visits.len() - 1;
                assert(visits[i].0[k] == e.0);
            }
        }
        assert forall|i: int, k: int|
            0 <= i < visits.len() && 0 <= k < visits[i].0.len() && !config.excludes(
                #[trigger] visits[i].0[k],
            ) implies has_within(after, visits[i].0[k], visits[i].1) by {
            if i == visits.len() - 1 {
                assert(names[k] == visits[i].0[k]);
            } else {
                assert(earlier[i] == visits[i]);
                assert(has_within(before, earlier[i].0[k], earlier[i].1));
                let g = choose|g: BookmarkEntry| #[trigger] before.contains(g) && g.0 == visits[i].0[k] && g.1 <= visits[i].1;
                assert(has_within(after, g.0, g.1));
            }
        }
    }
}

/// One step of the search, at a commit `depth` commits behind the working
/// copy that carries the local bookmarks `names`: records each of them that
/// no exclusion pattern matches, keeping a bookmark's smallest distance.
/// Returns whether the search goes on to the commit's parents: only when the
/// commit carries no bookmark and `search_depth` is not yet reached.
pub fn visit_commit(config: &BookmarkConfig, bookmarks: &mut BookmarkMap, names: &Vec<String>, depth: usize) -> (descend: bool)
    ensures
        final(bookmarks)@ == record_all(old(bookmarks)@, names_view(names@), depth, *config),
        descend == (names@.len() == 0 && !config.depth_reached(depth)),
{
    let ghost ns = names_view(names@);
    let n = names.len();
    let mut i: usize = 0;
    assert(ns.take(0) =~= Seq::<Seq<char>>::empty());
    while i < n
        invariant
            n == names@.len(),
            ns == names_view(names@),
            i <= n,
            bookmarks@ == record_all(old(bookmarks)@, ns.take(i as int), depth, *config),
        decreases n - i,
    {
        let name = &names[i];
        proof {
            assert(ns.take(i + 1).drop_last() =~= ns.take(i as int));
            assert(ns.take(i + 1).last() == name@);
        }
        if !config.is_excluded(name.as_str()) {
            bookmarks.insert_min(name.clone(), depth);
        }
        i = i + 1;
    }
    assert(ns.take(n as int) =~= ns);
    if n > 0 {
        return false;
    }
    match config.search_depth {
        Some(max_depth) => depth < max_depth,
        None => true,
    }
}

/// A search for bookmarks in the working copy's ancestors under one
/// configuration: the bookmarks found so far, and what the search started
/// from and the commits it has visited (each with its bookmark names and its
/// distance). The found bookmarks change only by `visit`, so they are always
/// `record_walk` of the start and the visits.
pub struct BookmarkSearch<'a> {
    config: &'a BookmarkConfig,
    found: BookmarkMap,
    start: Ghost<Seq<BookmarkEntry>>,
    visits: Ghost<Seq<(Seq<Seq<char>>, usize)>>,
}

impl<'a> BookmarkSearch<'a> {
    /// The configuration that the search follows.
    pub closed spec fn config(self) -> BookmarkConfig {
        *self.config
    }

    /// The bookmarks that the search started from.
    pub closed spec fn start(self) -> Seq<BookmarkEntry> {
        self.start@
    }

    /// The commits visited so far, in order: their bookmark names and distance.
    pub closed spec fn visits(self) -> Seq<(Seq<Seq<char>>, usize)> {
        self.visits@
    }

    /// The bookmarks found so far.
    pub closed spec fn found(self) -> Seq<BookmarkEntry> {
        self.found@
    }

    /// The found bookmarks are what the visits recorded on top of the start,
    /// whose names are distinct.
    pub open spec fn wf(self) -> bool {
        &&& names_distinct(self.start())
        &&& self.found() == record_walk(self.start(), self.visits(), self.config())
    }

    /// A search under `config` that starts from the bookmarks `found`.
    pub fn new(config: &'a BookmarkConfig, found: BookmarkMap) -> (r: Self)
        ensures
            r.wf(),
            r.config() == *config,
            r.start() == found@,
            r.visits().len() == 0,
    {
        let _ = found.entries();
        let ghost start = found@;
        BookmarkSearch { config, found, start: Ghost(start), visits: Ghost(Seq::empty()) }
    }

    /// Visits a commit `depth` commits behind the working copy that carries
    /// the local bookmarks `names` (see `visit_commit`). Returns whether the
    /// search goes on to the commit's parents.
    pub fn visit(&mut self, names: &Vec<String>, depth: usize) -> (descend: bool)
        requires
            old(self).wf(),
        ensures
            final(self).wf(),
            final(self).config() == old(self).config(),
            final(self).start() == old(self).start(),
            final(self).visits() == old(self).visits().push((names_view(names@), depth)),
            descend == (names@.len() == 0 && !old(self).config().depth_reached(depth)),
    {
        let ghost visits = self.visits@.push((names_view(names@), depth));
        let descend = visit_commit(self.config, &mut self.found, names, depth);
        self.visits = Ghost(visits);
        proof {
            assert(visits.drop_last() =~= old(self).visits());
        }
        descend
    }

    /// The bookmarks found by the search.
    pub fn finish(self) -> (r: BookmarkMap)
        requires
            self.wf(),
        ensures
            r@ == record_walk(self.start(), self.visits(), self.config()),
    {
        self.found
    }
}

} // verus!
