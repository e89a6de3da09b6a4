//! The prompt's configuration and the modules that it prints.
use vstd::prelude::*;
use crate::data::{JJData, lemma_sort_entries_len, sort_entries};
use crate::template::rendered_template;
use crate::text::{ellipsis, first_line_of, join, truncated_text};
use util::{closing, Color};
use metrics::colored_style;
use state::{painted, pieces};
use crate::template::PromptError;
use crate::text::opt_view;
use bookmarks::Bookmarks;
use commit::Commit;
use metrics::Metrics;
use state::State;
use util::{Glob, Style};

pub mod bookmarks;
pub mod change;
pub mod commit;
pub mod commit_desc;
pub mod commit_diff;
pub mod commit_warnings;
pub mod metrics;
pub mod state;
pub mod util;

verus! {

/// How bookmarks are searched for in the working copy's ancestors.
pub struct BookmarkConfig {
    /// How many commits back the search goes at most.
    pub search_depth: Option<usize>,
    /// Bookmarks whose names match one of these patterns are left out.
    pub exclude: Vec<Glob>,
}

impl Default for BookmarkConfig {
    fn default() -> (r: Self)
        ensures
            r.search_depth is None,
            r.exclude@.len() == 0,
    {
        BookmarkConfig { search_depth: None, exclude: Vec::new() }
    }
}

/// One module of the prompt.
pub enum ModuleConfig {
    Bookmarks(Bookmarks),
    Commit(Commit),
    State(State),
    Metrics(Metrics),
}

/// The prompt's configuration: the modules in the order in which they are
/// printed, the text between them, and the bookmark search.
pub struct Config {
    pub module_separator: String,
    pub bookmarks: BookmarkConfig,
    pub modules: Vec<ModuleConfig>,
}

impl ModuleConfig {
    /// Whether the module can print from `data`: the bookmarks module needs
    /// bookmarks that it can show.
    pub open spec fn can_print(self, data: JJData) -> bool {
        match self {
            ModuleConfig::Bookmarks(b) => data.bookmarks is Some && b.printable(data.bookmarks->0@),
            _ => true,
        }
    }

    /// Whether `d` is what the module prints from `data`, and `ok` whether it succeeds.
    pub open spec fn printed(self, data: JJData, module_separator: Seq<char>, d: Seq<char>, ok: bool) -> bool {
        match self {
            ModuleConfig::Bookmarks(b) => ok && data.bookmarks is Some && b.printed(
                data.bookmarks->0@,
                module_separator,
                d,
            ),
            ModuleConfig::Commit(c) => ok && c.printed(opt_view(data.commit.desc), module_separator, d),
            ModuleConfig::State(s) => ok && s.printed(data.commit.warnings, module_separator, d),
            ModuleConfig::Metrics(m) => m.printed(data.commit.diff, module_separator, d, ok),
        }
    }

    /// The configured module separator sets off what a module prints: the
    /// bookmarks, commit and state modules end their text with it whenever
    /// they show something (a bookmark, a first line, a warning), and the
    /// metrics module starts its text with it.
    pub proof fn lemma_module_separator(self, data: JJData, module_separator: Seq<char>, d: Seq<char>, ok: bool)
        requires
            self.printed(data, module_separator, d, ok),
        ensures
            match self {
                ModuleConfig::Bookmarks(b) => data.bookmarks->0@.len() > 0 ==> ends_with(d, module_separator),
                ModuleConfig::Commit(c) => (data.commit.desc matches Some(x) && first_line_of(x@).len() > 0)
                    ==> ends_with(d, module_separator),
                ModuleConfig::State(s) => (data.commit.warnings.conflict || data.commit.warnings.divergent
                    || data.commit.warnings.hidden || data.commit.warnings.immutable || data.commit.warnings.empty)
                    ==> ends_with(d, module_separator),
                ModuleConfig::Metrics(m) => d.len() > 0 ==> d.len() >= module_separator.len() && d.take(
                    module_separator.len() as int,
                ) == module_separator,
            },
    {
        match self {
            ModuleConfig::Bookmarks(b) => {
                let bm = data.bookmarks->0@;
                if bm.len() > 0 {
                    let p = choose|p: Seq<char>|
                        #[trigger] b.style.paints(p) && d == p + b.body_text(sort_entries(bm), module_separator, closing(p));
                    lemma_sort_entries_len(bm);
                    let sorted = sort_entries(bm);
                    let k = b.shown(sorted.len());
                    let head = if k < sorted.len() {
                        p + b.list_text(sorted.take(k as int)) + ellipsis() + closing(p)
                    } else {
                        p + b.list_text(sorted) + closing(p)
                    };
                    assert(d =~= head + module_separator);
                    assert((head + module_separator).skip(head.len() as int) =~= module_separator);
                }
            },
            ModuleConfig::Commit(c) => {
                if data.commit.desc matches Some(x) && first_line_of(x@).len() > 0 {
                    let x = data.commit.desc->0;
                    let p = choose|p: Seq<char>| #[trigger] c.style.paints(p) && d == c.text(x@, module_separator, p);
                    let head = p + truncated_text(c.max_length, first_line_of(x@)) + closing(p);
                    assert(d =~= head + module_separator);
                    assert((head + module_separator).skip(head.len() as int) =~= module_separator);
                }
            },
            ModuleConfig::State(s) => {
                let w = data.commit.warnings;
                if w.conflict || w.divergent || w.hidden || w.immutable || w.empty {
                    s.lemma_active(w);
                    let ps = choose|ps: Seq<Seq<char>>|
                        #[trigger] painted(s.active(w), ps) && d == s.text(s.active(w), ps, module_separator);
                    let head = join(pieces(s.active(w), ps), s.separator@);
                    assert(d =~= head + module_separator);
                    assert((head + module_separator).skip(head.len() as int) =~= module_separator);
                }
            },
            ModuleConfig::Metrics(m) => {
                if d.len() > 0 {
                    let df = data.commit.diff->0;
                    let vals = choose|vals: Seq<Seq<char>>|
                        #[trigger] m.context_ok(df, vals) && match rendered_template(m.template@, metrics::context_of(vals)) {
                            None => !ok && d.len() == 0,
                            Some(s) => ok && exists|p: Seq<char>|
                                #[trigger] m.style.merged(Some(colored_style(Color::Magenta))).paints(p) && d
                                    == Metrics::finish_text(s, module_separator, p),
                        };
                    let s = rendered_template(m.template@, metrics::context_of(vals))->0;
                    let p = choose|p: Seq<char>|
                        #[trigger] m.style.merged(Some(colored_style(Color::Magenta))).paints(p) && d
                            == Metrics::finish_text(s, module_separator, p);
                    assert(d =~= module_separator + (p + s + closing(p)));
                    assert((module_separator + (p + s + closing(p))).take(module_separator.len() as int) =~= module_separator);
                }
            },
        }
    }

    /// Appends the module's text.
    pub fn print(&self, out: &mut String, data: &JJData, module_separator: &str) -> (r: Result<(), PromptError>)
        requires
            self.can_print(*data),
        ensures
            final(out)@.len() >= old(out)@.len(),
            final(out)@.take(old(out)@.len() as int) == old(out)@,
            self.printed(*data, module_separator@, final(out)@.skip(old(out)@.len() as int), r is Ok),
    {
        match self {
            ModuleConfig::Bookmarks(bookmarks) => {
                bookmarks.print(out, data, module_separator);
                Ok(())
            },
            ModuleConfig::Commit(commit) => {
                commit.print(out, data, module_separator);
                Ok(())
            },
            ModuleConfig::State(state) => {
                state.print(out, data, module_separator);
                Ok(())
            },
            ModuleConfig::Metrics(metrics) => metrics.print(out, data, module_separator),
        }
    }
}

/// Whether `d` ends with `sep`.
pub open spec fn ends_with(d: Seq<char>, sep: Seq<char>) -> bool {
    d.len() >= sep.len() && d.skip(d.len() - sep.len()) == sep
}

/// Whether `d` is what `mods` print one after the other, and `ok` whether the
/// last of them succeeds (all those before it do).
pub open spec fn printed_all(mods: Seq<ModuleConfig>, data: JJData, module_separator: Seq<char>, d: Seq<char>, ok: bool) -> bool
    decreases mods.len(),
{
    if mods.len() == 0 {
        ok && d.len() == 0
    } else {
        exists|k: int|
            #![trigger d.take(k)]
            0 <= k <= d.len() && printed_all(mods.drop_last(), data, module_separator, d.take(k), true)
                && mods.last().printed(data, module_separator, d.skip(k), ok)
    }
}

impl Default for Config {
    fn default() -> (r: Self)
        ensures
            r.module_separator@ == " "@,
            r.modules@.len() == 4,
            r.modules@[0] matches ModuleConfig::Bookmarks(b) && b.is_default(),
            r.modules@[1] matches ModuleConfig::Commit(c) && c.is_default(),
            r.modules@[2] matches ModuleConfig::State(s) && s.is_default(),
            r.modules@[3] matches ModuleConfig::Metrics(m) && m.is_default(),
            r.bookmarks.search_depth is None,
            r.bookmarks.exclude@.len() == 0,
    {
        let mut modules = Vec::new();
        modules.push(ModuleConfig::Bookmarks(Bookmarks::default()));
        modules.push(ModuleConfig::Commit(Commit::default()));
        modules.push(ModuleConfig::State(State::default()));
        modules.push(ModuleConfig::Metrics(Metrics::default()));
        Config { module_separator: String::from_str(" "), modules, bookmarks: BookmarkConfig::default() }
    }
}

impl Config {
    /// Appends the text of each module in turn, then the plain style; stops
    /// at the first module that fails.
    pub fn print(&self, out: &mut String, data: &JJData) -> (r: Result<(), PromptError>)
        requires
            forall|i: int| 0 <= i < self.modules@.len() ==> (#[trigger] self.modules@[i]).can_print(*data),
        ensures
            final(out)@.len() >= old(out)@.len(),
            final(out)@.take(old(out)@.len() as int) == old(out)@,
            r is Ok ==> printed_all(self.modules@, *data, self.module_separator@, final(out)@.skip(old(out)@.len() as int), true),
            r is Err ==> exists|i: int|
                0 <= i < self.modules@.len() && #[trigger] printed_all(
                    self.modules@.take(i + 1),
                    *data,
                    self.module_separator@,
                    final(out)@.skip(old(out)@.len() as int),
                    false,
                ),
    {
        let ghost start = out@;
        let ghost mods = self.modules@;
        let n = self.modules.len();
        let mut i: usize = 0;
        assert(out@.skip(start.len() as int) =~= Seq::<char>::empty());
        assert(mods.take(0) =~= Seq::<ModuleConfig>::empty());
        while i < n
            invariant
                n == mods.len(),
                mods == self.modules@,
                i <= n,
                start == old(out)@,
                forall|j: int| 0 <= j < mods.len() ==> (#[trigger] mods[j]).can_print(*data),
                out@.len() >= start.len(),
                out@.take(start.len() as int) == start,
                printed_all(mods.take(i as int), *data, self.module_separator@, out@.skip(start.len() as int), true),
            decreases n - i,
        {
            let ghost before = out@;
            let r = self.modules[i].print(out, data, self.module_separator.as_str());
            proof {
                let d_old = before.skip(start.len() as int);
                let d_new = out@.skip(start.len() as int);
                let k = d_old.len() as int;
                assert(d_new.take(k) =~= d_old);
                assert(d_new.skip(k) =~= out@.skip(before.len() as int));
                assert(mods.take(i + 1).drop_last() =~= mods.take(i as int));
                assert(mods.take(i + 1).last() == mods[i as int]);
                assert(out@.take(start.len() as int) =~= start);
                assert(printed_all(mods.take(i + 1), *data, self.module_separator@, d_new, r is Ok));
            }
            if r.is_err() {
                return r;
            }
            i = i + 1;
        }
        let ghost before = out@;
        Style::default().print(out, None);
        proof {
            assert(out@ =~= before);
            assert(mods.take(n as int) =~= mods);
        }
        Ok(())
    }
}

} // verus!
