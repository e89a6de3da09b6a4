//! The metrics module: how much the working copy changes, rendered through a
//! user template.
use vstd::prelude::*;
use crate::config::util::{closing, Color, Style};
use crate::data::{CommitDiff, JJData};
use crate::template::{PromptError, fields_view, render_template, rendered_template, template_safe};
use crate::text::{decimal, join, lemma_join_push, space, usize_to_string};

verus! {

/// A style with foreground `c` and no background.
pub open spec fn colored_style(c: Color) -> Style {
    Style { color: Some(c), bg_color: None }
}

/// How one number is rendered.
pub struct Metric {
    pub prefix: String,
    pub suffix: String,
    /// Render nothing when the number is zero.
    pub skip_empty: bool,
    pub style: Style,
}

impl Default for Metric {
    fn default() -> (r: Self)
        ensures
            r.prefix@.len() == 0,
            r.suffix@.len() == 0,
            !r.skip_empty,
            r.style.is_plain(),
    {
        Metric { prefix: String::new(), suffix: String::new(), skip_empty: false, style: Style::default() }
    }
}

/// Prints the amount of changes in the working copy.
pub struct Metrics {
    /// Controls how the changes are rendered; `{added}`, `{removed}`,
    /// `{changed}`, `{files_added}`, `{files_removed}`, `{files_modified}` and
    /// `{files_stat}` stand for the numbers.
    pub template: String,
    /// Controls how the number of changed files is rendered.
    pub changed_files: Metric,
    /// Controls how the number of modified files is rendered.
    pub modified_files: Metric,
    /// Controls how the number of added files is rendered.
    pub added_files: Metric,
    /// Controls how the number of removed files is rendered.
    pub removed_files: Metric,
    /// Controls how the number of added lines is rendered.
    pub added_lines: Metric,
    /// Controls how the number of removed lines is rendered.
    pub removed_lines: Metric,
    pub style: Style,
}

/// A metric with the given style and prefix.
fn metric(style: Style, prefix: &str) -> (r: Metric)
    ensures
        r.style == style,
        r.prefix@ == prefix@,
        r.suffix@.len() == 0,
        !r.skip_empty,
{
    Metric { prefix: String::from_str(prefix), suffix: String::new(), skip_empty: false, style }
}

/// The default rendering of removed lines: red, after a `-`.
pub fn default_removed_lines() -> (r: Metric)
    ensures
        r.style == colored_style(Color::Red),
        r.prefix@ == "-"@,
        r.suffix@.len() == 0,
        !r.skip_empty,
{
    metric(default_removed_style(), "-")
}

/// Red.
pub fn default_removed_style() -> (r: Style)
    ensures
        r == colored_style(Color::Red),
{
    Style { color: Some(Color::Red), bg_color: None }
}

/// The default rendering of added lines: green, after a `+`.
pub fn default_added_lines() -> (r: Metric)
    ensures
        r.style == colored_style(Color::Green),
        r.prefix@ == "+"@,
        r.suffix@.len() == 0,
        !r.skip_empty,
{
    metric(default_added_style(), "+")
}

/// Green.
pub fn default_added_style() -> (r: Style)
    ensures
        r == colored_style(Color::Green),
{
    Style { color: Some(Color::Green), bg_color: None }
}

/// The default rendering of changed files: cyan, without prefix.
pub fn default_changed_files() -> (r: Metric)
    ensures
        r.style == colored_style(Color::Cyan),
        r.prefix@.len() == 0,
        r.suffix@.len() == 0,
        !r.skip_empty,
{
    Metric { prefix: String::new(), suffix: String::new(), skip_empty: false, style: default_changed_style() }
}

/// The default rendering of modified files: cyan, after a `~`.
pub fn default_modified_files() -> (r: Metric)
    ensures
        r.style == colored_style(Color::Cyan),
        r.prefix@ == "~"@,
        r.suffix@.len() == 0,
        !r.skip_empty,
{
    metric(default_changed_style(), "~")
}

/// The default rendering of added files: green, after a `+`.
pub fn default_added_files() -> (r: Metric)
    ensures
        r.style == colored_style(Color::Green),
        r.prefix@ == "+"@,
        r.suffix@.len() == 0,
        !r.skip_empty,
{
    metric(default_added_style(), "+")
}

/// The default rendering of removed files: red, after a `-`.
pub fn default_removed_files() -> (r: Metric)
    ensures
        r.style == colored_style(Color::Red),
        r.prefix@ == "-"@,
        r.suffix@.len() == 0,
        !r.skip_empty,
{
    metric(default_removed_style(), "-")
}

/// Cyan.
pub fn default_changed_style() -> (r: Style)
    ensures
        r == colored_style(Color::Cyan),
{
    Style { color: Some(Color::Cyan), bg_color: None }
}

/// The default template: changed files, then added and removed lines, in brackets.
pub fn default_template() -> (r: String)
    ensures
        r@ == "[{changed} {added}{removed}]"@,
{
    String::from_str("[{changed} {added}{removed}]")
}

/// Magenta.
pub fn default_style() -> (r: Style)
    ensures
        r == colored_style(Color::Magenta),
{
    Style { color: Some(Color::Magenta), bg_color: None }
}

impl Metrics {
    /// Whether this is the module's default configuration.
    pub open spec fn is_default(self) -> bool {
        &&& self.style == colored_style(Color::Magenta)
        &&& self.template@ == "[{changed} {added}{removed}]"@
        &&& self.changed_files.style == colored_style(Color::Cyan)
        &&& self.changed_files.prefix@.len() == 0
        &&& self.modified_files.style == colored_style(Color::Cyan)
        &&& self.modified_files.prefix@ == "~"@
        &&& self.added_files.style == colored_style(Color::Green)
        &&& self.added_files.prefix@ == "+"@
        &&& self.removed_files.style == colored_style(Color::Red)
        &&& self.removed_files.prefix@ == "-"@
        &&& self.added_lines.style == colored_style(Color::Green)
        &&& self.added_lines.prefix@ == "+"@
        &&& self.removed_lines.style == colored_style(Color::Red)
        &&& self.removed_lines.prefix@ == "-"@
        &&& !self.changed_files.skip_empty && !self.modified_files.skip_empty && !self.added_files.skip_empty
        &&& !self.removed_files.skip_empty && !self.added_lines.skip_empty && !self.removed_lines.skip_empty
        &&& self.changed_files.suffix@.len() == 0 && self.modified_files.suffix@.len() == 0
        &&& self.added_files.suffix@.len() == 0 && self.removed_files.suffix@.len() == 0
        &&& self.added_lines.suffix@.len() == 0 && self.removed_lines.suffix@.len() == 0
    }
}

impl Default for Metrics {
    fn default() -> (r: Self)
        ensures
            r.is_default(),
    {
        Metrics {
            style: default_style(),
            template: default_template(),
            changed_files: default_changed_files(),
            modified_files: default_modified_files(),
            added_files: default_added_files(),
            removed_files: default_removed_files(),
            added_lines: default_added_lines(),
            removed_lines: default_removed_lines(),
        }
    }
}

impl Metric {
    /// The number `number` after escape text `p` and the prefix, followed by
    /// the suffix, the escape text that ends the style, and escape text `g`
    /// that returns to the module's style.
    pub open spec fn text(self, number: usize, p: Seq<char>, g: Seq<char>) -> Seq<char> {
        p + self.prefix@ + decimal(number as nat) + self.suffix@ + closing(p) + g
    }

    /// Whether `r` is how `number` is rendered: nothing for a zero that is
    /// skipped, else its text with the metric's style (unset colors from
    /// `fallback`) and the module style (unset colors from magenta) after it.
    pub open spec fn formats(self, number: usize, global: Style, fallback: Style, r: Seq<char>) -> bool {
        if self.skip_empty && number == 0 {
            r.len() == 0
        } else {
            exists|p: Seq<char>, g: Seq<char>|
                #![trigger self.text(number, p, g)]
                self.style.merged(Some(fallback)).paints(p) && global.merged(
                    Some(colored_style(Color::Magenta)),
                ).paints(g) && r == self.text(number, p, g)
        }
    }

    /// Renders `number`: nothing when it is zero and `skip_empty` is set,
    /// else the style, prefix, number and suffix, then the module's style again.
    pub fn format(&self, number: usize, global_style: &Style, fallback: Style) -> (r: String)
        ensures
            self.formats(number, *global_style, fallback, r@),
    {
        if self.skip_empty && number == 0 {
            return String::new();
        }
        let (p, close) = self.style.format(Some(fallback));
        let (g, _) = global_style.format(Some(default_style()));
        let mut r = String::new();
        r.append(p.as_str());
        r.append(self.prefix.as_str());
        r.append(usize_to_string(number).as_str());
        r.append(self.suffix.as_str());
        r.append(close.as_str());
        r.append(g.as_str());
        assert(r@ =~= self.text(number, p@, g@));
        r
    }
}

/// The parts of `s` that are not empty, in order.
pub open spec fn keep_nonempty(s: Seq<Seq<char>>) -> Seq<Seq<char>>
    decreases s.len(),
{
    if s.len() == 0 {
        Seq::empty()
    } else if s.last().len() > 0 {
        keep_nonempty(s.drop_last()).push(s.last())
    } else {
        keep_nonempty(s.drop_last())
    }
}

/// The names of the template's values, in the order of `context_of`.
pub open spec fn context_names() -> Seq<Seq<char>> {
    seq![
        "added"@,
        "removed"@,
        "changed"@,
        "files_added"@,
        "files_removed"@,
        "files_modified"@,
        "files_stat"@,
    ]
}

/// The template context holding values `vals` under `context_names`.
pub open spec fn context_of(vals: Seq<Seq<char>>) -> Seq<(Seq<char>, Seq<char>)> {
    Seq::new(7, |i: int| (context_names()[i], vals[i]))
}

/// The file counts that are not empty, with a space between them.
pub open spec fn files_stat(added: Seq<char>, modified: Seq<char>, removed: Seq<char>) -> Seq<char> {
    join(keep_nonempty(seq![added, modified, removed]), space())
}

/// Appends `part` to `stat` when it is not empty, after a space unless it is the first.
fn add_stat(stat: &mut String, any: bool, part: &str, Ghost(parts): Ghost<Seq<Seq<char>>>) -> (r: bool)
    requires
        old(stat)@ == join(keep_nonempty(parts), space()),
        any == (keep_nonempty(parts).len() > 0),
    ensures
        final(stat)@ == join(keep_nonempty(parts.push(part@)), space()),
        r == (keep_nonempty(parts.push(part@)).len() > 0),
{
    assert(parts.push(part@).drop_last() =~= parts);
    if !part.is_empty() {
        proof {
            lemma_join_push(keep_nonempty(parts), part@, space());
            reveal_strlit(" ");
        }
        if any {
            stat.append(" ");
        }
        stat.append(part);
        true
    } else {
        any
    }
}

impl Metrics {
    /// Whether `vals` are the rendered values of the template for `diff`, in
    /// the order of `context_names`.
    pub open spec fn context_ok(self, diff: CommitDiff, vals: Seq<Seq<char>>) -> bool {
        &&& vals.len() == 7
        &&& self.added_lines.formats(diff.lines_added, self.style, colored_style(Color::Green), vals[0])
        &&& self.removed_lines.formats(diff.lines_removed, self.style, colored_style(Color::Red), vals[1])
        &&& self.changed_files.formats(diff.files_changed, self.style, colored_style(Color::Cyan), vals[2])
        &&& self.added_files.formats(diff.files_added, self.style, colored_style(Color::Green), vals[3])
        &&& self.removed_files.formats(diff.files_removed, self.style, colored_style(Color::Red), vals[4])
        &&& self.modified_files.formats(diff.files_modified, self.style, colored_style(Color::Cyan), vals[5])
        &&& vals[6] == files_stat(vals[3], vals[5], vals[4])
    }

    /// Whether `v` is the template value named `name` for `diff`: `added`,
    /// `removed` and `changed` render the added and removed lines and the
    /// changed files, `files_added`, `files_removed` and `files_modified`
    /// the added, removed and modified files, and `files_stat` the last three
    /// as `files_stat` joins them.
    pub open spec fn value_named(self, diff: CommitDiff, name: Seq<char>, v: Seq<char>) -> bool {
        let green = colored_style(Color::Green);
        let red = colored_style(Color::Red);
        let cyan = colored_style(Color::Cyan);
        &&& name == "added"@ ==> self.added_lines.formats(diff.lines_added, self.style, green, v)
        &&& name == "removed"@ ==> self.removed_lines.formats(diff.lines_removed, self.style, red, v)
        &&& name == "changed"@ ==> self.changed_files.formats(diff.files_changed, self.style, cyan, v)
        &&& name == "files_added"@ ==> self.added_files.formats(diff.files_added, self.style, green, v)
        &&& name == "files_removed"@ ==> self.removed_files.formats(diff.files_removed, self.style, red, v)
        &&& name == "files_modified"@ ==> self.modified_files.formats(diff.files_modified, self.style, cyan, v)
        &&& name == "files_stat"@ ==> exists|fa: Seq<char>, fm: Seq<char>, fr: Seq<char>|
            #[trigger] files_stat(fa, fm, fr) == v && self.added_files.formats(diff.files_added, self.style, green, fa)
                && self.modified_files.formats(diff.files_modified, self.style, cyan, fm)
                && self.removed_files.formats(diff.files_removed, self.style, red, fr)
    }

    /// The template sees each of its seven values under its own name, and
    /// each name once: whatever value the context holds under a name is the
    /// one that the name says.
    pub proof fn lemma_context_names(self, diff: CommitDiff, vals: Seq<Seq<char>>)
        requires
            self.context_ok(diff, vals),
        ensures
            context_of(vals).len() == 7,
            forall|j: int| 0 <= j < 7 ==> self.value_named(diff, #[trigger] context_of(vals)[j].0, context_of(vals)[j].1),
            forall|i: int, j: int| 0 <= i < j < 7 ==> #[trigger] context_of(vals)[i].0 != #[trigger] context_of(vals)[j].0,
            exists|j: int| 0 <= j < 7 && #[trigger] context_of(vals)[j].0 == "added"@,
            exists|j: int| 0 <= j < 7 && #[trigger] context_of(vals)[j].0 == "removed"@,
            exists|j: int| 0 <= j < 7 && #[trigger] context_of(vals)[j].0 == "changed"@,
            exists|j: int| 0 <= j < 7 && #[trigger] context_of(vals)[j].0 == "files_added"@,
            exists|j: int| 0 <= j < 7 && #[trigger] context_of(vals)[j].0 == "files_removed"@,
            exists|j: int| 0 <= j < 7 && #[trigger] context_of(vals)[j].0 == "files_modified"@,
            exists|j: int| 0 <= j < 7 && #[trigger] context_of(vals)[j].0 == "files_stat"@,
    {
        reveal_strlit("added");
        reveal_strlit("removed");
        reveal_strlit("changed");
        reveal_strlit("files_added");
        reveal_strlit("files_removed");
        reveal_strlit("files_modified");
        reveal_strlit("files_stat");
        let c = context_of(vals);
        assert("removed"@[0] != "changed"@[0]);
        assert(c[0].0 == "added"@);
        assert(c[1].0 == "removed"@);
        assert(c[2].0 == "changed"@);
        assert(c[3].0 == "files_added"@);
        assert(c[4].0 == "files_removed"@);
        assert(c[5].0 == "files_modified"@);
        assert(c[6].0 == "files_stat"@);
        assert(files_stat(vals[3], vals[5], vals[4]) == vals[6]);
    }

    /// What follows the rendered template `rendered`: nothing when it is
    /// empty, else the module separator, escape text `p`, the rendered text
    /// and the escape text that ends the style.
    pub open spec fn finish_text(rendered: Seq<char>, module_separator: Seq<char>, p: Seq<char>) -> Seq<char> {
        if rendered.len() == 0 {
            Seq::empty()
        } else {
            module_separator + p + rendered + closing(p)
        }
    }

    /// Whether `d` is what the module prints for `diff`, and `ok` whether it
    /// succeeds: nothing without a diff; else the rendered template after the
    /// module separator and the module's style, or a failure when
    /// `template_safe` refuses the template or it does not render.
    pub open spec fn printed(self, diff: Option<CommitDiff>, module_separator: Seq<char>, d: Seq<char>, ok: bool) -> bool {
        match diff {
            None => ok && d.len() == 0,
            Some(df) => if !template_safe(self.template@) {
                !ok && d.len() == 0
            } else {
                exists|vals: Seq<Seq<char>>|
                    #[trigger] self.context_ok(df, vals) && match rendered_template(self.template@, context_of(vals)) {
                        None => !ok && d.len() == 0,
                        Some(s) => ok && exists|p: Seq<char>|
                            #[trigger] self.style.merged(Some(colored_style(Color::Magenta))).paints(p) && d
                                == Self::finish_text(s, module_separator, p),
                    }
            },
        }
    }

    /// The template's values for `diff`, under their names.
    fn context(&self, diff: &CommitDiff) -> (r: (Vec<(String, String)>, Ghost<Seq<Seq<char>>>))
        ensures
            self.context_ok(*diff, r.1@),
            fields_view(r.0@) == context_of(r.1@),
    {
        let files_added = self.added_files.format(diff.files_added, &self.style, default_added_style());
        let files_removed = self.removed_files.format(diff.files_removed, &self.style, default_removed_style());
        let files_modified = self.modified_files.format(diff.files_modified, &self.style, default_changed_style());
        let mut stat = String::new();
        let ghost p0: Seq<Seq<char>> = Seq::empty();
        assert(stat@ =~= join(keep_nonempty(p0), space()));
        let any = add_stat(&mut stat, false, files_added.as_str(), Ghost(p0));
        let ghost p1 = p0.push(files_added@);
        let any = add_stat(&mut stat, any, files_modified.as_str(), Ghost(p1));
        let ghost p2 = p1.push(files_modified@);
        let _ = add_stat(&mut stat, any, files_removed.as_str(), Ghost(p2));
        let ghost p3 = p2.push(files_removed@);
        assert(p3 =~= seq![files_added@, files_modified@, files_removed@]);
        let added = self.added_lines.format(diff.lines_added, &self.style, default_added_style());
        let removed = self.removed_lines.format(diff.lines_removed, &self.style, default_removed_style());
        let changed = self.changed_files.format(diff.files_changed, &self.style, default_changed_style());
        let ghost vals = seq![added@, removed@, changed@, files_added@, files_removed@, files_modified@, stat@];
        let mut r: Vec<(String, String)> = Vec::new();
        r.push((String::from_str("added"), added));
        r.push((String::from_str("removed"), removed));
        r.push((String::from_str("changed"), changed));
        r.push((String::from_str("files_added"), files_added));
        r.push((String::from_str("files_removed"), files_removed));
        r.push((String::from_str("files_modified"), files_modified));
        r.push((String::from_str("files_stat"), stat));
        assert(fields_view(r@) =~= context_of(vals));
        (r, Ghost(vals))
    }

    /// Appends what follows the rendered template: nothing when it is empty,
    /// else the module separator, the escape text `prefix`, the rendered text
    /// and the escape text `close` that ends the style.
    pub fn finish(out: &mut String, rendered: &str, module_separator: &str, prefix: &str, close: &str)
        requires
            close@ == closing(prefix@),
        ensures
            final(out)@ == old(out)@ + Self::finish_text(rendered@, module_separator@, prefix@),
    {
        let ghost start = out@;
        if !rendered.is_empty() {
            out.append(module_separator);
            out.append(prefix);
            out.append(rendered);
            out.append(close);
        }
        assert(out@ =~= start + Self::finish_text(rendered@, module_separator@, prefix@));
    }

    /// Appends the rendered template of the working copy's change counts,
    /// after the module separator and the module's style; nothing when the
    /// counts are unknown or the template renders as nothing. Fails when the
    /// template does not render.
    pub fn print(&self, out: &mut String, data: &JJData, module_separator: &str) -> (r: Result<(), PromptError>)
        ensures
            final(out)@.len() >= old(out)@.len(),
            final(out)@.take(old(out)@.len() as int) == old(out)@,
            self.printed(data.commit.diff, module_separator@, final(out)@.skip(old(out)@.len() as int), r is Ok),
    {
        let ghost start = out@;
        match &data.commit.diff {
            None => {
                assert(out@.skip(start.len() as int) =~= Seq::<char>::empty());
                Ok(())
            },
            Some(diff) => {
                let (context, vals) = self.context(diff);
                match render_template(self.template.as_str(), context) {
                    Ok(s) => {
                        let (p, close) = self.style.format(Some(default_style()));
                        Self::finish(out, s.as_str(), module_separator, p.as_str(), close.as_str());
                        proof {
                            assert(out@.take(start.len() as int) =~= start);
                            assert(out@.skip(start.len() as int) =~= Self::finish_text(s@, module_separator@, p@));
                            assert(self.style.merged(Some(colored_style(Color::Magenta))).paints(p@));
                            assert(self.context_ok(*diff, vals@));
                        }
                        Ok(())
                    },
                    Err(e) => {
                        proof {
                            assert(out@.skip(start.len() as int) =~= Seq::<char>::empty());
                            assert(self.context_ok(*diff, vals@));
                        }
                        Err(e)
                    },
                }
            },
        }
    }
}

} // verus!
