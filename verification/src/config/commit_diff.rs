//! The diff module: changed files and added and removed lines of the working
//! copy, rendered through a user template and followed by a space.
use vstd::prelude::*;
use crate::config::util::{closing, Color};
use crate::data::JJData;
use crate::template::{PromptError, fields_view, render_template, rendered_template, template_safe};
use crate::text::{decimal, space, usize_to_string};

verus! {

/// How one number is rendered: its style, then a prefix, the number and a suffix.
pub struct Style {
    pub style: crate::config::util::Style,
    pub suffix: String,
    pub prefix: String,
}

impl Default for Style {
    fn default() -> (r: Self)
        ensures
            r.style.is_plain(),
            r.suffix@.len() == 0,
            r.prefix@.len() == 0,
    {
        Style { style: crate::config::util::Style::default(), suffix: String::new(), prefix: String::new() }
    }
}

impl Style {
    /// `number` after escape text `p` and the prefix, followed by the suffix
    /// and the escape text that ends the style.
    pub open spec fn text(self, number: usize, p: Seq<char>) -> Seq<char> {
        p + self.prefix@ + decimal(number as nat) + self.suffix@ + closing(p)
    }

    /// Whether `r` is how `number` is rendered.
    pub open spec fn formats(self, number: usize, r: Seq<char>) -> bool {
        exists|p: Seq<char>| #[trigger] self.style.paints(p) && r == self.text(number, p)
    }

    /// Renders `number` with this style, prefix and suffix.
    pub fn format(&self, number: usize) -> (r: String)
        ensures
            self.formats(number, r@),
    {
        let (p, close) = self.style.format(None);
        let mut r = String::new();
        r.append(p.as_str());
        r.append(self.prefix.as_str());
        r.append(usize_to_string(number).as_str());
        r.append(self.suffix.as_str());
        r.append(close.as_str());
        assert(r@ =~= self.text(number, p@));
        assert(self.style.paints(p@));
        r
    }
}

/// Prints the number of changed files and of added and removed lines.
pub struct CommitDiff {
    pub style: crate::config::util::Style,
    /// Controls how the changes are rendered; `{changed}`, `{added}` and
    /// `{removed}` stand for the numbers.
    pub template: String,
    pub changed_files: Style,
    pub added_lines: Style,
    pub removed_lines: Style,
}

/// A number style with color `c` and prefix `prefix`.
fn number_style(c: Color, prefix: &str) -> (r: Style)
    ensures
        r.style == (crate::config::util::Style { color: Some(c), bg_color: None }),
        r.prefix@ == prefix@,
        r.suffix@.len() == 0,
{
    Style {
        style: crate::config::util::Style { color: Some(c), bg_color: None },
        prefix: String::from_str(prefix),
        suffix: String::new(),
    }
}

impl Default for CommitDiff {
    fn default() -> (r: Self)
        ensures
            r.style == (crate::config::util::Style { color: Some(Color::Magenta), bg_color: None }),
            r.template@ == "[{changed} {added}{removed}]"@,
            r.changed_files.style == (crate::config::util::Style { color: Some(Color::Cyan), bg_color: None }),
            r.changed_files.prefix@ == ""@,
            r.added_lines.style == (crate::config::util::Style { color: Some(Color::Green), bg_color: None }),
            r.added_lines.prefix@ == "+"@,
            r.removed_lines.style == (crate::config::util::Style { color: Some(Color::Red), bg_color: None }),
            r.removed_lines.prefix@ == "-"@,
            r.changed_files.suffix@.len() == 0,
            r.added_lines.suffix@.len() == 0,
            r.removed_lines.suffix@.len() == 0,
    {
        CommitDiff {
            style: crate::config::util::Style { color: Some(Color::Magenta), bg_color: None },
            template: String::from_str("[{changed} {added}{removed}]"),
            changed_files: number_style(Color::Cyan, ""),
            added_lines: number_style(Color::Green, "+"),
            removed_lines: number_style(Color::Red, "-"),
        }
    }
}

/// The names of the template's values, in the order of `context_of`.
pub open spec fn context_names() -> Seq<Seq<char>> {
    seq!["added"@, "removed"@, "changed"@]
}

/// The template context holding values `vals` under `context_names`.
pub open spec fn context_of(vals: Seq<Seq<char>>) -> Seq<(Seq<char>, Seq<char>)> {
    Seq::new(3, |i: int| (context_names()[i], vals[i]))
}

impl CommitDiff {
    /// Whether `vals` are the rendered added lines, removed lines and changed files.
    pub open spec fn context_ok(self, diff: crate::data::CommitDiff, vals: Seq<Seq<char>>) -> bool {
        &&& vals.len() == 3
        &&& self.added_lines.formats(diff.lines_added, vals[0])
        &&& self.removed_lines.formats(diff.lines_removed, vals[1])
        &&& self.changed_files.formats(diff.files_changed, vals[2])
    }

    /// Whether `v` is the template value named `name` for `diff`: `added` and
    /// `removed` render the added and removed lines, `changed` the changed files.
    pub open spec fn value_named(self, diff: crate::data::CommitDiff, name: Seq<char>, v: Seq<char>) -> bool {
        &&& name == "added"@ ==> self.added_lines.formats(diff.lines_added, v)
        &&& name == "removed"@ ==> self.removed_lines.formats(diff.lines_removed, v)
        &&& name == "changed"@ ==> self.changed_files.formats(diff.files_changed, v)
    }

    /// The template sees each of its three values under its own name, and
    /// each name once.
    pub proof fn lemma_context_names(self, diff: crate::data::CommitDiff, vals: Seq<Seq<char>>)
        requires
            self.context_ok(diff, vals),
        ensures
            context_of(vals).len() == 3,
            forall|j: int| 0 <= j < 3 ==> self.value_named(diff, #[trigger] context_of(vals)[j].0, context_of(vals)[j].1),
            forall|i: int, j: int| 0 <= i < j < 3 ==> #[trigger] context_of(vals)[i].0 != #[trigger] context_of(vals)[j].0,
            exists|j: int| 0 <= j < 3 && #[trigger] context_of(vals)[j].0 == "added"@,
            exists|j: int| 0 <= j < 3 && #[trigger] context_of(vals)[j].0 == "removed"@,
            exists|j: int| 0 <= j < 3 && #[trigger] context_of(vals)[j].0 == "changed"@,
    {
        reveal_strlit("added");
        reveal_strlit("removed");
        reveal_strlit("changed");
        let c = context_of(vals);
        assert("removed"@[0] != "changed"@[0]);
        assert(c[0].0 == "added"@);
        assert(c[1].0 == "removed"@);
        assert(c[2].0 == "changed"@);
    }

    /// Whether `d` is what the module prints for `diff`, and `ok` whether it
    /// succeeds: nothing without a diff; else the rendered template and a
    /// space, or a failure when `template_safe` refuses the template or it
    /// does not render.
    pub open spec fn printed(self, diff: Option<crate::data::CommitDiff>, d: Seq<char>, ok: bool) -> bool {
        match diff {
            None => ok && d.len() == 0,
            Some(df) => if !template_safe(self.template@) {
                !ok && d.len() == 0
            } else {
                exists|vals: Seq<Seq<char>>|
                    #[trigger] self.context_ok(df, vals) && match rendered_template(self.template@, context_of(vals)) {
                        None => !ok && d.len() == 0,
                        Some(s) => ok && d == s + space(),
                    }
            },
        }
    }

    /// Appends what follows the rendered template: the rendered text and a space.
    pub fn finish(out: &mut String, rendered: &str)
        ensures
            final(out)@ == old(out)@ + rendered@ + space(),
    {
        out.append(rendered);
        out.append(" ");
        proof {
            reveal_strlit(" ");
        }
    }

    /// Appends the rendered template of the working copy's change counts,
    /// followed by a space; nothing when the counts are unknown. Fails when
    /// the template does not render.
    pub fn print(&self, out: &mut String, data: &JJData) -> (r: Result<(), PromptError>)
        ensures
            final(out)@.len() >= old(out)@.len(),
            final(out)@.take(old(out)@.len() as int) == old(out)@,
            self.printed(data.commit.diff, final(out)@.skip(old(out)@.len() as int), r is Ok),
    {
        let ghost start = out@;
        match &data.commit.diff {
            None => {
                assert(out@.skip(start.len() as int) =~= Seq::<char>::empty());
                Ok(())
            },
            Some(diff) => {
                let added = self.added_lines.format(diff.lines_added);
                let removed = self.removed_lines.format(diff.lines_removed);
                let changed = self.changed_files.format(diff.files_changed);
                let ghost vals = seq![added@, removed@, changed@];
                let mut context: Vec<(String, String)> = Vec::new();
                context.push((String::from_str("added"), added));
                context.push((String::from_str("removed"), removed));
                context.push((String::from_str("changed"), changed));
                assert(fields_view(context@) =~= context_of(vals));
                assert(self.context_ok(*diff, vals));
                match render_template(self.template.as_str(), context) {
                    Ok(s) => {
                        Self::finish(out, s.as_str());
                        proof {
                            assert(out@.take(start.len() as int) =~= start);
                            assert(out@.skip(start.len() as int) =~= s@ + space());
                        }
                        Ok(())
                    },
                    Err(e) => {
                        assert(out@.skip(start.len() as int) =~= Seq::<char>::empty());
                        Err(e)
                    },
                }
            },
        }
    }
}

} // verus!
