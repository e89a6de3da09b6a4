//! The commit-warnings module: a warning for each troubling state of the
//! working-copy commit, each followed by a space.
use vstd::prelude::*;
use crate::config::util::{closing, Color, Style};
use crate::data::JJData;

verus! {

/// The text of the conflict warning.
pub open spec fn conflict_text() -> Seq<char> {
    "(CONFLICT) "@
}

/// The text of the divergence warning.
pub open spec fn divergent_text() -> Seq<char> {
    "(DIVERGENT) "@
}

/// The text of the hidden-commit warning.
pub open spec fn hidden_text() -> Seq<char> {
    "(HIDDEN) "@
}

/// `p + t`, then the escape text that ends the style, when `on`; nothing otherwise.
pub open spec fn when(on: bool, p: Seq<char>, t: Seq<char>) -> Seq<char> {
    if on {
        p + t + closing(p)
    } else {
        Seq::empty()
    }
}

/// Prints warnings when the working copy has conflicts, is divergent or is hidden.
pub struct CommitWarnings {
    pub conflict: Style,
    pub divergent: Style,
    pub hidden: Style,
}

impl Default for CommitWarnings {
    fn default() -> (r: Self)
        ensures
            r.conflict == (Style { color: Some(Color::Red), bg_color: None }),
            r.divergent == (Style { color: Some(Color::Cyan), bg_color: None }),
            r.hidden == (Style { color: Some(Color::Yellow), bg_color: None }),
    {
        CommitWarnings {
            conflict: Style { color: Some(Color::Red), bg_color: None },
            divergent: Style { color: Some(Color::Cyan), bg_color: None },
            hidden: Style { color: Some(Color::Yellow), bg_color: None },
        }
    }
}

impl CommitWarnings {
    /// The module's text for the given states, with escape texts `pc`, `pd`, `ph`.
    pub open spec fn text(
        self,
        w: crate::data::CommitWarnings,
        pc: Seq<char>,
        pd: Seq<char>,
        ph: Seq<char>,
    ) -> Seq<char> {
        when(w.conflict, pc, conflict_text()) + when(w.divergent, pd, divergent_text()) + when(
            w.hidden,
            ph,
            hidden_text(),
        )
    }

    /// Whether `d` is what the module prints for the given states.
    pub open spec fn printed(self, w: crate::data::CommitWarnings, d: Seq<char>) -> bool {
        exists|pc: Seq<char>, pd: Seq<char>, ph: Seq<char>|
            #![trigger self.text(w, pc, pd, ph)]
            self.conflict.paints(pc) && self.divergent.paints(pd) && self.hidden.paints(ph) && d
                == self.text(w, pc, pd, ph)
    }

    /// Appends `style`'s escape text and `text` when `on`.
    fn print_warning(out: &mut String, on: bool, style: &Style, text: &str) -> (p: Ghost<Seq<char>>)
        ensures
            style.paints(p@),
            final(out)@ == old(out)@ + when(on, p@, text@),
    {
        let ghost start = out@;
        if on {
            let close = style.print(out, None);
            let ghost p = out@.skip(start.len() as int);
            assert(out@ =~= start + p);
            out.append(text);
            out.append(close.as_str());
            assert(out@ =~= start + when(on, p, text@));
            Ghost(p)
        } else {
            assert(out@ =~= start + Seq::<char>::empty());
            Ghost(Seq::empty())
        }
    }

    /// Appends a styled warning, followed by a space, for each of the
    /// conflict, divergence and hidden states that the working copy is in.
    pub fn print(&self, out: &mut String, data: &JJData)
        ensures
            final(out)@.len() >= old(out)@.len(),
            final(out)@.take(old(out)@.len() as int) == old(out)@,
            self.printed(data.commit.warnings, final(out)@.skip(old(out)@.len() as int)),
    {
        let ghost start = out@;
        let w = &data.commit.warnings;
        let pc = Self::print_warning(out, w.conflict, &self.conflict, "(CONFLICT) ");
        let pd = Self::print_warning(out, w.divergent, &self.divergent, "(DIVERGENT) ");
        let ph = Self::print_warning(out, w.hidden, &self.hidden, "(HIDDEN) ");
        proof {
            assert(out@ =~= start + self.text(data.commit.warnings, pc@, pd@, ph@));
            assert(out@.take(start.len() as int) =~= start);
            assert(out@.skip(start.len() as int) =~= self.text(data.commit.warnings, pc@, pd@, ph@));
        }
    }
}

} // verus!
