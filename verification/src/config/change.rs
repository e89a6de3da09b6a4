//! The change module: the shortest unique prefix of the working copy's change id.
use vstd::prelude::*;
use crate::config::util::{closing, Style};
use crate::data::JJData;
use crate::text::{opt_view, print_ansi_truncated, truncated_text};

verus! {

/// The length the change id is cut to unless the configuration says otherwise.
pub fn default_max_length() -> (r: Option<usize>)
    ensures
        r == Some(24usize),
{
    Some(24)
}

/// Prints the working copy's change id.
pub struct Change {
    /// Maximum length the change id will be truncated to.
    pub max_length: Option<usize>,
    /// Controls how the change id is rendered.
    pub style: Style,
}

impl Default for Change {
    fn default() -> (r: Self)
        ensures
            r.style.is_plain(),
            r.max_length == Some(24usize),
    {
        Change { style: Style::default(), max_length: default_max_length() }
    }
}

impl Change {
    /// The module's text for change id `id` with escape text `p`: the module
    /// separator, the escape text, the id cut to `max_length` characters and
    /// the escape text that ends the style; nothing for an empty id.
    pub open spec fn text(self, id: Seq<char>, module_separator: Seq<char>, p: Seq<char>) -> Seq<char> {
        if id.len() == 0 {
            Seq::empty()
        } else {
            module_separator + p + truncated_text(self.max_length, id) + closing(p)
        }
    }

    /// Whether `d` is what the module prints: nothing without an id, else its
    /// text with the style's escape text.
    pub open spec fn printed(self, id: Option<Seq<char>>, module_separator: Seq<char>, d: Seq<char>) -> bool {
        match id {
            None => d.len() == 0,
            Some(x) => exists|p: Seq<char>| #[trigger] self.style.paints(p) && d == self.text(x, module_separator, p),
        }
    }

    /// Appends the module separator and the working copy's change id, styled
    /// and cut to `max_length` characters.
    pub fn print(&self, out: &mut String, data: &JJData, module_separator: &str)
        ensures
            final(out)@.len() >= old(out)@.len(),
            final(out)@.take(old(out)@.len() as int) == old(out)@,
            self.printed(opt_view(data.commit.id), module_separator@, final(out)@.skip(old(out)@.len() as int)),
    {
        let ghost start = out@;
        match &data.commit.id {
            None => {
                assert(out@.skip(start.len() as int) =~= Seq::<char>::empty());
            },
            Some(change_id) => {
                if !change_id.as_str().is_empty() {
                    out.append(module_separator);
                    let ghost mid0 = out@;
                    let close = self.style.print(out, None);
                    let ghost p = out@.skip(mid0.len() as int);
                    let ghost mid = out@;
                    print_ansi_truncated(self.max_length, out, change_id.as_str());
                    out.append(close.as_str());
                    proof {
                        assert(mid =~= start + module_separator@ + p);
                        assert(out@.take(start.len() as int) =~= start);
                        assert(out@.skip(start.len() as int) =~= self.text(change_id@, module_separator@, p));
                        assert(self.style.paints(p));
                    }
                } else {
                    proof {
                        let p = Seq::<char>::empty();
                        assert(out@.skip(start.len() as int) =~= self.text(change_id@, module_separator@, p));
                        assert(self.style.paints(p));
                    }
                }
            },
        }
    }
}

} // verus!
