//! The commit module: the first line of the working copy's description.
use vstd::prelude::*;
use crate::config::util::{closing, Style};
use crate::data::JJData;
use crate::text::{first_line, first_line_of, opt_view, print_ansi_truncated, truncated_text};

verus! {

/// The length the text is cut to unless the configuration says otherwise.
pub fn default_max_length() -> (r: Option<usize>)
    ensures
        r == Some(24usize),
{
    Some(24)
}

/// Prints the working copy's commit text.
pub struct Commit {
    /// Maximum length the commit text will be truncated to.
    pub max_length: Option<usize>,
    /// Controls how the commit text is rendered.
    pub style: Style,
}

impl Commit {
    /// Whether this is the module's default configuration.
    pub open spec fn is_default(self) -> bool {
        &&& self.style.is_plain()
        &&& self.max_length == Some(24usize)
    }
}

impl Default for Commit {
    fn default() -> (r: Self)
        ensures
            r.is_default(),
    {
        Commit { style: Style::default(), max_length: default_max_length() }
    }
}

impl Commit {
    /// The module's text for description `desc` after escape text `p`: the
    /// first line cut to `max_length` characters, the escape text that ends
    /// the style, then the module separator; nothing when the first line is
    /// empty.
    pub open spec fn text(self, desc: Seq<char>, module_separator: Seq<char>, p: Seq<char>) -> Seq<char> {
        let line = first_line_of(desc);
        if line.len() == 0 {
            Seq::empty()
        } else {
            p + truncated_text(self.max_length, line) + closing(p) + module_separator
        }
    }

    /// Whether `d` is what the module prints: nothing without a description,
    /// else its text after the style's escape text.
    pub open spec fn printed(self, desc: Option<Seq<char>>, module_separator: Seq<char>, d: Seq<char>) -> bool {
        match desc {
            None => d.len() == 0,
            Some(x) => exists|p: Seq<char>| #[trigger] self.style.paints(p) && d == self.text(x, module_separator, p),
        }
    }

    /// Appends the first line of the working copy's description, styled and
    /// cut to `max_length` characters, followed by the module separator.
    pub fn print(&self, out: &mut String, data: &JJData, module_separator: &str)
        ensures
            final(out)@.len() >= old(out)@.len(),
            final(out)@.take(old(out)@.len() as int) == old(out)@,
            self.printed(opt_view(data.commit.desc), module_separator@, final(out)@.skip(old(out)@.len() as int)),
    {
        let ghost start = out@;
        match &data.commit.desc {
            None => {
                assert(out@.skip(start.len() as int) =~= Seq::<char>::empty());
            },
            Some(desc) => {
                let line = first_line(desc.as_str());
                if !line.is_empty() {
                    let close = self.style.print(out, None);
                    let ghost p = out@.skip(start.len() as int);
                    let ghost mid = out@;
                    print_ansi_truncated(self.max_length, out, line);
                    out.append(close.as_str());
                    out.append(module_separator);
                    proof {
                        assert(mid =~= start + p);
                        assert(out@.take(start.len() as int) =~= start);
                        assert(out@.skip(start.len() as int) =~= self.text(desc@, module_separator@, p));
                        assert(self.style.paints(p));
                    }
                } else {
                    proof {
                        let p = Seq::<char>::empty();
                        assert(out@.skip(start.len() as int) =~= self.text(desc@, module_separator@, p));
                        assert(self.style.paints(p));
                    }
                }
            },
        }
    }
}

} // verus!
