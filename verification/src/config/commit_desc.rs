//! The commit-description module in quotes: the first line of the working
//! copy's description between double quotes, cut by bytes.
use vstd::prelude::*;
use crate::config::util::{closing, Style};
use crate::data::JJData;
use crate::text::{
    byte_prefix, byte_slice_prefix, ellipsis, first_line, first_line_of, is_byte_boundary, quote,
    space, utf8_len,
};

verus! {

/// Prints the first line of the working copy's description in quotes.
pub struct CommitDesc {
    pub style: Style,
    pub max_length: Option<usize>,
}

impl Default for CommitDesc {
    fn default() -> (r: Self)
        ensures
            r.style.is_plain(),
            r.max_length == Some(24usize),
    {
        CommitDesc { style: Style::default(), max_length: Some(24) }
    }
}

/// The description, or nothing when there is none.
pub open spec fn desc_or_empty(desc: Option<String>) -> Seq<char> {
    match desc {
        Some(d) => d@,
        None => Seq::empty(),
    }
}

impl CommitDesc {
    /// Whether the first line can be cut without slicing inside a character:
    /// a line longer than `max_length` bytes is cut after `max_length - 1` bytes.
    pub open spec fn line_fits(self, line: Seq<char>) -> bool {
        match self.max_length {
            Some(m) => utf8_len(line) > m ==> m >= 1 && is_byte_boundary(line, m - 1),
            None => true,
        }
    }

    /// The first line in quotes followed by a space; when it is longer than
    /// `max_length` bytes, its first `max_length - 1` bytes and an ellipsis.
    pub open spec fn quoted(self, line: Seq<char>) -> Seq<char> {
        match self.max_length {
            Some(m) => if utf8_len(line) > m {
                quote() + byte_prefix(line, m - 1) + ellipsis() + quote() + space()
            } else {
                quote() + line + quote() + space()
            },
            None => quote() + line + quote() + space(),
        }
    }

    /// The module's text for description `desc` after escape text `p`,
    /// followed by the escape text that ends the style; nothing when the
    /// first line is empty.
    pub open spec fn text(self, desc: Seq<char>, p: Seq<char>) -> Seq<char> {
        let line = first_line_of(desc);
        if line.len() == 0 {
            Seq::empty()
        } else {
            p + self.quoted(line) + closing(p)
        }
    }

    /// Whether `d` is what the module prints for description `desc`.
    pub open spec fn printed(self, desc: Seq<char>, d: Seq<char>) -> bool {
        exists|p: Seq<char>| #[trigger] self.style.paints(p) && d == self.text(desc, p)
    }

    /// Appends the styled first line of the description in quotes, followed
    /// by a space.
    pub fn print(&self, out: &mut String, data: &JJData)
        requires
            self.line_fits(first_line_of(desc_or_empty(data.commit.desc))),
        ensures
            final(out)@.len() >= old(out)@.len(),
            final(out)@.take(old(out)@.len() as int) == old(out)@,
            self.printed(desc_or_empty(data.commit.desc), final(out)@.skip(old(out)@.len() as int)),
    {
        let ghost start = out@;
        let desc: &str = match &data.commit.desc {
            Some(d) => d.as_str(),
            None => "",
        };
        proof {
            reveal_strlit("");
        }
        assert(desc@ == desc_or_empty(data.commit.desc));
        let line = first_line(desc);
        if !line.is_empty() {
            let close = self.style.print(out, None);
            let ghost p = out@.skip(start.len() as int);
            let ghost mid = out@;
            proof {
                reveal_strlit("\"");
                reveal_strlit("\" ");
                reveal_strlit("\u{2026}\" ");
            }
            let cut = match self.max_length {
                Some(max_len) => line.as_bytes().len() > max_len,
                None => false,
            };
            if cut {
                let max_len = self.max_length.unwrap();
                out.append("\"");
                out.append(byte_slice_prefix(line, max_len - 1));
                out.append("\u{2026}\" ");
            } else {
                out.append("\"");
                out.append(line);
                out.append("\" ");
            }
            let ghost quoted_end = out@;
            out.append(close.as_str());
            proof {
                assert(quoted_end =~= mid + self.quoted(line@));
                assert(mid =~= start + p);
                assert(out@.take(start.len() as int) =~= start);
                assert(out@.skip(start.len() as int) =~= self.text(desc@, p));
                assert(self.style.paints(p));
            }
        } else {
            proof {
                let p = Seq::<char>::empty();
                assert(out@.skip(start.len() as int) =~= self.text(desc@, p));
                assert(self.style.paints(p));
            }
        }
    }
}

} // verus!
