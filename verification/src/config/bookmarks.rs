//! The bookmarks module: the bookmarks in the working copy's history and how
//! many commits the working copy is ahead of each.
use vstd::prelude::*;
use crate::config::util::{closing, Color, Style};
use crate::data::{BookmarkEntry, JJData, entries_view, sort_entries};
use crate::text::{
    byte_prefix, byte_slice_prefix, char_to_string, decimal, ellipsis, is_byte_boundary, quote,
    usize_to_string, utf8_len,
};

verus! {

/// Prints information about bookmarks in the working copy's ancestors.
pub struct Bookmarks {
    /// Text that will be rendered between each bookmark.
    pub separator: String,
    /// Controls how bookmarks are rendered.
    pub style: Style,
    /// A suffix that will be printed when the given bookmark is behind the working copy.
    pub behind_symbol: Option<char>,
    /// Maximum amount of bookmarks that will be rendered.
    pub max_bookmarks: Option<usize>,
    /// Maximum length the bookmark name will be truncated to.
    pub max_length: Option<usize>,
}

impl Bookmarks {
    /// Whether this is the module's default configuration.
    pub open spec fn is_default(self) -> bool {
        &&& self.style == (Style { color: Some(Color::Magenta), bg_color: None })
        &&& self.behind_symbol == Some('\u{21e1}')
        &&& self.max_bookmarks is None
        &&& self.separator@ == " "@
        &&& self.max_length is None
    }
}

impl Default for Bookmarks {
    fn default() -> (r: Self)
        ensures
            r.is_default(),
    {
        Bookmarks {
            style: Style { color: Some(Color::Magenta), bg_color: None },
            behind_symbol: Some('\u{21e1}'),
            max_bookmarks: None,
            separator: String::from_str(" "),
            max_length: None,
        }
    }
}

impl Bookmarks {
    /// Whether `name` can be shown without slicing it inside a character:
    /// a name longer than `max_length` bytes is cut after `max_length - 1`
    /// bytes, which must be a character boundary.
    pub open spec fn name_fits(self, name: Seq<char>) -> bool {
        match self.max_length {
            Some(m) => utf8_len(name) > m ==> m >= 1 && is_byte_boundary(name, m - 1),
            None => true,
        }
    }

    /// A name in quotes, cut after `max_length - 1` bytes and marked with an
    /// ellipsis when it is longer than `max_length` bytes.
    pub open spec fn name_text(self, name: Seq<char>) -> Seq<char> {
        match self.max_length {
            Some(m) => if utf8_len(name) > m {
                quote() + byte_prefix(name, m - 1) + ellipsis() + quote()
            } else {
                quote() + name + quote()
            },
            None => quote() + name + quote(),
        }
    }

    /// How far the working copy is ahead: nothing at distance zero, else the
    /// behind symbol (if any) and the distance.
    pub open spec fn distance_text(self, behind: usize) -> Seq<char> {
        if behind == 0 {
            Seq::empty()
        } else {
            match self.behind_symbol {
                Some(c) => seq![c] + decimal(behind as nat),
                None => decimal(behind as nat),
            }
        }
    }

    /// One bookmark as shown.
    pub open spec fn entry_text(self, e: BookmarkEntry) -> Seq<char> {
        self.name_text(e.0) + self.distance_text(e.1)
    }

    /// Bookmarks as shown, with the separator between them.
    pub open spec fn list_text(self, es: Seq<BookmarkEntry>) -> Seq<char>
        decreases es.len(),
    {
        if es.len() == 0 {
            Seq::empty()
        } else if es.len() == 1 {
            self.entry_text(es[0])
        } else {
            self.list_text(es.drop_last()) + self.separator@ + self.entry_text(es.last())
        }
    }

    /// How many of `n` bookmarks are shown.
    pub open spec fn shown(self, n: nat) -> nat {
        match self.max_bookmarks {
            Some(m) => if n > m { m as nat } else { n },
            None => n,
        }
    }

    /// The module's text after its style, for bookmarks already in shown
    /// order: the shown bookmarks, then an ellipsis when some are left out,
    /// then the escape text `c` that ends the style and the module separator;
    /// only `c` when there are no bookmarks.
    pub open spec fn body_text(self, sorted: Seq<BookmarkEntry>, module_separator: Seq<char>, c: Seq<char>) -> Seq<char> {
        let k = self.shown(sorted.len());
        if k < sorted.len() {
            self.list_text(sorted.take(k as int)) + ellipsis() + c + module_separator
        } else if k > 0 {
            self.list_text(sorted) + c + module_separator
        } else {
            c
        }
    }

    /// Whether every shown bookmark of `sorted` can be shown.
    pub open spec fn can_render(self, sorted: Seq<BookmarkEntry>) -> bool {
        forall|i: int| 0 <= i < self.shown(sorted.len()) ==> self.name_fits(#[trigger] sorted[i].0)
    }

    /// Whether the bookmarks can be printed.
    pub open spec fn printable(self, bookmarks: Seq<BookmarkEntry>) -> bool {
        self.can_render(sort_entries(bookmarks))
    }

    /// Whether `d` is what the module prints for `bookmarks`: the style's
    /// escape text, then the bookmarks in shown order and the escape text
    /// that ends the style.
    pub open spec fn printed(self, bookmarks: Seq<BookmarkEntry>, module_separator: Seq<char>, d: Seq<char>) -> bool {
        exists|p: Seq<char>|
            #[trigger] self.style.paints(p) && d == p + self.body_text(sort_entries(bookmarks), module_separator, closing(p))
    }

    /// Appends one bookmark as shown.
    fn print_entry(&self, out: &mut String, name: &str, behind: usize)
        requires
            self.name_fits(name@),
        ensures
            final(out)@ == old(out)@ + self.entry_text((name@, behind)),
    {
        let ghost start = out@;
        proof {
            reveal_strlit("\"");
            reveal_strlit("\u{2026}\"");
        }
        let cut = match self.max_length {
            Some(max_len) => name.as_bytes().len() > max_len,
            None => false,
        };
        if cut {
            let max_len = self.max_length.unwrap();
            out.append("\"");
            out.append(byte_slice_prefix(name, max_len - 1));
            out.append("\u{2026}\"");
            assert(out@ =~= start + self.name_text(name@));
        } else {
            out.append("\"");
            out.append(name);
            out.append("\"");
            assert(out@ =~= start + self.name_text(name@));
        }
        let ghost mid = out@;
        if behind != 0 {
            match self.behind_symbol {
                Some(s) => {
                    out.append(char_to_string(s).as_str());
                    out.append(usize_to_string(behind).as_str());
                },
                None => {
                    out.append(usize_to_string(behind).as_str());
                },
            }
        }
        assert(out@ =~= mid + self.distance_text(behind));
    }

    /// Appends the module's text after its style for bookmarks already in
    /// shown order, with `close` where the style ends.
    pub fn render(&self, out: &mut String, sorted: &Vec<(String, usize)>, module_separator: &str, close: &str)
        requires
            self.can_render(entries_view(sorted@)),
        ensures
            final(out)@ == old(out)@ + self.body_text(entries_view(sorted@), module_separator@, close@),
    {
        let ghost s = entries_view(sorted@);
        let ghost start = out@;
        let n = sorted.len();
        let mut i: usize = 0;
        assert(s.take(0) =~= Seq::<BookmarkEntry>::empty());
        while i < n
            invariant
                n == sorted@.len(),
                s == entries_view(sorted@),
                start == old(out)@,
                i <= n,
                i <= self.shown(n as nat),
                self.can_render(s),
                out@ == start + self.list_text(s.take(i as int)),
            decreases n - i,
        {
            if let Some(number) = self.max_bookmarks {
                if i >= number {
                    proof {
                        reveal_strlit("\u{2026}");
                    }
                    out.append("\u{2026}");
                    out.append(close);
                    out.append(module_separator);
                    assert(self.shown(n as nat) == i);
                    assert(out@ =~= start + self.body_text(s, module_separator@, close@));
                    return;
                }
            }
            if i > 0 {
                out.append(self.separator.as_str());
            }
            let ghost e = s[i as int];
            assert(self.name_fits(e.0));
            self.print_entry(out, sorted[i].0.as_str(), sorted[i].1);
            i = i + 1;
            proof {
                assert(s.take(i as int).drop_last() =~= s.take(i - 1));
                assert(s.take(i as int).last() == e);
                if i == 1 {
                    assert(s.take(0) =~= Seq::<BookmarkEntry>::empty());
                }
            }
        }
        out.append(close);
        if i != 0 {
            out.append(module_separator);
        }
        assert(s.take(n as int) =~= s);
    }

    /// Appends the module's text: its style, then the bookmarks nearest first
    /// and by name, at most `max_bookmarks` of them.
    pub fn print(&self, out: &mut String, data: &JJData, module_separator: &str)
        requires
            data.bookmarks is Some,
            self.printable(data.bookmarks->0@),
        ensures
            final(out)@.len() >= old(out)@.len(),
            final(out)@.take(old(out)@.len() as int) == old(out)@,
            self.printed(data.bookmarks->0@, module_separator@, final(out)@.skip(old(out)@.len() as int)),
    {
        let ghost start = out@;
        match &data.bookmarks {
            Some(bookmarks) => {
                let close = self.style.print(out, None);
                let ghost p = out@.skip(start.len() as int);
                let ghost mid = out@;
                let sorted = bookmarks.sorted_entries();
                self.render(out, &sorted, module_separator, close.as_str());
                proof {
                    assert(mid =~= start + p);
                    assert(out@.take(start.len() as int) =~= start);
                    assert(out@.skip(start.len() as int) =~= p + self.body_text(
                        sort_entries(bookmarks@),
                        module_separator@,
                        closing(p),
                    ));
                    assert(self.style.paints(p));
                }
            },
            None => {},
        }
    }
}

} // verus!
