//! Colors and styles, and the glob patterns that exclude bookmarks.
use vstd::prelude::*;
use colored::Color as TermColor;
use colored::Colorize;
use crate::text::{chars_of, decimal};
use self::Color::{
    Black, Blue, BrightBlack, BrightBlue, BrightCyan, BrightGreen, BrightMagenta, BrightRed,
    BrightWhite, BrightYellow, Cyan, Green, Magenta, Red, TrueColor, White, Yellow,
};

verus! {

/// A terminal color.
#[derive(Clone, Copy, Debug, PartialEq, Eq)]
pub enum Color {
    Black,
    Red,
    Green,
    Yellow,
    Blue,
    Magenta,
    Cyan,
    White,
    BrightBlack,
    BrightRed,
    BrightGreen,
    BrightYellow,
    BrightBlue,
    BrightMagenta,
    BrightCyan,
    BrightWhite,
    TrueColor { r: u8, g: u8, b: u8 },
}

/// The parameters `r;g;b` of a 24-bit color.
pub open spec fn rgb_code(r: u8, g: u8, b: u8) -> Seq<char> {
    decimal(r as nat) + seq![';'] + decimal(g as nat) + seq![';'] + decimal(b as nat)
}

/// The select-graphic-rendition code that `colored` writes to show `c` as
/// the foreground (`Color::to_fg_str`, true colors written out).
pub open spec fn fg_code(c: Color) -> Seq<char> {
    match c {
        Color::Black => seq!['3', '0'],
        Color::Red => seq!['3', '1'],
        Color::Green => seq!['3', '2'],
        Color::Yellow => seq!['3', '3'],
        Color::Blue => seq!['3', '4'],
        Color::Magenta => seq!['3', '5'],
        Color::Cyan => seq!['3', '6'],
        Color::White => seq!['3', '7'],
        Color::BrightBlack => seq!['9', '0'],
        Color::BrightRed => seq!['9', '1'],
        Color::BrightGreen => seq!['9', '2'],
        Color::BrightYellow => seq!['9', '3'],
        Color::BrightBlue => seq!['9', '4'],
        Color::BrightMagenta => seq!['9', '5'],
        Color::BrightCyan => seq!['9', '6'],
        Color::BrightWhite => seq!['9', '7'],
        Color::TrueColor { r, g, b } => seq!['3', '8', ';', '2', ';'] + rgb_code(r, g, b),
    }
}

/// The select-graphic-rendition code that `colored` writes to show `c` as
/// the background (`Color::to_bg_str`, true colors written out).
pub open spec fn bg_code(c: Color) -> Seq<char> {
    match c {
        Color::Black => seq!['4', '0'],
        Color::Red => seq!['4', '1'],
        Color::Green => seq!['4', '2'],
        Color::Yellow => seq!['4', '3'],
        Color::Blue => seq!['4', '4'],
        Color::Magenta => seq!['4', '5'],
        Color::Cyan => seq!['4', '6'],
        Color::White => seq!['4', '7'],
        Color::BrightBlack => seq!['1', '0', '0'],
        Color::BrightRed => seq!['1', '0', '1'],
        Color::BrightGreen => seq!['1', '0', '2'],
        Color::BrightYellow => seq!['1', '0', '3'],
        Color::BrightBlue => seq!['1', '0', '4'],
        Color::BrightMagenta => seq!['1', '0', '5'],
        Color::BrightCyan => seq!['1', '0', '6'],
        Color::BrightWhite => seq!['1', '0', '7'],
        Color::TrueColor { r, g, b } => seq!['4', '8', ';', '2', ';'] + rgb_code(r, g, b),
    }
}

/// The code of `c` as a background or as a foreground.
pub open spec fn sgr_code(c: Color, background: bool) -> Seq<char> {
    if background {
        bg_code(c)
    } else {
        fg_code(c)
    }
}

/// Whether `code` can be what `colored` writes for `c`: the color's own code
/// (`fg_code` or `bg_code`), or, for a true color on a terminal that does not
/// announce true-color support, the code of one of the sixteen named colors.
pub open spec fn code_ok(c: Option<Color>, code: Option<Seq<char>>, background: bool) -> bool {
    match (c, code) {
        (None, None) => true,
        (Some(c), Some(code)) => {
            ||| code == sgr_code(c, background)
            ||| (c is TrueColor && exists|n: Color| !(n is TrueColor) && code == #[trigger] sgr_code(n, background))
        },
        _ => false,
    }
}

/// The escape sequence that switches to background code `bc` and foreground
/// code `fc`: `ESC [`, the background code, a `;` when both are there, the
/// foreground code, `m`.
pub open spec fn sgr(fc: Option<Seq<char>>, bc: Option<Seq<char>>) -> Seq<char> {
    seq!['\x1b', '['] + (match bc {
        Some(b) => b,
        None => Seq::empty(),
    }) + (if bc is Some && fc is Some { seq![';'] } else { Seq::empty() }) + (match fc {
        Some(f) => f,
        None => Seq::empty(),
    }) + seq!['m']
}

/// Whether `p` is an escape sequence that switches to foreground `fg` and
/// background `bg`.
pub open spec fn opens(fg: Option<Color>, bg: Option<Color>, p: Seq<char>) -> bool {
    exists|fc: Option<Seq<char>>, bc: Option<Seq<char>>|
        #![trigger sgr(fc, bc)]
        code_ok(fg, fc, false) && code_ok(bg, bc, true) && p == sgr(fc, bc)
}

/// The sequence that resets all colors.
pub open spec fn reset_sequence() -> Seq<char> {
    seq!['\x1b', '[', '0', 'm']
}

/// The escape text that ends text styled by escape text `p`: the reset
/// sequence, or nothing when `p` is empty.
pub open spec fn closing(p: Seq<char>) -> Seq<char> {
    if p.len() == 0 {
        Seq::empty()
    } else {
        reset_sequence()
    }
}

/// Displays an empty `colored` string with foreground `fg` and background `bg`
/// (`"".color(..)`, or `"".clear()` without a foreground, then `on_color`),
/// the colors converted variant for variant to `colored::Color`. Without
/// either color the string is plain and displays as nothing. Otherwise
/// `colored` writes, when the environment lets it (`CLICOLOR`, `NO_COLOR`,
/// `CLICOLOR_FORCE`, whether stdout is a terminal), the sequence that opens
/// the colors followed at once by the reset sequence; for a true color the
/// code depends on `COLORTERM` too. Which of these happens is not stated.
#[verifier::external_body]
fn paint_empty(fg: Option<Color>, bg: Option<Color>) -> (r: String)
    ensures
        fg is None && bg is None ==> r@.len() == 0,
        r@.len() == 0 || exists|p: Seq<char>| #[trigger] opens(fg, bg, p) && r@ == p + reset_sequence(),
{
    let to = |c: Color| match c {
        Black => TermColor::Black, Red => TermColor::Red, Green => TermColor::Green, Yellow => TermColor::Yellow,
        Blue => TermColor::Blue, Magenta => TermColor::Magenta, Cyan => TermColor::Cyan, White => TermColor::White,
        BrightBlack => TermColor::BrightBlack, BrightRed => TermColor::BrightRed, BrightGreen => TermColor::BrightGreen, BrightYellow => TermColor::BrightYellow,
        BrightBlue => TermColor::BrightBlue, BrightMagenta => TermColor::BrightMagenta, BrightCyan => TermColor::BrightCyan, BrightWhite => TermColor::BrightWhite,
        TrueColor { r, g, b } => TermColor::TrueColor { r, g, b },
    };
    let mut painted = match fg { Some(c) => "".color(to(c)), None => "".clear() };
    if let Some(c) = bg { painted = painted.on_color(to(c)); }
    painted.to_string()
}

/// How a module's text is colored.
#[derive(Clone, Copy, Debug)]
pub struct Style {
    pub color: Option<Color>,
    pub bg_color: Option<Color>,
}

impl Style {
    /// Neither color is set.
    pub open spec fn is_plain(self) -> bool {
        self.color is None && self.bg_color is None
    }

    /// This style, with each color that it leaves unset taken from `fallback`.
    pub open spec fn merged(self, fallback: Option<Style>) -> Style {
        match fallback {
            Some(f) => Style {
                color: if self.color is Some { self.color } else { f.color },
                bg_color: if self.bg_color is Some { self.bg_color } else { f.bg_color },
            },
            None => self,
        }
    }

    /// Whether `p` can be the escape text that switches to this style:
    /// nothing for a plain style; otherwise nothing (when `colored` writes no
    /// colors) or the sequence that opens this style's foreground and
    /// background, with no reset after it.
    pub open spec fn paints(self, p: Seq<char>) -> bool {
        &&& self.is_plain() ==> p.len() == 0
        &&& p.len() == 0 || opens(self.color, self.bg_color, p)
    }

    /// The escape text that switches to this style, with unset colors taken
    /// from `fallback`, and the one that switches back after the styled text:
    /// what `colored` writes for an empty string in these colors, cut before
    /// the reset that ends it, and that reset (nothing when nothing is written).
    pub fn format(&self, fallback: Option<Style>) -> (r: (String, String))
        ensures
            self.merged(fallback).paints(r.0@),
            r.1@ == closing(r.0@),
    {
        let (color, bg_color) = match fallback {
            Some(f) => (
                match self.color {
                    Some(c) => Some(c),
                    None => f.color,
                },
                match self.bg_color {
                    Some(c) => Some(c),
                    None => f.bg_color,
                },
            ),
            None => (self.color, self.bg_color),
        };
        let full = paint_empty(color, bg_color);
        let n = full.as_str().unicode_len();
        if n == 0 {
            (full, String::new())
        } else {
            let ghost p = choose|p: Seq<char>| #[trigger] opens(color, bg_color, p) && full@ == p + reset_sequence();
            assert(full@ == p + reset_sequence());
            assert(p.len() > 0) by {
                let (fc, bc) = choose|fc: Option<Seq<char>>, bc: Option<Seq<char>>|
                    #![trigger sgr(fc, bc)]
                    code_ok(color, fc, false) && code_ok(bg_color, bc, true) && p == sgr(fc, bc);
                assert(p[0] == '\x1b');
            }
            let open = full.as_str().substring_char(0, n - 4);
            let reset = full.as_str().substring_char(n - 4, n);
            assert(open@ =~= p);
            assert(reset@ =~= reset_sequence());
            (String::from_str(open), String::from_str(reset))
        }
    }

    /// Appends the escape text for this style, with unset colors taken from
    /// `fallback`, and returns the escape text that ends the styled text.
    pub fn print(&self, out: &mut String, fallback: Option<Style>) -> (close: String)
        ensures
            final(out)@.len() >= old(out)@.len(),
            final(out)@.take(old(out)@.len() as int) == old(out)@,
            self.merged(fallback).paints(final(out)@.skip(old(out)@.len() as int)),
            close@ == closing(final(out)@.skip(old(out)@.len() as int)),
    {
        let (p, close) = self.format(fallback);
        let ghost before = out@;
        out.append(p.as_str());
        assert(out@.take(before.len() as int) =~= before);
        assert(out@.skip(before.len() as int) =~= p@);
        close
    }
}

impl Default for Style {
    fn default() -> (r: Style)
        ensures
            r.is_plain(),
    {
        Style { color: None, bg_color: None }
    }
}

/// Whether glob pattern `p` matches all of `s`: `*` stands for any run of
/// characters, `?` for any one character, and every other character for itself.
pub open spec fn glob_matches(p: Seq<char>, s: Seq<char>) -> bool
    decreases p.len() + s.len(),
{
    if p.len() == 0 {
        s.len() == 0
    } else if p[0] == '*' {
        glob_matches(p.drop_first(), s) || (s.len() > 0 && glob_matches(p, s.drop_first()))
    } else if p[0] == '?' {
        s.len() > 0 && glob_matches(p.drop_first(), s.drop_first())
    } else {
        s.len() > 0 && s[0] == p[0] && glob_matches(p.drop_first(), s.drop_first())
    }
}

/// A pattern made of `*` alone matches every name.
pub proof fn lemma_star_matches_all(s: Seq<char>)
    ensures
        glob_matches(seq!['*'], s),
    decreases s.len(),
{
    let p = seq!['*'];
    assert(p.len() == 1 && p[0] == '*');
    assert(p.drop_first() =~= Seq::<char>::empty());
    if s.len() > 0 {
        lemma_star_matches_all(s.drop_first());
        assert(glob_matches(p, s.drop_first()));
    } else {
        assert(glob_matches(p.drop_first(), s));
    }
}

/// A pattern without wildcards matches exactly the name that it spells.
pub proof fn lemma_literal_matches_itself(p: Seq<char>, s: Seq<char>)
    requires
        forall|i: int| 0 <= i < p.len() ==> #[trigger] p[i] != '*' && p[i] != '?',
    ensures
        glob_matches(p, s) <==> p == s,
    decreases p.len(),
{
    if p.len() > 0 {
        let q = p.drop_first();
        assert forall|i: int| 0 <= i < q.len() implies #[trigger] q[i] != '*' && q[i] != '?' by {
            assert(q[i] == p[i + 1]);
        }
        if s.len() > 0 {
            lemma_literal_matches_itself(q, s.drop_first());
            if s[0] == p[0] && q == s.drop_first() {
                assert(p =~= seq![p[0]] + q);
                assert(s =~= seq![s[0]] + s.drop_first());
            }
            if p == s {
                assert(q =~= s.drop_first());
            }
        }
    } else {
        if s.len() == 0 {
            assert(p =~= s);
        }
    }
}

/// Whether the rest of pattern `p` from `i` matches the rest of `s` from `j`.
fn glob_match_from(p: &Vec<char>, s: &Vec<char>, i: usize, j: usize) -> (r: bool)
    requires
        i <= p@.len(),
        j <= s@.len(),
    ensures
        r == glob_matches(p@.skip(i as int), s@.skip(j as int)),
    decreases p@.len() - i + s@.len() - j,
{
    let ghost ps = p@.skip(i as int);
    let ghost ss = s@.skip(j as int);
    if i == p.len() {
        assert(ps.len() == 0);
        return j == s.len();
    }
    assert(ps[0] == p@[i as int]);
    assert(ps.drop_first() =~= p@.skip(i + 1));
    if j < s.len() {
        assert(ss[0] == s@[j as int]);
        assert(ss.drop_first() =~= s@.skip(j + 1));
    }
    let c = p[i];
    if c == '*' {
        if glob_match_from(p, s, i + 1, j) {
            true
        } else {
            j < s.len() && glob_match_from(p, s, i, j + 1)
        }
    } else if c == '?' {
        j < s.len() && glob_match_from(p, s, i + 1, j + 1)
    } else {
        j < s.len() && s[j] == c && glob_match_from(p, s, i + 1, j + 1)
    }
}

/// A glob pattern for bookmark names: `*` stands for any run of characters,
/// `?` for any one character, and every other character for itself.
#[derive(Debug)]
pub struct Glob {
    pub pattern: String,
}

impl Glob {
    /// Whether the pattern matches all of `name`.
    pub fn matches(&self, name: &str) -> (r: bool)
        ensures
            r == glob_matches(self.pattern@, name@),
    {
        let p = chars_of(self.pattern.as_str());
        let s = chars_of(name);
        assert(p@.skip(0) =~= p@);
        assert(s@.skip(0) =~= s@);
        glob_match_from(&p, &s, 0, 0)
    }
}

} // verus!
