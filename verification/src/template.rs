//! Rendering of the user's metric templates through `tinytemplate`.
use vstd::prelude::*;
use crate::text::chars_of;

verus! {

/// `tinytemplate::error::Error`, which the library maps to its own error.
#[verifier::external_type_specification]
#[verifier::external_body]
pub struct ExTemplateError(tinytemplate::error::Error);

/// Why printing the prompt failed.
#[derive(Debug)]
pub enum PromptError {
    /// The configured template could not be parsed or rendered, or is one
    /// that the template compiler would panic on.
    Template,
}

/// The named values of a template context, by value.
pub open spec fn fields_view(v: Seq<(String, String)>) -> Seq<(Seq<char>, Seq<char>)> {
    v.map_values(|f: (String, String)| (f.0@, f.1@))
}

/// What `tinytemplate` renders for `template` with a context object whose
/// fields are `context` (names to string values): `None` when the template
/// does not parse or does not render with that context.
pub uninterp spec fn rendered_template(template: Seq<char>, context: Seq<(Seq<char>, Seq<char>)>) -> Option<Seq<char>>;

/// Whether `c` is white space as `char::is_whitespace` says (the Unicode
/// `White_Space` property), which `str::trim` and `str::split_whitespace` use.
pub open spec fn is_space(c: char) -> bool {
    ||| ('\t' <= c && c <= '\r')
    ||| c == ' '
    ||| c == '\u{85}'
    ||| c == '\u{a0}'
    ||| c == '\u{1680}'
    ||| ('\u{2000}' <= c && c <= '\u{200a}')
    ||| c == '\u{2028}'
    ||| c == '\u{2029}'
    ||| c == '\u{202f}'
    ||| c == '\u{205f}'
    ||| c == '\u{3000}'
}

/// `s` without its leading white space.
pub open spec fn trim_start(s: Seq<char>) -> Seq<char>
    decreases s.len(),
{
    if s.len() > 0 && is_space(s[0]) {
        trim_start(s.drop_first())
    } else {
        s
    }
}

/// `s` without its trailing white space.
pub open spec fn trim_end(s: Seq<char>) -> Seq<char>
    decreases s.len(),
{
    if s.len() > 0 && is_space(s.last()) {
        trim_end(s.drop_last())
    } else {
        s
    }
}

/// `s` without white space at either end.
pub open spec fn trim(s: Seq<char>) -> Seq<char> {
    trim_end(trim_start(s))
}

/// The number of characters before the first white space in `s`.
pub open spec fn word_len(s: Seq<char>) -> nat
    decreases s.len(),
{
    if s.len() > 0 && !is_space(s[0]) {
        1 + word_len(s.drop_first())
    } else {
        0
    }
}

/// The text of a block tag between `{{` and `}}` as the template compiler
/// reads it: trimmed, then without a leading `-` and trimmed again, then
/// without a trailing `-` and trimmed again.
pub open spec fn block_text(inner: Seq<char>) -> Seq<char> {
    let b = trim(inner);
    let b = if b.len() > 0 && b[0] == '-' { trim(b.drop_first()) } else { b };
    if b.len() > 0 && b.last() == '-' { trim(b.drop_last()) } else { b }
}

/// Whether the template compiler panics on a block tag whose text between
/// `{{` and `}}` is `inner`: an `if` tag whose rest, after its first word and
/// trimmed, starts with `not` and either is `not` alone or has a character of
/// more than one byte after it (the compiler slices the rest from its fourth
/// byte).
pub open spec fn block_panics(inner: Seq<char>) -> bool {
    let b = block_text(inner);
    let d = word_len(b);
    let rest = trim(b.skip(d as int));
    &&& d == 2 && b[0] == 'i' && b[1] == 'f'
    &&& rest.len() >= 3 && rest[0] == 'n' && rest[1] == 'o' && rest[2] == 't'
    &&& (rest.len() == 3 || (rest[3] as u32) >= 128)
}

/// `trim_start(s)` is what follows a run at the start of `s`.
proof fn lemma_trim_start_slice(s: Seq<char>) -> (k: int)
    ensures
        0 <= k <= s.len(),
        trim_start(s) == s.subrange(k, s.len() as int),
    decreases s.len(),
{
    if s.len() > 0 && is_space(s[0]) {
        let k = lemma_trim_start_slice(s.drop_first());
        assert(s.drop_first().subrange(k, s.len() - 1) =~= s.subrange(k + 1, s.len() as int));
        k + 1
    } else {
        assert(s.subrange(0, s.len() as int) =~= s);
        0
    }
}

/// `trim_end(s)` is a start of `s`.
proof fn lemma_trim_end_slice(s: Seq<char>) -> (k: int)
    ensures
        0 <= k <= s.len(),
        trim_end(s) == s.subrange(0, k),
    decreases s.len(),
{
    if s.len() > 0 && is_space(s.last()) {
        let k = lemma_trim_end_slice(s.drop_last());
        assert(s.drop_last().subrange(0, k) =~= s.subrange(0, k));
        k
    } else {
        assert(s.subrange(0, s.len() as int) =~= s);
        s.len() as int
    }
}

/// A first word is no longer than the text.
proof fn lemma_word_len_bound(s: Seq<char>)
    ensures
        word_len(s) <= s.len(),
    decreases s.len(),
{
    if s.len() > 0 && !is_space(s[0]) {
        lemma_word_len_bound(s.drop_first());
    }
}

/// `trim(s)` is a piece of `s`.
proof fn lemma_trim_slice(s: Seq<char>) -> (r: (int, int))
    ensures
        0 <= r.0 <= r.1 <= s.len(),
        trim(s) == s.subrange(r.0, r.1),
{
    let a = lemma_trim_start_slice(s);
    let t = s.subrange(a, s.len() as int);
    let b = lemma_trim_end_slice(t);
    assert(t.subrange(0, b) =~= s.subrange(a, a + b));
    (a, a + b)
}

/// `block_text(inner)` is a piece of `inner`.
proof fn lemma_block_text_slice(inner: Seq<char>) -> (r: (int, int))
    ensures
        0 <= r.0 <= r.1 <= inner.len(),
        block_text(inner) == inner.subrange(r.0, r.1),
{
    let (a0, b0) = lemma_trim_slice(inner);
    let t0 = trim(inner);
    let (a1, b1) = if t0.len() > 0 && t0[0] == '-' {
        let u = t0.drop_first();
        let (x, y) = lemma_trim_slice(u);
        assert(u.subrange(x, y) =~= inner.subrange(a0 + 1 + x, a0 + 1 + y));
        (a0 + 1 + x, a0 + 1 + y)
    } else {
        (a0, b0)
    };
    let t1 = if t0.len() > 0 && t0[0] == '-' { trim(t0.drop_first()) } else { t0 };
    assert(t1 == inner.subrange(a1, b1));
    if t1.len() > 0 && t1.last() == '-' {
        let u = t1.drop_last();
        let (x, y) = lemma_trim_slice(u);
        assert(u.subrange(x, y) =~= inner.subrange(a1 + x, a1 + y));
        (a1 + x, a1 + y)
    } else {
        (a1, b1)
    }
}

/// A block tag that the compiler panics on holds `if` and, after it, `not`:
/// every other block tag, such as `{{ if added }}`, compiles.
pub proof fn lemma_block_panics_needs_if_not(inner: Seq<char>)
    requires
        block_panics(inner),
    ensures
        exists|i: int, k: int|
            #![trigger inner[i], inner[k]]
            0 <= i && i + 2 <= k && k + 3 <= inner.len() && inner[i] == 'i' && inner[i + 1] == 'f' && inner[k] == 'n'
                && inner[k + 1] == 'o' && inner[k + 2] == 't',
{
    let (a, b) = lemma_block_text_slice(inner);
    let bt = block_text(inner);
    let d = word_len(bt) as int;
    lemma_word_len_bound(bt);
    assert(d == 2 && bt.len() >= 2);
    let after = bt.skip(d);
    let (x, y) = lemma_trim_slice(after);
    let rest = trim(after);
    assert(bt[0] == inner[a] && bt[1] == inner[a + 1]);
    assert(rest[0] == after[x] && after[x] == bt[d + x] && bt[d + x] == inner[a + d + x]);
    assert(rest[1] == inner[a + d + x + 1]);
    assert(rest[2] == inner[a + d + x + 2]);
    assert(inner[a] == 'i' && inner[a + 1] == 'f' && inner[a + d + x] == 'n');
}

/// The position of the first `a` directly followed by `b` in `t`, searching
/// from position `j` to the end of the line; -1 when there is none.
pub open spec fn find_pair(t: Seq<char>, j: int, a: char, b: char) -> int
    decreases t.len() - j,
{
    if j < 0 || j >= t.len() {
        -1
    } else if j + 1 < t.len() && t[j] == a && t[j + 1] == b {
        j
    } else if t[j] == '\n' {
        -1
    } else {
        find_pair(t, j + 1, a, b)
    }
}

/// The position of the first `c` in `t`, searching from position `j` to the
/// end of the line; -1 when there is none.
pub open spec fn find_in_line(t: Seq<char>, j: int, c: char) -> int
    decreases t.len() - j,
{
    if j < 0 || j >= t.len() {
        -1
    } else if t[j] == c {
        j
    } else if t[j] == '\n' {
        -1
    } else {
        find_in_line(t, j + 1, c)
    }
}

/// The position of the first `{` in `t` from position `j`; the length of
/// `t` when there is none.
pub open spec fn next_brace(t: Seq<char>, j: int) -> int
    decreases t.len() - j,
{
    if j < 0 || j >= t.len() {
        t.len() as int
    } else if t[j] == '{' {
        j
    } else {
        next_brace(t, j + 1)
    }
}

/// Whether the template compiler gets through `t` from position `i` without
/// panicking, scanning it as the compiler does: at a `{` that does not follow
/// an escaping backslash (`lit` false), a comment tag `{#..#}`, a block tag
/// `{{..}}` or a value tag `{..}`, each closed on the same line (without a
/// close the compiler stops with an error); elsewhere a run of text up to the
/// next `{`, which a backslash at its end escapes. The compiler panics on a
/// comment tag `{#}`, on a block tag that `block_panics` describes, and on a
/// backslash that ends the text. Where the compiler stops with an error inside
/// a closed tag (an unknown block, a bad path), the scan goes on: a template
/// with such a tag fails either way.
pub open spec fn safe_from(t: Seq<char>, i: int, lit: bool) -> bool
    decreases t.len() - i,
{
    if i < 0 || i >= t.len() {
        true
    } else if !lit && t[i] == '{' {
        if i + 1 < t.len() && t[i + 1] == '#' {
            let p = find_pair(t, i + 1, '#', '}');
            if p == i + 1 {
                false
            } else if p < i + 1 || p + 2 > t.len() {
                true
            } else {
                safe_from(t, p + 2, false)
            }
        } else if i + 1 < t.len() && t[i + 1] == '{' {
            let p = find_pair(t, i + 2, '}', '}');
            if p < i + 2 || p + 2 > t.len() {
                true
            } else {
                !block_panics(t.subrange(i + 2, p)) && safe_from(t, p + 2, false)
            }
        } else {
            let p = find_in_line(t, i + 1, '}');
            if p < i + 1 || p + 1 > t.len() {
                true
            } else {
                safe_from(t, p + 1, false)
            }
        }
    } else {
        let q = next_brace(t, i + 1);
        if q <= i || q > t.len() {
            true
        } else if t[q - 1] == '\\' {
            q < t.len() && safe_from(t, q, true)
        } else {
            safe_from(t, q, false)
        }
    }
}

/// Whether `tinytemplate` compiles (and then renders) `t` without panicking.
pub open spec fn template_safe(t: Seq<char>) -> bool {
    safe_from(t, 0, false)
}

/// What `find_pair` finds is the pair, at or after where the search starts.
proof fn lemma_find_pair(t: Seq<char>, j: int, a: char, b: char)
    ensures
        find_pair(t, j, a, b) == -1 || (j <= find_pair(t, j, a, b) && find_pair(t, j, a, b) + 1 < t.len()
            && t[find_pair(t, j, a, b)] == a && t[find_pair(t, j, a, b) + 1] == b),
    decreases t.len() - j,
{
    if 0 <= j < t.len() && !(j + 1 < t.len() && t[j] == a && t[j + 1] == b) && t[j] != '\n' {
        lemma_find_pair(t, j + 1, a, b);
    }
}

/// What `find_in_line` finds is `c`, at or after where the search starts.
proof fn lemma_find_in_line(t: Seq<char>, j: int, c: char)
    ensures
        find_in_line(t, j, c) == -1 || (j <= find_in_line(t, j, c) < t.len() && t[find_in_line(t, j, c)] == c),
    decreases t.len() - j,
{
    if 0 <= j < t.len() && t[j] != c && t[j] != '\n' {
        lemma_find_in_line(t, j + 1, c);
    }
}

/// What `next_brace` finds is a `{` at or after where the search starts, or
/// the end.
proof fn lemma_next_brace(t: Seq<char>, j: int)
    requires
        0 <= j,
    ensures
        next_brace(t, j) == t.len() || (j <= next_brace(t, j) < t.len() && t[next_brace(t, j)] == '{'),
        j <= t.len() ==> j <= next_brace(t, j) <= t.len(),
    decreases t.len() - j,
{
    if j < t.len() && t[j] != '{' {
        lemma_next_brace(t, j + 1);
    }
}

/// Whether one of the texts that the compiler can panic on is in `t` from
/// position `i`: an empty comment tag `{#}`, an `if` with a `not` after it,
/// or a backslash that ends the text.
pub open spec fn has_panic_pattern(t: Seq<char>, i: int) -> bool {
    ||| exists|k: int|
        #![trigger t[k]]
        i <= k && k + 3 <= t.len() && t[k] == '{' && t[k + 1] == '#' && t[k + 2] == '}'
    ||| exists|a: int, k: int|
        #![trigger t[a], t[k]]
        i <= a && a + 2 <= k && k + 3 <= t.len() && t[a] == 'i' && t[a + 1] == 'f' && t[k] == 'n' && t[k + 1]
            == 'o' && t[k + 2] == 't'
    ||| t.len() > 0 && t.last() == '\\'
}

/// A template is refused only when it holds an empty comment tag `{#}`, an
/// `if` with a `not` after it, or a backslash at its end: every other
/// template goes to `tinytemplate` as it is.
pub proof fn lemma_refusal_reasons(t: Seq<char>)
    requires
        !template_safe(t),
    ensures
        has_panic_pattern(t, 0),
{
    lemma_refusal_from(t, 0, false);
}

/// The inductive part of `lemma_refusal_reasons`.
proof fn lemma_refusal_from(t: Seq<char>, i: int, lit: bool)
    requires
        !safe_from(t, i, lit),
        0 <= i,
    ensures
        has_panic_pattern(t, i),
    decreases t.len() - i,
{
    if !lit && t[i] == '{' {
        if i + 1 < t.len() && t[i + 1] == '#' {
            let p = find_pair(t, i + 1, '#', '}');
            lemma_find_pair(t, i + 1, '#', '}');
            if p == i + 1 {
                assert(t[i] == '{' && t[i + 1] == '#' && t[i + 2] == '}');
            } else {
                lemma_refusal_from(t, p + 2, false);
                lemma_pattern_later(t, i, p + 2);
            }
        } else if i + 1 < t.len() && t[i + 1] == '{' {
            let p = find_pair(t, i + 2, '}', '}');
            lemma_find_pair(t, i + 2, '}', '}');
            let inner = t.subrange(i + 2, p);
            if block_panics(inner) {
                lemma_block_panics_needs_if_not(inner);
                let (a, k) = choose|a: int, k: int|
                    #![trigger inner[a], inner[k]]
                    0 <= a && a + 2 <= k && k + 3 <= inner.len() && inner[a] == 'i' && inner[a + 1] == 'f' && inner[k]
                        == 'n' && inner[k + 1] == 'o' && inner[k + 2] == 't';
                assert(t[i + 2 + a] == 'i' && t[i + 2 + a + 1] == 'f');
                assert(t[i + 2 + k] == 'n' && t[i + 2 + k + 1] == 'o' && t[i + 2 + k + 2] == 't');
            } else {
                lemma_refusal_from(t, p + 2, false);
                lemma_pattern_later(t, i, p + 2);
            }
        } else {
            let p = find_in_line(t, i + 1, '}');
            lemma_find_in_line(t, i + 1, '}');
            lemma_refusal_from(t, p + 1, false);
            lemma_pattern_later(t, i, p + 1);
        }
    } else {
        let q = next_brace(t, i + 1);
        lemma_next_brace(t, i + 1);
        if t[q - 1] == '\\' && q >= t.len() {
            assert(t.last() == '\\');
        } else {
            lemma_refusal_from(t, q, t[q - 1] == '\\');
            lemma_pattern_later(t, i, q);
        }
    }
}

/// A pattern found from a later position is found from an earlier one.
proof fn lemma_pattern_later(t: Seq<char>, i: int, j: int)
    requires
        i <= j,
        has_panic_pattern(t, j),
    ensures
        has_panic_pattern(t, i),
{
}

/// Whether `c` is white space, as `is_space` says.
fn space_char(c: char) -> (r: bool)
    ensures
        r == is_space(c),
{
    ('\t' <= c && c <= '\r') || c == ' ' || c == '\u{85}' || c == '\u{a0}' || c == '\u{1680}' || ('\u{2000}' <= c
        && c <= '\u{200a}') || c == '\u{2028}' || c == '\u{2029}' || c == '\u{202f}' || c == '\u{205f}' || c
        == '\u{3000}'
}

/// The characters of `v` from `lo` up to `hi`.
fn copy_range(v: &Vec<char>, lo: usize, hi: usize) -> (r: Vec<char>)
    requires
        lo <= hi <= v@.len(),
    ensures
        r@ == v@.subrange(lo as int, hi as int),
{
    let mut r: Vec<char> = Vec::new();
    let mut k: usize = lo;
    while k < hi
        invariant
            lo <= k <= hi <= v@.len(),
            r@ == v@.subrange(lo as int, k as int),
        decreases hi - k,
    {
        r.push(v[k]);
        k = k + 1;
        assert(r@ =~= v@.subrange(lo as int, k as int));
    }
    r
}

/// `v` without white space at either end, as `trim` says.
fn trim_vec(v: &Vec<char>) -> (r: Vec<char>)
    ensures
        r@ == trim(v@),
{
    let n = v.len();
    let mut lo: usize = 0;
    assert(v@.skip(0) =~= v@);
    loop
        invariant
            lo <= n == v@.len(),
            trim_start(v@) == trim_start(v@.skip(lo as int)),
        ensures
            lo <= n,
            trim_start(v@) == v@.skip(lo as int),
        decreases n - lo,
    {
        if lo == n || !space_char(v[lo]) {
            break;
        }
        assert(v@.skip(lo as int).drop_first() =~= v@.skip(lo + 1));
        lo = lo + 1;
    }
    let s = copy_range(v, lo, n);
    assert(s@ =~= v@.skip(lo as int));
    assert(trim_start(v@) == s@);
    let mut hi: usize = s.len();
    assert(s@.take(hi as int) =~= s@);
    loop
        invariant
            hi <= s@.len(),
            trim_end(s@) == trim_end(s@.take(hi as int)),
        ensures
            hi <= s@.len(),
            trim_end(s@) == s@.take(hi as int),
        decreases hi,
    {
        if hi == 0 || !space_char(s[hi - 1]) {
            break;
        }
        assert(s@.take(hi as int).drop_last() =~= s@.take(hi - 1));
        hi = hi - 1;
    }
    let r = copy_range(&s, 0, hi);
    assert(r@ =~= s@.take(hi as int));
    r
}

/// The number of characters before the first white space in `v`.
fn word_len_of(v: &Vec<char>) -> (d: usize)
    ensures
        d == word_len(v@),
        d <= v@.len(),
{
    let n = v.len();
    let mut k: usize = 0;
    assert(v@.skip(0) =~= v@);
    loop
        invariant
            k <= n == v@.len(),
            word_len(v@) == k + word_len(v@.skip(k as int)),
        ensures
            k <= n,
            word_len(v@) == k,
        decreases n - k,
    {
        if k == n || space_char(v[k]) {
            break;
        }
        assert(v@.skip(k as int).drop_first() =~= v@.skip(k + 1));
        k = k + 1;
    }
    k
}

/// Whether the compiler panics on a block tag with text `inner`, as
/// `block_panics` says.
fn block_tag_panics(inner: &Vec<char>) -> (r: bool)
    ensures
        r == block_panics(inner@),
{
    let b = trim_vec(inner);
    let b = if b.len() > 0 && b[0] == '-' {
        let tail = copy_range(&b, 1, b.len());
        assert(tail@ =~= b@.drop_first());
        trim_vec(&tail)
    } else {
        b
    };
    let b = if b.len() > 0 && b[b.len() - 1] == '-' {
        let head = copy_range(&b, 0, b.len() - 1);
        assert(head@ =~= b@.drop_last());
        trim_vec(&head)
    } else {
        b
    };
    assert(b@ == block_text(inner@));
    let d = word_len_of(&b);
    let after = copy_range(&b, d, b.len());
    assert(after@ =~= b@.skip(d as int));
    let rest = trim_vec(&after);
    d == 2 && b[0] == 'i' && b[1] == 'f' && rest.len() >= 3 && rest[0] == 'n' && rest[1] == 'o' && rest[2] == 't'
        && (rest.len() == 3 || (rest[3] as u32) >= 128)
}

/// The first `a` directly followed by `b` in `t` from position `j` to the end
/// of the line, as `find_pair` says.
fn find_pair_in(t: &Vec<char>, j: usize, a: char, b: char) -> (r: Option<usize>)
    requires
        j <= t@.len(),
    ensures
        match r {
            Some(p) => find_pair(t@, j as int, a, b) == p && j <= p && p + 1 < t@.len(),
            None => find_pair(t@, j as int, a, b) == -1,
        },
{
    let n = t.len();
    let mut k: usize = j;
    while k < n
        invariant
            j <= k <= n == t@.len(),
            find_pair(t@, j as int, a, b) == find_pair(t@, k as int, a, b),
        decreases n - k,
    {
        if k + 1 < n && t[k] == a && t[k + 1] == b {
            return Some(k);
        }
        if t[k] == '\n' {
            return None;
        }
        k = k + 1;
    }
    None
}

/// The first `c` in `t` from position `j` to the end of the line, as
/// `find_in_line` says.
fn find_in_line_from(t: &Vec<char>, j: usize, c: char) -> (r: Option<usize>)
    requires
        j <= t@.len(),
    ensures
        match r {
            Some(p) => find_in_line(t@, j as int, c) == p && j <= p < t@.len(),
            None => find_in_line(t@, j as int, c) == -1,
        },
{
    let n = t.len();
    let mut k: usize = j;
    while k < n
        invariant
            j <= k <= n == t@.len(),
            find_in_line(t@, j as int, c) == find_in_line(t@, k as int, c),
        decreases n - k,
    {
        if t[k] == c {
            return Some(k);
        }
        if t[k] == '\n' {
            return None;
        }
        k = k + 1;
    }
    None
}

/// The first `{` in `t` from position `j`, or the length of `t`, as
/// `next_brace` says.
fn next_brace_from(t: &Vec<char>, j: usize) -> (q: usize)
    requires
        j <= t@.len(),
    ensures
        q == next_brace(t@, j as int),
        j <= q <= t@.len(),
{
    let n = t.len();
    let mut k: usize = j;
    while k < n && t[k] != '{'
        invariant
            j <= k <= n == t@.len(),
            next_brace(t@, j as int) == next_brace(t@, k as int),
        decreases n - k,
    {
        k = k + 1;
    }
    k
}

/// Whether `template` is one that `tinytemplate` compiles and renders without
/// panicking, as `template_safe` says.
pub fn template_is_safe(template: &str) -> (r: bool)
    ensures
        r == template_safe(template@),
{
    let t = chars_of(template);
    let n = t.len();
    let mut i: usize = 0;
    let mut lit = false;
    while i < n
        invariant
            n == t@.len(),
            t@ == template@,
            i <= n,
            template_safe(t@) == safe_from(t@, i as int, lit),
        decreases n - i,
    {
        if !lit && t[i] == '{' {
            if i + 1 < n && t[i + 1] == '#' {
                match find_pair_in(&t, i + 1, '#', '}') {
                    None => {
                        return true;
                    },
                    Some(p) => {
                        if p == i + 1 {
                            return false;
                        }
                        i = p + 2;
                        lit = false;
                    },
                }
            } else if i + 1 < n && t[i + 1] == '{' {
                match find_pair_in(&t, i + 2, '}', '}') {
                    None => {
                        return true;
                    },
                    Some(p) => {
                        let inner = copy_range(&t, i + 2, p);
                        if block_tag_panics(&inner) {
                            return false;
                        }
                        i = p + 2;
                        lit = false;
                    },
                }
            } else {
                match find_in_line_from(&t, i + 1, '}') {
                    None => {
                        return true;
                    },
                    Some(p) => {
                        i = p + 1;
                        lit = false;
                    },
                }
            }
        } else {
            let q = next_brace_from(&t, i + 1);
            if t[q - 1] == '\\' {
                if q >= n {
                    return false;
                }
                lit = true;
            } else {
                lit = false;
            }
            i = q;
        }
    }
    true
}

/// Compiles `template` with `TinyTemplate::add_template` and renders it with
/// `TinyTemplate::render` against an object whose fields are the pairs of
/// `context`. The result depends on the template text and the context alone.
/// The template must be one that the compiler does not panic on
/// (`template_safe`).
#[verifier::external_body]
fn tiny_render(template: &str, context: Vec<(String, String)>) -> (r: Result<String, tinytemplate::error::Error>)
    requires
        template_safe(template@),
    ensures
        r is Ok <==> rendered_template(template@, fields_view(context@)) is Some,
        r matches Ok(s) ==> rendered_template(template@, fields_view(context@)) == Some(s@),
{
    let mut tt = tinytemplate::TinyTemplate::new();
    tt.add_template("template", template)?;
    let fields: std::collections::BTreeMap<String, String> = context.into_iter().collect();
    tt.render("template", &fields)
}

/// Renders `template` with the named string values of `context` as
/// `tinytemplate` does; fails on a template that it does not compile or
/// render, and on one that it would panic on (which `template_safe` leaves
/// out).
pub fn render_template(template: &str, context: Vec<(String, String)>) -> (r: Result<String, PromptError>)
    ensures
        match r {
            Ok(s) => template_safe(template@) && rendered_template(template@, fields_view(context@)) == Some(s@),
            Err(_) => !template_safe(template@) || rendered_template(template@, fields_view(context@)) is None,
        },
{
    if !template_is_safe(template) {
        return Err(PromptError::Template);
    }
    match tiny_render(template, context) {
        Ok(s) => Ok(s),
        Err(_) => Err(PromptError::Template),
    }
}

} // verus!
