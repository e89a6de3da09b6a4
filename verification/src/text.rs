//! Text helpers shared by the prompt modules: decimal numbers, first lines,
//! truncation by characters and by UTF-8 bytes, and the order of names.
use vstd::prelude::*;
use vstd::string::*;
use vstd::utf8::*;

verus! {

/// The decimal digit character for `d` (which is below ten).
pub open spec fn digit_char(d: nat) -> char {
    ((48 + d) as u32) as char
}

/// The decimal representation of `n`, as `usize`'s `Display` writes it.
pub open spec fn decimal(n: nat) -> Seq<char>
    decreases n,
{
    if n < 10 {
        seq![digit_char(n)]
    } else {
        decimal(n / 10) + seq![digit_char(n % 10)]
    }
}

/// The decimal digits of `n`, most significant first, without sign or
/// padding (what `usize`'s `Display` writes).
pub fn usize_to_string(n: usize) -> (r: String)
    ensures
        r@ == decimal(n as nat),
    decreases n,
{
    let d: u8 = (n % 10) as u8;
    let c: char = (48u8 + d) as char;
    assert(c == digit_char((n % 10) as nat));
    let last = char_to_string(c);
    if n < 10 {
        last
    } else {
        let mut r = usize_to_string(n / 10);
        r.append(last.as_str());
        r
    }
}

/// Formats `c` through `ToString` for `char`: the string holding that one character.
#[verifier::external_body]
pub(crate) fn char_to_string(c: char) -> (r: String)
    ensures
        r@ == seq![c],
{
    c.to_string()
}

/// The ellipsis that marks a shortened text.
pub open spec fn ellipsis() -> Seq<char> {
    seq!['\u{2026}']
}

/// A double quote.
pub open spec fn quote() -> Seq<char> {
    seq!['"']
}

/// A single space.
pub open spec fn space() -> Seq<char> {
    seq![' ']
}

/// The text of an optional string.
pub open spec fn opt_view(o: Option<String>) -> Option<Seq<char>> {
    match o {
        Some(s) => Some(s@),
        None => None,
    }
}

/// `parts` with `sep` between each two of them.
pub open spec fn join(parts: Seq<Seq<char>>, sep: Seq<char>) -> Seq<char>
    decreases parts.len(),
{
    if parts.len() == 0 {
        Seq::empty()
    } else if parts.len() == 1 {
        parts[0]
    } else {
        join(parts.drop_last(), sep) + sep + parts.last()
    }
}

/// Joining one more part adds the separator and that part.
pub proof fn lemma_join_push(parts: Seq<Seq<char>>, x: Seq<char>, sep: Seq<char>)
    ensures
        join(parts.push(x), sep) == (if parts.len() == 0 { x } else { join(parts, sep) + sep + x }),
{
    assert(parts.push(x).drop_last() =~= parts);
}

/// A carriage return or a line feed.
pub open spec fn is_line_break(c: char) -> bool {
    c == '\r' || c == '\n'
}

/// The number of characters before the first line break of `s`
/// (all of `s` when it holds none).
pub open spec fn line_end(s: Seq<char>) -> nat
    decreases s.len(),
{
    if s.len() == 0 || is_line_break(s[0]) {
        0
    } else {
        1 + line_end(s.drop_first())
    }
}

/// The first line of `s`: everything before its first `\r` or `\n`.
pub open spec fn first_line_of(s: Seq<char>) -> Seq<char> {
    s.take(line_end(s) as int)
}

/// `line_end` is the position of the first line break, or the length.
pub proof fn lemma_line_end(s: Seq<char>, i: int)
    requires
        0 <= i <= s.len(),
        forall|j: int| 0 <= j < i ==> !is_line_break(#[trigger] s[j]),
        i == s.len() || is_line_break(s[i]),
    ensures
        line_end(s) == i,
    decreases i,
{
    if i > 0 {
        assert(!is_line_break(s[0]));
        let t = s.drop_first();
        assert forall|j: int| 0 <= j < i - 1 implies !is_line_break(#[trigger] t[j]) by {
            assert(t[j] == s[j + 1]);
        }
        lemma_line_end(t, i - 1);
    }
}

/// The first line of a text holds no line break, and the text starts with it.
pub proof fn lemma_first_line_has_no_break(s: Seq<char>)
    ensures
        line_end(s) <= s.len(),
        forall|j: int| 0 <= j < line_end(s) ==> !is_line_break(#[trigger] s[j]),
        line_end(s) == s.len() || is_line_break(s[line_end(s) as int]),
    decreases s.len(),
{
    if s.len() > 0 && !is_line_break(s[0]) {
        let t = s.drop_first();
        lemma_first_line_has_no_break(t);
        assert forall|j: int| 0 <= j < line_end(s) implies !is_line_break(#[trigger] s[j]) by {
            if j > 0 {
                assert(s[j] == t[j - 1]);
            }
        }
    }
}

/// The text before the first `\r` or `\n` of `s`.
pub fn first_line(s: &str) -> (r: &str)
    ensures
        r@ == first_line_of(s@),
{
    let n = s.unicode_len();
    let mut i: usize = 0;
    while i < n && !(s.get_char(i) == '\r' || s.get_char(i) == '\n')
        invariant
            n == s@.len(),
            i <= n,
            forall|j: int| 0 <= j < i ==> !is_line_break(#[trigger] s@[j]),
        decreases n - i,
    {
        i = i + 1;
    }
    proof {
        lemma_line_end(s@, i as int);
    }
    s.substring_char(0, i)
}

/// `t` shortened to at most `max` characters: when it is longer, its first
/// `max - 1` characters followed by an ellipsis, and nothing at all when
/// `max` is zero.
pub open spec fn truncated_text(max: Option<usize>, t: Seq<char>) -> Seq<char> {
    match max {
        Some(m) => if t.len() > m {
            if m == 0 {
                Seq::empty()
            } else {
                t.take(m - 1) + ellipsis()
            }
        } else {
            t
        },
        None => t,
    }
}

/// A shortened text is at most `max` characters long, and it is the text
/// itself when that fits.
pub proof fn lemma_truncated_text_len(max: usize, t: Seq<char>)
    ensures
        truncated_text(Some(max), t).len() <= max,
        t.len() <= max ==> truncated_text(Some(max), t) == t,
        t.len() > max && max > 0 ==> truncated_text(Some(max), t) == t.take(max - 1) + ellipsis(),
{
}

/// Appends `text` to `out`, shortened by characters to `max_length` as
/// `truncated_text` says.
pub fn print_ansi_truncated(max_length: Option<usize>, out: &mut String, text: &str)
    ensures
        final(out)@ == old(out)@ + truncated_text(max_length, text@),
{
    let n = text.unicode_len();
    match max_length {
        Some(m) => {
            if n > m {
                if m > 0 {
                    out.append(text.substring_char(0, m - 1));
                    out.append("\u{2026}");
                    proof {
                        reveal_strlit("\u{2026}");
                    }
                } else {
                    assert(old(out)@ + truncated_text(max_length, text@) =~= old(out)@);
                }
            } else {
                out.append(text);
            }
        },
        None => {
            out.append(text);
        },
    }
}

/// The characters of `s`, one per element.
pub fn chars_of(s: &str) -> (r: Vec<char>)
    ensures
        r@ == s@,
{
    let n = s.unicode_len();
    let mut r: Vec<char> = Vec::new();
    let mut i: usize = 0;
    while i < n
        invariant
            n == s@.len(),
            i <= n,
            r@ == s@.take(i as int),
        decreases n - i,
    {
        r.push(s.get_char(i));
        i = i + 1;
        assert(r@ =~= s@.take(i as int));
    }
    assert(s@.take(n as int) =~= s@);
    r
}

/// The number of bytes of the UTF-8 encoding of `s` (what `str::len` gives).
pub open spec fn utf8_len(s: Seq<char>) -> nat {
    encode_utf8(s).len()
}

/// The characters whose encoding is the first `k` bytes of the encoding of `s`
/// (what `&s[..k]` holds).
pub open spec fn byte_prefix(s: Seq<char>, k: int) -> Seq<char> {
    decode_utf8(encode_utf8(s).subrange(0, k))
}

/// Whether `&s[..k]` is a valid slice of `s`: `k` is at most the byte length
/// and falls on a character boundary.
pub open spec fn is_byte_boundary(s: Seq<char>, k: int) -> bool {
    0 <= k <= utf8_len(s) && is_char_boundary(encode_utf8(s), k)
}

/// A name cut at byte `k` is `k` bytes long and is the start of the name.
pub proof fn lemma_byte_prefix(s: Seq<char>, k: int)
    requires
        is_byte_boundary(s, k),
    ensures
        utf8_len(byte_prefix(s, k)) == k,
        byte_prefix(s, k).len() <= s.len(),
        s.take(byte_prefix(s, k).len() as int) == byte_prefix(s, k),
{
    let bytes = encode_utf8(s);
    encode_utf8_valid_utf8(s);
    valid_utf8_split(bytes, k);
    decode_utf8_split(bytes, k);
    decode_utf8_encode_utf8(bytes.subrange(0, k));
    encode_utf8_decode_utf8(s);
    assert(bytes.subrange(0, k).len() == k);
    let head = byte_prefix(s, k);
    let tail = decode_utf8(bytes.subrange(k, bytes.len() as int));
    assert(s == head + tail);
    assert(s.take(head.len() as int) =~= head);
}

/// `id` cut to its first `len` bytes, as `String::truncate` cuts it:
/// unchanged when it is no longer than that.
pub fn truncate_bytes(id: &str, len: usize) -> (r: String)
    requires
        len >= utf8_len(id@) || is_byte_boundary(id@, len as int),
    ensures
        r@ == (if len >= utf8_len(id@) { id@ } else { byte_prefix(id@, len as int) }),
{
    if len >= id.as_bytes().len() {
        String::from_str(id)
    } else {
        String::from_str(byte_slice_prefix(id, len))
    }
}

/// The first `k` bytes of `s` (`&s[..k]`).
pub fn byte_slice_prefix(s: &str, k: usize) -> (r: &str)
    requires
        is_byte_boundary(s@, k as int),
    ensures
        r@ == byte_prefix(s@, k as int),
        utf8_len(r@) == k,
{
    let pair = s.split_at(k);
    let head = pair.0;
    proof {
        encode_utf8_decode_utf8(head@);
    }
    head
}

/// The position of the first difference between `a` and `b`, or the length of
/// the shorter one when one is a prefix of the other.
pub open spec fn first_difference(a: Seq<char>, b: Seq<char>) -> nat
    decreases a.len(),
{
    if a.len() == 0 || b.len() == 0 || a[0] != b[0] {
        0
    } else {
        1 + first_difference(a.drop_first(), b.drop_first())
    }
}

/// Lexicographic order of texts by code point, the order of `String`'s `Ord`
/// (UTF-8 keeps code point order byte for byte).
pub open spec fn text_lt(a: Seq<char>, b: Seq<char>) -> bool {
    let k = first_difference(a, b) as int;
    if k == a.len() {
        k < b.len()
    } else if k == b.len() {
        false
    } else {
        (a[k] as u32) < (b[k] as u32)
    }
}

/// What `first_difference` is: the common prefix ends there.
pub proof fn lemma_first_difference(a: Seq<char>, b: Seq<char>)
    ensures
        first_difference(a, b) <= a.len(),
        first_difference(a, b) <= b.len(),
        forall|j: int| 0 <= j < first_difference(a, b) ==> a[j] == b[j],
        first_difference(a, b) == a.len() || first_difference(a, b) == b.len()
            || a[first_difference(a, b) as int] != b[first_difference(a, b) as int],
    decreases a.len(),
{
    if !(a.len() == 0 || b.len() == 0 || a[0] != b[0]) {
        let (ta, tb) = (a.drop_first(), b.drop_first());
        lemma_first_difference(ta, tb);
        assert forall|j: int| 0 <= j < first_difference(a, b) implies a[j] == b[j] by {
            if j > 0 {
                assert(a[j] == ta[j - 1] && b[j] == tb[j - 1]);
            }
        }
    }
}

/// Any position that ends the common prefix is `first_difference`.
pub proof fn lemma_first_difference_at(a: Seq<char>, b: Seq<char>, i: int)
    requires
        0 <= i <= a.len(),
        i <= b.len(),
        forall|j: int| 0 <= j < i ==> a[j] == b[j],
        i == a.len() || i == b.len() || a[i] != b[i],
    ensures
        first_difference(a, b) == i,
    decreases i,
{
    if i > 0 {
        assert(a[0] == b[0]);
        let (ta, tb) = (a.drop_first(), b.drop_first());
        assert forall|j: int| 0 <= j < i - 1 implies ta[j] == tb[j] by {
            assert(a[j + 1] == b[j + 1]);
        }
        lemma_first_difference_at(ta, tb, i - 1);
    }
}

/// `first_difference` does not depend on the order of its arguments.
pub proof fn lemma_first_difference_symmetric(a: Seq<char>, b: Seq<char>)
    ensures
        first_difference(a, b) == first_difference(b, a),
{
    lemma_first_difference(a, b);
    lemma_first_difference_at(b, a, first_difference(a, b) as int);
}

/// Whether `a` comes before `b` in the order of code points, read from the
/// first character: after a common prefix, either `a` ends where `b` goes on,
/// or `a`'s next character has the smaller code point.
pub open spec fn code_point_lt(a: Seq<char>, b: Seq<char>) -> bool {
    exists|k: int|
        0 <= k <= a.len() && k <= b.len() && #[trigger] a.take(k) == b.take(k) && ((k == a.len() && k < b.len())
            || (k < a.len() && k < b.len() && (a[k] as u32) < (b[k] as u32)))
}

/// `text_lt` is the order of code points.
pub proof fn lemma_text_lt_code_points(a: Seq<char>, b: Seq<char>)
    ensures
        text_lt(a, b) <==> code_point_lt(a, b),
{
    lemma_first_difference(a, b);
    let f = first_difference(a, b) as int;
    assert(a.take(f) =~= b.take(f));
    if code_point_lt(a, b) {
        let k = choose|k: int|
            0 <= k <= a.len() && k <= b.len() && #[trigger] a.take(k) == b.take(k) && ((k == a.len() && k < b.len())
                || (k < a.len() && k < b.len() && (a[k] as u32) < (b[k] as u32)));
        assert forall|j: int| 0 <= j < k implies a[j] == b[j] by {
            assert(a.take(k)[j] == b.take(k)[j]);
        }
        if k < a.len() && k < b.len() {
            char_u32_cast(a[k], a[k] as u32);
            char_u32_cast(b[k], b[k] as u32);
        }
        lemma_first_difference_at(a, b, k);
    }
}

/// No text comes before itself.
pub proof fn lemma_text_lt_irreflexive(a: Seq<char>)
    ensures
        !text_lt(a, a),
{
    lemma_first_difference_at(a, a, a.len() as int);
}

/// Of two different texts, one comes before the other, and never both.
pub proof fn lemma_text_lt_total(a: Seq<char>, b: Seq<char>)
    ensures
        a != b ==> text_lt(a, b) || text_lt(b, a),
        !(text_lt(a, b) && text_lt(b, a)),
{
    lemma_first_difference(a, b);
    lemma_first_difference_symmetric(a, b);
    let k = first_difference(a, b) as int;
    if k == a.len() && k == b.len() {
        assert(a =~= b);
    } else if k < a.len() && k < b.len() {
        char_u32_cast(a[k], a[k] as u32);
        char_u32_cast(b[k], b[k] as u32);
    }
}

/// The order of texts is transitive.
pub proof fn lemma_text_lt_transitive(a: Seq<char>, b: Seq<char>, c: Seq<char>)
    requires
        text_lt(a, b),
        text_lt(b, c),
    ensures
        text_lt(a, c),
{
    lemma_first_difference(a, b);
    lemma_first_difference(b, c);
    let i = first_difference(a, b) as int;
    let j = first_difference(b, c) as int;
    let m = if i < j { i } else { j };
    assert forall|t: int| 0 <= t < m implies a[t] == c[t] by {
        assert(a[t] == b[t]);
        assert(b[t] == c[t]);
    }
    if m == a.len() || m == c.len() || a[m] != c[m] {
        lemma_first_difference_at(a, c, m);
    } else {
        if i < j {
            assert(b[i] == c[i]);
        } else {
            assert(a[j] == b[j]);
        }
        assert(false);
    }
}

/// Whether `a` comes before `b` in `String`'s order.
pub fn str_lt(a: &str, b: &str) -> (r: bool)
    ensures
        r == text_lt(a@, b@),
{
    let la = a.unicode_len();
    let lb = b.unicode_len();
    let mut i: usize = 0;
    while i < la && i < lb && a.get_char(i) == b.get_char(i)
        invariant
            la == a@.len(),
            lb == b@.len(),
            i <= la,
            i <= lb,
            forall|j: int| 0 <= j < i ==> a@[j] == b@[j],
        decreases la - i,
    {
        i = i + 1;
    }
    proof {
        lemma_first_difference_at(a@, b@, i as int);
    }
    if i == la {
        i < lb
    } else if i == lb {
        false
    } else {
        (a.get_char(i) as u32) < (b.get_char(i) as u32)
    }
}

} // verus!
