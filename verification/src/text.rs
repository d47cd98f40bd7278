//! Character-level utilities shared by the tokenizers and the validator:
//! ASCII classification, case folding, and byte widths of UTF-8 characters.

use vstd::prelude::*;
use vstd::std_specs::iter::IteratorSpec;
use vstd::string::StringExecFns;

verus! {

/// True for the ASCII letters 'A'..'Z' and 'a'..'z'.
pub open spec fn is_ascii_letter(c: char) -> bool {
    ('A' <= c && c <= 'Z') || ('a' <= c && c <= 'z')
}

/// True for the ASCII digits '0'..'9'.
pub open spec fn is_ascii_digit(c: char) -> bool {
    '0' <= c && c <= '9'
}

/// ASCII upper-casing of a single character; any other character is kept.
pub open spec fn spec_upper_char(c: char) -> char {
    if 'a' <= c && c <= 'z' {
        (((c as u32) - 32) as char)
    } else {
        c
    }
}

/// ASCII upper-casing of a character sequence.
pub open spec fn spec_upper(s: Seq<char>) -> Seq<char> {
    s.map_values(|c: char| spec_upper_char(c))
}

/// Exec test for an ASCII letter.
pub fn ascii_letter(c: char) -> (r: bool)
    ensures
        r == is_ascii_letter(c),
{
    ('A' <= c && c <= 'Z') || ('a' <= c && c <= 'z')
}

/// Exec test for an ASCII digit.
pub fn ascii_digit(c: char) -> (r: bool)
    ensures
        r == is_ascii_digit(c),
{
    '0' <= c && c <= '9'
}

/// Exec ASCII upper-casing of one character.
pub fn upper_char(c: char) -> (r: char)
    ensures
        r == spec_upper_char(c),
{
    if 'a' <= c && c <= 'z' {
        let b: u8 = c as u8;
        (b - 32) as char
    } else {
        c
    }
}

/// Byte width of one character in UTF-8.
pub open spec fn char_width(c: char) -> int {
    vstd::utf8::encode_scalar(c as u32).len() as int
}

/// Byte length of a character sequence in UTF-8.
pub open spec fn width_sum(s: Seq<char>) -> int
    decreases s.len(),
{
    if s.len() == 0 {
        0
    } else {
        char_width(s[0]) + width_sum(s.drop_first())
    }
}

/// Every character takes between one and four bytes.
pub proof fn lemma_char_width_bounds(c: char)
    ensures
        1 <= char_width(c) <= 4,
{
}

/// A sequence's byte length is bounded below by its character count.
pub proof fn lemma_width_sum_bounds(s: Seq<char>)
    ensures
        s.len() <= width_sum(s) <= 4 * s.len(),
    decreases s.len(),
{
    if s.len() > 0 {
        lemma_width_sum_bounds(s.drop_first());
    }
}

/// Byte lengths add over concatenation.
pub proof fn lemma_width_sum_concat(a: Seq<char>, b: Seq<char>)
    ensures
        width_sum(a + b) == width_sum(a) + width_sum(b),
    decreases a.len(),
{
    if a.len() == 0 {
        assert(a + b =~= b);
    } else {
        assert((a + b).drop_first() =~= a.drop_first() + b);
        lemma_width_sum_concat(a.drop_first(), b);
    }
}

/// The byte length of a prefix, the middle and the rest add up.
pub proof fn lemma_width_sum_split(s: Seq<char>, i: int, j: int)
    requires
        0 <= i <= j <= s.len(),
    ensures
        width_sum(s) == width_sum(s.subrange(0, i)) + width_sum(s.subrange(i, j)) + width_sum(
            s.subrange(j, s.len() as int),
        ),
{
    assert(s =~= s.subrange(0, i) + s.subrange(i, j) + s.subrange(j, s.len() as int));
    lemma_width_sum_concat(s.subrange(0, i) + s.subrange(i, j), s.subrange(j, s.len() as int));
    lemma_width_sum_concat(s.subrange(0, i), s.subrange(i, j));
}

/// Byte length of a one-character sequence.
pub proof fn lemma_width_sum_singleton(c: char)
    ensures
        width_sum(seq![c]) == char_width(c),
{
    reveal_with_fuel(width_sum, 2);
    assert(seq![c].drop_first() =~= Seq::<char>::empty());
    assert(width_sum(seq![c].drop_first()) == 0);
}

/// `width_sum` agrees with the length of the UTF-8 encoding.
pub proof fn lemma_width_sum_is_byte_len(s: Seq<char>)
    ensures
        width_sum(s) == vstd::utf8::encode_utf8(s).len(),
    decreases s.len(),
{
    if s.len() > 0 {
        lemma_width_sum_is_byte_len(s.drop_first());
    }
}

/// Exec byte width of one character in UTF-8.
pub fn char_width_exec(c: char) -> (w: usize)
    ensures
        w == char_width(c),
{
    proof {
        vstd::utf8::char_is_scalar(c);
    }
    let u = c as u32;
    if u < 0x80 {
        1
    } else if u < 0x800 {
        2
    } else if u < 0x10000 {
        3
    } else {
        4
    }
}

/// Exact comparison of two string slices.
pub fn str_eq(a: &str, b: &str) -> (r: bool)
    ensures
        r == (a@ == b@),
{
    let ca = chars_of(a);
    let cb = chars_of(b);
    if ca.len() != cb.len() {
        return false;
    }
    let n = ca.len();
    let mut i: usize = 0;
    while i < n
        invariant
            ca@ == a@,
            cb@ == b@,
            n == ca@.len() == cb@.len(),
            i <= n,
            forall|j: int| 0 <= j < i ==> #[trigger] a@[j] == b@[j],
        decreases n - i,
    {
        if ca[i] != cb[i] {
            return false;
        }
        i = i + 1;
    }
    proof {
        assert(a@ =~= b@);
    }
    true
}

/// Case-insensitive comparison of two strings, folding ASCII letters only.
pub fn str_eq_ignore_case(a: &str, b: &str) -> (r: bool)
    ensures
        r == (spec_upper(a@) == spec_upper(b@)),
{
    let ca = chars_of(a);
    let cb = chars_of(b);
    if ca.len() != cb.len() {
        proof {
            assert(spec_upper(a@).len() == a@.len());
            assert(spec_upper(b@).len() == b@.len());
        }
        return false;
    }
    let n = ca.len();
    let mut i: usize = 0;
    while i < n
        invariant
            ca@ == a@,
            cb@ == b@,
            n == ca@.len() == cb@.len(),
            i <= n,
            forall|j: int|
                0 <= j < i ==> spec_upper_char(#[trigger] a@[j]) == spec_upper_char(b@[j]),
        decreases n - i,
    {
        if upper_char(ca[i]) != upper_char(cb[i]) {
            proof {
                assert(spec_upper(a@)[i as int] != spec_upper(b@)[i as int]);
            }
            return false;
        }
        i = i + 1;
    }
    proof {
        assert(spec_upper(a@) =~= spec_upper(b@));
    }
    true
}

/// Upper-case a string, folding ASCII letters only.
pub fn to_upper(s: &str) -> (r: String)
    ensures
        r@ == spec_upper(s@),
{
    let cs = chars_of(s);
    let n = cs.len();
    let mut out = String::new();
    let mut i: usize = 0;
    while i < n
        invariant
            cs@ == s@,
            n == cs@.len(),
            i <= n,
            out@ == spec_upper(s@).take(i as int),
        decreases n - i,
    {
        let u = upper_char(cs[i]);
        push_char(&mut out, u);
        i = i + 1;
        proof {
            assert(spec_upper(s@).take(i as int) =~= spec_upper(s@).take(i - 1).push(
                spec_upper_char(s@[i - 1]),
            ));
        }
    }
    proof {
        assert(spec_upper(s@).take(n as int) =~= spec_upper(s@));
    }
    out
}

/// Relies on `String::push`: appends one character at the end.
#[verifier::external_body]
pub(crate) fn push_char(s: &mut String, c: char)
    ensures
        final(s)@ == old(s)@.push(c),
{
    s.push(c)
}

/// Concatenate three string pieces.
pub(crate) fn concat3(a: &str, b: &str, c: &str) -> (r: String)
    ensures
        r@ == a@ + b@ + c@,
{
    let mut m = String::new();
    m.append(a);
    m.append(b);
    m.append(c);
    proof {
        assert(m@ =~= a@ + b@ + c@);
    }
    m
}

/// Concatenate five string pieces.
pub(crate) fn concat5(a: &str, b: &str, c: &str, d: &str, e: &str) -> (r: String)
    ensures
        r@ == a@ + b@ + c@ + d@ + e@,
{
    let mut m = String::new();
    m.append(a);
    m.append(b);
    m.append(c);
    m.append(d);
    m.append(e);
    proof {
        assert(m@ =~= a@ + b@ + c@ + d@ + e@);
    }
    m
}

/// A one-character string.
pub fn char_string(c: char) -> (r: String)
    ensures
        r@ == seq![c],
{
    let mut s = String::new();
    push_char(&mut s, c);
    proof {
        assert(s@ =~= seq![c]);
    }
    s
}

/// Index of the first '\n' at or after `j`, or the length if none follows.
pub open spec fn find_nl(s: Seq<char>, j: int) -> int
    decreases s.len() - j,
    when 0 <= j <= s.len()
{
    if j >= s.len() {
        s.len() as int
    } else if s[j] == '\n' {
        j
    } else {
        find_nl(s, j + 1)
    }
}

pub proof fn lemma_find_nl_bounds(s: Seq<char>, j: int)
    requires
        0 <= j <= s.len(),
    ensures
        j <= find_nl(s, j) <= s.len(),
        find_nl(s, j) < s.len() ==> s[find_nl(s, j)] == '\n',
    decreases s.len() - j,
{
    if j < s.len() && s[j] != '\n' {
        lemma_find_nl_bounds(s, j + 1);
    }
}

/// One trailing carriage return is not part of the line's content.
pub open spec fn strip_cr(raw: Seq<char>) -> Seq<char> {
    if raw.len() > 0 && raw.last() == '\r' {
        raw.drop_last()
    } else {
        raw
    }
}

/// The lines of `s` from character index `i` onward: split at '\n', one
/// trailing '\r' per line stripped, no empty line after a final '\n'.
pub open spec fn spec_lines_from(s: Seq<char>, i: int) -> Seq<Seq<char>>
    decreases s.len() - i,
    when 0 <= i <= s.len()
    via spec_lines_from_decreases
{
    if i >= s.len() {
        Seq::empty()
    } else {
        let e = find_nl(s, i);
        let ln = strip_cr(s.subrange(i, e));
        if e >= s.len() {
            seq![ln]
        } else {
            seq![ln] + spec_lines_from(s, e + 1)
        }
    }
}

#[via_fn]
proof fn spec_lines_from_decreases(s: Seq<char>, i: int) {
    if 0 <= i < s.len() {
        lemma_find_nl_bounds(s, i);
    }
}

/// The lines of a document, as `str::lines` yields them.
pub open spec fn spec_lines(s: Seq<char>) -> Seq<Seq<char>> {
    spec_lines_from(s, 0)
}

/// The views of a sequence of owned strings.
pub open spec fn lines_views(v: Seq<String>) -> Seq<Seq<char>> {
    v.map_values(|x: String| x@)
}

/// Split a document into its lines.
pub fn split_lines(text: &str) -> (lines: Vec<String>)
    ensures
        lines_views(lines@) == spec_lines(text@),
{
    let cs = chars_of(text);
    let n = cs.len();
    let mut lines: Vec<String> = Vec::new();
    let mut i: usize = 0;
    while i < n
        invariant
            cs@ == text@,
            n == cs@.len(),
            i <= n,
            spec_lines(text@) == lines_views(lines@) + spec_lines_from(text@, i as int),
        decreases n - i,
    {
        let ghost prev = lines@;
        let ghost gi = i as int;
        let mut j = i;
        while j < n && cs[j] != '\n'
            invariant
                cs@ == text@,
                n == cs@.len(),
                i <= j <= n,
                find_nl(text@, i as int) == find_nl(text@, j as int),
            decreases n - j,
        {
            j = j + 1;
        }
        let e = j;
        proof {
            assert(e == find_nl(text@, gi));
        }
        let cut = if e > i && cs[e - 1] == '\r' {
            e - 1
        } else {
            e
        };
        let ln = line_part(text, i, cut);
        proof {
            if cut < e {
                assert(text@.subrange(gi, e as int).drop_last() =~= text@.subrange(
                    gi,
                    cut as int,
                ));
            }
            assert(ln@ == strip_cr(text@.subrange(gi, e as int)));
        }
        lines.push(ln);
        proof {
            assert(lines_views(lines@) =~= lines_views(prev) + seq![lines@.last()@]);
        }
        if e >= n {
            proof {
                assert(lines_views(lines@) + spec_lines_from(text@, n as int) =~= lines_views(
                    prev,
                ) + spec_lines_from(text@, gi));
            }
            i = n;
        } else {
            proof {
                assert(lines_views(lines@) + spec_lines_from(text@, e + 1) =~= lines_views(prev)
                    + spec_lines_from(text@, gi));
            }
            i = e + 1;
        }
    }
    proof {
        assert(lines_views(lines@) + Seq::<Seq<char>>::empty() =~= lines_views(lines@));
    }
    lines
}

/// Copy the character range `[from, to)` of `s` into an owned string.
pub fn line_part(s: &str, from: usize, to: usize) -> (r: String)
    requires
        from <= to <= s@.len(),
    ensures
        r@ == s@.subrange(from as int, to as int),
{
    let t = s.substring_char(from, to);
    t.to_owned()
}

/// Collect the characters of a string slice into a vector.
pub fn chars_of(s: &str) -> (v: Vec<char>)
    ensures
        v@ == s@,
{
    broadcast use vstd::string::axiom_spec_iter, vstd::string::next_postcondition;

    let mut it = s.chars();
    let mut v: Vec<char> = Vec::new();
    loop
        invariant
            it.obeys_prophetic_iter_laws(),
            it.decrease() is Some,
            v@ + it.remaining() == s@,
        ensures
            v@ == s@,
        decreases it.decrease()->0,
    {
        match it.next() {
            Some(c) => {
                v.push(c);
            },
            None => {
                proof {
                    assert(v@ =~= s@);
                }
                break ;
            },
        }
    }
    v
}

} // verus!
