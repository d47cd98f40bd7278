//! Numeric interpretation of parameter values.
//!
//! Parameter values arrive as raw strings; flavors constrain them to
//! integers or decimal numbers within a range. Decimal values are modeled
//! as fixed-point numbers with nine fractional digits held in an `i128`:
//! `"10.5"` becomes `10_500_000_000` units. Fractional digits beyond the
//! ninth are truncated, and magnitudes beyond the representable range
//! saturate, so comparisons against range bounds stay exact for any value
//! a flavor file or G-code document will realistically hold.
//!
//! The accepted grammar is plain decimal notation: an optional sign,
//! digits, at most one dot. Exponent forms such as `1e5`, and the words
//! `inf` and `nan`, are not numbers here and are rejected.

use vstd::prelude::*;

use crate::text::is_ascii_digit;

verus! {

/// Fixed-point units per whole number.
pub open spec fn scale() -> int {
    1_000_000_000
}

/// Largest whole-number part a [`Decimal`] can carry.
pub open spec fn max_units_whole() -> int {
    i128::MAX as int / scale() - 1
}

/// Largest representable fixed-point value; magnitudes beyond it saturate.
pub open spec fn dec_max() -> int {
    max_units_whole() * scale() + (scale() - 1)
}

/// Numeric value of one ASCII digit.
pub open spec fn digit_val(c: char) -> int {
    c as u32 - '0' as u32
}

/// True when every character of `s` is an ASCII digit.
pub open spec fn all_digits(s: Seq<char>) -> bool {
    forall|i: int| 0 <= i < s.len() ==> is_ascii_digit(#[trigger] s[i])
}

/// The number denoted by a digit string, most significant digit first.
pub open spec fn digits_val(s: Seq<char>) -> int
    decreases s.len(),
{
    if s.len() == 0 {
        0
    } else {
        digits_val(s.drop_last()) * 10 + digit_val(s.last())
    }
}

pub proof fn lemma_digits_val_nonneg(s: Seq<char>)
    requires
        all_digits(s),
    ensures
        digits_val(s) >= 0,
    decreases s.len(),
{
    if s.len() > 0 {
        assert(all_digits(s.drop_last()));
        lemma_digits_val_nonneg(s.drop_last());
    }
}

/// A digit string denotes at least as much as any of its prefixes.
pub proof fn lemma_digits_val_prefix(s: Seq<char>, k: int)
    requires
        all_digits(s),
        0 <= k <= s.len(),
    ensures
        digits_val(s.take(k)) <= digits_val(s),
    decreases s.len() - k,
{
    if k < s.len() {
        lemma_digits_val_prefix(s, k + 1);
        assert(s.take(k + 1).drop_last() =~= s.take(k));
        assert(all_digits(s.take(k)));
        lemma_digits_val_nonneg(s.take(k));
        assert(digits_val(s.take(k + 1)) == digits_val(s.take(k)) * 10 + digit_val(
            s.take(k + 1).last(),
        ));
    } else {
        assert(s.take(k) =~= s);
    }
}

/// Powers of ten.
pub open spec fn pow10(n: nat) -> int
    decreases n,
{
    if n == 0 {
        1
    } else {
        10 * pow10((n - 1) as nat)
    }
}

pub proof fn lemma_pow10_pos(n: nat)
    ensures
        pow10(n) >= 1,
    decreases n,
{
    if n > 0 {
        lemma_pow10_pos((n - 1) as nat);
    }
}

/// A digit string of length `n` denotes less than `10^n`.
pub proof fn lemma_digits_val_upper(s: Seq<char>)
    requires
        all_digits(s),
    ensures
        digits_val(s) < pow10(s.len()),
    decreases s.len(),
{
    lemma_pow10_pos(s.len());
    if s.len() > 0 {
        assert(all_digits(s.drop_last()));
        lemma_digits_val_upper(s.drop_last());
        assert(digit_val(s.last()) <= 9);
    }
}

/// Fixed-point units contributed by a fraction-digit string: the first nine
/// digits, padded with zeros to nine places.
pub open spec fn frac_units(s: Seq<char>) -> int {
    if s.len() >= 9 {
        digits_val(s.take(9))
    } else {
        digits_val(s) * pow10((9 - s.len()) as nat)
    }
}

/// Saturation of a mathematical value into the representable range.
pub open spec fn clamp_units(v: int) -> int {
    if v > dec_max() {
        dec_max()
    } else if v < -dec_max() {
        -dec_max()
    } else {
        v
    }
}

/// Index of the first '.' in `s`, or the length if none occurs.
pub open spec fn find_dot(s: Seq<char>) -> int
    decreases s.len(),
{
    if s.len() == 0 {
        0
    } else if s[0] == '.' {
        0
    } else {
        1 + find_dot(s.drop_first())
    }
}

/// `find_dot` is determined by a dot-free prefix followed by a dot or the end.
pub proof fn lemma_find_dot_at(s: Seq<char>, d: int)
    requires
        0 <= d <= s.len(),
        forall|i: int| 0 <= i < d ==> s[i] != '.',
        d < s.len() ==> s[d] == '.',
    ensures
        find_dot(s) == d,
    decreases s.len(),
{
    if s.len() > 0 && s[0] != '.' {
        lemma_find_dot_at(s.drop_first(), d - 1);
    }
}

/// The digit string after an optional leading sign.
pub open spec fn sign_body(s: Seq<char>) -> Seq<char> {
    if s.len() > 0 && (s[0] == '+' || s[0] == '-') {
        s.drop_first()
    } else {
        s
    }
}

/// True when `s` starts with a minus sign.
pub open spec fn is_negative(s: Seq<char>) -> bool {
    s.len() > 0 && s[0] == '-'
}

/// The accepted decimal grammar: an optional sign, then digits with at most
/// one '.', with at least one digit overall.
pub open spec fn decimal_grammar_ok(s: Seq<char>) -> bool {
    let body = sign_body(s);
    let dot = find_dot(body);
    let ip = body.take(dot);
    let fp = body.skip(if dot < body.len() {
        dot + 1
    } else {
        dot
    });
    all_digits(ip) && all_digits(fp) && ip.len() + fp.len() > 0
}

/// The fixed-point units denoted by a decimal string, saturated into range.
pub open spec fn spec_decimal_units(s: Seq<char>) -> int {
    let body = sign_body(s);
    let dot = find_dot(body);
    let ip = body.take(dot);
    let fp = body.skip(if dot < body.len() {
        dot + 1
    } else {
        dot
    });
    let mag = digits_val(ip) * scale() + frac_units(fp);
    if is_negative(s) {
        clamp_units(-mag)
    } else {
        clamp_units(mag)
    }
}

/// The whole-number part of a decimal: its value, or a saturation mark
/// when it exceeds what a [`Decimal`] can carry.
struct WholePart {
    acc: i128,
    sat: bool,
}

/// Accumulate the whole-number digits in `cs[from..to)`. `None` when a
/// non-digit occurs.
fn accum_whole(cs: &Vec<char>, from: usize, to: usize) -> (r: Option<WholePart>)
    requires
        from <= to <= cs@.len(),
    ensures
        r is Some <==> all_digits(cs@.subrange(from as int, to as int)),
        r is Some ==> {
            let v = digits_val(cs@.subrange(from as int, to as int));
            &&& (!r->0.sat ==> 0 <= r->0.acc && r->0.acc as int == v && v <= max_units_whole())
            &&& (r->0.sat ==> v > max_units_whole())
        },
{
    let ghost ds = cs@.subrange(from as int, to as int);
    let mut k = from;
    let mut acc: i128 = 0;
    let mut sat = false;
    while k < to
        invariant
            from <= k <= to <= cs@.len(),
            ds == cs@.subrange(from as int, to as int),
            all_digits(ds.take(k - from)),
            !sat ==> 0 <= acc && acc as int == digits_val(ds.take(k - from)) && acc as int
                <= max_units_whole(),
            sat ==> digits_val(ds.take(k - from)) > max_units_whole(),
        decreases to - k,
    {
        let c = cs[k];
        if !crate::text::ascii_digit(c) {
            proof {
                assert(!is_ascii_digit(ds[k - from]));
            }
            return None;
        }
        let d = (c as u32 - 48) as i128;
        proof {
            assert(ds.take(k - from + 1).drop_last() =~= ds.take(k - from));
            assert(ds.take(k - from + 1).last() == c);
            assert(all_digits(ds.take(k - from + 1)));
            lemma_digits_val_nonneg(ds.take(k - from));
            assert(digits_val(ds.take(k - from + 1)) == digits_val(ds.take(k - from)) * 10
                + digit_val(c));
        }
        if sat {
            proof {
                assert(digits_val(ds.take(k - from)) * 10 >= digits_val(ds.take(k - from)))
                    by (nonlinear_arith)
                    requires
                        digits_val(ds.take(k - from)) >= 0,
                ;
            }
        } else {
            let next = acc * 10 + d;
            if next > i128::MAX / 1_000_000_000 - 1 {
                sat = true;
            } else {
                acc = next;
            }
        }
        proof {
            if sat && digits_val(ds.take(k - from)) >= 0 {
                lemma_digits_val_nonneg(ds.take(k - from));
            }
        }
        k = k + 1;
    }
    proof {
        assert(ds.take(to - from) =~= ds);
    }
    Some(WholePart { acc, sat })
}

/// Accumulate the fraction digits in `cs[from..to)` into fixed-point units:
/// the first nine digits, padded with zeros to nine places. `None` when a
/// non-digit occurs.
fn accum_frac(cs: &Vec<char>, from: usize, to: usize) -> (r: Option<i128>)
    requires
        from <= to <= cs@.len(),
    ensures
        r is Some <==> all_digits(cs@.subrange(from as int, to as int)),
        r is Some ==> r->0 as int == frac_units(cs@.subrange(from as int, to as int)) && 0 <= r->0
            < scale(),
{
    let ghost fp = cs@.subrange(from as int, to as int);
    let mut f = from;
    let mut frac: i128 = 0;
    let mut fcount: usize = 0;
    while f < to
        invariant
            from <= f <= to <= cs@.len(),
            fp == cs@.subrange(from as int, to as int),
            all_digits(fp.take(f - from)),
            fcount == if f - from > 9 {
                9int
            } else {
                f - from
            },
            0 <= frac,
            frac as int == digits_val(fp.take(fcount as int)),
            frac < pow10(fcount as nat),
        decreases to - f,
    {
        let c = cs[f];
        if !crate::text::ascii_digit(c) {
            proof {
                assert(!is_ascii_digit(fp[f - from]));
            }
            return None;
        }
        proof {
            assert(fp.take(f - from + 1).drop_last() =~= fp.take(f - from));
            assert(all_digits(fp.take(f - from + 1)));
        }
        if fcount < 9 {
            let d = (c as u32 - 48) as i128;
            proof {
                assert(fp.take(fcount + 1).drop_last() =~= fp.take(fcount as int));
                assert(fp.take(fcount + 1).last() == c);
                assert(all_digits(fp.take(fcount + 1)));
                lemma_pow10_le(fcount as nat, 8);
                lemma_pow10_9();
            }
            frac = frac * 10 + d;
            fcount = fcount + 1;
        }
        f = f + 1;
    }
    proof {
        assert(fp.take(to - from) =~= fp);
    }
    // pad the fraction to nine places
    if fcount >= 9 {
        proof {
            assert(fp.take(fcount as int) =~= fp.take(9));
            lemma_pow10_9();
        }
        Some(frac)
    } else {
        proof {
            assert(fp.take(fcount as int) =~= fp);
        }
        let p = pow10_exec(9 - fcount);
        proof {
            lemma_pow10_9();
            lemma_pow10_le((9 - fcount) as nat, 9);
            lemma_pow10_pos((9 - fcount) as nat);
            lemma_digits_val_upper(fp);
            lemma_digits_val_nonneg(fp);
            assert(fp.len() == fcount as int);
            lemma_pow10_mul(fp.len(), (9 - fcount) as nat);
            assert(pow10(fp.len()) * pow10((9 - fcount) as nat) == pow10(9));
            assert(0 <= frac as int * p as int && frac as int * p as int <= pow10(fp.len())
                * pow10((9 - fcount) as nat) - pow10((9 - fcount) as nat)) by (nonlinear_arith)
                requires
                    0 <= frac as int <= pow10(fp.len()) - 1,
                    p as int == pow10((9 - fcount) as nat),
                    p as int >= 1,
            ;
            assert((frac as int * p as int) < pow10(9));
        }
        Some(frac * p)
    }
}

/// `10^a * 10^b == 10^(a+b)`.
proof fn lemma_pow10_mul(a: nat, b: nat)
    ensures
        pow10(a) * pow10(b) == pow10(a + b),
    decreases a,
{
    if a == 0 {
        assert(pow10(0) == 1);
    } else {
        lemma_pow10_mul((a - 1) as nat, b);
        assert(pow10(a) * pow10(b) == 10 * (pow10((a - 1) as nat) * pow10(b))) by (nonlinear_arith)
            requires
                pow10(a) == 10 * pow10((a - 1) as nat),
        ;
    }
}

/// Powers of ten do not decrease.
proof fn lemma_pow10_le(a: nat, b: nat)
    requires
        a <= b,
    ensures
        pow10(a) <= pow10(b),
    decreases b,
{
    if a < b {
        lemma_pow10_le(a, (b - 1) as nat);
        lemma_pow10_pos((b - 1) as nat);
    }
}

/// `10^9` written out.
proof fn lemma_pow10_9()
    ensures
        pow10(9) == 1_000_000_000,
        pow10(8) == 100_000_000,
{
    reveal_with_fuel(pow10, 10);
}

/// Exec power of ten for small exponents.
fn pow10_exec(n: usize) -> (r: i128)
    requires
        n <= 9,
    ensures
        r as int == pow10(n as nat),
{
    let mut r: i128 = 1;
    let mut i: usize = 0;
    proof {
        lemma_pow10_9();
    }
    while i < n
        invariant
            i <= n <= 9,
            1 <= r,
            r as int == pow10(i as nat),
            r <= 1_000_000_000,
        decreases n - i,
    {
        proof {
            lemma_pow10_le((i + 1) as nat, 9);
            lemma_pow10_9();
        }
        r = r * 10;
        i = i + 1;
    }
    r
}

/// A parsed decimal number: `units` fixed-point units of one billionth.
#[derive(Debug, Clone, Copy, PartialEq, Eq, Structural)]
pub struct Decimal {
    pub units: i128,
}

impl Decimal {
    /// Parse a decimal string: optional sign, digits, at most one dot, at
    /// least one digit; exponent notation is not accepted. Returns `None`
    /// exactly when the grammar is not met.
    pub fn parse(s: &str) -> (r: Option<Decimal>)
        ensures
            r is Some <==> decimal_grammar_ok(s@),
            r is Some ==> r->0.units as int == spec_decimal_units(s@),
    {
        let cs = crate::text::chars_of(s);
        let n = cs.len();
        let neg = n > 0 && cs[0] == '-';
        let start: usize = if n > 0 && (cs[0] == '+' || cs[0] == '-') {
            1
        } else {
            0
        };
        let ghost body = sign_body(s@);
        proof {
            assert(body =~= s@.skip(start as int));
        }
        // locate the dot within the body
        let mut dot = start;
        while dot < n && cs[dot] != '.'
            invariant
                cs@ == s@,
                n == cs@.len(),
                start <= dot <= n,
                forall|i: int| start <= i < dot ==> cs@[i] != '.',
            decreases n - dot,
        {
            dot = dot + 1;
        }
        proof {
            lemma_find_dot_at(body, dot - start);
        }
        let fstart: usize = if dot < n {
            dot + 1
        } else {
            dot
        };
        let ghost ip = body.take(dot - start);
        let ghost fp = body.skip(
            if dot - start < body.len() {
                dot - start + 1
            } else {
                dot - start
            },
        );
        proof {
            assert(ip =~= s@.subrange(start as int, dot as int));
            assert(fp =~= s@.subrange(fstart as int, n as int));
        }
        let whole = match accum_whole(&cs, start, dot) {
            Some(w) => w,
            None => {
                return None;
            },
        };
        let frac = match accum_frac(&cs, fstart, n) {
            Some(x) => x,
            None => {
                return None;
            },
        };
        if dot == start && fstart == n {
            // no digits at all
            return None;
        }
        let acc = whole.acc;
        let sat = whole.sat;
        let mag: i128 = if sat {
            i128::MAX / 1_000_000_000 * 1_000_000_000 - 1
        } else {
            acc * 1_000_000_000 + frac
        };
        proof {
            lemma_digits_val_nonneg(ip);
            if sat {
                assert(mag as int == dec_max());
                assert(digits_val(ip) * scale() >= (max_units_whole() + 1) * scale())
                    by (nonlinear_arith)
                    requires
                        digits_val(ip) >= max_units_whole() + 1,
                        scale() > 0,
                ;
                assert(digits_val(ip) * scale() + frac_units(fp) > dec_max());
            } else {
                assert(acc as int * scale() <= max_units_whole() * scale()) by (nonlinear_arith)
                    requires
                        0 <= acc as int <= max_units_whole(),
                        scale() > 0,
                ;
                assert(mag as int == digits_val(ip) * scale() + frac_units(fp));
                assert(0 <= mag as int <= dec_max());
            }
            assert(clamp_units(digits_val(ip) * scale() + frac_units(fp)) == mag as int);
            assert(clamp_units(-(digits_val(ip) * scale() + frac_units(fp))) == -mag as int);
        }
        if neg {
            Some(Decimal { units: -mag })
        } else {
            Some(Decimal { units: mag })
        }
    }

    /// The decimal for a whole number, for range bounds written without
    /// a fraction.
    pub fn from_whole(w: i64) -> (r: Decimal)
        ensures
            r.units as int == w as int * scale(),
    {
        Decimal { units: (w as i128) * 1_000_000_000 }
    }

    /// True when `self` is strictly below `other`.
    pub fn lt(&self, other: &Decimal) -> (r: bool)
        ensures
            r == (self.units < other.units),
    {
        self.units < other.units
    }

    /// True when `self` is strictly above `other`.
    pub fn gt(&self, other: &Decimal) -> (r: bool)
        ensures
            r == (self.units > other.units),
    {
        self.units > other.units
    }
}

/// The accepted integer grammar: an optional sign, then one or more digits.
pub open spec fn int_grammar_ok(s: Seq<char>) -> bool {
    all_digits(sign_body(s)) && sign_body(s).len() > 0
}

/// The integer denoted by a signed digit string.
pub open spec fn spec_int_val(s: Seq<char>) -> int {
    if is_negative(s) {
        -digits_val(sign_body(s))
    } else {
        digits_val(sign_body(s))
    }
}

/// Parse a signed 64-bit integer. Returns `None` exactly when the grammar
/// is not met or the value does not fit.
pub fn parse_i64(s: &str) -> (r: Option<i64>)
    ensures
        r is Some <==> int_grammar_ok(s@) && i64::MIN <= spec_int_val(s@) <= i64::MAX,
        r is Some ==> r->0 as int == spec_int_val(s@),
{
    let cs = crate::text::chars_of(s);
    let n = cs.len();
    let neg = n > 0 && cs[0] == '-';
    let start: usize = if n > 0 && (cs[0] == '+' || cs[0] == '-') {
        1
    } else {
        0
    };
    let ghost body = sign_body(s@);
    proof {
        assert(body =~= s@.skip(start as int));
    }
    if start >= n {
        return None;
    }
    let mut k = start;
    let mut mag: i128 = 0;
    while k < n
        invariant
            cs@ == s@,
            n == cs@.len(),
            start <= k <= n,
            body == s@.skip(start as int),
            body == sign_body(s@),
            neg == is_negative(s@),
            all_digits(body.take(k - start)),
            0 <= mag,
            mag as int == digits_val(body.take(k - start)),
            mag as int <= i64::MAX as int + 1,
        decreases n - k,
    {
        let c = cs[k];
        if !crate::text::ascii_digit(c) {
            proof {
                assert(!is_ascii_digit(body[k - start]));
                assert(!all_digits(body));
            }
            return None;
        }
        proof {
            assert(body.take(k - start + 1).drop_last() =~= body.take(k - start));
            assert(body.take(k - start + 1).last() == c);
            assert(all_digits(body.take(k - start + 1)));
            assert(digits_val(body.take(k - start + 1)) == mag as int * 10 + digit_val(c));
        }
        let d = (c as u32 - 48) as i128;
        let next = mag * 10 + d;
        if next > i64::MAX as i128 + 1 {
            proof {
                if all_digits(body) {
                    lemma_digits_val_prefix(body, k - start + 1);
                    assert(digits_val(body) > i64::MAX as int + 1);
                    assert(spec_int_val(s@) > i64::MAX as int || spec_int_val(s@) < i64::MIN
                        as int);
                }
            }
            return None;
        }
        mag = next;
        k = k + 1;
    }
    proof {
        assert(body.take(n - start) =~= body);
    }
    if neg {
        if mag <= 9_223_372_036_854_775_808 {
            Some((-mag) as i64)
        } else {
            None
        }
    } else {
        if mag <= 9_223_372_036_854_775_807 {
            Some(mag as i64)
        } else {
            None
        }
    }
}

} // verus!
