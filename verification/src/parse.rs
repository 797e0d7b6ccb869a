//! Loading a draft from its document bytes: an XML-shaped file whose only
//! interpreted elements are `<line>` elements bearing `x1, y1, x2, y2`
//! real-valued attributes. Every other element is walked over and ignored.
//! Numeric parsing is strict decimal; a malformed or out-of-range value is
//! a fatal load error.

use vstd::prelude::*;

use crate::drafting::Draft;
use crate::drafting::LINE_MAX;
use crate::drafting::Line;
use crate::fixed::Fx;
use crate::fixed::SCALE;
use crate::geom::Point2;

verus! {

/// Why a draft document was rejected.
#[derive(Clone, Copy, Debug, PartialEq, Eq, Structural)]
pub enum DraftError {
    /// The document structure broke off inside a tag, attribute or quote.
    Syntax,
    /// A coordinate attribute is not a strict decimal number.
    BadNumber,
    /// A coordinate lies outside the drafting range.
    Range,
}

/// An ASCII decimal digit.
pub open spec fn is_digit(b: u8) -> bool {
    48 <= b <= 57
}

/// All bytes are decimal digits.
pub open spec fn digits_ok(s: Seq<u8>) -> bool {
    forall|i: int| 0 <= i < s.len() ==> is_digit(#[trigger] s[i])
}

/// The base-ten value of a digit string.
pub open spec fn int_val(s: Seq<u8>) -> int
    decreases s.len(),
{
    if s.len() == 0 {
        0
    } else {
        int_val(s.drop_last()) * 10 + (s[s.len() - 1] - 48)
    }
}

/// Ten to the `k`.
pub open spec fn pow10(k: int) -> int
    decreases k,
{
    if k <= 0 {
        1
    } else {
        10 * pow10(k - 1)
    }
}

/// Raw units contributed by a fraction digit string: the first five digits
/// scaled to hundred-thousandths, deeper digits truncated away.
pub open spec fn frac_raw(s: Seq<u8>) -> int {
    if s.len() >= 5 {
        int_val(s.take(5))
    } else {
        int_val(s) * pow10(5 - s.len())
    }
}

/// The bytes after an optional sign.
pub open spec fn number_body(s: Seq<u8>) -> Seq<u8> {
    if s.len() > 0 && (s[0] == 45 || s[0] == 43) {
        s.skip(1)
    } else {
        s
    }
}

/// The number is negated.
pub open spec fn number_neg(s: Seq<u8>) -> bool {
    s.len() > 0 && s[0] == 45
}

/// A strict decimal number body: digits with at most one point, and at
/// least one digit.
pub open spec fn body_shape(b: Seq<u8>) -> bool {
    ||| (b.len() > 0 && digits_ok(b))
    ||| (exists|d: int|
        0 <= d < b.len() && b[d] == 46 && b.len() > 1 && digits_ok(#[trigger] b.take(d))
            && digits_ok(b.skip(d + 1)))
}

/// The raw magnitude of a number body with the point at `d` (or none).
pub open spec fn body_raw(b: Seq<u8>) -> int {
    if exists|d: int| 0 <= d < b.len() && #[trigger] b[d] == 46 {
        let d = choose|d: int| 0 <= d < b.len() && #[trigger] b[d] == 46;
        int_val(b.take(d)) * (SCALE as int) + frac_raw(b.skip(d + 1))
    } else {
        int_val(b) * (SCALE as int)
    }
}

/// The fixed-point value of a strict decimal literal.
pub open spec fn number_val(s: Seq<u8>) -> int {
    if number_neg(s) {
        -body_raw(number_body(s))
    } else {
        body_raw(number_body(s))
    }
}

/// A well-shaped, in-range decimal literal.
pub open spec fn number_ok(s: Seq<u8>) -> bool {
    body_shape(number_body(s)) && body_raw(number_body(s)) <= LINE_MAX as int
}

} // verus!
// The strict decimal parser.

verus! {

/// A digit string's value is never negative.
pub proof fn lemma_int_val_nonneg(s: Seq<u8>)
    requires
        digits_ok(s),
    ensures
        int_val(s) >= 0,
    decreases s.len(),
{
    if s.len() > 0 {
        assert(digits_ok(s.drop_last())) by {
            assert(forall|i: int| 0 <= i < s.len() - 1 ==> s.drop_last()[i] == s[i]);
        }
        lemma_int_val_nonneg(s.drop_last());
    }
}

/// A digit string is worth at least any of its prefixes.
pub proof fn lemma_int_val_prefix(s: Seq<u8>, m: int)
    requires
        digits_ok(s),
        0 <= m <= s.len(),
    ensures
        int_val(s) >= int_val(s.take(m)),
    decreases s.len() - m,
{
    if m < s.len() {
        lemma_int_val_prefix(s, m + 1);
        assert(s.take(m + 1).drop_last() =~= s.take(m));
        assert(s.take(m + 1)[m] == s[m]);
        assert(digits_ok(s.take(m))) by {
            assert(forall|i: int| 0 <= i < m ==> s.take(m)[i] == s[i]);
        }
        lemma_int_val_nonneg(s.take(m));
        assert(int_val(s.take(m + 1)) == int_val(s.take(m)) * 10 + (s[m] - 48));
        assert(int_val(s.take(m)) * 10 >= int_val(s.take(m))) by (nonlinear_arith)
            requires
                int_val(s.take(m)) >= 0,
        ;
    } else {
        assert(s.take(m) =~= s);
    }
}

/// A fraction contributes a non-negative raw amount.
pub proof fn lemma_frac_raw_nonneg(s: Seq<u8>)
    requires
        digits_ok(s),
    ensures
        frac_raw(s) >= 0,
{
    if s.len() >= 5 {
        assert(digits_ok(s.take(5))) by {
            assert(forall|i: int| 0 <= i < 5 ==> s.take(5)[i] == s[i]);
        }
        lemma_int_val_nonneg(s.take(5));
    } else {
        lemma_int_val_nonneg(s);
        assert(pow10(5 - s.len()) >= 0) by {
            lemma_pow10_small();
        }
        assert(int_val(s) * pow10(5 - s.len()) >= 0) by (nonlinear_arith)
            requires
                int_val(s) >= 0,
                pow10(5 - s.len()) >= 0,
        ;
    }
}

/// The small powers of ten the parser scales with.
pub proof fn lemma_pow10_small()
    ensures
        pow10(0) == 1,
        pow10(1) == 10,
        pow10(2) == 100,
        pow10(3) == 1000,
        pow10(4) == 10000,
        pow10(5) == 100000,
{
    assert(pow10(0) == 1);
    assert(pow10(1) == 10);
    assert(pow10(2) == 100);
    assert(pow10(3) == 1000);
    assert(pow10(4) == 10000);
    assert(pow10(5) == 100000);
}

/// A digit string's value stays under ten to its length.
pub proof fn lemma_int_val_bound(s: Seq<u8>)
    requires
        digits_ok(s),
    ensures
        int_val(s) < pow10(s.len() as int),
    decreases s.len(),
{
    if s.len() == 0 {
    } else {
        assert(digits_ok(s.drop_last())) by {
            assert(forall|i: int| 0 <= i < s.len() - 1 ==> s.drop_last()[i] == s[i]);
        }
        lemma_int_val_bound(s.drop_last());
        assert(int_val(s.drop_last()) * 10 + 9 < pow10(s.len() as int)) by (nonlinear_arith)
            requires
                int_val(s.drop_last()) < pow10(s.len() - 1),
                pow10(s.len() as int) == 10 * pow10(s.len() - 1),
        ;
    }
}

/// Largest whole-unit count inside the drafting range.
pub const WHOLE_MAX: i64 = 10_736;

/// Parse the strict decimal literal in `bytes[lo..hi]` into a fixed-point
/// scalar: success exactly when the literal is well-shaped and in range,
/// and then the value is the literal's, fraction digits beyond the grid
/// truncated.
pub fn parse_fixed(bytes: &[u8], lo: usize, hi: usize) -> (r: Result<Fx, DraftError>)
    requires
        lo <= hi <= bytes@.len(),
    ensures
        match r {
            Ok(v) => number_ok(bytes@.subrange(lo as int, hi as int)) && v.raw as int == number_val(
                bytes@.subrange(lo as int, hi as int),
            ) && crate::fixed::mag(v.raw as int) <= LINE_MAX as int,
            Err(_) => !number_ok(bytes@.subrange(lo as int, hi as int)),
        },
{
    let ghost s = bytes@.subrange(lo as int, hi as int);
    if lo >= hi {
        assert(!body_shape(number_body(s)));
        return Err(DraftError::BadNumber);
    }
    let first = bytes[lo];
    let neg = first == 45;
    let start: usize = if first == 45 || first == 43 {
        lo + 1
    } else {
        lo
    };
    let ghost b = number_body(s);
    proof {
        assert(s[0] == first);
        if first == 45 || first == 43 {
            assert(b =~= bytes@.subrange(start as int, hi as int));
        } else {
            assert(b =~= bytes@.subrange(start as int, hi as int));
        }
    }
    if start >= hi {
        assert(b.len() == 0);
        assert(!body_shape(b));
        return Err(DraftError::BadNumber);
    }
    let blen: usize = hi - start;
    let mut i: usize = 0;
    let mut acc: i64 = 0;
    // Integer part.
    while i < blen && bytes[start + i] >= 48 && bytes[start + i] <= 57
        invariant
            lo <= start <= hi,
            start + blen == hi,
            hi <= bytes@.len(),
            s == bytes@.subrange(lo as int, hi as int),
            b == number_body(s),
            b =~= bytes@.subrange(start as int, hi as int),
            b.len() == blen,
            0 <= i <= blen,
            digits_ok(b.take(i as int)),
            0 <= acc <= WHOLE_MAX,
            acc as int == int_val(b.take(i as int)),
        decreases blen - i,
    {
        let d = bytes[start + i];
        proof {
            assert(b[i as int] == d);
            assert(b.take(i as int + 1).drop_last() =~= b.take(i as int));
            assert(b.take(i as int + 1)[i as int] == d);
            assert(digits_ok(b.take(i as int + 1))) by {
                assert(forall|t: int|
                    0 <= t < i as int + 1 ==> #[trigger] b.take(i as int + 1)[t] == b[t]);
                assert(forall|t: int| 0 <= t < i as int ==> b[t] == b.take(i as int)[t]);
            }
        }
        acc = acc * 10 + ((d - 48) as i64);
        i = i + 1;
        if acc > WHOLE_MAX {
            proof {
                assert(digits_ok(b.take(i as int)));
                assert(acc as int == int_val(b.take(i as int)));
                if number_ok(s) {
                    assert(body_shape(b));
                    lemma_body_big(b, i as int, acc as int);
                    assert(body_raw(number_body(s)) > LINE_MAX as int);
                }
                assert(!number_ok(s));
            }
            return Err(DraftError::Range);
        }
    }
    let dot_pos: usize = i;
    let mut frac: i64 = 0;
    let mut k: usize = 0;
    if i < blen {
        let c = bytes[start + i];
        assert(b[i as int] == c);
        if c != 46 {
            proof {
                lemma_body_bad(b, i as int);
            }
            return Err(DraftError::BadNumber);
        }
        let mut j: usize = i + 1;
        while j < blen
            invariant
                lo <= start <= hi,
                start + blen == hi,
                hi <= bytes@.len(),
                s == bytes@.subrange(lo as int, hi as int),
                b == number_body(s),
                b =~= bytes@.subrange(start as int, hi as int),
                b.len() == blen,
                dot_pos < blen,
                b[dot_pos as int] == 46,
                digits_ok(b.take(dot_pos as int)),
                dot_pos + 1 <= j <= blen,
                k == j - dot_pos - 1,
                digits_ok(b.subrange(dot_pos as int + 1, j as int)),
                0 <= frac <= 99_999,
                frac as int == (if k >= 5 {
                    int_val(b.subrange(dot_pos as int + 1, dot_pos as int + 1 + 5))
                } else {
                    int_val(b.subrange(dot_pos as int + 1, j as int))
                }),
            decreases blen - j,
        {
            let d = bytes[start + j];
            if d < 48 || d > 57 {
                proof {
                    assert(b[j as int] == d);
                    lemma_body_bad_frac(b, dot_pos as int, j as int);
                    assert(!number_ok(s));
                }
                return Err(DraftError::BadNumber);
            }
            proof {
                assert(b[j as int] == d);
            }
            if k < 5 {
                let ghost pre = b.subrange(dot_pos as int + 1, j as int);
                proof {
                    assert(b.subrange(dot_pos as int + 1, j as int + 1).drop_last() =~= pre);
                    assert(b.subrange(dot_pos as int + 1, j as int + 1)[(j - dot_pos - 1) as int]
                        == d);
                    lemma_int_val_nonneg(pre);
                    lemma_int_val_bound(pre);
                    lemma_pow10_small();
                    assert(pre.len() <= 4);
                    assert(int_val(pre) <= 9999) by {
                        if pre.len() == 0 {
                        } else if pre.len() == 1 {
                            assert(int_val(pre) < pow10(1));
                        } else if pre.len() == 2 {
                            assert(int_val(pre) < pow10(2));
                        } else if pre.len() == 3 {
                            assert(int_val(pre) < pow10(3));
                        } else {
                            assert(int_val(pre) < pow10(4));
                        }
                    }
                }
                frac = frac * 10 + ((d - 48) as i64);
                assert(frac <= 99_999);
            } else {
                proof {
                    assert(b.subrange(dot_pos as int + 1, dot_pos as int + 6) =~= b.subrange(
                        dot_pos as int + 1,
                        dot_pos as int + 6,
                    ));
                }
            }
            proof {
                assert(forall|t: int|
                    0 <= t < j - dot_pos ==> #[trigger] b.subrange(
                        dot_pos as int + 1,
                        j as int + 1,
                    )[t] == b[dot_pos + 1 + t]);
                assert(digits_ok(b.subrange(dot_pos as int + 1, j as int + 1))) by {
                    assert(forall|t: int|
                        0 <= t < j - dot_pos - 1 ==> b[dot_pos + 1 + t] == #[trigger] b.subrange(
                            dot_pos as int + 1,
                            j as int,
                        )[t]);
                }
            }
            k = k + 1;
            j = j + 1;
        }
        if i == dot_pos && dot_pos == 0 && k == 0 {
            // Just a point.
            proof {
                lemma_body_lone_dot(b);
            }
            return Err(DraftError::BadNumber);
        }
        proof {
            if k >= 5 {
                assert(b.subrange(dot_pos as int + 1, blen as int).take(5) =~= b.subrange(
                    dot_pos as int + 1,
                    dot_pos as int + 6,
                ));
                assert(frac as int == frac_raw(b.subrange(dot_pos as int + 1, blen as int)));
            }
        }
        // Scale a short fraction out to the grid.
        if k < 5 {
            let mult: i64 = if k == 0 {
                100_000
            } else if k == 1 {
                10_000
            } else if k == 2 {
                1_000
            } else if k == 3 {
                100
            } else if k == 4 {
                10
            } else {
                1
            };
            proof {
                assert(pow10(5 - k) == mult) by {
                    lemma_pow10_small();
                }
                lemma_int_val_nonneg(b.subrange(dot_pos as int + 1, blen as int));
                assert(frac as int * (mult as int) <= 99_999int * 100_000int) by (nonlinear_arith)
                    requires
                        0 <= frac as int <= 99_999,
                        0 <= mult as int <= 100_000,
                ;
            }
            frac = frac * mult;
            proof {
                assert(b.subrange(dot_pos as int + 1, blen as int).len() == k);
                assert(frac as int == frac_raw(b.subrange(dot_pos as int + 1, blen as int)));
            }
        }
        proof {
            assert(dot_pos > 0 || blen > 1);
        }
    }
    let raw: i64 = acc * SCALE + frac;
    proof {
        lemma_body_value(b, dot_pos as int, acc as int, frac as int, raw as int);
    }
    if raw > LINE_MAX {
        return Err(DraftError::Range);
    }
    if neg {
        Ok(Fx { raw: -raw })
    } else {
        Ok(Fx { raw })
    }
}

} // verus!
// Why the parser's verdicts are right.

verus! {

/// Once the integer digits scanned so far exceed the drafting range, the
/// whole literal is out of range.
proof fn lemma_body_big(b: Seq<u8>, i: int, acc: int)
    requires
        0 < i <= b.len(),
        digits_ok(b.take(i)),
        acc == int_val(b.take(i)),
        acc > WHOLE_MAX as int,
        body_shape(b),
    ensures
        body_raw(b) > LINE_MAX as int,
{
    if exists|d: int| 0 <= d < b.len() && #[trigger] b[d] == 46 {
        let d = choose|d: int| 0 <= d < b.len() && #[trigger] b[d] == 46;
        assert(d >= i) by {
            if d < i {
                assert(is_digit(b.take(i)[d]));
            }
        }
        let ds = choose|ds: int|
            0 <= ds < b.len() && b[ds] == 46 && b.len() > 1 && digits_ok(#[trigger] b.take(ds))
                && digits_ok(b.skip(ds + 1));
        assert(ds >= i) by {
            if ds < i {
                assert(is_digit(b.take(i)[ds]));
            }
        }
        assert(d == ds) by {
            if d < ds {
                assert(is_digit(b.take(ds)[d]));
            }
            if d > ds {
                assert(is_digit(b.skip(ds + 1)[d - ds - 1]));
            }
        }
        assert(b.take(d).take(i) =~= b.take(i));
        lemma_int_val_prefix(b.take(d), i);
        lemma_frac_raw_nonneg(b.skip(d + 1));
        assert(int_val(b.take(d)) * (SCALE as int) >= acc * (SCALE as int)) by (nonlinear_arith)
            requires
                int_val(b.take(d)) >= acc,
        ;
        assert(acc * (SCALE as int) >= (WHOLE_MAX as int + 1) * (SCALE as int)) by (nonlinear_arith)
            requires
                acc >= WHOLE_MAX as int + 1,
        ;
    } else {
        assert(digits_ok(b));
        assert(b.take(b.len() as int) =~= b);
        lemma_int_val_prefix(b, i);
        assert(int_val(b) * (SCALE as int) >= acc * (SCALE as int)) by (nonlinear_arith)
            requires
                int_val(b) >= acc,
        ;
        assert(acc * (SCALE as int) >= (WHOLE_MAX as int + 1) * (SCALE as int)) by (nonlinear_arith)
            requires
                acc >= WHOLE_MAX as int + 1,
        ;
    }
}

/// A byte that is neither digit nor point in the integer part breaks the
/// literal's shape.
proof fn lemma_body_bad(b: Seq<u8>, i: int)
    requires
        0 <= i < b.len(),
        digits_ok(b.take(i)),
        !is_digit(b[i]),
        b[i] != 46,
    ensures
        !body_shape(b),
{
    if body_shape(b) {
        if b.len() > 0 && digits_ok(b) {
            assert(is_digit(b[i]));
        } else {
            let d = choose|d: int|
                0 <= d < b.len() && b[d] == 46 && b.len() > 1 && digits_ok(#[trigger] b.take(d))
                    && digits_ok(b.skip(d + 1));
            if i < d {
                assert(is_digit(b.take(d)[i]));
            } else if i > d {
                assert(is_digit(b.skip(d + 1)[i - d - 1]));
            }
        }
    }
}

/// A non-digit after the point breaks the literal's shape.
proof fn lemma_body_bad_frac(b: Seq<u8>, dp: int, j: int)
    requires
        0 <= dp < b.len(),
        b[dp] == 46,
        digits_ok(b.take(dp)),
        dp < j < b.len(),
        !is_digit(b[j]),
    ensures
        !body_shape(b),
{
    if body_shape(b) {
        if b.len() > 0 && digits_ok(b) {
            assert(is_digit(b[dp]));
        } else {
            let d = choose|d: int|
                0 <= d < b.len() && b[d] == 46 && b.len() > 1 && digits_ok(#[trigger] b.take(d))
                    && digits_ok(b.skip(d + 1));
            assert(d == dp) by {
                if dp < d {
                    assert(is_digit(b.take(d)[dp]));
                }
                if dp > d {
                    assert(is_digit(b.skip(d + 1)[dp - d - 1]));
                }
            }
            assert(is_digit(b.skip(dp + 1)[j - dp - 1]));
        }
    }
}

/// A literal that is one lone point has no shape.
proof fn lemma_body_lone_dot(b: Seq<u8>)
    requires
        b.len() == 1,
        b[0] == 46,
    ensures
        !body_shape(b),
{
    if body_shape(b) {
        if digits_ok(b) {
            assert(is_digit(b[0]));
        }
    }
}

/// The accumulated integer and fraction parts are the literal's value,
/// and the scan found a well-shaped literal.
proof fn lemma_body_value(b: Seq<u8>, dp: int, acc: int, frac: int, raw: int)
    requires
        0 <= dp <= b.len(),
        digits_ok(b.take(dp)),
        acc == int_val(b.take(dp)),
        dp < b.len() ==> b[dp] == 46 && digits_ok(b.subrange(dp + 1, b.len() as int)) && frac
            == frac_raw(b.subrange(dp + 1, b.len() as int)) && (dp > 0 || b.len() > 1),
        dp == b.len() ==> frac == 0 && dp > 0,
        raw == acc * (SCALE as int) + frac,
    ensures
        body_shape(b),
        body_raw(b) == raw,
{
    if dp == b.len() {
        assert(b.take(dp) =~= b);
        assert(digits_ok(b));
        assert(body_shape(b));
        assert(!exists|d: int| 0 <= d < b.len() && #[trigger] b[d] == 46) by {
            if exists|d: int| 0 <= d < b.len() && #[trigger] b[d] == 46 {
                let d = choose|d: int| 0 <= d < b.len() && #[trigger] b[d] == 46;
                assert(is_digit(b[d]));
            }
        }
        assert(body_raw(b) == int_val(b) * (SCALE as int));
    } else {
        assert(b.skip(dp + 1) =~= b.subrange(dp + 1, b.len() as int));
        assert(body_shape(b)) by {
            assert(0 <= dp < b.len() && b[dp] == 46 && b.len() > 1 && digits_ok(b.take(dp))
                && digits_ok(b.skip(dp + 1)));
        }
        assert(exists|d: int| 0 <= d < b.len() && #[trigger] b[d] == 46);
        let d = choose|d: int| 0 <= d < b.len() && #[trigger] b[d] == 46;
        assert(d == dp) by {
            if d < dp {
                assert(is_digit(b.take(dp)[d]));
            }
            if d > dp {
                assert(is_digit(b.skip(dp + 1)[d - dp - 1]));
            }
        }
        assert(body_raw(b) == int_val(b.take(dp)) * (SCALE as int) + frac_raw(b.skip(dp + 1)));
    }
}

} // verus!
// The document scanner: what it accepts and what it yields, stated over
// the raw bytes, then the executable scan proved against that statement.

verus! {

/// A byte that may appear in an element or attribute name.
pub open spec fn is_name_b(b: u8) -> bool {
    (97 <= b <= 122) || (65 <= b <= 90) || (48 <= b <= 57) || b == 95 || b == 45 || b == 58
}

/// A whitespace byte.
pub open spec fn is_space_b(b: u8) -> bool {
    b == 32 || b == 9 || b == 13 || b == 10
}

/// The first position at or past `k` holding `>`, if any.
pub open spec fn gt_end(t: Seq<u8>, k: int) -> Option<int>
    decreases t.len() - k,
{
    if k < 0 || k >= t.len() {
        None
    } else if t[k] == 62 {
        Some(k)
    } else {
        gt_end(t, k + 1)
    }
}

/// The first position at or past `k` holding the closing quote, if any.
pub open spec fn quote_end(t: Seq<u8>, k: int, qc: u8) -> Option<int>
    decreases t.len() - k,
{
    if k < 0 || k >= t.len() {
        None
    } else if t[k] == qc {
        Some(k)
    } else {
        quote_end(t, k + 1, qc)
    }
}

/// The end of the name starting at `k`: the first non-name position.
pub open spec fn name_end(t: Seq<u8>, k: int) -> int
    decreases t.len() - k,
{
    if k < 0 || k >= t.len() || !is_name_b(t[k]) {
        k
    } else {
        name_end(t, k + 1)
    }
}

/// The end of the whitespace run starting at `k`.
pub open spec fn ws_end(t: Seq<u8>, k: int) -> int
    decreases t.len() - k,
{
    if k < 0 || k >= t.len() || !is_space_b(t[k]) {
        k
    } else {
        ws_end(t, k + 1)
    }
}

/// An element's attribute list from position `j` to just past its closing
/// `>`: `name = "value"` pairs, whitespace between them; when `is_line`,
/// each `x1`, `y1`, `x2` or `y2` value must be a strict in-range decimal
/// and updates the coordinate quadruple, last writer winning; every other
/// attribute is ignored. Nothing on a broken name, `=`, quote, or number.
pub open spec fn scan_attrs(t: Seq<u8>, j: int, c: (int, int, int, int), is_line: bool) -> Option<
    (int, (int, int, int, int)),
>
    decreases t.len() - j,
{
    let j1 = ws_end(t, j);
    if j1 >= t.len() {
        None
    } else if t[j1] == 62 {
        Some((j1 + 1, c))
    } else if t[j1] == 47 {
        if j1 + 1 < t.len() && t[j1 + 1] == 62 {
            Some((j1 + 2, c))
        } else {
            None
        }
    } else {
        let ae = name_end(t, j1);
        if ae == j1 {
            None
        } else {
            let j2 = ws_end(t, ae);
            if j2 >= t.len() || t[j2] != 61 {
                None
            } else {
                let j3 = ws_end(t, j2 + 1);
                if j3 >= t.len() || (t[j3] != 34 && t[j3] != 39) {
                    None
                } else {
                    match quote_end(t, j3 + 1, t[j3]) {
                        None => None,
                        Some(ve) => {
                            let coord = is_line && ae - j1 == 2 && (t[j1] == 120 || t[j1] == 121)
                                && (t[j1 + 1] == 49 || t[j1 + 1] == 50);
                            if coord && !number_ok(t.subrange(j3 + 1, ve)) {
                                None
                            } else {
                                let v = number_val(t.subrange(j3 + 1, ve));
                                let c2 = if !coord {
                                    c
                                } else if t[j1] == 120 && t[j1 + 1] == 49 {
                                    (v, c.1, c.2, c.3)
                                } else if t[j1] == 121 && t[j1 + 1] == 49 {
                                    (c.0, v, c.2, c.3)
                                } else if t[j1] == 120 && t[j1 + 1] == 50 {
                                    (c.0, c.1, v, c.3)
                                } else {
                                    (c.0, c.1, c.2, v)
                                };
                                if j < ve + 1 && ve < t.len() {
                                    scan_attrs(t, ve + 1, c2, is_line)
                                } else {
                                    None
                                }
                            }
                        },
                    }
                }
            }
        }
    }
}

/// The drafted segment a `<line>` element's coordinates make: fresh flags,
/// no link, and the next identity.
pub open spec fn line_of(c: (int, int, int, int), id: int) -> Line {
    Line {
        p1: Point2 { x: Fx { raw: c.0 as i64 }, y: Fx { raw: c.1 as i64 } },
        p2: Point2 { x: Fx { raw: c.2 as i64 }, y: Fx { raw: c.3 as i64 } },
        pinned: false,
        rigid: false,
        highlighted: false,
        link: None,
        line_id: id as usize,
    }
}

/// The scan from position `i` with the lines read so far: text outside
/// tags is skipped; declarations, comments, doctypes and closing tags are
/// skipped to their `>`; every other element has its attributes walked,
/// and a `<line>` element appends a segment with its coordinates (absent
/// ones zero). Nothing when the structure breaks off.
pub open spec fn scan_lines(t: Seq<u8>, i: int, acc: Seq<Line>) -> Option<Seq<Line>>
    decreases t.len() - i,
{
    if i >= t.len() {
        Some(acc)
    } else if t[i] != 60 {
        scan_lines(t, i + 1, acc)
    } else if i + 1 < t.len() && (t[i + 1] == 63 || t[i + 1] == 33 || t[i + 1] == 47) {
        match gt_end(t, i + 1) {
            None => None,
            Some(j) => if i < j + 1 && j < t.len() {
                scan_lines(t, j + 1, acc)
            } else {
                None
            },
        }
    } else {
        let ns = i + 1;
        let ne = name_end(t, ns);
        if ne == ns {
            None
        } else {
            let is_line = ne - ns == 4 && t[ns] == 108 && t[ns + 1] == 105 && t[ns + 2] == 110 && t[
                ns + 3] == 101;
            match scan_attrs(t, ne, (0int, 0int, 0int, 0int), is_line) {
                None => None,
                Some((j, c)) => {
                    let acc2 = if is_line {
                        acc.push(line_of(c, acc.len() as int))
                    } else {
                        acc
                    };
                    if i < j && j <= t.len() {
                        scan_lines(t, j, acc2)
                    } else {
                        None
                    }
                },
            }
        }
    }
}

/// The drafted lines of a whole document, if it scans.
pub open spec fn doc_lines(t: Seq<u8>) -> Option<Seq<Line>> {
    scan_lines(t, 0, Seq::empty())
}

/// A run of non-`>` bytes pins down where the skip ends.
proof fn lemma_gt_end_is(t: Seq<u8>, k: int, j: int)
    requires
        0 <= k <= j <= t.len(),
        forall|m: int| k <= m < j ==> t[m] != 62,
    ensures
        j < t.len() && t[j] == 62 ==> gt_end(t, k) == Some(j),
        j == t.len() ==> gt_end(t, k) is None,
    decreases j - k,
{
    if k < j {
        lemma_gt_end_is(t, k + 1, j);
    }
}

/// A run of non-quote bytes pins down where the value ends.
proof fn lemma_quote_end_is(t: Seq<u8>, k: int, j: int, qc: u8)
    requires
        0 <= k <= j <= t.len(),
        forall|m: int| k <= m < j ==> t[m] != qc,
    ensures
        j < t.len() && t[j] == qc ==> quote_end(t, k, qc) == Some(j),
        j == t.len() ==> quote_end(t, k, qc) is None,
    decreases j - k,
{
    if k < j {
        lemma_quote_end_is(t, k + 1, j, qc);
    }
}

/// A run of name bytes pins down where the name ends.
proof fn lemma_name_end_is(t: Seq<u8>, k: int, j: int)
    requires
        0 <= k <= j <= t.len(),
        forall|m: int| k <= m < j ==> is_name_b(t[m]),
        j == t.len() || !is_name_b(t[j]),
    ensures
        name_end(t, k) == j,
    decreases j - k,
{
    if k < j {
        lemma_name_end_is(t, k + 1, j);
    }
}

/// A run of whitespace pins down where it ends.
proof fn lemma_ws_end_is(t: Seq<u8>, k: int, j: int)
    requires
        0 <= k <= j <= t.len(),
        forall|m: int| k <= m < j ==> is_space_b(t[m]),
        j == t.len() || !is_space_b(t[j]),
    ensures
        ws_end(t, k) == j,
    decreases j - k,
{
    if k < j {
        lemma_ws_end_is(t, k + 1, j);
    }
}

/// A byte that may appear in an element or attribute name.
fn is_name_byte(b: u8) -> (r: bool)
    ensures
        r == is_name_b(b),
{
    (b >= 97 && b <= 122) || (b >= 65 && b <= 90) || (b >= 48 && b <= 57) || b == 95 || b == 45
        || b == 58
}

/// A whitespace byte.
fn is_space_byte(b: u8) -> (r: bool)
    ensures
        r == is_space_b(b),
{
    b == 32 || b == 9 || b == 13 || b == 10
}

impl Draft {
    /// Load a draft from the bytes of its document: walk every element,
    /// keep each `<line>` element's `x1, y1, x2, y2` coordinates as a
    /// drafted segment in document order, and ignore everything else. The
    /// draft is exactly what the document scan yields; a malformed tag or
    /// quote, a malformed numeric attribute, or an out-of-range coordinate
    /// is a fatal load error, and the load succeeds whenever the document
    /// scans.
    pub fn new(text: &[u8]) -> (r: Result<Draft, DraftError>)
        ensures
            r is Ok <==> doc_lines(text@) is Some,
            match r {
                Ok(d) => {
                    &&& Some(d.lines@) == doc_lines(text@)
                    &&& d.wf()
                    &&& d.current_link == 1
                    &&& forall|i: int|
                        0 <= i < d.lines@.len() ==> {
                            let l = #[trigger] d.lines@[i];
                            l.line_id == i && !l.pinned && !l.rigid && !l.highlighted
                                && l.link is None
                        }
                },
                Err(_) => true,
            },
    {
        let ghost t = text@;
        let n = text.len();
        let mut lines: Vec<Line> = Vec::new();
        let mut i: usize = 0;
        while i < n
            invariant
                t == text@,
                n == text@.len(),
                0 <= i <= n,
                doc_lines(t) == scan_lines(t, i as int, lines@),
                forall|m: int| 0 <= m < lines@.len() ==> (#[trigger] lines@[m]).wf(),
                forall|m: int|
                    0 <= m < lines@.len() ==> {
                        let l = #[trigger] lines@[m];
                        l.line_id == m && !l.pinned && !l.rigid && !l.highlighted && l.link is None
                    },
            decreases n - i,
        {
            if text[i] != 60 {
                i = i + 1;
                continue ;
            }
            if i + 1 < n && (text[i + 1] == 63 || text[i + 1] == 33 || text[i + 1] == 47) {
                // Declaration, comment, doctype or closing tag: skip to '>'.
                let mut j: usize = i + 1;
                while j < n && text[j] != 62
                    invariant
                        t == text@,
                        n == text@.len(),
                        i < j <= n,
                        forall|m: int| i < m < j ==> t[m] != 62,
                    decreases n - j,
                {
                    j = j + 1;
                }
                proof {
                    lemma_gt_end_is(t, i as int + 1, j as int);
                }
                if j >= n {
                    assert(scan_lines(t, i as int, lines@) is None);
                    return Err(DraftError::Syntax);
                }
                assert(gt_end(t, i as int + 1) == Some(j as int));
                i = j + 1;
                continue ;
            }
            // An opening element: read its name.
            let name_start = i + 1;
            let mut j: usize = name_start;
            while j < n && is_name_byte(text[j])
                invariant
                    t == text@,
                    n == text@.len(),
                    name_start <= j <= n,
                    i + 1 == name_start,
                    i < n,
                    forall|m: int| name_start <= m < j ==> is_name_b(t[m]),
                decreases n - j,
            {
                j = j + 1;
            }
            proof {
                lemma_name_end_is(t, name_start as int, j as int);
            }
            if j == name_start {
                assert(scan_lines(t, i as int, lines@) is None);
                return Err(DraftError::Syntax);
            }
            let is_line = j - name_start == 4 && text[name_start] == 108 && text[name_start + 1]
                == 105 && text[name_start + 2] == 110 && text[name_start + 3] == 101;
            let ghost attrs_from = j as int;
            let ghost attrs_res = scan_attrs(t, attrs_from, (0int, 0int, 0int, 0int), is_line);
            proof {
                assert(scan_lines(t, i as int, lines@) == (match attrs_res {
                    None => None::<Seq<Line>>,
                    Some((jn, c)) => {
                        let acc2 = if is_line {
                            lines@.push(line_of(c, lines@.len() as int))
                        } else {
                            lines@
                        };
                        if (i as int) < jn && jn <= t.len() {
                            scan_lines(t, jn, acc2)
                        } else {
                            None
                        }
                    },
                }));
            }
            // Attributes.
            let mut x1 = Fx { raw: 0 };
            let mut y1 = Fx { raw: 0 };
            let mut x2 = Fx { raw: 0 };
            let mut y2 = Fx { raw: 0 };
            let mut closed = false;
            while !closed
                invariant
                    t == text@,
                    n == text@.len(),
                    i < j <= n,
                    crate::fixed::mag(x1.raw as int) <= LINE_MAX as int,
                    crate::fixed::mag(y1.raw as int) <= LINE_MAX as int,
                    crate::fixed::mag(x2.raw as int) <= LINE_MAX as int,
                    crate::fixed::mag(y2.raw as int) <= LINE_MAX as int,
                    attrs_res == scan_attrs(t, attrs_from, (0int, 0int, 0int, 0int), is_line),
                    doc_lines(t) == scan_lines(t, i as int, lines@),
                    scan_lines(t, i as int, lines@) == (match attrs_res {
                        None => None::<Seq<Line>>,
                        Some((jn, c)) => {
                            let acc2 = if is_line {
                                lines@.push(line_of(c, lines@.len() as int))
                            } else {
                                lines@
                            };
                            if (i as int) < jn && jn <= t.len() {
                                scan_lines(t, jn, acc2)
                            } else {
                                None
                            }
                        },
                    }),
                    !closed ==> attrs_res == scan_attrs(
                        t,
                        j as int,
                        (x1.raw as int, y1.raw as int, x2.raw as int, y2.raw as int),
                        is_line,
                    ),
                    closed ==> attrs_res == Some(
                        (j as int, (x1.raw as int, y1.raw as int, x2.raw as int, y2.raw as int)),
                    ),
                decreases n - j, (if closed {
                    0int
                } else {
                    1int
                }),
            {
                let ghost j0 = j;
                let ghost cur = (x1.raw as int, y1.raw as int, x2.raw as int, y2.raw as int);
                while j < n && is_space_byte(text[j])
                    invariant
                        t == text@,
                        n == text@.len(),
                        i < j <= n,
                        j0 <= j,
                        forall|m: int| j0 <= m < j ==> is_space_b(t[m]),
                    decreases n - j,
                {
                    j = j + 1;
                }
                proof {
                    lemma_ws_end_is(t, j0 as int, j as int);
                    assert(ws_end(t, j0 as int) == j as int);
                }
                if j >= n {
                    assert(attrs_res is None);
                    assert(scan_lines(t, i as int, lines@) is None);
                    return Err(DraftError::Syntax);
                }
                if text[j] == 62 {
                    proof {
                        assert(attrs_res == Some((j as int + 1, cur)));
                    }
                    j = j + 1;
                    closed = true;
                } else if text[j] == 47 {
                    if j + 1 < n && text[j + 1] == 62 {
                        proof {
                            assert(attrs_res == Some((j as int + 2, cur)));
                        }
                        j = j + 2;
                        closed = true;
                    } else {
                        assert(attrs_res is None);
                        assert(scan_lines(t, i as int, lines@) is None);
                        return Err(DraftError::Syntax);
                    }
                } else {
                    // Attribute name.
                    let an_start = j;
                    while j < n && is_name_byte(text[j])
                        invariant
                            t == text@,
                            n == text@.len(),
                            an_start <= j <= n,
                            i < an_start,
                            forall|m: int| an_start <= m < j ==> is_name_b(t[m]),
                        decreases n - j,
                    {
                        j = j + 1;
                    }
                    proof {
                        lemma_name_end_is(t, an_start as int, j as int);
                    }
                    if j == an_start {
                        assert(attrs_res is None);
                        assert(scan_lines(t, i as int, lines@) is None);
                        return Err(DraftError::Syntax);
                    }
                    let an_end = j;
                    while j < n && is_space_byte(text[j])
                        invariant
                            t == text@,
                            n == text@.len(),
                            an_end <= j <= n,
                            i < an_end,
                            forall|m: int| an_end <= m < j ==> is_space_b(t[m]),
                        decreases n - j,
                    {
                        j = j + 1;
                    }
                    proof {
                        lemma_ws_end_is(t, an_end as int, j as int);
                    }
                    if j >= n || text[j] != 61 {
                        assert(attrs_res is None);
                        assert(scan_lines(t, i as int, lines@) is None);
                        return Err(DraftError::Syntax);
                    }
                    j = j + 1;
                    let ghost eq_end = j;
                    while j < n && is_space_byte(text[j])
                        invariant
                            t == text@,
                            n == text@.len(),
                            an_end < j <= n,
                            i < an_end,
                            eq_end <= j,
                            forall|m: int| eq_end <= m < j ==> is_space_b(t[m]),
                        decreases n - j,
                    {
                        j = j + 1;
                    }
                    proof {
                        lemma_ws_end_is(t, eq_end as int, j as int);
                    }
                    if j >= n || (text[j] != 34 && text[j] != 39) {
                        assert(attrs_res is None);
                        assert(scan_lines(t, i as int, lines@) is None);
                        return Err(DraftError::Syntax);
                    }
                    let quote = text[j];
                    let v_start = j + 1;
                    let mut v_end = v_start;
                    while v_end < n && text[v_end] != quote
                        invariant
                            t == text@,
                            n == text@.len(),
                            v_start <= v_end <= n,
                            i < v_start,
                            forall|m: int| v_start <= m < v_end ==> t[m] != quote,
                        decreases n - v_end,
                    {
                        v_end = v_end + 1;
                    }
                    proof {
                        lemma_quote_end_is(t, v_start as int, v_end as int, quote);
                    }
                    if v_end >= n {
                        assert(attrs_res is None);
                        assert(scan_lines(t, i as int, lines@) is None);
                        return Err(DraftError::Syntax);
                    }
                    assert(quote_end(t, v_start as int, quote) == Some(v_end as int));
                    j = v_end + 1;
                    // Only a line's coordinate attributes are interpreted.
                    if is_line && an_end - an_start == 2 && (text[an_start] == 120
                        || text[an_start] == 121) && (text[an_start + 1] == 49 || text[an_start
                        + 1] == 50) {
                        let v = match parse_fixed(text, v_start, v_end) {
                            Ok(v) => v,
                            Err(e) => {
                                proof {
                                    assert(attrs_res is None);
                                    assert(scan_lines(t, i as int, lines@) is None);
                                }
                                return Err(e);
                            },
                        };
                        if text[an_start] == 120 && text[an_start + 1] == 49 {
                            x1 = v;
                        } else if text[an_start] == 121 && text[an_start + 1] == 49 {
                            y1 = v;
                        } else if text[an_start] == 120 && text[an_start + 1] == 50 {
                            x2 = v;
                        } else {
                            y2 = v;
                        }
                        proof {
                            assert(attrs_res == scan_attrs(
                                t,
                                j as int,
                                (x1.raw as int, y1.raw as int, x2.raw as int, y2.raw as int),
                                is_line,
                            ));
                        }
                    } else {
                        proof {
                            assert(attrs_res == scan_attrs(
                                t,
                                j as int,
                                (x1.raw as int, y1.raw as int, x2.raw as int, y2.raw as int),
                                is_line,
                            ));
                        }
                    }
                }
            }
            if is_line {
                let ghost prev = lines@;
                let l = Line {
                    p1: Point2 { x: x1, y: y1 },
                    p2: Point2 { x: x2, y: y2 },
                    pinned: false,
                    rigid: false,
                    highlighted: false,
                    link: None,
                    line_id: lines.len(),
                };
                proof {
                    assert(l == line_of(
                        (x1.raw as int, y1.raw as int, x2.raw as int, y2.raw as int),
                        prev.len() as int,
                    ));
                }
                lines.push(l);
                proof {
                    assert(lines@[prev.len() as int] == l);
                    assert(forall|m: int| 0 <= m < prev.len() ==> lines@[m] == prev[m]);
                }
            }
            i = j;
        }
        assert(scan_lines(t, i as int, lines@) == Some(lines@));
        Ok(Draft { lines, current_link: 1 })
    }
}

} // verus!
