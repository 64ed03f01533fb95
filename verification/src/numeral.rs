//! Reading decimal numerals: what number a text such as `-12.50` stands for,
//! and the proof that the text written for an amount stands for that amount.
use crate::amount::{abs, decimal_text, digit_char, digits, padded_digits, pow10, unsigned_text, Dec};
use vstd::prelude::*;

verus! {

/// Whether `c` is one of the digits `0` to `9`.
pub open spec fn is_digit(c: char) -> bool {
    '0' <= c <= '9'
}

/// The number that a string of digits stands for (zero for no digits).
pub open spec fn digits_value(t: Seq<char>) -> int
    decreases t.len(),
{
    if t.len() == 0 {
        0
    } else {
        digits_value(t.drop_last()) * 10 + (t.last() as int - '0' as int)
    }
}

/// The position of the first `.` in `t`, or the length of `t` if it has
/// none.
pub open spec fn point_index(t: Seq<char>) -> int
    decreases t.len(),
{
    if t.len() == 0 || t[0] == '.' {
        0
    } else {
        1 + point_index(t.drop_first())
    }
}

/// What the numeral `t` reads as, as a mantissa and a scale: an optional
/// `-`, then digits, then, if there is a point, the fraction digits, whose
/// number is the scale. `-12.50` reads as `(-1250, 2)`.
pub open spec fn numeral_value(t: Seq<char>) -> Dec {
    let neg = t.len() > 0 && t[0] == '-';
    let u = if neg {
        t.drop_first()
    } else {
        t
    };
    let p = point_index(u);
    let n = if p < u.len() {
        digits_value(u.take(p) + u.skip(p + 1))
    } else {
        digits_value(u)
    };
    let s: nat = if p < u.len() {
        (u.len() - p - 1) as nat
    } else {
        0
    };
    (if neg {
        -n
    } else {
        n
    }, s)
}

/// Every character of `t` is a digit.
pub open spec fn all_digits(t: Seq<char>) -> bool {
    forall|i: int| 0 <= i < t.len() ==> #[trigger] is_digit(t[i])
}

/// Whether `t` is a decimal numeral: an optional `-`, at least one digit,
/// and, optionally, a point followed by at least one digit.
pub open spec fn is_numeral(t: Seq<char>) -> bool {
    let u = if t.len() > 0 && t[0] == '-' {
        t.drop_first()
    } else {
        t
    };
    let p = point_index(u);
    &&& p > 0
    &&& all_digits(u.take(p))
    &&& p < u.len() ==> u.len() - p >= 2 && all_digits(u.skip(p + 1))
}

/// The digit character of `d` stands for `d`.
proof fn lemma_digit_char(d: int)
    requires
        0 <= d < 10,
    ensures
        is_digit(digit_char(d)),
        digit_char(d) as int - '0' as int == d,
{
}

/// The digits of `n` are digits, and they stand for `n`.
proof fn lemma_digits(n: nat)
    ensures
        all_digits(digits(n)),
        digits_value(digits(n)) == n,
    decreases n,
{
    if n != 0 {
        lemma_digits(n / 10);
        lemma_digit_char((n % 10) as int);
        let d = digits(n);
        assert(d.drop_last() =~= digits(n / 10));
    }
}

/// Digits after digits: the first part counts `10^k` times, where `k` is
/// the length of the second.
proof fn lemma_digits_value_append(a: Seq<char>, b: Seq<char>)
    ensures
        digits_value(a + b) == digits_value(a) * pow10(b.len()) + digits_value(b),
    decreases b.len(),
{
    let x = digits_value(a);
    if b.len() == 0 {
        assert(a + b =~= a);
        assert(pow10(0) == 1);
        assert(x * 1 == x);
    } else {
        lemma_digits_value_append(a, b.drop_last());
        assert((a + b).drop_last() =~= a + b.drop_last());
        assert((a + b).last() == b.last());
        let p = pow10(b.drop_last().len());
        let v = digits_value(b.drop_last());
        let c = b.last() as int - '0' as int;
        assert(pow10(b.len()) == 10 * p);
        assert(digits_value(a + b) == (x * p + v) * 10 + c);
        assert(digits_value(b) == v * 10 + c);
        assert((x * p + v) * 10 + c == x * (10 * p) + (v * 10 + c)) by (nonlinear_arith);
    }
}

/// Zeros stand for zero.
proof fn lemma_zeros_value(k: nat)
    ensures
        digits_value(Seq::new(k, |i: int| '0')) == 0,
        all_digits(Seq::new(k, |i: int| '0')),
    decreases k,
{
    if k > 0 {
        lemma_zeros_value((k - 1) as nat);
        assert(Seq::new(k, |i: int| '0').drop_last() =~= Seq::new((k - 1) as nat, |i: int| '0'));
    }
}

/// The padded digits of `n` are digits, at least `s` of them, and they stand
/// for `n`.
proof fn lemma_padded_digits(n: nat, s: nat)
    ensures
        all_digits(padded_digits(n, s)),
        digits_value(padded_digits(n, s)) == n,
        padded_digits(n, s).len() >= s,
{
    lemma_digits(n);
    let d = digits(n);
    if d.len() < s {
        let z = Seq::new((s - d.len()) as nat, |i: int| '0');
        lemma_zeros_value((s - d.len()) as nat);
        lemma_digits_value_append(z, d);
        assert(all_digits(z + d)) by {
            assert forall|i: int| 0 <= i < (z + d).len() implies #[trigger] is_digit((z + d)[i]) by {
                if i < z.len() {
                    assert(is_digit(z[i]));
                } else {
                    assert(is_digit(d[i - z.len()]));
                }
            }
        }
    }
}

/// A text of digits has no point.
proof fn lemma_point_index_none(t: Seq<char>)
    requires
        all_digits(t),
    ensures
        point_index(t) == t.len(),
    decreases t.len(),
{
    if t.len() > 0 {
        assert(is_digit(t[0]));
        assert(all_digits(t.drop_first())) by {
            assert forall|i: int| 0 <= i < t.drop_first().len() implies #[trigger] is_digit(
                t.drop_first()[i],
            ) by {
                assert(is_digit(t[i + 1]));
            }
        }
        lemma_point_index_none(t.drop_first());
    }
}

/// The first point of `a . b`, where `a` is digits, is right after `a`.
proof fn lemma_point_index_at(a: Seq<char>, b: Seq<char>)
    requires
        all_digits(a),
    ensures
        point_index(a + seq!['.'] + b) == a.len(),
    decreases a.len(),
{
    let t = a + seq!['.'] + b;
    if a.len() == 0 {
        assert(t[0] == '.');
    } else {
        assert(is_digit(a[0]));
        assert(t[0] == a[0]);
        assert(t.drop_first() =~= a.drop_first() + seq!['.'] + b);
        assert(all_digits(a.drop_first())) by {
            assert forall|i: int| 0 <= i < a.drop_first().len() implies #[trigger] is_digit(
                a.drop_first()[i],
            ) by {
                assert(is_digit(a[i + 1]));
            }
        }
        lemma_point_index_at(a.drop_first(), b);
    }
}

/// The single digit `0` stands for zero.
proof fn lemma_zero_numeral()
    ensures
        all_digits(seq!['0']),
        digits_value(seq!['0']) == 0,
{
    let z = seq!['0'];
    assert(z.len() == 1);
    assert(z.last() == '0');
    assert(z.drop_last() =~= Seq::<char>::empty());
    assert(digits_value(Seq::<char>::empty()) == 0);
    assert(is_digit(z[0]));
}

/// The text of a magnitude starts with a digit and reads back as that
/// magnitude and scale.
proof fn lemma_unsigned_text_reads_back(n: nat, s: nat)
    ensures
        unsigned_text(n, s).len() > 0,
        is_digit(unsigned_text(n, s)[0]),
        point_index(unsigned_text(n, s)) < unsigned_text(n, s).len() <==> s > 0,
        is_numeral(unsigned_text(n, s)),
        ({
            let body = unsigned_text(n, s);
            let p = point_index(body);
            if s > 0 {
                digits_value(body.take(p) + body.skip(p + 1)) == n && body.len() - p - 1 == s
            } else {
                digits_value(body) == n
            }
        }),
{
    let d = padded_digits(n, s);
    lemma_padded_digits(n, s);
    lemma_zero_numeral();
    let w = d.len() - s;
    let body = unsigned_text(n, s);
    if s == 0 {
        if d.len() == 0 {
            assert(n == 0);
        }
        assert(all_digits(body));
        lemma_point_index_none(body);
        assert(body.take(body.len() as int) =~= body);
    } else {
        let ip = if w == 0 {
            seq!['0']
        } else {
            d.take(w)
        };
        let fp = d.skip(w);
        assert(body == ip + seq!['.'] + fp);
        assert(all_digits(ip)) by {
            if w != 0 {
                assert forall|i: int| 0 <= i < ip.len() implies #[trigger] is_digit(ip[i]) by {
                    assert(is_digit(d[i]));
                }
            }
        }
        assert(all_digits(fp)) by {
            assert forall|i: int| 0 <= i < fp.len() implies #[trigger] is_digit(fp[i]) by {
                assert(is_digit(d[i + w]));
            }
        }
        lemma_point_index_at(ip, fp);
        let p = point_index(body);
        assert(body.take(p) =~= ip);
        assert(body.skip(p + 1) =~= fp);
        lemma_digits_value_append(ip, fp);
        lemma_digits_value_append(d.take(w), fp);
        assert(d.take(w) + fp =~= d);
        if w == 0 {
            assert(d.take(w) =~= Seq::<char>::empty());
        }
        assert(digits_value(ip) == digits_value(d.take(w)));
        assert(body[0] == ip[0]);
        assert(is_digit(ip[0]));
        assert(ip.len() > 0);
    }
}

/// The text that `rust_decimal` writes for a decimal reads back as that
/// decimal: the same mantissa and the same scale.
pub proof fn lemma_decimal_text_reads_back(m: int, s: nat)
    ensures
        is_numeral(decimal_text(m, s)),
        numeral_value(decimal_text(m, s)) == (m, s),
{
    let body = unsigned_text(abs(m), s);
    lemma_unsigned_text_reads_back(abs(m), s);
    let t = decimal_text(m, s);
    if m < 0 {
        assert(t[0] == '-');
        assert(t.drop_first() =~= body);
    } else {
        assert(t[0] != '-');
    }
}

} // verus!
