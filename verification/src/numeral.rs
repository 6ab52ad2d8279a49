//! Numerals: the grammar of a decimal number as it is typed, its canonical
//! text, and the number it denotes.
//!
//! A numeral is an optional sign, digits, and optionally a point followed by
//! more digits, with at least one digit in all: `12`, `-0.50`, `+7.`, `.25`.
//! Its canonical text drops a `+`, leading zeros of the whole part (keeping a
//! single `0`), trailing zeros of the fraction, and a point that nothing
//! follows: `12`, `-0.5`, `7`, `0.25`. Nothing is rounded: the canonical text
//! denotes the number that was typed.

use vstd::prelude::*;

verus! {

/// Whether `c` is one of `0` to `9`.
pub open spec fn is_digit(c: char) -> bool {
    '0' as u32 <= c as u32 <= '9' as u32
}

/// Whether every character of `s` is a digit.
pub open spec fn all_digits(s: Seq<char>) -> bool {
    forall|i: int| 0 <= i < s.len() ==> is_digit(#[trigger] s[i])
}

/// Whether `s` starts with `-` or `+`.
pub open spec fn has_sign(s: Seq<char>) -> bool {
    s.len() > 0 && (s[0] == '-' || s[0] == '+')
}

/// Whether `s` starts with `-`.
pub open spec fn is_negative(s: Seq<char>) -> bool {
    s.len() > 0 && s[0] == '-'
}

/// `s` without its sign, if it has one.
pub open spec fn unsigned_part(s: Seq<char>) -> Seq<char> {
    if has_sign(s) {
        s.skip(1)
    } else {
        s
    }
}

/// The index of the first `.` in `u`, or `u.len()` when there is none.
pub open spec fn point_at(u: Seq<char>) -> int
    decreases u.len(),
{
    if u.len() == 0 || u[0] == '.' {
        0
    } else {
        1 + point_at(u.skip(1))
    }
}

/// What stands between the sign and the first point.
pub open spec fn whole_part(s: Seq<char>) -> Seq<char> {
    let u = unsigned_part(s);
    u.take(point_at(u))
}

/// What stands behind the first point; empty when there is no point.
pub open spec fn fraction_part(s: Seq<char>) -> Seq<char> {
    let u = unsigned_part(s);
    if point_at(u) < u.len() {
        u.skip(point_at(u) + 1)
    } else {
        Seq::empty()
    }
}

/// Whether `s` is a numeral: both parts hold digits only, and at least one.
pub open spec fn is_decimal(s: Seq<char>) -> bool {
    &&& all_digits(whole_part(s))
    &&& all_digits(fraction_part(s))
    &&& whole_part(s).len() + fraction_part(s).len() > 0
}

/// `d` without the zeros it starts with.
pub open spec fn strip_leading_zeros(d: Seq<char>) -> Seq<char>
    decreases d.len(),
{
    if d.len() > 0 && d[0] == '0' {
        strip_leading_zeros(d.skip(1))
    } else {
        d
    }
}

/// `d` without the zeros it ends with.
pub open spec fn strip_trailing_zeros(d: Seq<char>) -> Seq<char>
    decreases d.len(),
{
    if d.len() > 0 && d.last() == '0' {
        strip_trailing_zeros(d.drop_last())
    } else {
        d
    }
}

/// The text of a numeral from its three parts: `-` if `negative`, the whole
/// part or `0` if it is empty, and the fraction behind a point if it is not
/// empty.
pub open spec fn assemble(negative: bool, whole: Seq<char>, fraction: Seq<char>) -> Seq<char> {
    (if negative {
        seq!['-']
    } else {
        Seq::empty()
    }) + (if whole.len() == 0 {
        seq!['0']
    } else {
        whole
    }) + (if fraction.len() == 0 {
        Seq::empty()
    } else {
        seq!['.'] + fraction
    })
}

/// The canonical text of the numeral `s`.
pub open spec fn canonical_text(s: Seq<char>) -> Seq<char> {
    assemble(
        is_negative(s),
        strip_leading_zeros(whole_part(s)),
        strip_trailing_zeros(fraction_part(s)),
    )
}

/// Whether `s` is a numeral that is its own canonical text.
pub open spec fn is_canonical(s: Seq<char>) -> bool {
    is_decimal(s) && canonical_text(s) == s
}

/// What parsing `s` gives: its canonical text if it is a numeral.
pub open spec fn parse_decimal(s: Seq<char>) -> Option<Seq<char>> {
    if is_decimal(s) {
        Some(canonical_text(s))
    } else {
        None
    }
}

/// The canonical texts, described directly: no `+`; a whole part of at
/// least one digit that starts with a zero only where it is `0`; and either
/// no point, or a point before digits of which the last is no zero.
pub open spec fn has_canonical_form(s: Seq<char>) -> bool {
    let w = whole_part(s);
    let f = fraction_part(s);
    let u = unsigned_part(s);
    &&& !(s.len() > 0 && s[0] == '+')
    &&& all_digits(w)
    &&& w.len() >= 1
    &&& w.len() > 1 ==> w[0] != '0'
    &&& all_digits(f)
    &&& point_at(u) < u.len() ==> f.len() >= 1 && f.last() != '0'
}

/// The character that shows the digit `d`.
pub open spec fn digit_char(d: nat) -> char
    recommends
        d < 10,
{
    ('0' as u8 + d) as u8 as char
}

/// The decimal text of `n`, without leading zeros.
pub open spec fn natural_text(n: nat) -> Seq<char>
    decreases n,
{
    if n < 10 {
        seq![digit_char(n)]
    } else {
        natural_text(n / 10).push(digit_char(n % 10))
    }
}

/// The number that the digit `c` stands for; zero for other characters.
pub open spec fn digit_value(c: char) -> nat {
    if is_digit(c) {
        (c as u32 - '0' as u32) as nat
    } else {
        0
    }
}

/// The natural number that the digits `d` spell; zero for no digits.
pub open spec fn digits_value(d: Seq<char>) -> nat
    decreases d.len(),
{
    if d.len() == 0 {
        0
    } else {
        digits_value(d.drop_last()) * 10 + digit_value(d.last())
    }
}

/// Ten to the power of `n`.
pub open spec fn pow10(n: nat) -> nat
    decreases n,
{
    if n == 0 {
        1
    } else {
        10 * pow10((n - 1) as nat)
    }
}

/// The digits of the numeral `s` read as one natural number: the number
/// that `s` denotes, without its sign, times ten to the power of
/// [`scale`].
pub open spec fn mantissa(s: Seq<char>) -> nat {
    digits_value(whole_part(s) + fraction_part(s))
}

/// The number of digits behind the point of the numeral `s`.
pub open spec fn scale(s: Seq<char>) -> nat {
    fraction_part(s).len()
}

/// Whether the numerals `a` and `b` denote the same number: they have the
/// same sign, and their digits spell the same number once both are brought
/// to the same scale.
pub open spec fn same_number(a: Seq<char>, b: Seq<char>) -> bool {
    &&& is_negative(a) == is_negative(b)
    &&& mantissa(a) * pow10(scale(b)) == mantissa(b) * pow10(scale(a))
}

/// The first point of `u` is at `p` when no point stands before `p` and one
/// stands at `p`, or `u` ends there.
pub proof fn lemma_point_at(u: Seq<char>, p: int)
    requires
        0 <= p <= u.len(),
        forall|k: int| 0 <= k < p ==> u[k] != '.',
        p == u.len() || u[p] == '.',
    ensures
        point_at(u) == p,
    decreases u.len(),
{
    if p > 0 {
        let rest = u.skip(1);
        assert forall|k: int| 0 <= k < p - 1 implies rest[k] != '.' by {
            assert(rest[k] == u[k + 1]);
        }
        lemma_point_at(rest, p - 1);
    }
}

/// Where the first point of `u` stands: within `u`, behind characters that
/// are no points, and on a point unless `u` has none.
pub proof fn lemma_point_at_is_first(u: Seq<char>)
    ensures
        0 <= point_at(u) <= u.len(),
        forall|k: int| 0 <= k < point_at(u) ==> u[k] != '.',
        point_at(u) < u.len() ==> u[point_at(u)] == '.',
    decreases u.len(),
{
    if u.len() == 0 || u[0] == '.' {
    } else {
        let rest = u.skip(1);
        lemma_point_at_is_first(rest);
        assert forall|k: int| 0 <= k < point_at(u) implies u[k] != '.' by {
            if k > 0 {
                assert(rest[k - 1] == u[k]);
            }
        }
        if point_at(u) < u.len() {
            assert(u[point_at(u)] == rest[point_at(rest)]);
        }
    }
}

/// Stripping leading zeros drops exactly the first `k` characters when these
/// are zeros and the next one is not.
pub proof fn lemma_strip_leading(d: Seq<char>, k: int)
    requires
        0 <= k <= d.len(),
        forall|j: int| 0 <= j < k ==> d[j] == '0',
        k == d.len() || d[k] != '0',
    ensures
        strip_leading_zeros(d) == d.skip(k),
    decreases d.len(),
{
    if k > 0 {
        let rest = d.skip(1);
        assert forall|j: int| 0 <= j < k - 1 implies rest[j] == '0' by {
            assert(rest[j] == d[j + 1]);
        }
        lemma_strip_leading(rest, k - 1);
        assert(rest.skip(k - 1) =~= d.skip(k));
    } else {
        assert(d.skip(0) =~= d);
    }
}

/// Stripping trailing zeros keeps exactly the first `k` characters when all
/// behind them are zeros and the one before is not.
pub proof fn lemma_strip_trailing(d: Seq<char>, k: int)
    requires
        0 <= k <= d.len(),
        forall|j: int| k <= j < d.len() ==> d[j] == '0',
        k == 0 || d[k - 1] != '0',
    ensures
        strip_trailing_zeros(d) == d.take(k),
    decreases d.len(),
{
    if k < d.len() {
        let rest = d.drop_last();
        lemma_strip_trailing(rest, k);
        assert(rest.take(k) =~= d.take(k));
    } else {
        assert(d.take(k) =~= d);
    }
}

/// What stripping leading zeros leaves is a tail of `d` that does not start
/// with a zero.
pub proof fn lemma_stripped_leading(d: Seq<char>)
    ensures
        strip_leading_zeros(d).len() <= d.len(),
        strip_leading_zeros(d) == d.skip(d.len() - strip_leading_zeros(d).len()),
        strip_leading_zeros(d).len() > 0 ==> strip_leading_zeros(d)[0] != '0',
        all_digits(d) ==> all_digits(strip_leading_zeros(d)),
        forall|j: int| 0 <= j < d.len() - strip_leading_zeros(d).len() ==> d[j] == '0',
    decreases d.len(),
{
    if d.len() > 0 && d[0] == '0' {
        let rest = d.skip(1);
        lemma_stripped_leading(rest);
        let r = strip_leading_zeros(rest);
        assert(rest.skip(rest.len() - r.len()) =~= d.skip(d.len() - r.len()));
        assert forall|j: int| 0 <= j < d.len() - r.len() implies d[j] == '0' by {
            if j > 0 {
                assert(rest[j - 1] == d[j]);
            }
        }
        if all_digits(d) {
            assert forall|i: int| 0 <= i < rest.len() implies is_digit(#[trigger] rest[i]) by {
                assert(rest[i] == d[i + 1]);
            }
        }
    } else {
        assert(d.skip(0) =~= d);
    }
}

/// What stripping trailing zeros leaves is a head of `d` that does not end
/// with a zero.
pub proof fn lemma_stripped_trailing(d: Seq<char>)
    ensures
        strip_trailing_zeros(d).len() <= d.len(),
        strip_trailing_zeros(d) == d.take(strip_trailing_zeros(d).len() as int),
        strip_trailing_zeros(d).len() > 0 ==> strip_trailing_zeros(d).last() != '0',
        all_digits(d) ==> all_digits(strip_trailing_zeros(d)),
        forall|j: int| strip_trailing_zeros(d).len() <= j < d.len() ==> d[j] == '0',
    decreases d.len(),
{
    if d.len() > 0 && d.last() == '0' {
        let rest = d.drop_last();
        lemma_stripped_trailing(rest);
        let r = strip_trailing_zeros(rest);
        assert(rest.take(r.len() as int) =~= d.take(r.len() as int));
        assert forall|j: int| r.len() <= j < d.len() implies d[j] == '0' by {
            if j < rest.len() {
                assert(rest[j] == d[j]);
            }
        }
        if all_digits(d) {
            assert forall|i: int| 0 <= i < rest.len() implies is_digit(#[trigger] rest[i]) by {
                assert(rest[i] == d[i]);
            }
        }
    } else {
        assert(d.take(d.len() as int) =~= d);
    }
}

/// The parts of an assembled text are the parts it was assembled from, where
/// these are digits, the whole part has no leading zero and the fraction no
/// trailing one.
pub proof fn lemma_parts_of_assembled(negative: bool, whole: Seq<char>, fraction: Seq<char>)
    requires
        all_digits(whole),
        all_digits(fraction),
    ensures
        is_negative(assemble(negative, whole, fraction)) == negative,
        whole_part(assemble(negative, whole, fraction)) == (if whole.len() == 0 {
            seq!['0']
        } else {
            whole
        }),
        fraction_part(assemble(negative, whole, fraction)) == fraction,
{
    let text = assemble(negative, whole, fraction);
    let shown = if whole.len() == 0 {
        seq!['0']
    } else {
        whole
    };
    let tail = if fraction.len() == 0 {
        Seq::<char>::empty()
    } else {
        seq!['.'] + fraction
    };
    assert(is_digit(shown[0]));
    let u = unsigned_part(text);
    assert(u =~= shown + tail);
    assert forall|k: int| 0 <= k < shown.len() implies u[k] != '.' by {
        assert(is_digit(shown[k]));
    }
    lemma_point_at(u, shown.len() as int);
    assert(u.take(shown.len() as int) =~= shown);
    if fraction.len() > 0 {
        assert(u.skip(shown.len() as int + 1) =~= fraction);
    }
}

/// A numeral is not empty, and holds nothing but digits, points and signs.
pub proof fn lemma_numeral_characters(s: Seq<char>)
    requires
        is_decimal(s),
    ensures
        s.len() > 0,
        forall|k: int|
            0 <= k < s.len() ==> is_digit(#[trigger] s[k]) || s[k] == '.' || s[k] == '-' || s[k]
                == '+',
{
    let u = unsigned_part(s);
    let p = point_at(u);
    lemma_point_at_is_first(u);
    assert forall|k: int| 0 <= k < s.len() implies is_digit(#[trigger] s[k]) || s[k] == '.' || s[k]
        == '-' || s[k] == '+' by {
        let shift: int = if has_sign(s) {
            1
        } else {
            0
        };
        if k >= shift {
            let j = k - shift;
            assert(u[j] == s[k]);
            if j < p {
                assert(whole_part(s)[j] == u[j]);
            } else if j > p {
                assert(fraction_part(s)[j - p - 1] == u[j]);
            }
        }
    }
}

/// The canonical text of a numeral is a numeral, and canonical.
pub proof fn lemma_canonical_text_is_canonical(s: Seq<char>)
    requires
        is_decimal(s),
    ensures
        is_canonical(canonical_text(s)),
{
    let whole = strip_leading_zeros(whole_part(s));
    let fraction = strip_trailing_zeros(fraction_part(s));
    lemma_stripped_leading(whole_part(s));
    lemma_stripped_trailing(fraction_part(s));
    lemma_parts_of_assembled(is_negative(s), whole, fraction);
    let shown = if whole.len() == 0 {
        seq!['0']
    } else {
        whole
    };
    if whole.len() == 0 {
        lemma_strip_leading(shown, 1);
        assert(shown.skip(1) =~= Seq::<char>::empty());
    } else {
        lemma_strip_leading(shown, 0);
        assert(shown.skip(0) =~= shown);
    }
    lemma_strip_trailing(fraction, fraction.len() as int);
    assert(fraction.take(fraction.len() as int) =~= fraction);
}

/// A numeral is canonical exactly where it has the canonical form.
pub proof fn law_canonical_form(s: Seq<char>)
    ensures
        is_canonical(s) <==> has_canonical_form(s),
{
    let w = whole_part(s);
    let f = fraction_part(s);
    let u = unsigned_part(s);
    lemma_point_at_is_first(u);
    if is_canonical(s) {
        let kept = strip_leading_zeros(w);
        let tail = strip_trailing_zeros(f);
        lemma_stripped_leading(w);
        lemma_stripped_trailing(f);
        lemma_parts_of_assembled(is_negative(s), kept, tail);
        let c = assemble(is_negative(s), kept, tail);
        assert(c == s);
        assert(is_digit(w[0]));
        if point_at(u) < u.len() {
            assert(f.len() >= 1) by {
                if tail.len() == 0 {
                    let shown = if kept.len() == 0 {
                        seq!['0']
                    } else {
                        kept
                    };
                    assert(unsigned_part(c) =~= shown);
                    assert(is_digit(shown[point_at(u)]));
                }
            }
        }
    }
    if has_canonical_form(s) {
        if w[0] == '0' {
            lemma_strip_leading(w, 1);
            assert(w.skip(1) =~= Seq::<char>::empty());
        } else {
            lemma_strip_leading(w, 0);
            assert(w.skip(0) =~= w);
        }
        lemma_strip_trailing(f, f.len() as int);
        assert(f.take(f.len() as int) =~= f);
        assert(canonical_text(s) =~= s) by {
            if point_at(u) < u.len() {
                assert(u =~= w + seq!['.'] + f);
            } else {
                assert(u =~= w);
            }
            if has_sign(s) {
                assert(s =~= seq!['-'] + u);
            }
        }
    }
}

/// The text of a natural number holds digits only, and starts with a zero
/// only for zero itself.
pub proof fn lemma_natural_text_digits(n: nat)
    ensures
        natural_text(n).len() >= 1,
        all_digits(natural_text(n)),
        n > 0 ==> natural_text(n)[0] != '0',
        n == 0 ==> natural_text(n) == seq!['0'],
    decreases n,
{
    if n >= 10 {
        lemma_natural_text_digits(n / 10);
    }
}

/// The text of a natural number is a canonical numeral.
pub proof fn lemma_natural_text_is_canonical(n: nat)
    ensures
        is_canonical(natural_text(n)),
{
    let text = natural_text(n);
    lemma_natural_text_digits(n);
    assert(is_digit(text[0]));
    assert(unsigned_part(text) == text);
    assert forall|k: int| 0 <= k < text.len() implies text[k] != '.' by {
        assert(is_digit(text[k]));
    }
    lemma_point_at(text, text.len() as int);
    assert(text.take(text.len() as int) =~= text);
    assert(whole_part(text) == text);
    assert(fraction_part(text) =~= Seq::<char>::empty());
    if n == 0 {
        lemma_strip_leading(text, 1);
        assert(text.skip(1) =~= Seq::<char>::empty());
    } else {
        lemma_strip_leading(text, 0);
        assert(text.skip(0) =~= text);
    }
    assert(canonical_text(text) =~= text);
}

/// Powers of ten multiply as their exponents add.
pub proof fn lemma_pow10_adds(a: nat, b: nat)
    ensures
        pow10(a + b) == pow10(a) * pow10(b),
    decreases a,
{
    if a > 0 {
        lemma_pow10_adds((a - 1) as nat, b);
        assert((a + b - 1) as nat == (a - 1) as nat + b);
        assert(pow10(a + b) == 10 * pow10((a + b - 1) as nat));
        assert(10 * (pow10((a - 1) as nat) * pow10(b)) == (10 * pow10((a - 1) as nat)) * pow10(b))
            by (nonlinear_arith);
    } else {
        assert(pow10(a) == 1);
        assert(a + b == b);
        assert(1 * pow10(b) == pow10(b)) by (nonlinear_arith);
    }
}

/// Digits written behind others shift these to the left.
pub proof fn lemma_digits_value_of_concat(a: Seq<char>, b: Seq<char>)
    ensures
        digits_value(a + b) == digits_value(a) * pow10(b.len()) + digits_value(b),
    decreases b.len(),
{
    let x = digits_value(a);
    if b.len() == 0 {
        assert(a + b =~= a);
        assert(pow10(b.len()) == 1);
        assert(x * 1 == x) by (nonlinear_arith);
    } else {
        let front = b.drop_last();
        lemma_digits_value_of_concat(a, front);
        assert((a + b).drop_last() =~= a + front);
        assert((a + b).last() == b.last());
        let p = pow10(front.len());
        assert(pow10(b.len()) == 10 * p);
        assert((x * p + digits_value(front)) * 10 == x * (10 * p) + digits_value(front) * 10)
            by (nonlinear_arith);
    }
}

/// Zeros spell zero.
pub proof fn lemma_zeros_spell_zero(d: Seq<char>)
    requires
        forall|j: int| 0 <= j < d.len() ==> d[j] == '0',
    ensures
        digits_value(d) == 0,
    decreases d.len(),
{
    if d.len() > 0 {
        lemma_zeros_spell_zero(d.drop_last());
    }
}

/// Leading zeros do not change what digits spell.
pub proof fn lemma_leading_zeros_keep_value(d: Seq<char>)
    ensures
        digits_value(strip_leading_zeros(d)) == digits_value(d),
{
    let kept = strip_leading_zeros(d);
    lemma_stripped_leading(d);
    let zeros = d.take(d.len() - kept.len());
    assert(d =~= zeros + kept);
    lemma_zeros_spell_zero(zeros);
    lemma_digits_value_of_concat(zeros, kept);
    assert(0 * pow10(kept.len()) == 0) by (nonlinear_arith);
}

/// Each trailing zero multiplies what digits spell by ten.
pub proof fn lemma_trailing_zeros_scale_value(d: Seq<char>)
    ensures
        strip_trailing_zeros(d).len() <= d.len(),
        digits_value(d) == digits_value(strip_trailing_zeros(d)) * pow10(
            (d.len() - strip_trailing_zeros(d).len()) as nat,
        ),
{
    let kept = strip_trailing_zeros(d);
    lemma_stripped_trailing(d);
    let zeros = d.skip(kept.len() as int);
    assert(d =~= kept + zeros);
    lemma_zeros_spell_zero(zeros);
    lemma_digits_value_of_concat(kept, zeros);
}

/// The text of a natural number spells that number.
pub proof fn law_natural_text_spells(n: nat)
    ensures
        digits_value(natural_text(n)) == n,
    decreases n,
{
    reveal_with_fuel(digits_value, 2);
    if n < 10 {
        assert(natural_text(n).drop_last() =~= Seq::<char>::empty());
    } else {
        law_natural_text_spells(n / 10);
        assert(natural_text(n).drop_last() =~= natural_text(n / 10));
    }
}

/// The canonical text of a numeral denotes the number that the numeral
/// denotes.
pub proof fn law_canonical_text_keeps_the_number(s: Seq<char>)
    requires
        is_decimal(s),
    ensures
        same_number(s, canonical_text(s)),
{
    let whole = whole_part(s);
    let fraction = fraction_part(s);
    let w = strip_leading_zeros(whole);
    let f = strip_trailing_zeros(fraction);
    let c = canonical_text(s);
    lemma_stripped_leading(whole);
    lemma_stripped_trailing(fraction);
    lemma_parts_of_assembled(is_negative(s), w, f);
    let shown = whole_part(c);
    assert(digits_value(shown) == digits_value(w)) by {
        if w.len() == 0 {
            reveal_with_fuel(digits_value, 2);
            assert(shown.drop_last() =~= Seq::<char>::empty());
            assert(shown.last() == '0');
            assert(digits_value(shown) == 0);
        }
    }
    lemma_leading_zeros_keep_value(whole);
    lemma_trailing_zeros_scale_value(fraction);
    lemma_digits_value_of_concat(whole, fraction);
    lemma_digits_value_of_concat(shown, f);
    let m = (fraction.len() - f.len()) as nat;
    lemma_pow10_adds(f.len(), m);
    let x = digits_value(w);
    let y = digits_value(f);
    let pf = pow10(f.len());
    let pm = pow10(m);
    assert(mantissa(c) == x * pf + y);
    assert(mantissa(s) == x * (pf * pm) + y * pm);
    assert((x * (pf * pm) + y * pm) * pf == (x * pf + y) * (pf * pm)) by (nonlinear_arith);
}

} // verus!
