//! Decimal numbers, kept exactly: the type [`Decimal`] holds the canonical
//! text of one numeral.

use vstd::prelude::*;
use crate::numeral::{
    all_digits, assemble, fraction_part, is_canonical, is_digit,
    lemma_canonical_text_is_canonical, lemma_natural_text_is_canonical, lemma_point_at,
    lemma_strip_leading, lemma_strip_trailing, natural_text, parse_decimal, strip_leading_zeros,
    strip_trailing_zeros, unsigned_part, whole_part,
};
use crate::text::{chars_of, push_range};

verus! {

/// A decimal number, held as its canonical text.
#[derive(Debug, PartialEq, Eq)]
pub struct Decimal {
    text: String,
}

impl View for Decimal {
    type V = Seq<char>;

    closed spec fn view(&self) -> Seq<char> {
        self.text@
    }
}

impl Decimal {
    #[verifier::type_invariant]
    spec fn well_formed(self) -> bool {
        is_canonical(self.text@)
    }

    /// Reads the numeral `s`. `None` when `s` is no numeral.
    pub fn parse(s: &str) -> (parsed: Option<Decimal>)
        ensures
            match parsed {
                Some(d) => parse_decimal(s@) == Some(d@),
                None => parse_decimal(s@) is None,
            },
    {
        let chars = chars_of(s);
        let (start, point, behind) = locate_parts(&chars);
        if !digits_between(&chars, start, point) || !digits_between(&chars, behind, chars.len())
            || (point - start) + (chars.len() - behind) == 0 {
            return None;
        }
        let (first, last) = trim_zeros(&chars, start, point, behind);
        let negative = chars.len() > 0 && chars[0] == '-';
        let text = assemble_text(negative, &chars, first, point, behind, last);
        proof {
            lemma_canonical_text_is_canonical(s@);
        }
        Some(Decimal { text })
    }

    /// The natural number `n`.
    pub fn from_natural(n: u64) -> (number: Decimal)
        ensures
            number@ == natural_text(n as nat),
    {
        let text = natural_string(n);
        proof {
            lemma_natural_text_is_canonical(n as nat);
        }
        Decimal { text }
    }

    /// The canonical text of the number.
    pub fn to_text(&self) -> (text: String)
        ensures
            text@ == self@,
            is_canonical(text@),
    {
        proof {
            use_type_invariant(self);
        }
        self.text.clone()
    }
}

/// Decides [`is_digit`].
pub fn digit(c: char) -> (b: bool)
    ensures
        b == is_digit(c),
{
    let n: u32 = c as u32;
    '0' as u32 <= n && n <= '9' as u32
}

/// Whether `chars[from..to]` holds digits only.
fn digits_between(chars: &Vec<char>, from: usize, to: usize) -> (b: bool)
    requires
        from <= to <= chars.len(),
    ensures
        b == all_digits(chars@.subrange(from as int, to as int)),
{
    let mut i: usize = from;
    while i < to
        invariant
            from <= i <= to <= chars.len(),
            all_digits(chars@.subrange(from as int, i as int)),
        decreases to - i,
    {
        if !digit(chars[i]) {
            assert(chars@.subrange(from as int, to as int)[i - from] == chars@[i as int]);
            return false;
        }
        assert forall|k: int| 0 <= k < i + 1 - from implies is_digit(
            #[trigger] chars@.subrange(from as int, i + 1)[k],
        ) by {
            if k < i - from {
                assert(chars@.subrange(from as int, i as int)[k] == chars@[from + k]);
            }
        }
        i += 1;
    }
    true
}

/// Where the parts of a numeral stand in `chars`: the whole part is
/// `chars[start..point]`, the fraction `chars[behind..]`.
fn locate_parts(chars: &Vec<char>) -> (at: (usize, usize, usize))
    ensures
        at.0 <= at.1 <= at.2 <= chars.len(),
        whole_part(chars@) == chars@.subrange(at.0 as int, at.1 as int),
        fraction_part(chars@) == chars@.subrange(at.2 as int, chars.len() as int),
{
    let n = chars.len();
    let start: usize = if n > 0 && (chars[0] == '-' || chars[0] == '+') {
        1
    } else {
        0
    };
    let ghost u = unsigned_part(chars@);
    assert(u =~= chars@.skip(start as int));
    let mut point: usize = start;
    while point < n && chars[point] != '.'
        invariant
            start <= point <= n == chars.len(),
            forall|k: int| start <= k < point ==> chars@[k] != '.',
        decreases n - point,
    {
        point += 1;
    }
    let behind: usize = if point < n {
        point + 1
    } else {
        n
    };
    proof {
        lemma_point_at(u, point - start);
        assert(whole_part(chars@) =~= chars@.subrange(start as int, point as int));
        assert(fraction_part(chars@) =~= chars@.subrange(behind as int, n as int));
    }
    (start, point, behind)
}

/// Where the stripped parts stand: the whole part without leading zeros is
/// `chars[first..point]`, the fraction without trailing zeros
/// `chars[behind..last]`.
fn trim_zeros(chars: &Vec<char>, start: usize, point: usize, behind: usize) -> (at: (usize, usize))
    requires
        start <= point <= behind <= chars.len(),
    ensures
        start <= at.0 <= point,
        behind <= at.1 <= chars.len(),
        strip_leading_zeros(chars@.subrange(start as int, point as int)) == chars@.subrange(
            at.0 as int,
            point as int,
        ),
        strip_trailing_zeros(chars@.subrange(behind as int, chars.len() as int))
            == chars@.subrange(behind as int, at.1 as int),
{
    let n = chars.len();
    let mut first: usize = start;
    while first < point && chars[first] == '0'
        invariant
            start <= first <= point <= chars.len(),
            forall|k: int| start <= k < first ==> chars@[k] == '0',
        decreases point - first,
    {
        first += 1;
    }
    let mut last: usize = n;
    while last > behind && chars[last - 1] == '0'
        invariant
            behind <= last <= n == chars.len(),
            forall|k: int| last <= k < n ==> chars@[k] == '0',
        decreases last,
    {
        last -= 1;
    }
    proof {
        let whole = chars@.subrange(start as int, point as int);
        let fraction = chars@.subrange(behind as int, n as int);
        lemma_strip_leading(whole, first - start);
        lemma_strip_trailing(fraction, last - behind);
        assert(whole.skip(first - start) =~= chars@.subrange(first as int, point as int));
        assert(fraction.take(last - behind) =~= chars@.subrange(behind as int, last as int));
    }
    (first, last)
}

/// The text assembled from a sign, `chars[first..point]` and
/// `chars[behind..last]`.
fn assemble_text(
    negative: bool,
    chars: &Vec<char>,
    first: usize,
    point: usize,
    behind: usize,
    last: usize,
) -> (text: String)
    requires
        first <= point <= chars.len(),
        behind <= last <= chars.len(),
    ensures
        text@ == assemble(
            negative,
            chars@.subrange(first as int, point as int),
            chars@.subrange(behind as int, last as int),
        ),
{
    let mut text = String::new();
    if negative {
        text.push('-');
    }
    if first == point {
        text.push('0');
    } else {
        push_range(&mut text, chars, first, point);
    }
    if last > behind {
        text.push('.');
        push_range(&mut text, chars, behind, last);
    }
    assert(text@ =~= assemble(
        negative,
        chars@.subrange(first as int, point as int),
        chars@.subrange(behind as int, last as int),
    ));
    text
}

/// The decimal text of `n`.
fn natural_string(n: u64) -> (text: String)
    ensures
        text@ == natural_text(n as nat),
    decreases n,
{
    let mut text = if n < 10 {
        String::new()
    } else {
        natural_string(n / 10)
    };
    let d: u8 = (n % 10) as u8;
    text.push(('0' as u8 + d) as char);
    assert(text@ =~= natural_text(n as nat));
    text
}

} // verus!
