//! Signed decimal amounts read from ledger cells.

use crate::text::{chars_of, remove_all, remove_all_chars, string_of, trim, trim_chars};
use vstd::prelude::*;

verus! {

pub open spec fn is_digit(c: char) -> bool {
    '0' <= c && c <= '9'
}

/// An unsigned decimal literal: digits with at most one point, and at least
/// one digit.
pub open spec fn is_magnitude(s: Seq<char>) -> bool {
    &&& forall|i: int| 0 <= i < s.len() ==> is_digit(#[trigger] s[i]) || s[i] == '.'
    &&& exists|i: int| 0 <= i < s.len() && is_digit(#[trigger] s[i])
    &&& forall|i: int, j: int| 0 <= i < s.len() && 0 <= j < s.len() && s[i] == '.' && s[j] == '.' ==> i == j
}

/// A magnitude whose value is zero.
pub open spec fn is_zero(s: Seq<char>) -> bool {
    forall|i: int| 0 <= i < s.len() ==> s[i] == '0' || s[i] == '.'
}

/// The currency code that amount cells carry.
pub open spec fn currency_code() -> Seq<char> {
    seq!['C', 'N', 'Y']
}

/// The text of an amount cell without the currency code and surrounding
/// whitespace.
pub open spec fn amount_text(raw: Seq<char>) -> Seq<char> {
    trim(remove_all(raw, currency_code()))
}

/// The position of the first point of `s`, or its length when it has none.
pub open spec fn dot_index(s: Seq<char>) -> int
    decreases s.len(),
{
    if s.len() == 0 {
        0
    } else if s[0] == '.' {
        0
    } else {
        1 + dot_index(s.drop_first())
    }
}

/// `s` without its leading zeros.
pub open spec fn strip_leading_zeros(s: Seq<char>) -> Seq<char>
    decreases s.len(),
{
    if s.len() > 0 && s[0] == '0' {
        strip_leading_zeros(s.drop_first())
    } else {
        s
    }
}

/// `s` without its trailing zeros.
pub open spec fn strip_trailing_zeros(s: Seq<char>) -> Seq<char>
    decreases s.len(),
{
    if s.len() > 0 && s.last() == '0' {
        strip_trailing_zeros(s.drop_last())
    } else {
        s
    }
}

/// The shortest way of writing a magnitude: no leading zeros in the integer
/// part (but one zero for an empty one), no trailing zeros in the fraction,
/// and no point when the fraction is empty.
pub open spec fn canonical(m: Seq<char>) -> Seq<char> {
    let d = dot_index(m);
    let int_part = strip_leading_zeros(m.take(d));
    let frac = strip_trailing_zeros(
        if d < m.len() {
            m.skip(d + 1)
        } else {
            Seq::empty()
        },
    );
    (if int_part.len() == 0 {
        seq!['0']
    } else {
        int_part
    }) + (if frac.len() > 0 {
        seq!['.'] + frac
    } else {
        Seq::empty()
    })
}

/// The sign and magnitude that an amount cell holds, if it holds a number.
pub open spec fn parse_amount_spec(raw: Seq<char>) -> Option<(bool, Seq<char>)> {
    let t = amount_text(raw);
    let (neg, m) = if t.len() > 0 && t[0] == '-' {
        (true, t.skip(1))
    } else if t.len() > 0 && t[0] == '+' {
        (false, t.skip(1))
    } else {
        (false, t)
    };
    if is_magnitude(m) {
        Some((neg, canonical(m)))
    } else {
        None
    }
}

/// The amount with the opposite sign; zero has no sign after negation.
pub open spec fn negated(a: (bool, Seq<char>)) -> (bool, Seq<char>) {
    (if is_zero(a.1) {
        false
    } else {
        !a.0
    }, a.1)
}

/// The text of an amount: a minus sign when negative, then the magnitude.
pub open spec fn render_spec(a: (bool, Seq<char>)) -> Seq<char> {
    if a.0 {
        seq!['-'] + a.1
    } else {
        a.1
    }
}

/// A signed decimal number, kept as its sign and its digits in canonical
/// form.
pub struct Amount {
    negative: bool,
    magnitude: String,
}

impl View for Amount {
    type V = (bool, Seq<char>);

    closed spec fn view(&self) -> (bool, Seq<char>) {
        (self.negative, self.magnitude@)
    }
}

fn check_magnitude(m: &Vec<char>) -> (r: bool)
    ensures
        r == is_magnitude(m@),
{
    let mut dots: usize = 0;
    let mut dot_at: usize = 0;
    let mut digits: bool = false;
    let mut i: usize = 0;
    while i < m.len()
        invariant
            i <= m@.len(),
            dots <= 1,
            forall|k: int| 0 <= k < i ==> is_digit(#[trigger] m@[k]) || m@[k] == '.',
            digits <==> exists|k: int| 0 <= k < i && is_digit(#[trigger] m@[k]),
            dots == 0 ==> forall|k: int| 0 <= k < i ==> m@[k] != '.',
            dots == 1 ==> dot_at < i && m@[dot_at as int] == '.' && forall|k: int|
                0 <= k < i && m@[k] == '.' ==> k == dot_at,
        decreases m@.len() - i,
    {
        let c = m[i];
        if c == '.' {
            if dots == 1 {
                return false;
            }
            dots = 1;
            dot_at = i;
        } else if '0' <= c && c <= '9' {
            digits = true;
        } else {
            return false;
        }
        i = i + 1;
    }
    digits
}

proof fn lemma_dot_index(s: Seq<char>, i: int)
    requires
        0 <= i <= s.len(),
        forall|k: int| 0 <= k < i ==> s[k] != '.',
        i == s.len() || s[i] == '.',
    ensures
        dot_index(s) == i,
    decreases i,
{
    if i > 0 {
        assert forall|k: int| 0 <= k < i - 1 implies s.drop_first()[k] != '.' by {
            assert(s.drop_first()[k] == s[k + 1]);
        }
        lemma_dot_index(s.drop_first(), i - 1);
    }
}

proof fn lemma_strip_leading(s: Seq<char>, i: int)
    requires
        0 <= i <= s.len(),
        forall|k: int| 0 <= k < i ==> s[k] == '0',
    ensures
        strip_leading_zeros(s) == strip_leading_zeros(s.skip(i)),
    decreases i,
{
    if i > 0 {
        assert forall|k: int| 0 <= k < i - 1 implies s.drop_first()[k] == '0' by {
            assert(s.drop_first()[k] == s[k + 1]);
        }
        lemma_strip_leading(s.drop_first(), i - 1);
        assert(s.drop_first().skip(i - 1) == s.skip(i));
    } else {
        assert(s.skip(0) == s);
    }
}

proof fn lemma_strip_trailing(s: Seq<char>, j: int)
    requires
        0 <= j <= s.len(),
        forall|k: int| j <= k < s.len() ==> s[k] == '0',
    ensures
        strip_trailing_zeros(s) == strip_trailing_zeros(s.take(j)),
    decreases s.len() - j,
{
    if j < s.len() {
        lemma_strip_trailing(s.drop_last(), j);
        assert(s.drop_last().take(j) == s.take(j));
    } else {
        assert(s.take(j) == s);
    }
}

fn copy_range(v: &Vec<char>, lo: usize, hi: usize, out: &mut Vec<char>)
    requires
        lo <= hi <= v@.len(),
    ensures
        final(out)@ == old(out)@ + v@.subrange(lo as int, hi as int),
{
    let mut i: usize = lo;
    while i < hi
        invariant
            lo <= i <= hi <= v@.len(),
            out@ == old(out)@ + v@.subrange(lo as int, i as int),
        decreases hi - i,
    {
        out.push(v[i]);
        i = i + 1;
        assert(out@ =~= old(out)@ + v@.subrange(lo as int, i as int));
    }
}

fn canonical_chars(m: &Vec<char>) -> (r: Vec<char>)
    ensures
        r@ == canonical(m@),
{
    let n = m.len();
    let mut d: usize = 0;
    while d < n && m[d] != '.'
        invariant
            n == m@.len(),
            d <= n,
            forall|k: int| 0 <= k < d ==> m@[k] != '.',
        decreases n - d,
    {
        d = d + 1;
    }
    proof {
        lemma_dot_index(m@, d as int);
    }
    let mut lo: usize = 0;
    while lo < d && m[lo] == '0'
        invariant
            n == m@.len(),
            lo <= d <= n,
            forall|k: int| 0 <= k < lo ==> m@[k] == '0',
        decreases d - lo,
    {
        lo = lo + 1;
    }
    proof {
        let ip = m@.take(d as int);
        lemma_strip_leading(ip, lo as int);
        assert(ip.skip(lo as int) == m@.subrange(lo as int, d as int));
        assert(strip_leading_zeros(m@.subrange(lo as int, d as int)) == m@.subrange(lo as int, d as int));
    }
    let start: usize = if d < n { d + 1 } else { n };
    let mut hi: usize = n;
    while hi > start && m[hi - 1] == '0'
        invariant
            n == m@.len(),
            start <= hi <= n,
            forall|k: int| hi <= k < n ==> m@[k] == '0',
        decreases hi,
    {
        hi = hi - 1;
    }
    let ghost fp = if d < n { m@.skip(d + 1) } else { Seq::<char>::empty() };
    proof {
        assert(fp == m@.subrange(start as int, n as int));
        assert forall|k: int| hi - start <= k < fp.len() implies fp[k] == '0' by {
            assert(fp[k] == m@[k + start]);
        }
        lemma_strip_trailing(fp, hi - start);
        assert(fp.take(hi - start) == m@.subrange(start as int, hi as int));
        assert(strip_trailing_zeros(m@.subrange(start as int, hi as int)) == m@.subrange(start as int, hi as int));
    }
    let mut r: Vec<char> = Vec::new();
    if lo == d {
        r.push('0');
        assert(r@ =~= seq!['0']);
    } else {
        copy_range(m, lo, d, &mut r);
        assert(r@ =~= m@.subrange(lo as int, d as int));
    }
    if hi > start {
        r.push('.');
        copy_range(m, start, hi, &mut r);
    }
    proof {
        assert(r@ =~= canonical(m@));
    }
    r
}

fn check_zero(m: &Vec<char>) -> (r: bool)
    ensures
        r == is_zero(m@),
{
    let mut i: usize = 0;
    while i < m.len()
        invariant
            i <= m@.len(),
            forall|k: int| 0 <= k < i ==> m@[k] == '0' || m@[k] == '.',
        decreases m@.len() - i,
    {
        if m[i] != '0' && m[i] != '.' {
            return false;
        }
        i = i + 1;
    }
    true
}

impl Amount {
    /// Reads an amount cell: removes the currency code, trims whitespace, and
    /// reads an optional sign and a decimal literal.
    pub fn parse(raw: &str) -> (r: Option<Amount>)
        ensures
            r is Some <==> parse_amount_spec(raw@) is Some,
            r is Some ==> r->0@ == parse_amount_spec(raw@)->0,
    {
        let chars = chars_of(raw);
        let code = vec!['C', 'N', 'Y'];
        proof {
            assert(code@ == currency_code());
        }
        let stripped = remove_all_chars(&chars, &code);
        let t = trim_chars(&stripped);
        let ghost tv = t@;
        let mut negative = false;
        let mut start: usize = 0;
        if t.len() > 0 && t[0] == '-' {
            negative = true;
            start = 1;
        } else if t.len() > 0 && t[0] == '+' {
            start = 1;
        }
        let mut m: Vec<char> = Vec::new();
        let mut i: usize = start;
        while i < t.len()
            invariant
                start <= i <= t@.len(),
                m@ == t@.subrange(start as int, i as int),
            decreases t@.len() - i,
        {
            m.push(t[i]);
            i = i + 1;
        }
        proof {
            assert(m@ == tv.skip(start as int));
            assert(tv.skip(0) == tv);
        }
        if check_magnitude(&m) {
            let c = canonical_chars(&m);
            Some(Amount { negative, magnitude: string_of(&c) })
        } else {
            None
        }
    }

    /// The amount with the opposite sign.
    pub fn negate(&self) -> (r: Amount)
        ensures
            r@ == negated(self@),
    {
        let m = chars_of(self.magnitude.as_str());
        let zero = check_zero(&m);
        Amount { negative: !zero && !self.negative, magnitude: self.magnitude.clone() }
    }

    /// The amount as text: `-` when negative, then the digits as read.
    pub fn render(&self) -> (r: String)
        ensures
            r@ == render_spec(self@),
    {
        if self.negative {
            let mut s = String::from_str("-");
            s.append(self.magnitude.as_str());
            proof {
                reveal_strlit("-");
            }
            s
        } else {
            self.magnitude.clone()
        }
    }
}

/// Negating twice gives the amount back, for every amount but a negative
/// zero, which negation turns into zero.
pub proof fn lemma_negate_twice(a: (bool, Seq<char>))
    requires
        !(a.0 && is_zero(a.1)),
    ensures
        negated(negated(a)) == a,
{
}

} // verus!
