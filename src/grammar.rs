//! The grammar of number text: an optional sign, digits with at most one
//! decimal point, then optionally the letter `e` and a signed integer
//! exponent; or the literal token `NaN`.
use vstd::prelude::*;
use vstd::string::*;

verus! {

pub open spec fn is_digit(c: char) -> bool {
    '0' <= c && c <= '9'
}

pub open spec fn is_sign(c: char) -> bool {
    c == '+' || c == '-'
}

/// `s` without its leading sign, if it has one.
pub open spec fn unsigned_part(s: Seq<char>) -> Seq<char> {
    if s.len() > 0 && is_sign(s[0]) {
        s.skip(1)
    } else {
        s
    }
}

/// Digits and at most one decimal point, with at least one digit.
pub open spec fn unsigned_decimal(s: Seq<char>) -> bool {
    &&& forall|i: int| 0 <= i < s.len() ==> is_digit(#[trigger] s[i]) || s[i] == '.'
    &&& forall|i: int, j: int|
        0 <= i < s.len() && 0 <= j < s.len() && #[trigger] s[i] == '.' && #[trigger] s[j] == '.'
            ==> i == j
    &&& exists|i: int| 0 <= i < s.len() && is_digit(#[trigger] s[i])
}

/// A decimal number without exponent, such as `-12.5`, `3.` or `.25`.
pub open spec fn decimal_text(s: Seq<char>) -> bool {
    unsigned_decimal(unsigned_part(s))
}

/// An integer with an optional sign, such as `400` or `-7`.
pub open spec fn integer_text(s: Seq<char>) -> bool {
    let u = unsigned_part(s);
    u.len() > 0 && forall|i: int| 0 <= i < u.len() ==> is_digit(#[trigger] u[i])
}

/// `s` is a decimal number, the letter `e` at index `k`, and an integer exponent.
pub open spec fn scientific_at(s: Seq<char>, k: int) -> bool {
    &&& 0 <= k < s.len()
    &&& s[k] == 'e'
    &&& decimal_text(s.take(k))
    &&& integer_text(s.skip(k + 1))
}

pub open spec fn scientific_text(s: Seq<char>) -> bool {
    exists|k: int| scientific_at(s, k)
}

pub open spec fn nan_text(s: Seq<char>) -> bool {
    s == seq!['N', 'a', 'N']
}

/// What a well-formed number text turned out to be.
#[derive(Debug, PartialEq)]
pub enum NumberText {
    /// The token `NaN`.
    NotANumber,
    /// A decimal number without exponent; the whole text is its value.
    Plain,
    /// A decimal coefficient and an integer exponent, split at the `e`.
    Scientific { mantissa: String, exponent: String },
}

/// Why a text is not a number.
#[derive(Debug, PartialEq, Eq, Clone, Copy)]
pub enum ParseError {
    /// The text is empty.
    Empty,
    /// The text is not empty but does not follow the grammar.
    Malformed,
}

fn unsigned_decimal_in(s: &str, lo: usize, hi: usize) -> (b: bool)
    requires
        lo <= hi <= s@.len(),
    ensures
        b == unsigned_decimal(s@.subrange(lo as int, hi as int)),
{
    let ghost t = s@.subrange(lo as int, hi as int);
    let mut i: usize = lo;
    let mut point: Option<usize> = None;
    let mut digit = false;
    while i < hi
        invariant
            lo <= i <= hi <= s@.len(),
            t == s@.subrange(lo as int, hi as int),
            forall|k: int| 0 <= k < i - lo ==> is_digit(#[trigger] t[k]) || t[k] == '.',
            point is None ==> forall|k: int| 0 <= k < i - lo ==> #[trigger] t[k] != '.',
            point matches Some(p) ==> lo <= p < i && t[p - lo] == '.' && forall|k: int|
                0 <= k < i - lo && #[trigger] t[k] == '.' ==> k == p - lo,
            digit <==> exists|k: int| 0 <= k < i - lo && is_digit(#[trigger] t[k]),
        decreases hi - i,
    {
        let c = s.get_char(i);
        assert(t[i - lo] == c);
        if c == '.' {
            if let Some(p) = point {
                assert(t[p - lo] == '.' && t[i - lo] == '.');
                return false;
            }
            point = Some(i);
        } else if '0' <= c && c <= '9' {
            digit = true;
        } else {
            assert(!(is_digit(t[i - lo]) || t[i - lo] == '.'));
            return false;
        }
        i += 1;
    }
    digit
}

fn integer_in(s: &str, lo: usize, hi: usize) -> (b: bool)
    requires
        lo <= hi <= s@.len(),
    ensures
        b == integer_text(s@.subrange(lo as int, hi as int)),
{
    let ghost t = s@.subrange(lo as int, hi as int);
    let mut i: usize = lo;
    if lo < hi {
        let c = s.get_char(lo);
        if c == '+' || c == '-' {
            i = lo + 1;
        }
    }
    let ghost start = i;
    assert(unsigned_part(t) =~= s@.subrange(start as int, hi as int));
    if i == hi {
        assert(unsigned_part(t).len() == 0);
        return false;
    }
    while i < hi
        invariant
            lo <= start <= i <= hi <= s@.len(),
            t == s@.subrange(lo as int, hi as int),
            unsigned_part(t) == s@.subrange(start as int, hi as int),
            forall|k: int| start <= k < i ==> is_digit(#[trigger] s@[k]),
        decreases hi - i,
    {
        let c = s.get_char(i);
        if !('0' <= c && c <= '9') {
            assert(unsigned_part(t)[i - start] == c);
            return false;
        }
        i += 1;
    }
    assert forall|k: int| 0 <= k < unsigned_part(t).len() implies is_digit(
        #[trigger] unsigned_part(t)[k],
    ) by {
        assert(unsigned_part(t)[k] == s@[start + k]);
    }
    true
}

fn decimal_in(s: &str, lo: usize, hi: usize) -> (b: bool)
    requires
        lo <= hi <= s@.len(),
    ensures
        b == decimal_text(s@.subrange(lo as int, hi as int)),
{
    let ghost t = s@.subrange(lo as int, hi as int);
    if lo < hi {
        let c = s.get_char(lo);
        if c == '+' || c == '-' {
            assert(unsigned_part(t) =~= s@.subrange(lo + 1, hi as int));
            return unsigned_decimal_in(s, lo + 1, hi);
        }
    }
    unsigned_decimal_in(s, lo, hi)
}

/// A text with the letter `e` in it is no decimal.
proof fn lemma_e_not_decimal(m: Seq<char>, i: int)
    requires
        0 <= i < m.len(),
        m[i] == 'e',
    ensures
        !decimal_text(m),
{
    if m.len() > 0 && is_sign(m[0]) {
        assert(unsigned_part(m)[i - 1] == 'e');
    } else {
        assert(unsigned_part(m)[i] == 'e');
    }
}

/// Where the first `e` of `s` does not split it into a decimal and an
/// integer, `s` follows no form of the grammar.
proof fn lemma_first_e_malformed(s: Seq<char>, first: int)
    requires
        0 <= first < s.len(),
        s[first] == 'e',
        forall|j: int| 0 <= j < first ==> s[j] != 'e',
        !(decimal_text(s.take(first)) && integer_text(s.skip(first + 1))),
    ensures
        !scientific_text(s),
        !decimal_text(s),
        !nan_text(s),
{
    assert forall|j: int| !scientific_at(s, j) by {
        if 0 <= j < s.len() && s[j] == 'e' && j > first {
            lemma_e_not_decimal(s.take(j), first);
        }
    }
    lemma_e_not_decimal(s, first);
    if nan_text(s) {
        assert(s[first] != 'e');
    }
}

/// Reads `s` against the number grammar. A well-formed text is the token
/// `NaN`, a plain decimal, or a decimal and an integer exponent joined by
/// `e`, handed back in its two parts; anything else is an error.
pub fn scan_number(s: &str) -> (r: Result<NumberText, ParseError>)
    ensures
        match r {
            Ok(NumberText::NotANumber) => nan_text(s@),
            Ok(NumberText::Plain) => decimal_text(s@),
            Ok(NumberText::Scientific { mantissa, exponent }) => {
                &&& s@ == mantissa@ + seq!['e'] + exponent@
                &&& decimal_text(mantissa@)
                &&& integer_text(exponent@)
            },
            Err(ParseError::Empty) => s@.len() == 0,
            Err(ParseError::Malformed) => {
                &&& s@.len() > 0
                &&& !nan_text(s@)
                &&& !decimal_text(s@)
                &&& !scientific_text(s@)
            },
        },
{
    let n = s.unicode_len();
    if n == 0 {
        return Err(ParseError::Empty);
    }
    assert(s@.subrange(0, n as int) =~= s@);
    let mut k: usize = 0;
    while k < n && s.get_char(k) != 'e'
        invariant
            k <= n == s@.len(),
            forall|j: int| 0 <= j < k ==> s@[j] != 'e',
        decreases n - k,
    {
        k += 1;
    }
    if k < n {
        let ghost first = k as int;
        assert(s@[first] == 'e');
        if decimal_in(s, 0, k) && integer_in(s, k + 1, n) {
            let mantissa = String::from_str(s.substring_char(0, k));
            let exponent = String::from_str(s.substring_char(k + 1, n));
            assert(s@ =~= mantissa@ + seq!['e'] + exponent@);
            assert(s@.take(first) =~= mantissa@);
            return Ok(NumberText::Scientific { mantissa, exponent });
        }
        assert(s@.subrange(0, first) =~= s@.take(first));
        assert(s@.subrange(first + 1, n as int) =~= s@.skip(first + 1));
        proof {
            lemma_first_e_malformed(s@, first);
        }
        return Err(ParseError::Malformed);
    }
    assert(!scientific_text(s@));
    proof {
        reveal_strlit("NaN");
    }
    if n == 3 && s.get_char(0) == 'N' && s.get_char(1) == 'a' && s.get_char(2) == 'N' {
        assert(s@ =~= seq!['N', 'a', 'N']);
        return Ok(NumberText::NotANumber);
    }
    if decimal_in(s, 0, n) {
        return Ok(NumberText::Plain);
    }
    Err(ParseError::Malformed)
}

} // verus!
