//! Assembly of the text forms of a number.
use vstd::prelude::*;
use vstd::string::*;

verus! {

/// `fill` repeated without end, cut after `n` characters.
pub open spec fn repeated(fill: Seq<char>, n: nat) -> Seq<char>
    recommends
        fill.len() > 0,
{
    Seq::new(n, |i: int| fill[i % (fill.len() as int)])
}

/// The filler actually used: the given one, or a single space when it is empty.
pub open spec fn filler(fill: Seq<char>) -> Seq<char> {
    if fill.len() == 0 {
        seq![' ']
    } else {
        fill
    }
}

/// `s` extended on the right with the filler until it is `max_length` characters long.
pub open spec fn padded_end(s: Seq<char>, max_length: nat, fill: Seq<char>) -> Seq<char> {
    if s.len() >= max_length {
        s
    } else {
        s + repeated(filler(fill), (max_length - s.len()) as nat)
    }
}

/// Pads `string` on the right with `fill_string`, repeated and cut as needed,
/// up to `max_length` characters; a string that is already long enough is
/// returned unchanged, and an empty filler counts as a single space.
pub fn pad_end(string: String, max_length: u32, fill_string: String) -> (r: String)
    ensures
        r@ == padded_end(string@, max_length as nat, fill_string@),
        r@.len() == if string@.len() >= max_length {
            string@.len()
        } else {
            max_length as nat
        },
{
    let ghost start = string@;
    let length = string.as_str().unicode_len();
    if length >= max_length as usize {
        return string;
    }
    let filled = if fill_string.as_str().unicode_len() == 0 {
        proof {
            reveal_strlit(" ");
        }
        String::from_str(" ")
    } else {
        fill_string
    };
    assert(filled@ == filler(fill_string@));
    let flen = filled.as_str().unicode_len();
    let fill_len: usize = max_length as usize - length;
    let mut result = string;
    let mut i: usize = 0;
    while i < fill_len
        invariant
            i <= fill_len,
            flen == filled@.len(),
            flen > 0,
            result@ == start + repeated(filled@, i as nat),
        decreases fill_len - i,
    {
        let j = i % flen;
        let piece = filled.as_str().substring_char(j, j + 1);
        result.append(piece);
        assert(repeated(filled@, (i + 1) as nat) =~= repeated(filled@, i as nat) + piece@);
        assert(result@ =~= start + repeated(filled@, (i + 1) as nat));
        i += 1;
    }
    result
}

/// `n` zero digits.
pub open spec fn zeros(n: nat) -> Seq<char> {
    Seq::new(n, |_i: int| '0')
}

/// `s` extended on the right with zero digits up to `width` characters.
pub open spec fn zero_padded(s: Seq<char>, width: nat) -> Seq<char> {
    if s.len() >= width {
        s
    } else {
        s + zeros((width - s.len()) as nat)
    }
}

/// The fractional part of a number with `places` zero digits after the
/// point: nothing at all when `places` is zero.
pub open spec fn fraction_text(places: nat) -> Seq<char> {
    if places == 0 {
        Seq::empty()
    } else {
        seq!['.'] + zeros(places)
    }
}

/// `s` with every decimal point left out.
pub open spec fn without_points(s: Seq<char>) -> Seq<char>
    decreases s.len(),
{
    if s.len() == 0 {
        s
    } else if s.last() == '.' {
        without_points(s.drop_last())
    } else {
        without_points(s.drop_last()).push(s.last())
    }
}

/// Text of an exponential form: the coefficient, the letter `e`, a plus sign
/// unless the exponent's text carries a minus sign, and the exponent.
pub open spec fn exponential_form(coefficient: Seq<char>, exponent: Seq<char>) -> Seq<char> {
    let sign = if exponent.len() > 0 && exponent[0] == '-' {
        Seq::empty()
    } else {
        seq!['+']
    };
    coefficient + seq!['e'] + sign + exponent
}

proof fn lemma_repeated_zero(n: nat)
    ensures
        repeated(seq!['0'], n) == zeros(n),
{
    assert(repeated(seq!['0'], n) =~= zeros(n));
}

/// Pads `s` with zero digits on the right up to `width` characters.
fn pad_zeros(s: String, width: u32) -> (r: String)
    ensures
        r@ == zero_padded(s@, width as nat),
{
    proof {
        reveal_strlit("0");
        assert("0"@ =~= seq!['0']);
    }
    let r = pad_end(s, width, String::from_str("0"));
    proof {
        if s@.len() < width {
            lemma_repeated_zero((width - s@.len()) as nat);
        }
    }
    r
}

/// The fractional part `.000…0` with `places` zeros, empty for no places.
pub fn fraction_zeros(places: u32) -> (r: String)
    requires
        places < u32::MAX,
    ensures
        r@ == fraction_text(places as nat),
{
    proof {
        reveal_strlit("");
        reveal_strlit(".");
    }
    if places == 0 {
        return String::from_str("");
    }
    let r = pad_zeros(String::from_str("."), places + 1);
    assert(r@ =~= fraction_text(places as nat));
    r
}

/// The text of zero in fixed form with `places` fractional digits (`0.00`).
pub fn zero_fixed_text(places: u32) -> (r: String)
    requires
        places < u32::MAX,
    ensures
        r@ == seq!['0'] + fraction_text(places as nat),
{
    proof {
        reveal_strlit("0");
    }
    let fraction = fraction_zeros(places);
    let r = String::from_str("0").concat(fraction.as_str());
    assert(r@ =~= seq!['0'] + fraction_text(places as nat));
    r
}

/// The text of zero in exponential form with `places` fractional digits
/// (`0.00e+0`).
pub fn zero_exponential_text(places: u32) -> (r: String)
    requires
        places < u32::MAX,
    ensures
        r@ == seq!['0'] + fraction_text(places as nat) + seq!['e', '+', '0'],
{
    proof {
        reveal_strlit("e+0");
    }
    let r = zero_fixed_text(places).concat("e+0");
    assert(r@ =~= seq!['0'] + fraction_text(places as nat) + seq!['e', '+', '0']);
    r
}

/// `s` with its decimal points taken out, so that only the digits (and a
/// sign) remain.
pub fn strip_points(s: &str) -> (r: String)
    ensures
        r@ == without_points(s@),
{
    proof {
        reveal_strlit("");
    }
    let n = s.unicode_len();
    let mut r = String::from_str("");
    let mut i: usize = 0;
    while i < n
        invariant
            i <= n,
            n == s@.len(),
            r@ == without_points(s@.take(i as int)),
        decreases n - i,
    {
        let c = s.get_char(i);
        assert(s@.take(i + 1).drop_last() =~= s@.take(i as int));
        if c != '.' {
            r.append(s.substring_char(i, i + 1));
            assert(r@ =~= without_points(s@.take(i as int)).push(c));
        }
        i += 1;
    }
    assert(s@.take(n as int) =~= s@);
    r
}

/// Joins a coefficient and an exponent into exponential form: `1.00` and
/// `400` give `1.00e+400`, `2.5` and `-7` give `2.5e-7`.
pub fn exponential_text(coefficient: &str, exponent: &str) -> (r: String)
    ensures
        r@ == exponential_form(coefficient@, exponent@),
{
    proof {
        reveal_strlit("e");
        reveal_strlit("e+");
    }
    let negative = exponent.unicode_len() > 0 && exponent.get_char(0) == '-';
    let r = if negative {
        String::from_str(coefficient).concat("e").concat(exponent)
    } else {
        String::from_str(coefficient).concat("e+").concat(exponent)
    };
    assert(r@ =~= exponential_form(coefficient@, exponent@));
    r
}

/// `s` padded with zero digits to `width` digits, a leading minus sign
/// standing before the digits and not counted among them.
pub open spec fn sign_and_zero_padded(s: Seq<char>, width: nat) -> Seq<char> {
    if s.len() > 0 && s[0] == '-' {
        seq!['-'] + zero_padded(s.skip(1), width)
    } else {
        zero_padded(s, width)
    }
}

/// Fixed form of a number too large for a double to carry its integer part:
/// the sign and digits of the mantissa's text, zeros up to `width` digits
/// (the sign is not one of them), then `places` zero fractional digits.
pub fn large_fixed_text(mantissa: &str, width: u32, places: u32) -> (r: String)
    requires
        places < u32::MAX,
    ensures
        r@ == sign_and_zero_padded(without_points(mantissa@), width as nat) + fraction_text(
            places as nat,
        ),
{
    proof {
        reveal_strlit("-");
    }
    let stripped = strip_points(mantissa);
    let n = stripped.as_str().unicode_len();
    let fraction = fraction_zeros(places);
    if n > 0 && stripped.as_str().get_char(0) == '-' {
        let magnitude = String::from_str(stripped.as_str().substring_char(1, n));
        assert(magnitude@ =~= stripped@.skip(1));
        let digits = pad_zeros(magnitude, width);
        let r = String::from_str("-").concat(digits.as_str()).concat(fraction.as_str());
        assert(r@ =~= seq!['-'] + digits@ + fraction@);
        r
    } else {
        pad_zeros(stripped, width).concat(fraction.as_str())
    }
}

} // verus!
