//! The order of two values, decided from their signs and from how their
//! exponents and mantissas compare.
use vstd::prelude::*;
use core::cmp::Ordering;

verus! {

/// The sign class of a value; `NotANumber` for the NaN sentinel.
#[derive(Debug, Clone, Copy, PartialEq, Eq, Structural)]
pub enum Sign {
    NotANumber,
    Negative,
    Zero,
    Positive,
}

pub open spec fn sign_rank(s: Sign) -> int {
    match s {
        Sign::NotANumber => 0,
        Sign::Negative => -1,
        Sign::Zero => 0,
        Sign::Positive => 1,
    }
}

pub open spec fn ordering_of(a: int, b: int) -> Ordering {
    if a < b {
        Ordering::Less
    } else if a > b {
        Ordering::Greater
    } else {
        Ordering::Equal
    }
}

pub open spec fn reversed(o: Ordering) -> Ordering {
    match o {
        Ordering::Less => Ordering::Greater,
        Ordering::Equal => Ordering::Equal,
        Ordering::Greater => Ordering::Less,
    }
}

/// `first`, unless it is `Equal`, in which case `second` decides.
pub open spec fn lexicographic(first: Ordering, second: Ordering) -> Ordering {
    if first == Ordering::Equal {
        second
    } else {
        first
    }
}

/// The order of two normalized values `a` and `b`, where `exponents` and
/// `mantissas` say how their exponents and their (signed) mantissas
/// compare. NaN is unordered; otherwise the signs decide first, positive
/// values order by exponent then mantissa, and negative values by exponent
/// reversed (a larger magnitude is smaller) then mantissa.
pub open spec fn compare_spec(a: Sign, b: Sign, exponents: Ordering, mantissas: Ordering) -> Option<
    Ordering,
> {
    if a == Sign::NotANumber || b == Sign::NotANumber {
        None
    } else if a != b {
        Some(ordering_of(sign_rank(a), sign_rank(b)))
    } else {
        match a {
            Sign::Positive => Some(lexicographic(exponents, mantissas)),
            Sign::Negative => Some(lexicographic(reversed(exponents), mantissas)),
            _ => Some(Ordering::Equal),
        }
    }
}

fn rank(s: Sign) -> (r: i8)
    ensures
        r == sign_rank(s),
{
    match s {
        Sign::NotANumber => 0,
        Sign::Negative => -1,
        Sign::Zero => 0,
        Sign::Positive => 1,
    }
}

fn reverse(o: Ordering) -> (r: Ordering)
    ensures
        r == reversed(o),
{
    match o {
        Ordering::Less => Ordering::Greater,
        Ordering::Equal => Ordering::Equal,
        Ordering::Greater => Ordering::Less,
    }
}

/// Decides the order of two values from their signs and from the
/// comparisons of their exponents and of their mantissas.
pub fn compare_parts(a: Sign, b: Sign, exponents: Ordering, mantissas: Ordering) -> (r: Option<
    Ordering,
>)
    ensures
        r == compare_spec(a, b, exponents, mantissas),
{
    if a == Sign::NotANumber || b == Sign::NotANumber {
        return None;
    }
    if a != b {
        let ra = rank(a);
        let rb = rank(b);
        return if ra < rb {
            Some(Ordering::Less)
        } else {
            Some(Ordering::Greater)
        };
    }
    let first = match a {
        Sign::Positive => exponents,
        Sign::Negative => reverse(exponents),
        _ => {
            return Some(Ordering::Equal);
        },
    };
    match first {
        Ordering::Equal => Some(mantissas),
        _ => Some(first),
    }
}

/// NaN is unordered with every value, NaN included.
pub proof fn lemma_nan_unordered(a: Sign, b: Sign, exponents: Ordering, mantissas: Ordering)
    requires
        a == Sign::NotANumber || b == Sign::NotANumber,
    ensures
        compare_spec(a, b, exponents, mantissas) is None,
{
}

/// Every value but NaN is equal to itself.
pub proof fn lemma_compare_reflexive(a: Sign)
    requires
        a != Sign::NotANumber,
    ensures
        compare_spec(a, a, Ordering::Equal, Ordering::Equal) == Some(Ordering::Equal),
{
}

/// Swapping the two values reverses their order.
pub proof fn lemma_compare_antisymmetric(
    a: Sign,
    b: Sign,
    exponents: Ordering,
    mantissas: Ordering,
)
    ensures
        compare_spec(b, a, reversed(exponents), reversed(mantissas)) == match compare_spec(
            a,
            b,
            exponents,
            mantissas,
        ) {
            Some(o) => Some(reversed(o)),
            None => None,
        },
{
}

} // verus!
