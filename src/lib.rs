//! Float-free building blocks of an extended-range decimal number: the
//! grammar of number text, the assembly of rendered text, and the decision
//! that orders two values once their parts have been compared.
use vstd::prelude::*;

pub mod grammar;
pub mod order;
pub mod text;

verus! {

/// The smallest power of ten held in the table of powers.
pub const NUMBER_EXP_MIN: i32 = -324;

/// The largest power of ten held in the table of powers.
pub const NUMBER_EXP_MAX: i32 = 308;

/// The number of entries of the table of powers of ten.
pub const LENGTH: usize = 633;

/// Exponent gap beyond which the smaller operand of a sum is negligible.
pub const MAX_SIGNIFICANT_DIGITS: u32 = 17;

/// Where `10^power` stands in the table of powers of ten: the table starts at
/// the smallest power and has one entry per integer exponent up to the largest.
pub fn power_index(power: i32) -> (r: Option<usize>)
    ensures
        r == (if NUMBER_EXP_MIN <= power <= NUMBER_EXP_MAX {
            Some((power - NUMBER_EXP_MIN) as usize)
        } else {
            None::<usize>
        }),
        r matches Some(i) ==> i < LENGTH,
{
    if NUMBER_EXP_MIN <= power && power <= NUMBER_EXP_MAX {
        Some((power - NUMBER_EXP_MIN) as usize)
    } else {
        None
    }
}

} // verus!
