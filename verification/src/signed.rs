//! Reading a 64-bit number as signed or as unsigned, as a cast between `i64`
//! and `u64` does: the bits stay, their meaning changes.

use vstd::prelude::*;

verus! {

/// An amount read as a signed number of 64 bits.
pub open spec fn as_signed(amount: u64) -> int {
    if amount <= i64::MAX {
        amount as int
    } else {
        amount - 0x1_0000_0000_0000_0000
    }
}

/// A signed number of 64 bits read as an amount.
pub open spec fn as_amount(n: i64) -> u64 {
    if n >= 0 {
        n as u64
    } else {
        (n + 0x1_0000_0000_0000_0000) as u64
    }
}

/// Reading as signed and reading as an amount undo one another.
pub proof fn lemma_signed_round_trip(amount: u64, n: i64)
    ensures
        i64::MIN <= as_signed(amount) <= i64::MAX,
        as_amount(as_signed(amount) as i64) == amount,
        as_signed(as_amount(n)) == n,
{
}

/// The amount read as a signed number.
pub fn signed_of(amount: u64) -> (n: i64)
    ensures
        n == as_signed(amount),
{
    if amount <= i64::MAX as u64 {
        amount as i64
    } else {
        -((u64::MAX - amount) as i64) - 1
    }
}

/// The signed number read as an amount.
pub fn amount_of(n: i64) -> (amount: u64)
    ensures
        amount == as_amount(n),
{
    if n >= 0 {
        n as u64
    } else {
        u64::MAX - ((-(n + 1)) as u64)
    }
}

} // verus!
