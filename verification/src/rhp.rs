//! Sizes of the units that hosts store.

use vstd::prelude::*;

verus! {

/// Bytes in a segment, the unit in which data is striped over the shards of a slab.
pub const SEGMENT_SIZE: usize = 64;

/// Bytes in a sector, the unit in which a host stores data.
pub const SECTOR_SIZE: usize = 4194304;

/// Reads `sia::rhp::SEGMENT_SIZE`, whose value the contract states.
#[verifier::external_body]
pub(crate) fn segment_size() -> (n: usize)
    ensures
        n == SEGMENT_SIZE,
{
    sia::rhp::SEGMENT_SIZE
}

/// Reads `sia::rhp::SECTOR_SIZE`, whose value the contract states.
#[verifier::external_body]
pub(crate) fn sector_size() -> (n: usize)
    ensures
        n == SECTOR_SIZE,
{
    sia::rhp::SECTOR_SIZE
}

/// `a / b` rounded up.
pub open spec fn ceil_div(a: int, b: int) -> int {
    (a + b - 1) / b
}

/// Divides and rounds up.
pub fn div_ceil(a: u64, b: u64) -> (q: u64)
    requires
        b > 0,
    ensures
        q == ceil_div(a as int, b as int),
        q * b >= a,
        q * b < a + b,
{
    let q: u64 = a / b;
    let r: u64 = a % b;
    proof {
        lemma_ceil_div(a as int, b as int);
        if r > 0 {
            vstd::arithmetic::div_mod::lemma_fundamental_div_mod(a as int, b as int);
            assert(q < u64::MAX) by (nonlinear_arith)
                requires
                    a == b * q + r,
                    r > 0,
                    b > 0,
                    a <= u64::MAX,
                    q >= 0,
            ;
        }
    }
    if r > 0 {
        q + 1
    } else {
        q
    }
}

/// Rounding up adds one to the quotient exactly where there is a remainder.
pub(crate) proof fn lemma_ceil_div(a: int, b: int)
    requires
        a >= 0,
        b > 0,
    ensures
        ceil_div(a, b) == if a % b > 0 {
            a / b + 1
        } else {
            a / b
        },
        ceil_div(a, b) * b >= a,
        ceil_div(a, b) * b < a + b,
{
    let q = a / b;
    let r = a % b;
    vstd::arithmetic::div_mod::lemma_fundamental_div_mod(a, b);
    if r > 0 {
        assert(a + b - 1 == (q + 1) * b + (r - 1)) by (nonlinear_arith)
            requires
                a == b * q + r,
        ;
        vstd::arithmetic::div_mod::lemma_fundamental_div_mod_converse(a + b - 1, b, q + 1, r - 1);
        assert((q + 1) * b == b * q + b) by (nonlinear_arith);
    } else {
        assert(a + b - 1 == q * b + (b - 1)) by (nonlinear_arith)
            requires
                a == b * q + r,
                r == 0,
        ;
        vstd::arithmetic::div_mod::lemma_fundamental_div_mod_converse(a + b - 1, b, q, b - 1);
        assert(q * b == b * q) by (nonlinear_arith);
    }
}

} // verus!
