use vstd::prelude::*;

verus! {

/// The modulus of the proof backend's scalar field: every circuit cell
/// holds a residue in [0, field_p).
pub open spec fn field_p() -> int {
    0x40000000000000000000000000000000224698fc094cf91b992d30ed00000001int
}

/// A value lies in the canonical residue range.
pub open spec fn reduced(a: int) -> bool {
    0 <= a < field_p()
}

/// A constraint expression evaluates to zero in the field.
pub open spec fn vanishes(a: int) -> bool {
    a % field_p() == 0
}

/// A multiple of the modulus vanishes.
pub proof fn lemma_multiple_vanishes(q: int)
    ensures
        vanishes(field_p() * q),
{
    vstd::arithmetic::div_mod::lemma_mod_multiples_basic(q, field_p());
}

/// A vanishing value strictly between -p and p is zero.
pub proof fn lemma_vanishes_small(a: int)
    requires
        -field_p() < a < field_p(),
        vanishes(a),
    ensures
        a == 0,
{
    let p = field_p();
    vstd::arithmetic::div_mod::lemma_fundamental_div_mod(a, p);
    let q = a / p;
    assert(a == p * q);
    assert(q == 0) by (nonlinear_arith)
        requires
            -p < p * q < p,
            p > 0,
    ;
}

/// A vanishing value strictly between -2p and p is zero or -p.
pub proof fn lemma_vanishes_two(a: int)
    requires
        -2 * field_p() < a < field_p(),
        vanishes(a),
    ensures
        a == 0 || a == -field_p(),
{
    let p = field_p();
    vstd::arithmetic::div_mod::lemma_fundamental_div_mod(a, p);
    let q = a / p;
    assert(a == p * q);
    assert(q == 0 || q == -1) by (nonlinear_arith)
        requires
            -2 * p < p * q < p,
            p > 0,
    ;
}

/// Subtracting a value's residue leaves a vanishing difference.
pub proof fn lemma_sub_own_mod_vanishes(a: int)
    ensures
        vanishes(a - a % field_p()),
        reduced(a % field_p()),
{
    let p = field_p();
    vstd::arithmetic::div_mod::lemma_fundamental_div_mod(a, p);
    assert(a - a % p == p * (a / p));
    lemma_multiple_vanishes(a / p);
    vstd::arithmetic::div_mod::lemma_mod_division_less_than_divisor(a, p);
}

/// A product whose residue is one differs from one by a vanishing amount.
pub proof fn lemma_mod_one_vanishes(a: int)
    requires
        a % field_p() == 1,
    ensures
        vanishes(a - 1),
{
    let p = field_p();
    vstd::arithmetic::div_mod::lemma_fundamental_div_mod(a, p);
    assert(a - 1 == p * (a / p));
    lemma_multiple_vanishes(a / p);
}

} // verus!
