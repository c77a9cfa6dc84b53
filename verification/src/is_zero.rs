use vstd::prelude::*;
use crate::modular::{field_p, reduced, vanishes, lemma_vanishes_small, lemma_mod_one_vanishes};

verus! {

/// The equality-to-zero gadget, as pure field algebra: for an input x,
/// an auxiliary inverse witness inv and an output bit z, it holds
/// x * inv = 1 - z and x * z = 0, both in the field.
pub open spec fn is_zero_gate(x: int, inv: int, z: int) -> bool {
    vanishes(x * inv - (1 - z)) && vanishes(x * z)
}

/// The same two equations read over the integers, with no reduction;
/// on any assignment whose evaluation does not wrap around the
/// modulus, the two readings coincide.
pub open spec fn is_zero_gate_exact(x: int, inv: int, z: int) -> bool {
    x * inv == 1 - z && x * z == 0
}

/// Completeness at zero: x = 0 with output 1 satisfies the gadget,
/// whatever the auxiliary witness holds.
pub proof fn lemma_is_zero_complete_zero(inv: int)
    ensures
        is_zero_gate(0, inv, 1),
{
    assert(0 * inv == 0);
    assert(0 * 1 == 0);
}

/// Completeness away from zero: with a true inverse as auxiliary
/// witness, any nonzero x with output 0 satisfies the gadget.
pub proof fn lemma_is_zero_complete_nonzero(x: int, inv: int)
    requires
        x != 0,
        (x * inv) % field_p() == 1,
    ensures
        is_zero_gate(x, inv, 0),
{
    lemma_mod_one_vanishes(x * inv);
    assert(x * 0 == 0);
}

/// Soundness over the whole field, wraparound included: a boolean
/// output satisfying the gadget is 1 exactly on x = 0, for every
/// residue x, however the auxiliary witness was chosen.
pub proof fn lemma_is_zero_sound(x: int, inv: int, z: int)
    requires
        reduced(x),
        z == 0 || z == 1,
        is_zero_gate(x, inv, z),
    ensures
        z == 1 <==> x == 0,
{
    if z == 1 {
        assert(x * 1 == x);
        lemma_vanishes_small(x);
    } else {
        assert(vanishes(x * inv - 1));
        if x == 0 {
            assert(0 * inv == 0);
            lemma_vanishes_small(-1);
        }
    }
}

/// Over the integers the output needs no boolean assumption at all:
/// the two equations force it to the zero-test of the input.
pub proof fn lemma_is_zero_exact_determined(x: int, inv: int, z: int)
    requires
        is_zero_gate_exact(x, inv, z),
    ensures
        z == if x == 0 { 1int } else { 0int },
{
    if x == 0 {
        assert(0 * inv == 0);
    } else {
        assert(z == 0) by (nonlinear_arith)
            requires
                x * z == 0,
                x != 0,
        ;
    }
}

} // verus!
