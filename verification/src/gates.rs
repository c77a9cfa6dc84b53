use vstd::prelude::*;
use crate::{WORD_LEN, ALPHABET_SIZE, char_ok};
use crate::modular::{field_p, reduced, vanishes, lemma_vanishes_small, lemma_vanishes_two,
    lemma_sub_own_mod_vanishes};
use crate::is_zero::{is_zero_gate, lemma_is_zero_complete_zero, lemma_is_zero_complete_nonzero};
use crate::utils::{polyhash_spec, green_bit, yellow_bit, lemma_polyhash_bound, pow29};
use crate::dict::table_spec;

verus! {

/// The yellow difference for one guess letter: the product of its
/// differences with every letter of the final word. It is zero exactly
/// when the letter occurs somewhere in the final word.
pub open spec fn yellow_prod(c: int, fin: Seq<int>) -> int
    decreases fin.len(),
{
    if fin.len() == 0 {
        1
    } else {
        yellow_prod(c, fin.drop_last()) * (c - fin.last())
    }
}

/// The range-check polynomial up to bound n: the product of (k - v)
/// for k from 1 to n.
pub open spec fn range_poly_upto(v: int, n: int) -> int
    decreases n,
{
    if n <= 0 {
        1
    } else {
        range_poly_upto(v, n - 1) * (n - v)
    }
}

/// The character range-check polynomial: zero exactly on the letter
/// values 1..=ALPHABET_SIZE.
pub open spec fn range_poly(v: int) -> int {
    range_poly_upto(v, ALPHABET_SIZE as int)
}

/// A value inside the accepted range zeroes the range polynomial.
pub proof fn lemma_range_poly_upto_zero(v: int, n: int)
    requires
        1 <= v <= n,
    ensures
        range_poly_upto(v, n) == 0,
    decreases n,
{
    if v < n {
        lemma_range_poly_upto_zero(v, n - 1);
    } else {
        assert(range_poly_upto(v, v - 1) * (v - v) == 0);
    }
}

/// A value outside the accepted range leaves every factor, and so the
/// whole range polynomial, nonzero.
pub proof fn lemma_range_poly_upto_nonzero(v: int, n: int)
    requires
        n >= 0,
        v < 1 || v > n,
    ensures
        range_poly_upto(v, n) != 0,
    decreases n,
{
    if n > 0 {
        lemma_range_poly_upto_nonzero(v, n - 1);
        assert(range_poly_upto(v, n - 1) * (n - v) != 0) by (nonlinear_arith)
            requires
                range_poly_upto(v, n - 1) != 0,
                n - v != 0,
        ;
    }
}

/// The range-check gate, read over the integers, accepts exactly the
/// 1-based alphabet indices: value 0 fails, every letter value passes,
/// and the first value past the alphabet fails again.
pub proof fn lemma_range_poly_zero_iff(v: int)
    ensures
        range_poly(v) == 0 <==> char_ok(v),
{
    if char_ok(v) {
        lemma_range_poly_upto_zero(v, ALPHABET_SIZE as int);
    } else {
        lemma_range_poly_upto_nonzero(v, ALPHABET_SIZE as int);
    }
}

/// The yellow product is zero exactly when the letter matches some
/// letter of the final word.
pub proof fn lemma_yellow_prod_zero_iff(c: int, fin: Seq<int>)
    ensures
        yellow_prod(c, fin) == 0 <==> exists|j: int| 0 <= j < fin.len() && c == fin[j],
    decreases fin.len(),
{
    if fin.len() == 0 {
    } else {
        let pre = fin.drop_last();
        lemma_yellow_prod_zero_iff(c, pre);
        assert(yellow_prod(c, fin) == yellow_prod(c, pre) * (c - fin.last()));
        assert(yellow_prod(c, pre) * (c - fin.last()) == 0
            <==> (yellow_prod(c, pre) == 0 || c - fin.last() == 0)) by (nonlinear_arith);
        if yellow_prod(c, fin) == 0 {
            if yellow_prod(c, pre) == 0 {
                let j = choose|j: int| 0 <= j < pre.len() && c == pre[j];
                assert(fin[j] == pre[j]);
            } else {
                assert(c == fin[fin.len() - 1]);
            }
        } else {
            assert(forall|j: int| 0 <= j < fin.len() ==> c != fin[j]) by {
                assert forall|j: int| 0 <= j < fin.len() implies c != fin[j] by {
                    if j < pre.len() {
                        assert(pre[j] == fin[j]);
                    }
                }
            }
        }
    }
}

/// 25 raised to the given power; bounds the yellow product.
pub open spec fn pow25(n: nat) -> int
    decreases n,
{
    if n == 0 {
        1
    } else {
        25 * pow25((n - 1) as nat)
    }
}

/// With every letter value in range, the yellow product stays within
/// plus or minus 25 to the word length.
pub proof fn lemma_yellow_prod_bound(c: int, fin: Seq<int>)
    requires
        char_ok(c),
        forall|j: int| 0 <= j < fin.len() ==> char_ok(#[trigger] fin[j]),
    ensures
        -pow25(fin.len()) <= yellow_prod(c, fin) <= pow25(fin.len()),
        pow25(fin.len()) > 0,
    decreases fin.len(),
{
    if fin.len() == 0 {
    } else {
        let pre = fin.drop_last();
        lemma_yellow_prod_bound(c, pre);
        let b = pow25(pre.len());
        let a = yellow_prod(c, pre);
        let d = c - fin.last();
        assert(char_ok(fin[fin.len() - 1]));
        assert(-25 <= d <= 25);
        assert(-(25 * b) <= a * d <= 25 * b) by (nonlinear_arith)
            requires
                -b <= a <= b,
                -25 <= d <= 25,
                b > 0,
        ;
    }
}

/// The cells of one guess region, as field residues: the private
/// witness (poly hash, guess letters, differences, inverse and
/// zero-test auxiliaries) together with the instance values copied
/// into the region (final-word letters and the claimed color bits).
#[verifier::ext_equal]
pub struct RegionCells {
    pub poly_word: int,
    pub chars: Seq<int>,
    pub finals: Seq<int>,
    pub diffs_green: Seq<int>,
    pub diffs_yellow: Seq<int>,
    pub inv_green: Seq<int>,
    pub zero_green: Seq<int>,
    pub inv_yellow: Seq<int>,
    pub zero_yellow: Seq<int>,
    pub green: Seq<int>,
    pub yellow: Seq<int>,
}

/// Every per-letter column has one cell per letter, and every cell
/// holds a canonical field residue.
pub open spec fn region_wf(r: RegionCells) -> bool {
    &&& r.chars.len() == WORD_LEN
    &&& r.finals.len() == WORD_LEN
    &&& r.diffs_green.len() == WORD_LEN
    &&& r.diffs_yellow.len() == WORD_LEN
    &&& r.inv_green.len() == WORD_LEN
    &&& r.zero_green.len() == WORD_LEN
    &&& r.inv_yellow.len() == WORD_LEN
    &&& r.zero_yellow.len() == WORD_LEN
    &&& r.green.len() == WORD_LEN
    &&& r.yellow.len() == WORD_LEN
    &&& reduced(r.poly_word)
    &&& forall|i: int| 0 <= i < WORD_LEN ==> reduced(#[trigger] r.chars[i])
    &&& forall|i: int| 0 <= i < WORD_LEN ==> reduced(#[trigger] r.finals[i])
    &&& forall|i: int| 0 <= i < WORD_LEN ==> reduced(#[trigger] r.diffs_green[i])
    &&& forall|i: int| 0 <= i < WORD_LEN ==> reduced(#[trigger] r.diffs_yellow[i])
    &&& forall|i: int| 0 <= i < WORD_LEN ==> reduced(#[trigger] r.inv_green[i])
    &&& forall|i: int| 0 <= i < WORD_LEN ==> reduced(#[trigger] r.zero_green[i])
    &&& forall|i: int| 0 <= i < WORD_LEN ==> reduced(#[trigger] r.inv_yellow[i])
    &&& forall|i: int| 0 <= i < WORD_LEN ==> reduced(#[trigger] r.zero_yellow[i])
    &&& forall|i: int| 0 <= i < WORD_LEN ==> reduced(#[trigger] r.green[i])
    &&& forall|i: int| 0 <= i < WORD_LEN ==> reduced(#[trigger] r.yellow[i])
}

/// Every gate of one guess region, as field identities: the dictionary
/// lookup, the character range checks, the poly-hash consistency gate,
/// the green and yellow difference gates, the two equality-to-zero
/// gadgets per letter, and the color-binding gates tying the derived
/// zero-tests to the public color bits.
pub open spec fn region_constraints(r: RegionCells) -> bool {
    &&& table_spec().contains(r.poly_word)
    &&& forall|i: int| 0 <= i < WORD_LEN ==> vanishes(range_poly(#[trigger] r.chars[i]))
    &&& vanishes(polyhash_spec(r.chars) - r.poly_word)
    &&& forall|i: int| 0 <= i < WORD_LEN ==>
        vanishes(r.chars[i] - r.finals[i] - #[trigger] r.diffs_green[i])
    &&& forall|i: int| 0 <= i < WORD_LEN ==>
        vanishes(yellow_prod(r.chars[i], r.finals) - #[trigger] r.diffs_yellow[i])
    &&& forall|i: int| 0 <= i < WORD_LEN ==>
        is_zero_gate(r.diffs_green[i], r.inv_green[i], #[trigger] r.zero_green[i])
    &&& forall|i: int| 0 <= i < WORD_LEN ==>
        is_zero_gate(r.diffs_yellow[i], r.inv_yellow[i], #[trigger] r.zero_yellow[i])
    &&& forall|i: int| 0 <= i < WORD_LEN ==> vanishes(r.diffs_green[i] * #[trigger] r.green[i])
    &&& forall|i: int| 0 <= i < WORD_LEN ==> vanishes(r.zero_green[i] * (1 - #[trigger] r.green[i]))
    &&& forall|i: int| 0 <= i < WORD_LEN ==> vanishes(r.diffs_yellow[i] * #[trigger] r.yellow[i])
    &&& forall|i: int| 0 <= i < WORD_LEN ==> vanishes(r.zero_yellow[i] * (1 - #[trigger] r.yellow[i]))
}

/// The region an honest prover fills in for one guess: letters and
/// hash from the guessed word, differences reduced into the field,
/// zero-tests and colors derived from the differences, and the
/// inverse auxiliaries as the backend's gadget computes them.
pub open spec fn honest_region(guess: Seq<int>, fin: Seq<int>, inv_g: Seq<int>, inv_y: Seq<int>)
    -> RegionCells {
    RegionCells {
        poly_word: polyhash_spec(guess),
        chars: guess,
        finals: fin,
        diffs_green: Seq::new(WORD_LEN as nat, |i: int| (guess[i] - fin[i]) % field_p()),
        diffs_yellow: Seq::new(WORD_LEN as nat, |i: int| yellow_prod(guess[i], fin) % field_p()),
        inv_green: inv_g,
        zero_green: Seq::new(WORD_LEN as nat, |i: int| green_bit(guess, fin, i)),
        inv_yellow: inv_y,
        zero_yellow: Seq::new(WORD_LEN as nat, |i: int| if yellow_prod(guess[i], fin) == 0 { 1int } else { 0int }),
        green: Seq::new(WORD_LEN as nat, |i: int| green_bit(guess, fin, i)),
        yellow: Seq::new(WORD_LEN as nat, |i: int| yellow_bit(guess, fin, i)),
    }
}

/// The inverse auxiliaries are correct for the honest region: each is
/// a canonical residue, and a true field inverse of its difference
/// cell whenever that cell is nonzero. The backend's gadget supplies
/// exactly this when it assigns the region.
pub open spec fn honest_inverses(guess: Seq<int>, fin: Seq<int>, inv_g: Seq<int>, inv_y: Seq<int>)
    -> bool {
    &&& inv_g.len() == WORD_LEN
    &&& inv_y.len() == WORD_LEN
    &&& forall|i: int| 0 <= i < WORD_LEN ==> reduced(#[trigger] inv_g[i])
    &&& forall|i: int| 0 <= i < WORD_LEN ==> reduced(#[trigger] inv_y[i])
    &&& forall|i: int| 0 <= i < WORD_LEN && (guess[i] - fin[i]) % field_p() != 0 ==>
        (((guess[i] - fin[i]) % field_p()) * #[trigger] inv_g[i]) % field_p() == 1
    &&& forall|i: int| 0 <= i < WORD_LEN && yellow_prod(guess[i], fin) % field_p() != 0 ==>
        ((yellow_prod(guess[i], fin) % field_p()) * #[trigger] inv_y[i]) % field_p() == 1
}

/// Completeness of one guess region: for any guess and final word made
/// of in-range letters, with the guess's hash in the lookup table and
/// correct inverse auxiliaries, the honest region satisfies every gate.
pub proof fn lemma_region_complete(guess: Seq<int>, fin: Seq<int>, inv_g: Seq<int>, inv_y: Seq<int>)
    requires
        guess.len() == WORD_LEN,
        fin.len() == WORD_LEN,
        forall|i: int| 0 <= i < WORD_LEN ==> char_ok(#[trigger] guess[i]),
        forall|i: int| 0 <= i < WORD_LEN ==> char_ok(#[trigger] fin[i]),
        table_spec().contains(polyhash_spec(guess)),
        honest_inverses(guess, fin, inv_g, inv_y),
    ensures
        region_wf(honest_region(guess, fin, inv_g, inv_y)),
        region_constraints(honest_region(guess, fin, inv_g, inv_y)),
{
    let r = honest_region(guess, fin, inv_g, inv_y);
    let p = field_p();
    assert(pow29(5) == 20511149) by {
        reveal_with_fuel(pow29, 6);
    }
    assert(pow25(5) == 9765625) by {
        reveal_with_fuel(pow25, 6);
    }
    lemma_polyhash_bound(guess);
    assert(reduced(r.poly_word));

    assert forall|i: int| 0 <= i < WORD_LEN implies reduced(#[trigger] r.diffs_green[i])
        && reduced(r.diffs_yellow[i]) by {
        lemma_sub_own_mod_vanishes(guess[i] - fin[i]);
        lemma_sub_own_mod_vanishes(yellow_prod(guess[i], fin));
    }

    assert forall|i: int| 0 <= i < WORD_LEN implies vanishes(range_poly(#[trigger] r.chars[i])) by {
        lemma_range_poly_zero_iff(guess[i]);
    }

    assert(vanishes(polyhash_spec(r.chars) - r.poly_word));

    assert forall|i: int| 0 <= i < WORD_LEN implies
        vanishes(r.chars[i] - r.finals[i] - #[trigger] r.diffs_green[i]) by {
        lemma_sub_own_mod_vanishes(guess[i] - fin[i]);
    }

    assert forall|i: int| 0 <= i < WORD_LEN implies
        vanishes(yellow_prod(r.chars[i], r.finals) - #[trigger] r.diffs_yellow[i]) by {
        lemma_sub_own_mod_vanishes(yellow_prod(guess[i], fin));
    }

    assert forall|i: int| 0 <= i < WORD_LEN implies
        is_zero_gate(r.diffs_green[i], r.inv_green[i], #[trigger] r.zero_green[i]) by {
        let d = guess[i] - fin[i];
        if guess[i] == fin[i] {
            assert(d % p == 0) by {
                assert(d == 0);
            }
            lemma_is_zero_complete_zero(inv_g[i]);
        } else {
            lemma_sub_own_mod_vanishes(d);
            assert(d % p != 0) by {
                if d % p == 0 {
                    lemma_vanishes_small(d);
                }
            }
            lemma_is_zero_complete_nonzero(d % p, inv_g[i]);
        }
    }

    assert forall|i: int| 0 <= i < WORD_LEN implies
        is_zero_gate(r.diffs_yellow[i], r.inv_yellow[i], #[trigger] r.zero_yellow[i]) by {
        let w = yellow_prod(guess[i], fin);
        lemma_yellow_prod_bound(guess[i], fin);
        if w == 0 {
            assert(w % p == 0);
            lemma_is_zero_complete_zero(inv_y[i]);
        } else {
            lemma_sub_own_mod_vanishes(w);
            assert(w % p != 0) by {
                if w % p == 0 {
                    lemma_vanishes_small(w);
                }
            }
            lemma_is_zero_complete_nonzero(w % p, inv_y[i]);
        }
    }

    assert forall|i: int| 0 <= i < WORD_LEN implies
        vanishes(r.diffs_green[i] * #[trigger] r.green[i])
        && vanishes(r.zero_green[i] * (1 - r.green[i])) by {
        let d = guess[i] - fin[i];
        if guess[i] == fin[i] {
            assert(d % p == 0) by {
                assert(d == 0);
            }
            assert(r.diffs_green[i] * r.green[i] == 0);
            assert(r.zero_green[i] * (1 - r.green[i]) == 0);
        } else {
            assert(r.green[i] == 0);
            assert(r.diffs_green[i] * 0 == 0);
            assert(r.zero_green[i] * (1 - 0) == 0);
        }
    }

    assert forall|i: int| 0 <= i < WORD_LEN implies
        vanishes(r.diffs_yellow[i] * #[trigger] r.yellow[i])
        && vanishes(r.zero_yellow[i] * (1 - r.yellow[i])) by {
        let w = yellow_prod(guess[i], fin);
        lemma_yellow_prod_zero_iff(guess[i], fin);
        if w == 0 {
            assert(r.yellow[i] == 1);
            assert(w % p == 0);
            assert(r.diffs_yellow[i] * r.yellow[i] == 0);
            assert(r.zero_yellow[i] * (1 - r.yellow[i]) == 1 * 0);
        } else {
            assert(r.yellow[i] == 0);
            assert(r.zero_yellow[i] == 0);
            assert(r.diffs_yellow[i] * 0 == 0);
            assert(r.zero_yellow[i] * (1 - 0) == 0);
        }
    }
}

/// Soundness of one guess region, over the whole field: any cell
/// assignment that satisfies every gate, whose guess and final letters
/// are in range and whose public color bits are boolean, carries the
/// true poly hash of its letters, a hash found in the lookup table,
/// and exactly the reference feedback as its color bits — whatever the
/// private difference, inverse and zero-test cells hold.
///
/// The in-range premise on the guess letters records the effect of the
/// range-check gate; forcing it from that gate alone over the field
/// rests on the primality of the modulus, which the backend's field
/// supplies and which is not re-proved here (over the integers the
/// forcing is lemma_range_poly_zero_iff). The boolean premise on the
/// color bits is the public-instance invariant that the verifier's own
/// input upholds.
pub proof fn lemma_region_sound(r: RegionCells)
    requires
        region_wf(r),
        region_constraints(r),
        forall|i: int| 0 <= i < WORD_LEN ==> char_ok(#[trigger] r.chars[i]),
        forall|i: int| 0 <= i < WORD_LEN ==> char_ok(#[trigger] r.finals[i]),
        forall|i: int| 0 <= i < WORD_LEN ==> r.green[i] == 0 || #[trigger] r.green[i] == 1,
        forall|i: int| 0 <= i < WORD_LEN ==> r.yellow[i] == 0 || #[trigger] r.yellow[i] == 1,
    ensures
        r.poly_word == polyhash_spec(r.chars),
        table_spec().contains(r.poly_word),
        forall|i: int| 0 <= i < WORD_LEN ==> #[trigger] r.green[i] == green_bit(r.chars, r.finals, i),
        forall|i: int| 0 <= i < WORD_LEN ==> #[trigger] r.yellow[i] == yellow_bit(r.chars, r.finals, i),
{
    let p = field_p();
    assert(pow29(5) == 20511149) by {
        reveal_with_fuel(pow29, 6);
    }
    assert(pow25(5) == 9765625) by {
        reveal_with_fuel(pow25, 6);
    }

    lemma_polyhash_bound(r.chars);
    lemma_vanishes_small(polyhash_spec(r.chars) - r.poly_word);

    assert forall|i: int| 0 <= i < WORD_LEN implies
        #[trigger] r.green[i] == green_bit(r.chars, r.finals, i) by {
        let c = r.chars[i];
        let f = r.finals[i];
        let d = r.diffs_green[i];
        lemma_vanishes_two(c - f - d);
        if r.green[i] == 1 {
            assert(vanishes(d * 1));
            assert(d * 1 == d);
            lemma_vanishes_small(d);
            assert(c == f);
        } else {
            let z = r.zero_green[i];
            assert(vanishes(z * (1 - 0)));
            assert(z * (1 - 0) == z);
            lemma_vanishes_small(z);
            assert(vanishes(d * r.inv_green[i] - (1 - 0)));
            if c == f {
                assert(d == 0);
                assert(0 * r.inv_green[i] == 0);
                lemma_vanishes_small(-1);
            }
            assert(c != f);
        }
    }

    assert forall|i: int| 0 <= i < WORD_LEN implies
        #[trigger] r.yellow[i] == yellow_bit(r.chars, r.finals, i) by {
        let c = r.chars[i];
        let w = yellow_prod(c, r.finals);
        let d = r.diffs_yellow[i];
        lemma_yellow_prod_bound(c, r.finals);
        lemma_yellow_prod_zero_iff(c, r.finals);
        lemma_vanishes_two(w - d);
        if r.yellow[i] == 1 {
            assert(vanishes(d * 1));
            assert(d * 1 == d);
            lemma_vanishes_small(d);
            assert(w == 0);
        } else {
            let z = r.zero_yellow[i];
            assert(vanishes(z * (1 - 0)));
            assert(z * (1 - 0) == z);
            lemma_vanishes_small(z);
            assert(vanishes(d * r.inv_yellow[i] - (1 - 0)));
            if w == 0 {
                assert(d == 0);
                assert(0 * r.inv_yellow[i] == 0);
                lemma_vanishes_small(-1);
            }
            assert(w != 0);
        }
    }
}

} // verus!
