use vstd::prelude::*;
use crate::{WORD_LEN, WORD_COUNT, char_ok};
use crate::modular::field_p;
use crate::utils::{EncodingError, valid_word, lowercase_word, word_chars_spec, polyhash_spec,
    green_bit, yellow_bit, word_to_chars_checked, word_to_polyhash, compute_diff};
use crate::gates::{yellow_prod, pow25, RegionCells, region_wf, region_constraints,
    honest_region, honest_inverses, lemma_region_complete, lemma_yellow_prod_bound};
use crate::dict::{table_spec, dict_spec};

verus! {

/// The private witness of one proof: for each of the WORD_COUNT
/// guesses, its poly hash, its letter values, and its per-letter green
/// and yellow differences against the final word, kept as exact
/// integers (the field representative follows by reduction).
#[derive(Debug)]
pub struct WordleWitness {
    pub poly_words: Vec<u64>,
    pub word_chars: Vec<Vec<u64>>,
    pub word_diffs_green: Vec<Vec<i64>>,
    pub word_diffs_yellow: Vec<Vec<i64>>,
}

/// The public instance, in its fixed order: the final word's letter
/// values, then the green grid, then the yellow grid, each grid
/// flattened guess-major.
#[derive(Debug)]
pub struct PublicInstance {
    pub final_chars: Vec<u64>,
    pub green: Vec<u64>,
    pub yellow: Vec<u64>,
}

/// One cell of a flattened color grid.
pub open spec fn grid_cell(s: Seq<u64>, idx: int, i: int) -> int {
    s[idx * WORD_LEN + i] as int
}

/// The witness holds exactly the values an honest prover derives from
/// the given guesses and final word.
pub open spec fn witness_matches(w: WordleWitness, words: Seq<Seq<char>>, fin: Seq<char>) -> bool {
    let f = word_chars_spec(fin);
    &&& words.len() == WORD_COUNT
    &&& w.poly_words@.len() == WORD_COUNT
    &&& w.word_chars@.len() == WORD_COUNT
    &&& w.word_diffs_green@.len() == WORD_COUNT
    &&& w.word_diffs_yellow@.len() == WORD_COUNT
    &&& forall|idx: int| 0 <= idx < WORD_COUNT ==>
        #[trigger] w.poly_words@[idx] as int == polyhash_spec(word_chars_spec(words[idx]))
    &&& forall|idx: int| 0 <= idx < WORD_COUNT ==> (#[trigger] w.word_chars@[idx])@.len() == WORD_LEN
    &&& forall|idx: int, i: int| 0 <= idx < WORD_COUNT && 0 <= i < WORD_LEN ==>
        (#[trigger] w.word_chars@[idx]@[i]) as int == word_chars_spec(words[idx])[i]
    &&& forall|idx: int| 0 <= idx < WORD_COUNT ==> (#[trigger] w.word_diffs_green@[idx])@.len() == WORD_LEN
    &&& forall|idx: int, i: int| 0 <= idx < WORD_COUNT && 0 <= i < WORD_LEN ==>
        (#[trigger] w.word_diffs_green@[idx]@[i]) as int
            == word_chars_spec(words[idx])[i] - word_chars_spec(fin)[i]
    &&& forall|idx: int| 0 <= idx < WORD_COUNT ==> (#[trigger] w.word_diffs_yellow@[idx])@.len() == WORD_LEN
    &&& forall|idx: int, i: int| 0 <= idx < WORD_COUNT && 0 <= i < WORD_LEN ==>
        (#[trigger] w.word_diffs_yellow@[idx]@[i]) as int
            == yellow_prod(word_chars_spec(words[idx])[i], word_chars_spec(fin))
}

/// The instance holds the final word's letters and, for every guess,
/// exactly the reference feedback bits.
pub open spec fn instance_matches(inst: PublicInstance, words: Seq<Seq<char>>, fin: Seq<char>) -> bool {
    let f = word_chars_spec(fin);
    &&& words.len() == WORD_COUNT
    &&& inst.final_chars@.len() == WORD_LEN
    &&& inst.green@.len() == WORD_COUNT * WORD_LEN
    &&& inst.yellow@.len() == WORD_COUNT * WORD_LEN
    &&& forall|i: int| 0 <= i < WORD_LEN ==> #[trigger] inst.final_chars@[i] as int == f[i]
    &&& forall|idx: int, i: int| 0 <= idx < WORD_COUNT && 0 <= i < WORD_LEN ==>
        #[trigger] grid_cell(inst.green@, idx, i) == green_bit(word_chars_spec(words[idx]), f, i)
    &&& forall|idx: int, i: int| 0 <= idx < WORD_COUNT && 0 <= i < WORD_LEN ==>
        #[trigger] grid_cell(inst.yellow@, idx, i) == yellow_bit(word_chars_spec(words[idx]), f, i)
}

/// Letter values of a valid word are in circuit range.
pub proof fn lemma_valid_word_chars(w: Seq<char>)
    requires
        valid_word(w),
    ensures
        word_chars_spec(w).len() == WORD_LEN,
        forall|i: int| 0 <= i < WORD_LEN ==> char_ok(#[trigger] word_chars_spec(w)[i]),
{
    assert forall|i: int| 0 <= i < WORD_LEN implies char_ok(#[trigger] word_chars_spec(w)[i]) by {
        assert('a' <= w[i] <= 'z');
    }
}

/// Builds the private witness for a played game. Succeeds exactly when
/// the final word and every guess are well-formed words; the values it
/// returns are the honest assignments of every region.
pub fn build_witness(words: &Vec<String>, final_word: &str) -> (r: Result<WordleWitness, EncodingError>)
    requires
        words@.len() == WORD_COUNT,
    ensures
        match r {
            Ok(w) => valid_word(final_word@)
                && (forall|idx: int| 0 <= idx < WORD_COUNT ==> valid_word(#[trigger] words@[idx]@))
                && witness_matches(w, words@.map_values(|s: String| s@), final_word@),
            Err(EncodingError::WrongLength) => final_word@.len() != WORD_LEN
                || exists|idx: int| 0 <= idx < WORD_COUNT && (#[trigger] words@[idx]@).len() != WORD_LEN,
            Err(EncodingError::BadChar) => (final_word@.len() == WORD_LEN && !lowercase_word(final_word@))
                || exists|idx: int| 0 <= idx < WORD_COUNT && (#[trigger] words@[idx]@).len() == WORD_LEN
                    && !lowercase_word(words@[idx]@),
        },
{
    let final_chars = match word_to_chars_checked(final_word) {
        Ok(v) => v,
        Err(e) => {
            return Err(e);
        },
    };
    let ghost f = word_chars_spec(final_word@);
    proof {
        lemma_valid_word_chars(final_word@);
    }

    let mut poly_words: Vec<u64> = Vec::new();
    let mut word_chars: Vec<Vec<u64>> = Vec::new();
    let mut word_diffs_green: Vec<Vec<i64>> = Vec::new();
    let mut word_diffs_yellow: Vec<Vec<i64>> = Vec::new();

    let ghost wseq = words@.map_values(|s: String| s@);
    let mut idx: usize = 0;
    while idx < WORD_COUNT
        invariant
            words@.len() == WORD_COUNT,
            wseq == words@.map_values(|s: String| s@),
            valid_word(final_word@),
            f == word_chars_spec(final_word@),
            final_chars@.len() == WORD_LEN,
            forall|i: int| 0 <= i < WORD_LEN ==> final_chars@[i] as int == f[i],
            forall|i: int| 0 <= i < WORD_LEN ==> char_ok(#[trigger] f[i]),
            idx <= WORD_COUNT,
            poly_words@.len() == idx,
            word_chars@.len() == idx,
            word_diffs_green@.len() == idx,
            word_diffs_yellow@.len() == idx,
            forall|t: int| 0 <= t < idx ==> valid_word(#[trigger] wseq[t]),
            forall|t: int| 0 <= t < idx ==>
                #[trigger] poly_words@[t] as int == polyhash_spec(word_chars_spec(wseq[t])),
            forall|t: int| 0 <= t < idx ==> (#[trigger] word_chars@[t])@.len() == WORD_LEN,
            forall|t: int, i: int| 0 <= t < idx && 0 <= i < WORD_LEN ==>
                (#[trigger] word_chars@[t]@[i]) as int == word_chars_spec(wseq[t])[i],
            forall|t: int| 0 <= t < idx ==> (#[trigger] word_diffs_green@[t])@.len() == WORD_LEN,
            forall|t: int, i: int| 0 <= t < idx && 0 <= i < WORD_LEN ==>
                (#[trigger] word_diffs_green@[t]@[i]) as int
                    == word_chars_spec(wseq[t])[i] - f[i],
            forall|t: int| 0 <= t < idx ==> (#[trigger] word_diffs_yellow@[t])@.len() == WORD_LEN,
            forall|t: int, i: int| 0 <= t < idx && 0 <= i < WORD_LEN ==>
                (#[trigger] word_diffs_yellow@[t]@[i]) as int
                    == yellow_prod(word_chars_spec(wseq[t])[i], f),
        decreases WORD_COUNT - idx,
    {
        let word = &words[idx];
        let chars = match word_to_chars_checked(word.as_str()) {
            Ok(v) => v,
            Err(e) => {
                assert(wseq[idx as int] == word@);
                return Err(e);
            },
        };
        let ghost g = word_chars_spec(word@);
        proof {
            assert(wseq[idx as int] == word@);
            lemma_valid_word_chars(word@);
        }
        let poly = word_to_polyhash(word.as_str());

        let mut greens: Vec<i64> = Vec::new();
        let mut i: usize = 0;
        while i < WORD_LEN
            invariant
                chars@.len() == WORD_LEN,
                final_chars@.len() == WORD_LEN,
                forall|t: int| 0 <= t < WORD_LEN ==> chars@[t] as int == g[t],
                forall|t: int| 0 <= t < WORD_LEN ==> final_chars@[t] as int == f[t],
                forall|t: int| 0 <= t < WORD_LEN ==> char_ok(#[trigger] g[t]),
                forall|t: int| 0 <= t < WORD_LEN ==> char_ok(#[trigger] f[t]),
                i <= WORD_LEN,
                greens@.len() == i,
                forall|t: int| 0 <= t < i ==> #[trigger] greens@[t] as int == g[t] - f[t],
            decreases WORD_LEN - i,
        {
            proof {
                assert(chars@[i as int] as int == g[i as int]);
                assert(final_chars@[i as int] as int == f[i as int]);
            }
            let d: i64 = (chars[i] as i64) - (final_chars[i] as i64);
            greens.push(d);
            i += 1;
        }

        let mut yellows: Vec<i64> = Vec::new();
        let mut i: usize = 0;
        while i < WORD_LEN
            invariant
                chars@.len() == WORD_LEN,
                final_chars@.len() == WORD_LEN,
                f.len() == WORD_LEN,
                forall|t: int| 0 <= t < WORD_LEN ==> chars@[t] as int == g[t],
                forall|t: int| 0 <= t < WORD_LEN ==> final_chars@[t] as int == f[t],
                forall|t: int| 0 <= t < WORD_LEN ==> char_ok(#[trigger] g[t]),
                forall|t: int| 0 <= t < WORD_LEN ==> char_ok(#[trigger] f[t]),
                i <= WORD_LEN,
                yellows@.len() == i,
                forall|t: int| 0 <= t < i ==> #[trigger] yellows@[t] as int == yellow_prod(g[t], f),
            decreases WORD_LEN - i,
        {
            let c = chars[i];
            let mut acc: i64 = 1;
            let mut j: usize = 0;
            proof {
                assert(f.take(0) =~= Seq::<int>::empty());
                assert(pow25(5) == 9765625) by {
                    reveal_with_fuel(pow25, 6);
                }
            }
            while j < WORD_LEN
                invariant
                    chars@.len() == WORD_LEN,
                    final_chars@.len() == WORD_LEN,
                    f.len() == WORD_LEN,
                    i < WORD_LEN,
                    c == chars@[i as int],
                    c as int == g[i as int],
                    char_ok(g[i as int]),
                    forall|t: int| 0 <= t < WORD_LEN ==> final_chars@[t] as int == f[t],
                    forall|t: int| 0 <= t < WORD_LEN ==> char_ok(#[trigger] f[t]),
                    j <= WORD_LEN,
                    acc as int == yellow_prod(g[i as int], f.take(j as int)),
                    pow25(5) == 9765625,
                decreases WORD_LEN - j,
            {
                proof {
                    lemma_yellow_prod_bound(g[i as int], f.take(j as int));
                    lemma_pow25_monotone(j as nat, 5);
                    assert(f.take(j + 1).drop_last() =~= f.take(j as int));
                    assert(f.take(j + 1).last() == f[j as int]);
                    assert(pow25((j + 1) as nat) == 25 * pow25(j as nat));
                    lemma_pow25_monotone((j + 1) as nat, 5);
                    assert(-pow25((j + 1) as nat)
                        <= acc as int * (g[i as int] - f[j as int])
                        <= pow25((j + 1) as nat)) by (nonlinear_arith)
                        requires
                            -pow25(j as nat) <= acc as int <= pow25(j as nat),
                            -25 <= g[i as int] - f[j as int] <= 25,
                            pow25(j as nat) > 0,
                            pow25((j + 1) as nat) == 25 * pow25(j as nat),
                    ;
                }
                acc = acc * ((c as i64) - (final_chars[j] as i64));
                j += 1;
            }
            proof {
                assert(f.take(WORD_LEN as int) =~= f);
            }
            yellows.push(acc);
            i += 1;
        }

        poly_words.push(poly);
        word_chars.push(chars);
        word_diffs_green.push(greens);
        word_diffs_yellow.push(yellows);
        idx += 1;
    }

    proof {
        assert(forall|t: int| 0 <= t < WORD_COUNT ==> wseq[t] == #[trigger] words@[t]@);
    }
    Ok(WordleWitness {
        poly_words,
        word_chars,
        word_diffs_green,
        word_diffs_yellow,
    })
}

/// Builds the public instance an honest prover and verifier agree on:
/// the final word's letters and the reference feedback of every guess,
/// flattened in the fixed order. Succeeds exactly when every word is
/// well-formed.
pub fn build_instance_for_game(words: &Vec<String>, final_word: &str) -> (r: Result<
    PublicInstance,
    EncodingError,
>)
    requires
        words@.len() == WORD_COUNT,
    ensures
        match r {
            Ok(inst) => valid_word(final_word@)
                && (forall|idx: int| 0 <= idx < WORD_COUNT ==> valid_word(#[trigger] words@[idx]@))
                && instance_matches(inst, words@.map_values(|s: String| s@), final_word@),
            Err(EncodingError::WrongLength) => final_word@.len() != WORD_LEN
                || exists|idx: int| 0 <= idx < WORD_COUNT && (#[trigger] words@[idx]@).len() != WORD_LEN,
            Err(EncodingError::BadChar) => (final_word@.len() == WORD_LEN && !lowercase_word(final_word@))
                || exists|idx: int| 0 <= idx < WORD_COUNT && (#[trigger] words@[idx]@).len() == WORD_LEN
                    && !lowercase_word(words@[idx]@),
        },
{
    let final_chars = match word_to_chars_checked(final_word) {
        Ok(v) => v,
        Err(e) => {
            return Err(e);
        },
    };
    let ghost f = word_chars_spec(final_word@);
    let ghost wseq = words@.map_values(|s: String| s@);

    let mut green: Vec<u64> = Vec::new();
    let mut yellow: Vec<u64> = Vec::new();
    let mut idx: usize = 0;
    while idx < WORD_COUNT
        invariant
            words@.len() == WORD_COUNT,
            wseq == words@.map_values(|s: String| s@),
            valid_word(final_word@),
            f == word_chars_spec(final_word@),
            idx <= WORD_COUNT,
            green@.len() == idx * WORD_LEN,
            yellow@.len() == idx * WORD_LEN,
            forall|t: int| 0 <= t < idx ==> valid_word(#[trigger] wseq[t]),
            forall|t: int, i: int| 0 <= t < idx && 0 <= i < WORD_LEN ==>
                #[trigger] grid_cell(green@, t, i) == green_bit(word_chars_spec(wseq[t]), f, i),
            forall|t: int, i: int| 0 <= t < idx && 0 <= i < WORD_LEN ==>
                #[trigger] grid_cell(yellow@, t, i) == yellow_bit(word_chars_spec(wseq[t]), f, i),
        decreases WORD_COUNT - idx,
    {
        let word = &words[idx];
        match word_to_chars_checked(word.as_str()) {
            Ok(_) => (),
            Err(e) => {
                assert(wseq[idx as int] == word@);
                return Err(e);
            },
        }
        proof {
            assert(wseq[idx as int] == word@);
        }
        let d = compute_diff(word.as_str(), final_word);
        let ghost old_green = green@;
        let ghost old_yellow = yellow@;
        let mut i: usize = 0;
        while i < WORD_LEN
            invariant
                d@.len() == 2,
                d@[0]@.len() == WORD_LEN,
                d@[1]@.len() == WORD_LEN,
                idx < WORD_COUNT,
                i <= WORD_LEN,
                old_green.len() == idx * WORD_LEN,
                old_yellow.len() == idx * WORD_LEN,
                green@.len() == idx * WORD_LEN + i,
                yellow@.len() == idx * WORD_LEN + i,
                forall|t: int| 0 <= t < green@.len() ==> #[trigger] green@[t]
                    == if t < old_green.len() { old_green[t] } else { d@[0]@[t - old_green.len()] },
                forall|t: int| 0 <= t < yellow@.len() ==> #[trigger] yellow@[t]
                    == if t < old_yellow.len() { old_yellow[t] } else { d@[1]@[t - old_yellow.len()] },
            decreases WORD_LEN - i,
        {
            green.push(d[0][i]);
            yellow.push(d[1][i]);
            i += 1;
        }
        proof {
            assert forall|t: int, i: int| 0 <= t < idx + 1 && 0 <= i < WORD_LEN implies
                #[trigger] grid_cell(green@, t, i) == green_bit(word_chars_spec(wseq[t]), f, i) by {
                if t < idx {
                    assert(grid_cell(old_green, t, i) == green_bit(word_chars_spec(wseq[t]), f, i));
                    assert(t * WORD_LEN + i < old_green.len());
                    assert(green@[t * WORD_LEN + i] == old_green[t * WORD_LEN + i]);
                } else {
                    assert(t * WORD_LEN + i - old_green.len() == i);
                    assert(green@[t * WORD_LEN + i] == d@[0]@[i]);
                }
            }
            assert forall|t: int, i: int| 0 <= t < idx + 1 && 0 <= i < WORD_LEN implies
                #[trigger] grid_cell(yellow@, t, i) == yellow_bit(word_chars_spec(wseq[t]), f, i) by {
                if t < idx {
                    assert(grid_cell(old_yellow, t, i) == yellow_bit(word_chars_spec(wseq[t]), f, i));
                    assert(t * WORD_LEN + i < old_yellow.len());
                    assert(yellow@[t * WORD_LEN + i] == old_yellow[t * WORD_LEN + i]);
                } else {
                    assert(t * WORD_LEN + i - old_yellow.len() == i);
                    assert(yellow@[t * WORD_LEN + i] == d@[1]@[i]);
                }
            }
        }
        idx += 1;
    }
    proof {
        assert(forall|t: int| 0 <= t < WORD_COUNT ==> wseq[t] == #[trigger] words@[t]@);
    }
    Ok(PublicInstance { final_chars, green, yellow })
}

/// The full feedback grids of a play, one [green row, yellow row] pair
/// per guess; this is what the prover publishes beside the proof.
pub fn play_diffs(words: &Vec<String>, final_word: &str) -> (r: Result<
    Vec<Vec<Vec<u64>>>,
    EncodingError,
>)
    requires
        words@.len() == WORD_COUNT,
    ensures
        match r {
            Ok(g) => valid_word(final_word@)
                && (forall|idx: int| 0 <= idx < WORD_COUNT ==> valid_word(#[trigger] words@[idx]@))
                && g@.len() == WORD_COUNT
                && (forall|idx: int| 0 <= idx < WORD_COUNT ==> (#[trigger] g@[idx])@.len() == 2)
                && (forall|idx: int, k: int| 0 <= idx < WORD_COUNT && 0 <= k < 2 ==>
                    (#[trigger] g@[idx]@[k])@.len() == WORD_LEN)
                && (forall|idx: int, i: int| 0 <= idx < WORD_COUNT && 0 <= i < WORD_LEN ==>
                    (#[trigger] g@[idx]@[0]@[i]) as int
                        == green_bit(word_chars_spec(words@[idx]@), word_chars_spec(final_word@), i))
                && (forall|idx: int, i: int| 0 <= idx < WORD_COUNT && 0 <= i < WORD_LEN ==>
                    (#[trigger] g@[idx]@[1]@[i]) as int
                        == yellow_bit(word_chars_spec(words@[idx]@), word_chars_spec(final_word@), i)),
            Err(EncodingError::WrongLength) => final_word@.len() != WORD_LEN
                || exists|idx: int| 0 <= idx < WORD_COUNT && (#[trigger] words@[idx]@).len() != WORD_LEN,
            Err(EncodingError::BadChar) => (final_word@.len() == WORD_LEN && !lowercase_word(final_word@))
                || exists|idx: int| 0 <= idx < WORD_COUNT && (#[trigger] words@[idx]@).len() == WORD_LEN
                    && !lowercase_word(words@[idx]@),
        },
{
    let ghost f = word_chars_spec(final_word@);
    match word_to_chars_checked(final_word) {
        Ok(_) => (),
        Err(e) => {
            return Err(e);
        },
    }
    let mut res: Vec<Vec<Vec<u64>>> = Vec::new();
    let mut idx: usize = 0;
    while idx < WORD_COUNT
        invariant
            words@.len() == WORD_COUNT,
            valid_word(final_word@),
            f == word_chars_spec(final_word@),
            idx <= WORD_COUNT,
            res@.len() == idx,
            forall|t: int| 0 <= t < idx ==> valid_word(#[trigger] words@[t]@),
            forall|t: int| 0 <= t < idx ==> (#[trigger] res@[t])@.len() == 2,
            forall|t: int, k: int| 0 <= t < idx && 0 <= k < 2 ==>
                (#[trigger] res@[t]@[k])@.len() == WORD_LEN,
            forall|t: int, i: int| 0 <= t < idx && 0 <= i < WORD_LEN ==>
                (#[trigger] res@[t]@[0]@[i]) as int
                    == green_bit(word_chars_spec(words@[t]@), f, i),
            forall|t: int, i: int| 0 <= t < idx && 0 <= i < WORD_LEN ==>
                (#[trigger] res@[t]@[1]@[i]) as int
                    == yellow_bit(word_chars_spec(words@[t]@), f, i),
        decreases WORD_COUNT - idx,
    {
        let word = &words[idx];
        match word_to_chars_checked(word.as_str()) {
            Ok(_) => (),
            Err(e) => {
                return Err(e);
            },
        }
        let d = compute_diff(word.as_str(), final_word);
        res.push(d);
        idx += 1;
    }
    Ok(res)
}

/// The public instance as the verifier rebuilds it from the final word
/// and the claimed feedback grids, whatever those grids hold.
pub fn instance_from_grids(final_word: &str, diffs: &Vec<Vec<Vec<u64>>>) -> (r: Result<
    PublicInstance,
    EncodingError,
>)
    requires
        diffs@.len() == WORD_COUNT,
        forall|idx: int| 0 <= idx < WORD_COUNT ==> (#[trigger] diffs@[idx])@.len() == 2,
        forall|idx: int, k: int| 0 <= idx < WORD_COUNT && 0 <= k < 2 ==>
            (#[trigger] diffs@[idx]@[k])@.len() == WORD_LEN,
    ensures
        match r {
            Ok(inst) => valid_word(final_word@)
                && inst.final_chars@.len() == WORD_LEN
                && (forall|i: int| 0 <= i < WORD_LEN ==>
                    #[trigger] inst.final_chars@[i] as int == word_chars_spec(final_word@)[i])
                && inst.green@.len() == WORD_COUNT * WORD_LEN
                && inst.yellow@.len() == WORD_COUNT * WORD_LEN
                && (forall|idx: int, i: int| 0 <= idx < WORD_COUNT && 0 <= i < WORD_LEN ==>
                    #[trigger] grid_cell(inst.green@, idx, i) == diffs@[idx]@[0]@[i] as int)
                && (forall|idx: int, i: int| 0 <= idx < WORD_COUNT && 0 <= i < WORD_LEN ==>
                    #[trigger] grid_cell(inst.yellow@, idx, i) == diffs@[idx]@[1]@[i] as int),
            Err(EncodingError::WrongLength) => final_word@.len() != WORD_LEN,
            Err(EncodingError::BadChar) => final_word@.len() == WORD_LEN && !lowercase_word(final_word@),
        },
{
    let final_chars = match word_to_chars_checked(final_word) {
        Ok(v) => v,
        Err(e) => {
            return Err(e);
        },
    };
    let mut green: Vec<u64> = Vec::new();
    let mut yellow: Vec<u64> = Vec::new();
    let mut idx: usize = 0;
    while idx < WORD_COUNT
        invariant
            diffs@.len() == WORD_COUNT,
            forall|t: int| 0 <= t < WORD_COUNT ==> (#[trigger] diffs@[t])@.len() == 2,
            forall|t: int, k: int| 0 <= t < WORD_COUNT && 0 <= k < 2 ==>
                (#[trigger] diffs@[t]@[k])@.len() == WORD_LEN,
            idx <= WORD_COUNT,
            green@.len() == idx * WORD_LEN,
            yellow@.len() == idx * WORD_LEN,
            forall|t: int, i: int| 0 <= t < idx && 0 <= i < WORD_LEN ==>
                #[trigger] grid_cell(green@, t, i) == diffs@[t]@[0]@[i] as int,
            forall|t: int, i: int| 0 <= t < idx && 0 <= i < WORD_LEN ==>
                #[trigger] grid_cell(yellow@, t, i) == diffs@[t]@[1]@[i] as int,
        decreases WORD_COUNT - idx,
    {
        let ghost old_green = green@;
        let ghost old_yellow = yellow@;
        let mut i: usize = 0;
        while i < WORD_LEN
            invariant
                diffs@.len() == WORD_COUNT,
                forall|t: int| 0 <= t < WORD_COUNT ==> (#[trigger] diffs@[t])@.len() == 2,
                forall|t: int, k: int| 0 <= t < WORD_COUNT && 0 <= k < 2 ==>
                    (#[trigger] diffs@[t]@[k])@.len() == WORD_LEN,
                idx < WORD_COUNT,
                i <= WORD_LEN,
                old_green.len() == idx * WORD_LEN,
                old_yellow.len() == idx * WORD_LEN,
                green@.len() == idx * WORD_LEN + i,
                yellow@.len() == idx * WORD_LEN + i,
                forall|t: int| 0 <= t < green@.len() ==> #[trigger] green@[t]
                    == if t < old_green.len() { old_green[t] } else { diffs@[idx as int]@[0]@[t - old_green.len()] },
                forall|t: int| 0 <= t < yellow@.len() ==> #[trigger] yellow@[t]
                    == if t < old_yellow.len() { old_yellow[t] } else { diffs@[idx as int]@[1]@[t - old_yellow.len()] },
            decreases WORD_LEN - i,
        {
            green.push(diffs[idx][0][i]);
            yellow.push(diffs[idx][1][i]);
            i += 1;
        }
        proof {
            assert forall|t: int, i: int| 0 <= t < idx + 1 && 0 <= i < WORD_LEN implies
                #[trigger] grid_cell(green@, t, i) == diffs@[t]@[0]@[i] as int by {
                if t < idx {
                    assert(grid_cell(old_green, t, i) == diffs@[t]@[0]@[i] as int);
                    assert(t * WORD_LEN + i < old_green.len());
                    assert(green@[t * WORD_LEN + i] == old_green[t * WORD_LEN + i]);
                } else {
                    assert(t * WORD_LEN + i - old_green.len() == i);
                    assert(green@[t * WORD_LEN + i] == diffs@[idx as int]@[0]@[i]);
                }
            }
            assert forall|t: int, i: int| 0 <= t < idx + 1 && 0 <= i < WORD_LEN implies
                #[trigger] grid_cell(yellow@, t, i) == diffs@[t]@[1]@[i] as int by {
                if t < idx {
                    assert(grid_cell(old_yellow, t, i) == diffs@[t]@[1]@[i] as int);
                    assert(t * WORD_LEN + i < old_yellow.len());
                    assert(yellow@[t * WORD_LEN + i] == old_yellow[t * WORD_LEN + i]);
                } else {
                    assert(t * WORD_LEN + i - old_yellow.len() == i);
                    assert(yellow@[t * WORD_LEN + i] == diffs@[idx as int]@[1]@[i]);
                }
            }
        }
        idx += 1;
    }
    Ok(PublicInstance { final_chars, green, yellow })
}

/// Display code of one letter of feedback: 2 for green, 1 for yellow,
/// 0 for neither; green wins when both bits are set.
pub fn diff_colors(green_row: &Vec<u64>, yellow_row: &Vec<u64>) -> (r: Vec<u64>)
    requires
        green_row@.len() == WORD_LEN,
        yellow_row@.len() == WORD_LEN,
    ensures
        r@.len() == WORD_LEN,
        forall|i: int| 0 <= i < WORD_LEN ==> #[trigger] r@[i] as int
            == if green_row@[i] as int == 1 { 2int } else if yellow_row@[i] as int == 1 { 1int } else { 0int },
{
    let mut r: Vec<u64> = Vec::new();
    let mut i: usize = 0;
    while i < WORD_LEN
        invariant
            green_row@.len() == WORD_LEN,
            yellow_row@.len() == WORD_LEN,
            i <= WORD_LEN,
            r@.len() == i,
            forall|t: int| 0 <= t < i ==> #[trigger] r@[t] as int
                == if green_row@[t] as int == 1 { 2int } else if yellow_row@[t] as int == 1 { 1int } else { 0int },
        decreases WORD_LEN - i,
    {
        if green_row[i] == 1 {
            r.push(2);
        } else if yellow_row[i] == 1 {
            r.push(1);
        } else {
            r.push(0);
        }
        i += 1;
    }
    r
}

/// The cells of one guess region, cut out of a witness and an
/// instance: letters and hash from the witness, differences reduced
/// into the field, zero-tests derived from the stored differences,
/// colors copied from the instance grids, and the backend gadget's
/// inverse auxiliaries passed through.
pub open spec fn witness_region(
    w: WordleWitness,
    inst: PublicInstance,
    inv_g: Seq<int>,
    inv_y: Seq<int>,
    idx: int,
) -> RegionCells {
    RegionCells {
        poly_word: w.poly_words@[idx] as int,
        chars: Seq::new(WORD_LEN as nat, |i: int| w.word_chars@[idx]@[i] as int),
        finals: Seq::new(WORD_LEN as nat, |i: int| inst.final_chars@[i] as int),
        diffs_green: Seq::new(WORD_LEN as nat, |i: int| (w.word_diffs_green@[idx]@[i] as int) % field_p()),
        diffs_yellow: Seq::new(WORD_LEN as nat, |i: int| (w.word_diffs_yellow@[idx]@[i] as int) % field_p()),
        inv_green: inv_g,
        zero_green: Seq::new(WORD_LEN as nat, |i: int| if w.word_diffs_green@[idx]@[i] as int == 0 { 1int } else { 0int }),
        inv_yellow: inv_y,
        zero_yellow: Seq::new(WORD_LEN as nat, |i: int| if w.word_diffs_yellow@[idx]@[i] as int == 0 { 1int } else { 0int }),
        green: Seq::new(WORD_LEN as nat, |i: int| grid_cell(inst.green@, idx, i)),
        yellow: Seq::new(WORD_LEN as nat, |i: int| grid_cell(inst.yellow@, idx, i)),
    }
}

/// Completeness of a built play: for every guess of a well-formed game
/// whose words are all in the dictionary, the region cut out of the
/// built witness and instance satisfies every gate of the circuit,
/// given correct inverse auxiliaries from the backend's gadget.
/// Together with the backend this is what makes an honest proof verify.
pub proof fn lemma_witness_complete(
    w: WordleWitness,
    inst: PublicInstance,
    words: Seq<Seq<char>>,
    fin: Seq<char>,
    inv_g: Seq<int>,
    inv_y: Seq<int>,
    idx: int,
)
    requires
        0 <= idx < WORD_COUNT,
        valid_word(fin),
        forall|t: int| 0 <= t < WORD_COUNT ==> valid_word(#[trigger] words[t]),
        witness_matches(w, words, fin),
        instance_matches(inst, words, fin),
        dict_spec().contains(polyhash_spec(word_chars_spec(words[idx]))),
        honest_inverses(word_chars_spec(words[idx]), word_chars_spec(fin), inv_g, inv_y),
    ensures
        region_wf(witness_region(w, inst, inv_g, inv_y, idx)),
        region_constraints(witness_region(w, inst, inv_g, inv_y, idx)),
{
    let g = word_chars_spec(words[idx]);
    let f = word_chars_spec(fin);
    lemma_valid_word_chars(words[idx]);
    lemma_valid_word_chars(fin);
    let h = polyhash_spec(g);
    assert(table_spec().contains(h)) by {
        let k = choose|k: int| 0 <= k < dict_spec().len() && dict_spec()[k] == h;
        assert(table_spec()[k] == h);
    }
    lemma_region_complete(g, f, inv_g, inv_y);
    let hr = honest_region(g, f, inv_g, inv_y);
    let wr = witness_region(w, inst, inv_g, inv_y, idx);
    assert(wr.chars =~= hr.chars);
    assert(wr.finals =~= hr.finals);
    assert(wr.diffs_green =~= hr.diffs_green);
    assert(wr.diffs_yellow =~= hr.diffs_yellow);
    assert forall|i: int| 0 <= i < WORD_LEN implies wr.zero_green[i] == hr.zero_green[i] by {
        assert(w.word_diffs_green@[idx]@[i] as int == g[i] - f[i]);
    }
    assert(wr.zero_green =~= hr.zero_green);
    assert forall|i: int| 0 <= i < WORD_LEN implies wr.zero_yellow[i] == hr.zero_yellow[i] by {
        assert(w.word_diffs_yellow@[idx]@[i] as int == yellow_prod(g[i], f));
    }
    assert(wr.zero_yellow =~= hr.zero_yellow);
    assert forall|i: int| 0 <= i < WORD_LEN implies wr.green[i] == hr.green[i] by {
        assert(grid_cell(inst.green@, idx, i) == green_bit(g, f, i));
    }
    assert(wr.green =~= hr.green);
    assert forall|i: int| 0 <= i < WORD_LEN implies wr.yellow[i] == hr.yellow[i] by {
        assert(grid_cell(inst.yellow@, idx, i) == yellow_bit(g, f, i));
    }
    assert(wr.yellow =~= hr.yellow);
    assert(wr =~= hr);
}

/// Completeness of a whole well-formed game: when every guess is a
/// dictionary word and witness and instance were built honestly, every
/// one of the WORD_COUNT regions satisfies the whole constraint
/// system, with the backend's gadget supplying one pair of inverse
/// columns per region.
pub proof fn lemma_play_complete(
    w: WordleWitness,
    inst: PublicInstance,
    words: Seq<Seq<char>>,
    fin: Seq<char>,
    inv_gs: Seq<Seq<int>>,
    inv_ys: Seq<Seq<int>>,
)
    requires
        valid_word(fin),
        forall|t: int| 0 <= t < WORD_COUNT ==> valid_word(#[trigger] words[t]),
        witness_matches(w, words, fin),
        instance_matches(inst, words, fin),
        forall|t: int| 0 <= t < WORD_COUNT ==>
            dict_spec().contains(polyhash_spec(word_chars_spec(#[trigger] words[t]))),
        inv_gs.len() == WORD_COUNT,
        inv_ys.len() == WORD_COUNT,
        forall|t: int| 0 <= t < WORD_COUNT ==>
            honest_inverses(word_chars_spec(words[t]), word_chars_spec(fin),
                #[trigger] inv_gs[t], inv_ys[t]),
    ensures
        forall|t: int| 0 <= t < WORD_COUNT ==> {
            &&& region_wf(#[trigger] witness_region(w, inst, inv_gs[t], inv_ys[t], t))
            &&& region_constraints(witness_region(w, inst, inv_gs[t], inv_ys[t], t))
        },
{
    assert forall|t: int| 0 <= t < WORD_COUNT implies {
        &&& region_wf(#[trigger] witness_region(w, inst, inv_gs[t], inv_ys[t], t))
        &&& region_constraints(witness_region(w, inst, inv_gs[t], inv_ys[t], t))
    } by {
        lemma_witness_complete(w, inst, words, fin, inv_gs[t], inv_ys[t], t);
    }
}

/// pow25 never shrinks as the exponent grows.
pub proof fn lemma_pow25_monotone(m: nat, n: nat)
    requires
        m <= n,
    ensures
        0 < pow25(m) <= pow25(n),
    decreases n,
{
    if m < n {
        lemma_pow25_monotone(m, (n - 1) as nat);
    } else if m > 0 {
        lemma_pow25_monotone((m - 1) as nat, (m - 1) as nat);
    }
}

} // verus!
