use vstd::prelude::*;
use crate::{BASE, WORD_LEN};

verus! {

/// A word is made of lowercase letters only.
pub open spec fn lowercase_word(w: Seq<char>) -> bool {
    forall|i: int| 0 <= i < w.len() ==> 'a' <= #[trigger] w[i] <= 'z'
}

/// A word that the game accepts: exactly WORD_LEN lowercase letters.
pub open spec fn valid_word(w: Seq<char>) -> bool {
    w.len() == WORD_LEN && lowercase_word(w)
}

/// The 1-based alphabet index of each letter of a word.
pub open spec fn word_chars_spec(w: Seq<char>) -> Seq<int> {
    Seq::new(w.len(), |i: int| w[i] as int - 96)
}

/// Base-29 positional polynomial hash of a character sequence,
/// evaluated in Horner form, leftmost letter most significant.
pub open spec fn polyhash_spec(cs: Seq<int>) -> int
    decreases cs.len(),
{
    if cs.len() == 0 {
        0
    } else {
        polyhash_spec(cs.drop_last()) * (BASE as int) + cs.last()
    }
}

/// 29 raised to the given power; bounds the polynomial hash.
pub open spec fn pow29(n: nat) -> int
    decreases n,
{
    if n == 0 {
        1
    } else {
        (BASE as int) * pow29((n - 1) as nat)
    }
}

/// Digits below the base keep the hash below pow29 of the length.
pub proof fn lemma_polyhash_bound(cs: Seq<int>)
    requires
        forall|i: int| 0 <= i < cs.len() ==> 0 <= #[trigger] cs[i] < BASE as int,
    ensures
        0 <= polyhash_spec(cs) < pow29(cs.len()),
    decreases cs.len(),
{
    if cs.len() > 0 {
        lemma_polyhash_bound(cs.drop_last());
    }
}

/// Maps each character of a word to its 1-based alphabet index.
pub fn word_to_chars(word: &str) -> (r: Vec<u64>)
    requires
        lowercase_word(word@),
    ensures
        r@.len() == word@.len(),
        forall|i: int| 0 <= i < r@.len() ==> r@[i] as int == word_chars_spec(word@)[i],
{
    let len = word.unicode_len();
    let mut res: Vec<u64> = Vec::new();
    let mut k: usize = 0;
    while k < len
        invariant
            lowercase_word(word@),
            len == word@.len(),
            k <= len,
            res@.len() == k,
            forall|i: int| 0 <= i < k ==> res@[i] as int == word_chars_spec(word@)[i],
        decreases len - k,
    {
        let c = word.get_char(k);
        assert('a' <= word@[k as int] <= 'z');
        res.push((c as u64) - 96);
        k += 1;
    }
    res
}

/// Base-29 polynomial hash of a word. The length cap keeps the hash
/// within u64; every game word is far shorter.
pub fn word_to_polyhash(word: &str) -> (r: u64)
    requires
        lowercase_word(word@),
        word@.len() <= 13,
    ensures
        r as int == polyhash_spec(word_chars_spec(word@)),
{
    let chars = word_to_chars(word);
    let ghost cseq = word_chars_spec(word@);
    let mut hash: u64 = 0;
    let mut k: usize = 0;
    assert(pow29(13) == 10260628712958602189) by {
        reveal_with_fuel(pow29, 14);
    }
    proof {
        assert(cseq.take(0) =~= Seq::<int>::empty());
    }
    while k < chars.len()
        invariant
            chars@.len() == cseq.len() <= 13,
            forall|i: int| 0 <= i < cseq.len() ==> chars@[i] as int == cseq[i],
            forall|i: int| 0 <= i < cseq.len() ==> 1 <= #[trigger] cseq[i] <= 26,
            k <= cseq.len(),
            hash as int == polyhash_spec(cseq.take(k as int)),
            pow29(13) == 10260628712958602189,
        decreases chars.len() - k,
    {
        proof {
            lemma_polyhash_bound(cseq.take(k as int));
            assert(pow29((k + 1) as nat) == 29 * pow29(k as nat));
            lemma_pow29_monotone((k + 1) as nat, 13);
            assert(chars@[k as int] as int == cseq[k as int]);
            assert(hash as int * 29 + (chars@[k as int] as int) < pow29((k + 1) as nat));
            assert(cseq.take(k + 1).drop_last() =~= cseq.take(k as int));
        }
        hash = hash * BASE + chars[k];
        k += 1;
    }
    proof {
        assert(cseq.take(cseq.len() as int) =~= cseq);
    }
    hash
}

/// pow29 never shrinks as the exponent grows.
pub proof fn lemma_pow29_monotone(m: nat, n: nat)
    requires
        m <= n,
    ensures
        0 < pow29(m) <= pow29(n),
    decreases n,
{
    if m < n {
        lemma_pow29_monotone(m, (n - 1) as nat);
    } else {
        lemma_pow29_positive(m);
    }
}

/// pow29 is positive.
pub proof fn lemma_pow29_positive(n: nat)
    ensures
        0 < pow29(n),
    decreases n,
{
    if n > 0 {
        lemma_pow29_positive((n - 1) as nat);
    }
}

/// The polynomial hash is injective on digit sequences of equal length
/// whose digits lie below the base; in particular two distinct words of
/// WORD_LEN letters never share a hash.
pub proof fn lemma_polyhash_injective(cs: Seq<int>, ds: Seq<int>)
    requires
        cs.len() == ds.len(),
        forall|i: int| 0 <= i < cs.len() ==> 0 <= #[trigger] cs[i] < BASE as int,
        forall|i: int| 0 <= i < ds.len() ==> 0 <= #[trigger] ds[i] < BASE as int,
        polyhash_spec(cs) == polyhash_spec(ds),
    ensures
        cs == ds,
    decreases cs.len(),
{
    if cs.len() == 0 {
        assert(cs =~= ds);
    } else {
        let h = polyhash_spec(cs);
        lemma_polyhash_bound(cs.drop_last());
        lemma_polyhash_bound(ds.drop_last());
        vstd::arithmetic::div_mod::lemma_fundamental_div_mod_converse(
            h, 29, polyhash_spec(cs.drop_last()), cs.last());
        vstd::arithmetic::div_mod::lemma_fundamental_div_mod_converse(
            h, 29, polyhash_spec(ds.drop_last()), ds.last());
        lemma_polyhash_injective(cs.drop_last(), ds.drop_last());
        assert(cs =~= cs.drop_last().push(cs.last()));
        assert(ds =~= ds.drop_last().push(ds.last()));
        assert(cs =~= ds);
    }
}

/// Two well-formed words of the fixed length with the same polynomial
/// hash are the same word: the hash may stand in for the word in the
/// dictionary lookup.
pub proof fn lemma_word_hash_injective(w1: Seq<char>, w2: Seq<char>)
    requires
        valid_word(w1),
        valid_word(w2),
        polyhash_spec(word_chars_spec(w1)) == polyhash_spec(word_chars_spec(w2)),
    ensures
        w1 == w2,
{
    let c1 = word_chars_spec(w1);
    let c2 = word_chars_spec(w2);
    assert forall|i: int| 0 <= i < WORD_LEN implies
        0 <= #[trigger] c1[i] < BASE as int && 0 <= #[trigger] c2[i] < BASE as int by {
        assert('a' <= w1[i] <= 'z');
        assert('a' <= w2[i] <= 'z');
    }
    lemma_polyhash_injective(c1, c2);
    assert forall|i: int| 0 <= i < WORD_LEN implies w1[i] == w2[i] by {
        assert(c1[i] == c2[i]);
        assert(w1[i] as int == w2[i] as int);
    }
    assert(w1 =~= w2);
}

/// Why a plaintext word was rejected before any witness was built.
#[derive(Clone, Copy, Debug, PartialEq, Eq, Structural)]
pub enum EncodingError {
    /// The word is not exactly WORD_LEN characters long.
    WrongLength,
    /// A character is outside the lowercase alphabet.
    BadChar,
}

/// Validating encoder: accepts exactly the well-formed game words and
/// says precisely why the others are rejected.
pub fn word_to_chars_checked(word: &str) -> (r: Result<Vec<u64>, EncodingError>)
    ensures
        match r {
            Ok(v) => valid_word(word@) && v@.len() == WORD_LEN
                && forall|i: int| 0 <= i < v@.len() ==> v@[i] as int == word_chars_spec(word@)[i],
            Err(EncodingError::WrongLength) => word@.len() != WORD_LEN,
            Err(EncodingError::BadChar) => word@.len() == WORD_LEN && !lowercase_word(word@),
        },
{
    let len = word.unicode_len();
    if len != WORD_LEN {
        return Err(EncodingError::WrongLength);
    }
    let mut k: usize = 0;
    while k < len
        invariant
            len == word@.len() == WORD_LEN,
            k <= len,
            forall|i: int| 0 <= i < k ==> 'a' <= #[trigger] word@[i] <= 'z',
        decreases len - k,
    {
        let c = word.get_char(k);
        if c < 'a' || c > 'z' {
            return Err(EncodingError::BadChar);
        }
        k += 1;
    }
    Ok(word_to_chars(word))
}

/// A letter is green when it matches the final word at the same position.
pub open spec fn green_bit(guess: Seq<int>, fin: Seq<int>, i: int) -> int {
    if guess[i] == fin[i] {
        1
    } else {
        0
    }
}

/// A letter is yellow when it occurs anywhere in the final word;
/// deliberately multiplicity-unaware, as the game always scored it.
pub open spec fn yellow_bit(guess: Seq<int>, fin: Seq<int>, i: int) -> int {
    if exists|j: int| 0 <= j < fin.len() && guess[i] == fin[j] {
        1
    } else {
        0
    }
}

/// Per-letter feedback of a guess against the final word: the green
/// row, then the yellow row, each a vector of 0/1 bits.
pub fn compute_diff(word: &str, final_word: &str) -> (r: Vec<Vec<u64>>)
    requires
        valid_word(word@),
        valid_word(final_word@),
    ensures
        r@.len() == 2,
        r@[0]@.len() == WORD_LEN,
        r@[1]@.len() == WORD_LEN,
        forall|i: int| 0 <= i < WORD_LEN ==> r@[0]@[i] as int
            == green_bit(word_chars_spec(word@), word_chars_spec(final_word@), i),
        forall|i: int| 0 <= i < WORD_LEN ==> r@[1]@[i] as int
            == yellow_bit(word_chars_spec(word@), word_chars_spec(final_word@), i),
{
    let chars = word_to_chars(word);
    let final_chars = word_to_chars(final_word);
    let ghost g = word_chars_spec(word@);
    let ghost f = word_chars_spec(final_word@);

    let mut green: Vec<u64> = Vec::new();
    let mut i: usize = 0;
    while i < WORD_LEN
        invariant
            chars@.len() == WORD_LEN == g.len(),
            final_chars@.len() == WORD_LEN == f.len(),
            forall|t: int| 0 <= t < WORD_LEN ==> chars@[t] as int == g[t],
            forall|t: int| 0 <= t < WORD_LEN ==> final_chars@[t] as int == f[t],
            i <= WORD_LEN,
            green@.len() == i,
            forall|t: int| 0 <= t < i ==> green@[t] as int == green_bit(g, f, t),
        decreases WORD_LEN - i,
    {
        if chars[i] == final_chars[i] {
            green.push(1);
        } else {
            green.push(0);
        }
        i += 1;
    }

    let mut yellow: Vec<u64> = Vec::new();
    let mut i: usize = 0;
    while i < WORD_LEN
        invariant
            chars@.len() == WORD_LEN == g.len(),
            final_chars@.len() == WORD_LEN == f.len(),
            forall|t: int| 0 <= t < WORD_LEN ==> chars@[t] as int == g[t],
            forall|t: int| 0 <= t < WORD_LEN ==> final_chars@[t] as int == f[t],
            i <= WORD_LEN,
            yellow@.len() == i,
            forall|t: int| 0 <= t < i ==> yellow@[t] as int == yellow_bit(g, f, t),
        decreases WORD_LEN - i,
    {
        let mut found = false;
        let mut j: usize = 0;
        while j < WORD_LEN
            invariant
                chars@.len() == WORD_LEN == g.len(),
                final_chars@.len() == WORD_LEN == f.len(),
                forall|t: int| 0 <= t < WORD_LEN ==> chars@[t] as int == g[t],
                forall|t: int| 0 <= t < WORD_LEN ==> final_chars@[t] as int == f[t],
                i < WORD_LEN,
                j <= WORD_LEN,
                found <==> exists|t: int| 0 <= t < j && g[i as int] == f[t],
            decreases WORD_LEN - j,
        {
            if chars[i] == final_chars[j] {
                found = true;
                proof {
                    assert(g[i as int] == f[j as int]);
                }
            } else {
                proof {
                    assert(forall|t: int| 0 <= t < j + 1 && g[i as int] == f[t] ==> t < j);
                }
            }
            j += 1;
        }
        if found {
            yellow.push(1);
        } else {
            yellow.push(0);
        }
        i += 1;
    }

    let mut res: Vec<Vec<u64>> = Vec::new();
    res.push(green);
    res.push(yellow);
    res
}

} // verus!
