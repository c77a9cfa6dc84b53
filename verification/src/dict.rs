use vstd::prelude::*;

verus! {

/// The polynomial hashes of the admissible words, in alphabetical
/// order of the words they encode. The dictionary is fixed at setup
/// time; changing it changes the circuit's verifying key.
pub open spec fn dict_spec() -> Seq<int> {
    seq![
        769303,  // about
        1223090,  // audio
        1857802,  // bread
        2562097,  // crane
        3272373,  // dream
        3576520,  // earth
        4077715,  // every
        4554195,  // fluff
        4767973,  // funky
        5391279,  // grape
        5696582,  // happy
        6042300,  // house
        6182535,  // hunky
        8620699,  // lemon
        8713012,  // light
        9572432,  // money
        11103886,  // other
        11610431,  // plant
        13641562,  // shirt
        13732433,  // slate
        13763318,  // smile
        13822245,  // sound
        13934048,  // still
        13939145,  // stone
        14345216,  // their
        14345464,  // there
        14371171,  // tiger
        16308835,  // water
        16470239,  // which
        16648788,  // world
    ]
}

/// The lookup table the circuit is loaded with: every dictionary hash,
/// then the sentinel zero entry that inactive lookup rows degenerate to.
pub open spec fn table_spec() -> Seq<int> {
    dict_spec().push(0)
}

/// The dictionary hashes as a runtime vector, sentinel excluded.
pub fn dict_hashes() -> (r: Vec<u64>)
    ensures
        r@.len() == dict_spec().len(),
        forall|i: int| 0 <= i < r@.len() ==> r@[i] as int == dict_spec()[i],
{
    let r: Vec<u64> = vec![
        769303, 1223090, 1857802, 2562097, 3272373, 3576520, 4077715, 4554195,
        4767973, 5391279, 5696582, 6042300, 6182535, 8620699, 8713012, 9572432,
        11103886, 11610431, 13641562, 13732433, 13763318, 13822245, 13934048,
        13939145, 14345216, 14345464, 14371171, 16308835, 16470239, 16648788,
    ];
    assert(r@ =~= Seq::<u64>::empty()
        .push(769303).push(1223090).push(1857802).push(2562097).push(3272373)
        .push(3576520).push(4077715).push(4554195).push(4767973).push(5391279)
        .push(5696582).push(6042300).push(6182535).push(8620699).push(8713012)
        .push(9572432).push(11103886).push(11610431).push(13641562).push(13732433)
        .push(13763318).push(13822245).push(13934048).push(13939145).push(14345216)
        .push(14345464).push(14371171).push(16308835).push(16470239).push(16648788));
    r
}

/// True exactly when the given hash is the hash of a dictionary word.
pub fn is_dict_hash(h: u64) -> (r: bool)
    ensures
        r <==> dict_spec().contains(h as int),
{
    let hashes = dict_hashes();
    let mut k: usize = 0;
    while k < hashes.len()
        invariant
            hashes@.len() == dict_spec().len(),
            forall|i: int| 0 <= i < hashes@.len() ==> hashes@[i] as int == dict_spec()[i],
            k <= hashes@.len(),
            forall|i: int| 0 <= i < k ==> dict_spec()[i] != h as int,
        decreases hashes@.len() - k,
    {
        if hashes[k] == h {
            assert(dict_spec()[k as int] == h as int);
            return true;
        }
        k += 1;
    }
    assert(forall|i: int| 0 <= i < dict_spec().len() ==> dict_spec()[i] != h as int);
    false
}

} // verus!
