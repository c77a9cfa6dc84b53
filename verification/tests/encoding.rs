use zk_wordle::dict::{dict_hashes, is_dict_hash};
use zk_wordle::utils::{compute_diff, word_to_chars, word_to_chars_checked, word_to_polyhash,
    EncodingError};
use zk_wordle::witness::{build_instance_for_game, build_witness, diff_colors, instance_from_grids,
    play_diffs};
use zk_wordle::{WORD_COUNT, WORD_LEN};

#[test]
fn chars_of_simple_words() {
    assert_eq!(word_to_chars("audio"), vec![1, 21, 4, 9, 15]);
    assert_eq!(word_to_chars("fluff"), vec![6, 12, 21, 6, 6]);
    assert_eq!(word_to_chars("a"), vec![1]);
    assert_eq!(word_to_chars("zzzzz"), vec![26, 26, 26, 26, 26]);
}

#[test]
fn polyhash_exact_values() {
    // ((((1*29 + 21)*29 + 4)*29 + 9)*29 + 15
    assert_eq!(word_to_polyhash("audio"), 1223090);
    assert_eq!(word_to_polyhash("fluff"), 4554195);
    assert_eq!(word_to_polyhash("hunky"), 6182535);
    assert_eq!(word_to_polyhash("funky"), 4767973);
    assert_eq!(word_to_polyhash(""), 0);
    assert_eq!(word_to_polyhash("ab"), 31);
}

#[test]
fn checked_encoding_accepts_valid_words() {
    let v = word_to_chars_checked("fluff").unwrap();
    assert_eq!(v, vec![6, 12, 21, 6, 6]);
}

#[test]
fn checked_encoding_rejects_wrong_length() {
    assert_eq!(word_to_chars_checked("fluf"), Err(EncodingError::WrongLength));
    assert_eq!(word_to_chars_checked("fluffy"), Err(EncodingError::WrongLength));
    assert_eq!(word_to_chars_checked(""), Err(EncodingError::WrongLength));
}

#[test]
fn checked_encoding_rejects_bad_characters() {
    assert_eq!(word_to_chars_checked("flu1f"), Err(EncodingError::BadChar));
    assert_eq!(word_to_chars_checked("FLUFF"), Err(EncodingError::BadChar));
    assert_eq!(word_to_chars_checked("flu f"), Err(EncodingError::BadChar));
}

#[test]
fn feedback_example_scenario() {
    // the example play: final word "fluff", guesses audio, hunky, fluff
    let d = compute_diff("audio", "fluff");
    assert_eq!(d[0], vec![0, 0, 0, 0, 0]);
    assert_eq!(d[1], vec![0, 1, 0, 0, 0]);

    let d = compute_diff("hunky", "fluff");
    assert_eq!(d[0], vec![0, 0, 0, 0, 0]);
    assert_eq!(d[1], vec![0, 1, 0, 0, 0]);

    let d = compute_diff("fluff", "fluff");
    assert_eq!(d[0], vec![1, 1, 1, 1, 1]);
    assert_eq!(d[1], vec![1, 1, 1, 1, 1]);
}

#[test]
fn feedback_repeated_letters_stay_yellow() {
    // multiplicity-unaware scoring: a letter already green elsewhere
    // still registers yellow at other positions
    let d = compute_diff("funky", "fluff");
    assert_eq!(d[0], vec![1, 0, 0, 0, 0]);
    assert_eq!(d[1], vec![1, 1, 0, 0, 0]);
}

#[test]
fn feedback_with_negative_differences() {
    // guess letters earlier in the alphabet than the final's: the
    // difference is negative, and must never read as a match
    let d = compute_diff("aaaaa", "zzzzz");
    assert_eq!(d[0], vec![0, 0, 0, 0, 0]);
    assert_eq!(d[1], vec![0, 0, 0, 0, 0]);
}

#[test]
fn hash_injectivity_structured_pairs() {
    // every word over a two-letter alphabet, all pairs
    let mut words: Vec<String> = Vec::new();
    for n in 0..32u32 {
        let mut w = String::new();
        for i in 0..WORD_LEN {
            w.push(if n & (1 << i) != 0 { 'b' } else { 'a' });
        }
        words.push(w);
    }
    for a in &words {
        for b in &words {
            if a != b {
                assert_ne!(word_to_polyhash(a), word_to_polyhash(b));
            }
        }
    }
}

#[test]
fn hash_injectivity_sampled_pairs() {
    // deterministic pseudo-random sampling over the full alphabet
    let mut state: u64 = 0x243F6A8885A308D3;
    let mut next_word = || {
        let mut w = String::new();
        for _ in 0..WORD_LEN {
            state = state.wrapping_mul(6364136223846793005).wrapping_add(1442695040888963407);
            let c = b'a' + ((state >> 33) % 26) as u8;
            w.push(c as char);
        }
        w
    };
    let words: Vec<String> = (0..200).map(|_| next_word()).collect();
    for a in &words {
        for b in &words {
            if a != b {
                assert_ne!(word_to_polyhash(a), word_to_polyhash(b));
            }
        }
    }
}

#[test]
fn dictionary_hashes_match_their_words() {
    let words = [
        "about", "audio", "bread", "crane", "dream", "earth", "every", "fluff", "funky", "grape",
        "happy", "house", "hunky", "lemon", "light", "money", "other", "plant", "shirt", "slate",
        "smile", "sound", "still", "stone", "their", "there", "tiger", "water", "which", "world",
    ];
    let hashes = dict_hashes();
    assert_eq!(hashes.len(), words.len());
    for (w, h) in words.iter().zip(hashes.iter()) {
        assert_eq!(word_to_polyhash(w), *h);
    }
}

#[test]
fn dictionary_membership() {
    assert!(is_dict_hash(word_to_polyhash("fluff")));
    assert!(is_dict_hash(word_to_polyhash("audio")));
    assert!(!is_dict_hash(word_to_polyhash("zzzzz")));
    assert!(!is_dict_hash(0));
}

#[test]
fn witness_values_for_example_play() {
    let words = vec!["audio".to_string(), "hunky".to_string(), "fluff".to_string()];
    let w = build_witness(&words, "fluff").unwrap();
    assert_eq!(w.poly_words, vec![1223090, 6182535, 4554195]);
    assert_eq!(w.word_chars[0], vec![1, 21, 4, 9, 15]);
    // green differences of "audio" against "fluff": letter minus final letter
    assert_eq!(w.word_diffs_green[0], vec![1 - 6, 21 - 12, 4 - 21, 9 - 6, 15 - 6]);
    // all-zero diffs for the winning guess
    assert_eq!(w.word_diffs_green[2], vec![0, 0, 0, 0, 0]);
    assert_eq!(w.word_diffs_yellow[2], vec![0, 0, 0, 0, 0]);
    // yellow diff of the first letter of "audio": product of (1 - c)
    // over the final word's letters 6,12,21,6,6
    let expect: i64 = (1 - 6) * (1 - 12) * (1 - 21) * (1 - 6) * (1 - 6);
    assert_eq!(w.word_diffs_yellow[0][0], expect);
}

#[test]
fn witness_rejects_malformed_words() {
    let words = vec!["audio".to_string(), "hunky".to_string(), "fluf".to_string()];
    assert_eq!(build_witness(&words, "fluff").unwrap_err(), EncodingError::WrongLength);
    let words = vec!["audio".to_string(), "hunky".to_string(), "fluff".to_string()];
    assert_eq!(build_witness(&words, "flu-f").unwrap_err(), EncodingError::BadChar);
}

#[test]
fn instance_layout_for_example_play() {
    let words = vec!["audio".to_string(), "hunky".to_string(), "fluff".to_string()];
    let inst = build_instance_for_game(&words, "fluff").unwrap();
    assert_eq!(inst.final_chars, vec![6, 12, 21, 6, 6]);
    // guess-major flattening of the green and yellow grids
    assert_eq!(
        inst.green,
        vec![0, 0, 0, 0, 0, 0, 0, 0, 0, 0, 1, 1, 1, 1, 1]
    );
    assert_eq!(
        inst.yellow,
        vec![0, 1, 0, 0, 0, 0, 1, 0, 0, 0, 1, 1, 1, 1, 1]
    );
}

#[test]
fn play_diffs_matches_feedback() {
    let words = vec!["audio".to_string(), "hunky".to_string(), "fluff".to_string()];
    let grids = play_diffs(&words, "fluff").unwrap();
    assert_eq!(grids.len(), WORD_COUNT);
    for (idx, word) in words.iter().enumerate() {
        let d = compute_diff(word, "fluff");
        assert_eq!(grids[idx], d);
    }
}

#[test]
fn instance_from_claimed_grids() {
    let words = vec!["audio".to_string(), "hunky".to_string(), "fluff".to_string()];
    let grids = play_diffs(&words, "fluff").unwrap();
    let inst = instance_from_grids("fluff", &grids).unwrap();
    let honest = build_instance_for_game(&words, "fluff").unwrap();
    assert_eq!(inst.final_chars, honest.final_chars);
    assert_eq!(inst.green, honest.green);
    assert_eq!(inst.yellow, honest.yellow);
    assert!(instance_from_grids("flu", &grids).is_err());
}

#[test]
fn color_codes_prefer_green() {
    let green = vec![1, 0, 0, 1, 0];
    let yellow = vec![1, 1, 0, 0, 0];
    assert_eq!(diff_colors(&green, &yellow), vec![2, 1, 0, 2, 0]);
}
