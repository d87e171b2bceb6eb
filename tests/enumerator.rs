use std::collections::HashSet;

use rustyrs::{combinations, create_phrases, get_slug, get_words, random_slugs};
use rustyrs::{GeneralException, WordSelector};

fn words(ws: &[&str]) -> Vec<String> {
    ws.iter().map(|w| w.to_string()).collect()
}

fn numbered(stem: &str, n: usize) -> Vec<String> {
    (0..n).map(|i| format!("{}{}", stem, i)).collect()
}

#[test]
fn counts_match_the_closed_forms() {
    assert_eq!(combinations(1, 3, 4), Ok(4));
    assert_eq!(combinations(2, 3, 4), Ok(12));
    assert_eq!(combinations(3, 3, 4), Ok(36));
    assert_eq!(combinations(4, 3, 4), Ok(144));
    assert_eq!(combinations(5, 3, 4), Ok(432));
}

#[test]
fn counts_with_an_empty_vocabulary() {
    assert_eq!(combinations(1, 0, 4), Ok(4));
    assert_eq!(combinations(3, 0, 4), Ok(0));
    assert_eq!(combinations(5, 3, 0), Ok(0));
}

#[test]
fn count_that_overflows_is_reported() {
    assert_eq!(
        combinations(5, usize::MAX, 2),
        Err(GeneralException::CountOverflow)
    );
    assert_eq!(combinations(2, usize::MAX, 1), Ok(usize::MAX));
    assert_eq!(
        combinations(2, usize::MAX, 2),
        Err(GeneralException::CountOverflow)
    );
}

#[test]
fn invalid_lengths_are_rejected() {
    for l in [-1, 0, 6, 100] {
        assert_eq!(
            combinations(l, 3, 3),
            Err(GeneralException::InvalidWordLength(l))
        );
    }
    for l in [0usize, 6, 7] {
        match WordSelector::new(words(&["red"]), words(&["cat"]), l) {
            Err(e) => assert_eq!(e, GeneralException::InvalidWordLength(l as i32)),
            Ok(_) => panic!("length {} accepted", l),
        }
    }
}

#[test]
fn empty_vocabularies_are_rejected() {
    match WordSelector::new(Vec::new(), words(&["cat"]), 2) {
        Err(e) => assert_eq!(e, GeneralException::InvalidWordLength(2)),
        Ok(_) => panic!("empty adjectives accepted"),
    }
    match WordSelector::new(words(&["red"]), Vec::new(), 1) {
        Err(e) => assert_eq!(e, GeneralException::InvalidWordLength(1)),
        Ok(_) => panic!("empty nouns accepted"),
    }
}

#[test]
fn two_words_cover_every_pair_then_stop() {
    let adjs = words(&["red", "big"]);
    let nouns = words(&["cat", "dog"]);
    assert_eq!(combinations(2, adjs.len(), nouns.len()), Ok(4));
    let mut ws = WordSelector::new(adjs, nouns, 2).unwrap();
    let mut seen = HashSet::new();
    for _ in 0..4 {
        seen.insert(ws.choose_slug().unwrap());
    }
    let expected: HashSet<String> = ["red-cat", "red-dog", "big-cat", "big-dog"]
        .iter()
        .map(|s| s.to_string())
        .collect();
    assert_eq!(seen, expected);
    assert_eq!(
        ws.choose_slug(),
        Err(GeneralException::NoMoreUniqueCombinations)
    );
}

#[test]
fn two_words_in_staggered_order() {
    let mut ws = WordSelector::new(words(&["red", "big"]), words(&["cat", "dog"]), 2).unwrap();
    let got: Vec<String> = (0..4).map(|_| ws.choose_slug().unwrap()).collect();
    assert_eq!(got, words(&["red-cat", "big-dog", "red-dog", "big-cat"]));
}

#[test]
fn one_word_follows_the_noun_order() {
    let nouns = words(&["cat", "dog", "fox"]);
    assert_eq!(combinations(1, 0, nouns.len()), Ok(3));
    let mut ws = WordSelector::new(words(&["red"]), nouns, 1).unwrap();
    assert_eq!(ws.choose_slug(), Ok("cat".to_string()));
    assert_eq!(ws.choose_slug(), Ok("dog".to_string()));
    assert_eq!(ws.choose_slug(), Ok("fox".to_string()));
    assert_eq!(
        ws.choose_slug(),
        Err(GeneralException::NoMoreUniqueCombinations)
    );
}

#[test]
fn first_slug_of_each_template() {
    let adjs = words(&["red", "big", "shy", "odd"]);
    let nouns = words(&["cat", "dog", "fox"]);
    assert_eq!(get_slug(adjs.clone(), nouns.clone(), 1), Ok("cat".to_string()));
    assert_eq!(get_slug(adjs.clone(), nouns.clone(), 2), Ok("red-cat".to_string()));
    assert_eq!(
        get_slug(adjs.clone(), nouns.clone(), 3),
        Ok("red-odd-cat".to_string())
    );
    assert_eq!(
        get_slug(adjs.clone(), nouns.clone(), 4),
        Ok("red-cat-of-odd-fox".to_string())
    );
    assert_eq!(
        get_slug(adjs.clone(), nouns.clone(), 5),
        Ok("red-odd-cat-of-shy-fox".to_string())
    );
    assert_eq!(
        get_slug(adjs, nouns, 6),
        Err(GeneralException::InvalidWordLength(6))
    );
}

#[test]
fn second_row_is_staggered() {
    let adjs = words(&["red", "big", "shy", "odd"]);
    let nouns = words(&["cat", "dog", "fox"]);
    let got = create_phrases(adjs, nouns, 5, 2).unwrap();
    assert_eq!(got[1], "big-shy-dog-of-odd-dog");
}

#[test]
fn every_small_vocabulary_is_exhausted_without_repeats() {
    for l in 1..=5usize {
        for a in 1..=5usize {
            for n in 1..=5usize {
                let total = combinations(l as i32, a, n).unwrap();
                let got = create_phrases(numbered("adj", a), numbered("noun", n), l, total as i32)
                    .unwrap();
                let set: HashSet<&String> = got.iter().collect();
                assert_eq!(set.len(), total, "length {} over {}x{}", l, a, n);
                assert_eq!(
                    create_phrases(numbered("adj", a), numbered("noun", n), l, total as i32 + 1),
                    Err(GeneralException::NoMoreUniqueCombinations)
                );
            }
        }
    }
}

#[test]
fn half_draw_of_two_words_is_unique() {
    let total = combinations(2, 7, 5).unwrap();
    let got = create_phrases(numbered("adj", 7), numbered("noun", 5), 2, (total / 2) as i32)
        .unwrap();
    let set: HashSet<&String> = got.iter().collect();
    assert_eq!(got.len(), total / 2);
    assert_eq!(set.len(), total / 2);
}

#[test]
fn negative_count_draws_nothing() {
    assert_eq!(
        create_phrases(numbered("adj", 2), numbered("noun", 2), 2, -3),
        Ok(Vec::new())
    );
}

#[test]
fn random_slugs_checks_the_count_first() {
    let adjs = words(&["red", "big"]);
    let nouns = words(&["cat", "dog"]);
    assert_eq!(
        random_slugs(adjs.clone(), nouns.clone(), 2, Some(5)),
        Err(GeneralException::NoMoreUniqueCombinations)
    );
    assert_eq!(
        random_slugs(adjs.clone(), nouns.clone(), 2, Some(-1)),
        Err(GeneralException::NoMoreUniqueCombinations)
    );
    assert_eq!(random_slugs(adjs.clone(), nouns.clone(), 2, None).unwrap().len(), 1);
    let all = random_slugs(adjs, nouns, 2, Some(4)).unwrap();
    let set: HashSet<String> = all.into_iter().collect();
    let expected: HashSet<String> = ["red-cat", "red-dog", "big-cat", "big-dog"]
        .iter()
        .map(|s| s.to_string())
        .collect();
    assert_eq!(set, expected);
}

#[test]
fn random_slugs_shuffles_the_vocabularies() {
    let adjs = numbered("adj", 50);
    let nouns = numbered("noun", 50);
    let ordered = create_phrases(adjs.clone(), nouns.clone(), 2, 2500).unwrap();
    let shuffled = random_slugs(adjs, nouns, 2, Some(2500)).unwrap();
    assert_ne!(ordered, shuffled);
    let a: HashSet<&String> = ordered.iter().collect();
    let b: HashSet<&String> = shuffled.iter().collect();
    assert_eq!(a, b);
}

#[test]
fn word_lists_split_on_newlines() {
    assert_eq!(get_words("red\nbig\nshy"), words(&["red", "big", "shy"]));
    assert_eq!(get_words("red\nbig\n"), words(&["red", "big", ""]));
    assert_eq!(get_words(""), words(&[""]));
    assert_eq!(get_words("\n\n"), words(&["", "", ""]));
    assert_eq!(get_words("héron\nœuf"), words(&["héron", "œuf"]));
}
