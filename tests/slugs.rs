use std::collections::HashSet;

use rustyrs::{combinations, random_slugs, GeneralException};

const NUM_ADJS: usize = 100;
const NUM_NOUNS: usize = 100;

fn adjectives() -> Vec<String> {
    (0..NUM_ADJS).map(|i| format!("bold{}", i)).collect()
}

fn nouns() -> Vec<String> {
    (0..NUM_NOUNS).map(|i| format!("otter{}", i)).collect()
}

fn count(word_length: i32) -> Result<usize, GeneralException> {
    combinations(word_length, NUM_ADJS, NUM_NOUNS)
}

fn slugs(word_length: i32, num_outputs: Option<i32>) -> Result<Vec<String>, GeneralException> {
    random_slugs(adjectives(), nouns(), word_length, num_outputs)
}

#[test]
fn happy_2() {
    assert!(slugs(2, Some(1)).unwrap().len() > 0);
}

#[test]
fn unhappy_high() {
    match slugs(6, Some(1)) {
        Ok(_v) => assert!(false),
        Err(_e) => assert!(true),
    }
}

#[test]
fn unhappy_low() {
    match slugs(0, Some(1)) {
        Ok(_v) => assert!(false),
        Err(_e) => assert!(true),
    }
}

#[test]
fn unhappy_negative() {
    match slugs(-1, Some(1)) {
        Ok(_v) => assert!(false),
        Err(_e) => assert!(true),
    }
}

#[test]
fn combinations_happy() {
    let mut combo = 0;
    for i in 1..5 {
        let val = count(i).unwrap();
        assert!(val > combo);
        combo += val
    }
}

#[test]
fn combinations_unhappy_high() {
    match count(6) {
        Ok(_v) => assert!(false),
        Err(_e) => assert!(true),
    }
}

#[test]
fn combinations_unhappy_low() {
    match count(0) {
        Ok(_v) => assert!(false),
        Err(_e) => assert!(true),
    }
}

#[test]
fn combinations_unhappy_negative() {
    match count(-1) {
        Ok(_v) => assert!(false),
        Err(_e) => assert!(true),
    }
}

fn assert_all_unique(word_length: i32, combos: usize) {
    let slugs = slugs(word_length, Some(combos as i32))
        .expect("unable to create 2 word slugs for all possible combinations");
    assert!(slugs.len() == combos);
    let mut hs = HashSet::new();
    println!("{:?}", &slugs[..10]);
    for slug in slugs {
        hs.insert(slug);
    }
    assert_eq!(hs.len(), combos)
}

#[test]
fn happy_2_all_unique_half() {
    let combos = count(2).unwrap() / 2;
    assert_all_unique(2, combos);
}

#[test]
fn happy_2_all_unique_all() {
    let possible_combos = count(2).unwrap();
    assert_all_unique(2, possible_combos);
}

#[test]
fn happy_3_all_unique_1_million() {
    let combos = 1_000_000;
    assert_all_unique(3, combos);
}

#[test]
fn happy_4_all_unique_1_million() {
    let combos = 1_000_000;
    assert_all_unique(4, combos);
}

#[test]
fn happy_5_all_unique_1_million() {
    let combos = 1_000_000;
    assert_all_unique(4, combos);
}
