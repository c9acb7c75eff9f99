use std::cmp::Ordering;

use what_rs::identifier::Match;
use what_rs::sorter::{reverse_conditionally, Sorter};

fn record(name: &str, rarity: u32, matched: &str) -> Match {
    Match {
        matched_on: matched.to_string(),
        name: name.to_string(),
        rarity,
        description: None,
        link: None,
        exploit: None,
    }
}

fn sample() -> Vec<Match> {
    vec![
        record("gamma", 300, "ccc"),
        record("alpha", 900, "bbb"),
        record("beta", 100, "aaa"),
    ]
}

fn names(matches: &[Match]) -> Vec<&str> {
    matches.iter().map(|m| m.name.as_str()).collect()
}

#[test]
fn sorts_by_name() {
    let mut matches = sample();
    Sorter::default().key(&"name".to_string()).sort(&mut matches);
    assert_eq!(names(&matches), vec!["alpha", "beta", "gamma"]);
}

#[test]
fn sorts_by_name_reversed() {
    let mut matches = sample();
    Sorter::default()
        .key(&"name".to_string())
        .reverse(true)
        .sort(&mut matches);
    assert_eq!(names(&matches), vec!["gamma", "beta", "alpha"]);
}

#[test]
fn sorts_by_rarity() {
    let mut matches = sample();
    Sorter::default().key(&"rarity".to_string()).sort(&mut matches);
    let rarities: Vec<u32> = matches.iter().map(|m| m.rarity).collect();
    assert_eq!(rarities, vec![100, 300, 900]);
}

#[test]
fn sorts_by_matched_text() {
    let mut matches = sample();
    Sorter::default().key(&"matched".to_string()).sort(&mut matches);
    let texts: Vec<&str> = matches.iter().map(|m| m.matched_on.as_str()).collect();
    assert_eq!(texts, vec!["aaa", "bbb", "ccc"]);
}

#[test]
fn keyless_sorter_keeps_order() {
    let mut matches = sample();
    Sorter::default().key(&"none".to_string()).sort(&mut matches);
    assert_eq!(names(&matches), vec!["gamma", "alpha", "beta"]);
}

#[test]
fn sort_is_a_permutation() {
    let mut matches = sample();
    Sorter::default().key(&"name".to_string()).sort(&mut matches);
    assert_eq!(matches.len(), 3);
    for name in ["alpha", "beta", "gamma"] {
        assert!(names(&matches).contains(&name));
    }
}

#[test]
fn sort_is_stable() {
    let mut matches = vec![
        record("same", 500, "first"),
        record("zeta", 100, "zzz"),
        record("same", 500, "second"),
        record("same", 500, "third"),
    ];
    Sorter::default().key(&"name".to_string()).sort(&mut matches);
    let texts: Vec<&str> = matches
        .iter()
        .filter(|m| m.name == "same")
        .map(|m| m.matched_on.as_str())
        .collect();
    assert_eq!(texts, vec!["first", "second", "third"]);
    assert_eq!(matches[3].name, "zeta");
}

#[test]
fn reversed_sort_is_stable() {
    let mut matches = vec![
        record("alpha", 100, "aaa"),
        record("same", 500, "first"),
        record("same", 500, "second"),
    ];
    Sorter::default()
        .key(&"name".to_string())
        .reverse(true)
        .sort(&mut matches);
    assert_eq!(matches[0].name, "same");
    assert_eq!(matches[0].matched_on, "first");
    assert_eq!(matches[1].matched_on, "second");
    assert_eq!(matches[2].name, "alpha");
}

#[test]
fn reverses_ordering_on_demand() {
    assert_eq!(
        reverse_conditionally(Ordering::Less, true),
        Ordering::Greater
    );
    assert_eq!(
        reverse_conditionally(Ordering::Greater, true),
        Ordering::Less
    );
    assert_eq!(reverse_conditionally(Ordering::Equal, true), Ordering::Equal);
    assert_eq!(reverse_conditionally(Ordering::Less, false), Ordering::Less);
    assert_eq!(
        reverse_conditionally(Ordering::Greater, false),
        Ordering::Greater
    );
}
