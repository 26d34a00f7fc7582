use github_profile::github::topLanguages;
use github_profile::usage::LangUsage;

fn usage(pairs: &[(&str, u64)]) -> LangUsage {
    let mut u = LangUsage::new();
    for (n, s) in pairs {
        u.add(&n.to_string(), *s).unwrap();
    }
    u
}

fn names(v: &[&str]) -> Vec<String> {
    v.iter().map(|s| s.to_string()).collect()
}

fn ranked(v: &[(&str, u64)]) -> Vec<(String, u64)> {
    v.iter().map(|(n, s)| (n.to_string(), *s)).collect()
}

#[test]
fn ranker_leaves_out_ignored_languages() {
    let u = usage(&[("Rust", 500), ("HTML", 9000), ("Go", 300)]);
    let r = topLanguages(u, 5, &names(&["HTML"]));
    assert_eq!(r, ranked(&[("Rust", 500), ("Go", 300)]));
}

#[test]
fn ranker_orders_and_truncates() {
    let u = usage(&[("A", 10), ("B", 50), ("C", 30), ("D", 20)]);
    let r = topLanguages(u, 2, &names(&[]));
    assert_eq!(r, ranked(&[("B", 50), ("C", 30)]));
}

#[test]
fn ranker_returns_all_when_count_exceeds() {
    let u = usage(&[("Rust", 1), ("Go", 2)]);
    let r = topLanguages(u, 5, &names(&[]));
    assert_eq!(r.len(), 2);
    assert_eq!(r, ranked(&[("Go", 2), ("Rust", 1)]));
}

#[test]
fn ranker_with_zero_count_is_empty() {
    let u = usage(&[("Rust", 1), ("Go", 2)]);
    assert!(topLanguages(u, 0, &names(&[])).is_empty());
}

#[test]
fn ranker_keeps_order_of_equal_sizes() {
    let u = usage(&[("X", 5), ("Y", 9), ("Z", 5), ("W", 5)]);
    let r = topLanguages(u, 3, &names(&[]));
    assert_eq!(r, ranked(&[("Y", 9), ("X", 5), ("Z", 5)]));
}

#[test]
fn ranker_keeps_zero_sizes() {
    let u = usage(&[("Shell", 0), ("Rust", 3)]);
    let r = topLanguages(u, 5, &names(&["HTML"]));
    assert_eq!(r, ranked(&[("Rust", 3), ("Shell", 0)]));
}

#[test]
fn ranker_of_empty_usage_is_empty() {
    assert!(topLanguages(LangUsage::new(), 3, &names(&["HTML"])).is_empty());
}
