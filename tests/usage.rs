use github_profile::error::Error;
use github_profile::usage::{aggregate, LangUsage};

fn rec(pairs: &[(&str, u64)]) -> Vec<(String, u64)> {
    pairs.iter().map(|(n, s)| (n.to_string(), *s)).collect()
}

fn entries(u: &LangUsage) -> Vec<(String, u64)> {
    (0..u.len()).map(|i| u.entry(i)).collect()
}

fn size_of(u: &LangUsage, lang: &str) -> Option<u64> {
    entries(u).into_iter().find(|(n, _)| n == lang).map(|(_, s)| s)
}

#[test]
fn aggregate_adds_sizes_of_one_language() {
    let repos = vec![rec(&[("Rust", 100)]), rec(&[("Rust", 250)])];
    let u = aggregate(&repos).unwrap();
    assert_eq!(entries(&u), vec![("Rust".to_string(), 350)]);
}

#[test]
fn aggregate_keeps_order_of_first_appearance() {
    let repos = vec![
        rec(&[("Go", 10), ("Rust", 5)]),
        rec(&[("C", 7), ("Go", 1)]),
    ];
    let u = aggregate(&repos).unwrap();
    assert_eq!(
        entries(&u),
        vec![("Go".to_string(), 11), ("Rust".to_string(), 5), ("C".to_string(), 7)]
    );
}

#[test]
fn aggregate_ignores_repository_order() {
    let a = rec(&[("Go", 10), ("Rust", 5)]);
    let b = rec(&[("C", 7), ("Go", 1)]);
    let c = rec(&[("Rust", 40)]);
    let u1 = aggregate(&vec![a.clone(), b.clone(), c.clone()]).unwrap();
    let u2 = aggregate(&vec![c, a, b]).unwrap();
    for lang in ["Go", "Rust", "C", "Haskell"] {
        assert_eq!(size_of(&u1, lang), size_of(&u2, lang));
    }
    assert_eq!(u1.len(), u2.len());
    assert_eq!(size_of(&u1, "Rust"), Some(45));
}

#[test]
fn aggregate_keeps_zero_sizes() {
    let u = aggregate(&vec![rec(&[("Shell", 0)])]).unwrap();
    assert_eq!(entries(&u), vec![("Shell".to_string(), 0)]);
}

#[test]
fn aggregate_of_nothing_is_empty() {
    assert_eq!(aggregate(&vec![]).unwrap().len(), 0);
    assert_eq!(aggregate(&vec![vec![], vec![]]).unwrap().len(), 0);
}

#[test]
fn aggregate_names_are_case_sensitive() {
    let u = aggregate(&vec![rec(&[("rust", 1), ("Rust", 2)])]).unwrap();
    assert_eq!(u.len(), 2);
}

#[test]
fn aggregate_reports_overflow() {
    let repos = vec![rec(&[("Rust", u64::MAX)]), rec(&[("Rust", 1)])];
    assert_eq!(aggregate(&repos).err(), Some(Error::SizeOverflow("Rust".to_string())));
    let fits = vec![rec(&[("Rust", u64::MAX - 1)]), rec(&[("Rust", 1)])];
    assert_eq!(size_of(&aggregate(&fits).unwrap(), "Rust"), Some(u64::MAX));
}

#[test]
fn add_leaves_table_unchanged_on_overflow() {
    let mut u = LangUsage::new();
    let rust = "Rust".to_string();
    assert_eq!(u.add(&rust, u64::MAX), Ok(()));
    assert_eq!(u.add(&rust, 1), Err(Error::SizeOverflow("Rust".to_string())));
    assert_eq!(entries(&u), vec![("Rust".to_string(), u64::MAX)]);
}

#[test]
fn overflow_names_the_language() {
    let repos = vec![rec(&[("Go", 1), ("C", u64::MAX)]), rec(&[("Go", 2), ("C", 3)])];
    let e = aggregate(&repos).err().unwrap();
    assert_eq!(e, Error::SizeOverflow("C".to_string()));
    assert_eq!(e.message(), "Language size overflows 64 bits: C");
}
