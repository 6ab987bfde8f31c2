use disko_zfs::order::order_by_length;
use disko_zfs::planner::is_k_syntax;
use disko_zfs::prefix_paths::PrefixPaths;
use disko_zfs::text::{decimal_string, parse_signed, parse_unsigned};

#[test]
fn prefix_paths_yield_every_parent() {
    let mut paths = PrefixPaths::new("tank/a/b/c");
    assert_eq!(paths.next(), Some("tank"));
    assert_eq!(paths.next(), Some("tank/a"));
    assert_eq!(paths.next(), Some("tank/a/b"));
    assert_eq!(paths.next(), None);
    assert_eq!(paths.next(), None);
    let mut none = PrefixPaths::new("tank");
    assert_eq!(none.next(), None);
}

#[test]
fn k_syntax_counts_kibibytes() {
    assert!(is_k_syntax("4K", 4096));
    assert!(is_k_syntax("4k", 4096));
    assert!(is_k_syntax("+4k", 4096));
    assert!(is_k_syntax("-0K", 0));
    assert!(!is_k_syntax("4K", 4000));
    assert!(!is_k_syntax("4M", 4096));
    assert!(!is_k_syntax("", 0));
    assert!(!is_k_syntax("K", 0));
    assert!(!is_k_syntax("9223372036854775808K", 0));
}

#[test]
fn decimal_texts() {
    assert_eq!(decimal_string(0), "0");
    assert_eq!(decimal_string(10), "10");
    assert_eq!(parse_unsigned("18446744073709551615"), Some(u64::MAX));
    assert_eq!(parse_unsigned("18446744073709551616"), None);
    assert_eq!(parse_signed("-9223372036854775808"), Some(i64::MIN));
    assert_eq!(parse_signed("+12"), Some(12));
    assert_eq!(parse_signed("-"), None);
    assert_eq!(parse_signed("9223372036854775808"), None);
}


#[test]
fn positions_are_ordered_shortest_first_and_stably() {
    assert_eq!(order_by_length(&vec![3, 1, 2, 1]), vec![1, 3, 2, 0]);
    assert_eq!(order_by_length(&vec![]), Vec::<usize>::new());
    assert_eq!(order_by_length(&vec![5, 5, 5]), vec![0, 1, 2]);
}
