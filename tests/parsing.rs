use git_contribution_analyzer::git::parse_author_line;
use git_contribution_analyzer::numstat::{parse_numstat_line, sum_numstat, LineChange};
use git_contribution_analyzer::pipeline::str_less;
use git_contribution_analyzer::share::Share;

#[test]
fn numstat_line_with_path() {
    assert_eq!(parse_numstat_line("12\t7\tsrc/main.rs"), Some(LineChange { added: 12, deleted: 7 }));
}

#[test]
fn numstat_line_without_path() {
    assert_eq!(parse_numstat_line("  3 4 "), Some(LineChange { added: 3, deleted: 4 }));
}

#[test]
fn numstat_binary_placeholder_skipped() {
    assert_eq!(parse_numstat_line("-\t-\tlogo.png"), None);
}

#[test]
fn numstat_malformed_lines_skipped() {
    assert_eq!(parse_numstat_line(""), None);
    assert_eq!(parse_numstat_line("commit abc"), None);
    assert_eq!(parse_numstat_line("12"), None);
    assert_eq!(parse_numstat_line("1x 2 f"), None);
}

#[test]
fn numstat_count_above_u32_skipped() {
    assert_eq!(parse_numstat_line("4294967295 0 f"), Some(LineChange { added: 4294967295, deleted: 0 }));
    assert_eq!(parse_numstat_line("4294967296 0 f"), None);
}

#[test]
fn numstat_feed_sums_records_only() {
    let feed: Vec<String> = ["10\t2\ta", "-\t-\tb", "", "x y z", "3\t3\tc"].iter().map(|s| s.to_string()).collect();
    assert_eq!(sum_numstat(&feed), (13, 5));
}

#[test]
fn author_line_split_at_first_bar() {
    let a = parse_author_line("dev@example.com|Jane Doe").unwrap();
    assert_eq!(a.email, "dev@example.com");
    assert_eq!(a.name, "Jane Doe");
    assert!(parse_author_line("no bar here").is_none());
}

#[test]
fn share_hundredths_rounding() {
    assert_eq!(Share { part: 1, whole: 3 }.hundredths(), 3333);
    assert_eq!(Share { part: 2, whole: 3 }.hundredths(), 6667);
    assert_eq!(Share { part: 5, whole: 0 }.hundredths(), 0);
    assert_eq!(Share { part: 7, whole: 7 }.hundredths(), 10000);
}

#[test]
fn share_comparison() {
    assert!(Share { part: 1, whole: 3 }.is_less_than(&Share { part: 1, whole: 2 }));
    assert!(!Share { part: 2, whole: 4 }.is_less_than(&Share { part: 1, whole: 2 }));
    assert!(Share::zero().is_less_than(&Share { part: 1, whole: 100 }));
    assert!(!Share { part: 9, whole: 0 }.is_less_than(&Share::zero()));
}

#[test]
fn lexicographic_order_of_names() {
    assert!(str_less("alpha", "beta"));
    assert!(str_less("app", "apple"));
    assert!(!str_less("apple", "app"));
    assert!(!str_less("same", "same"));
    assert!(str_less("Zed", "abc"));
}
