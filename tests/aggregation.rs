use git_contribution_analyzer::app::AuthorSummary;
use git_contribution_analyzer::git::{
    analyze_repository, distinct_authors, AuthorActivity, AuthorIdentity, Contribution,
};
use git_contribution_analyzer::pipeline::{finish_collection, order_repositories};
use git_contribution_analyzer::share::Share;
use git_contribution_analyzer::summary::{calculate_author_summaries, summaries_fit};

fn lines(items: &[&str]) -> Vec<String> {
    items.iter().map(|s| s.to_string()).collect()
}

fn activity(email: &str, name: &str, commits: u64, numstat: &[&str]) -> AuthorActivity {
    AuthorActivity {
        author: AuthorIdentity { email: email.to_string(), name: name.to_string() },
        commits,
        numstat: lines(numstat),
    }
}

fn percent(c: &Contribution) -> f64 {
    let s = c.contribution_percent;
    if s.whole == 0 {
        0.0
    } else {
        s.part as f64 / s.whole as f64 * 100.0
    }
}

fn overall(s: &AuthorSummary) -> f64 {
    let p = s.overall_contribution_percent;
    if p.whole == 0 {
        0.0
    } else {
        p.part as f64 / p.whole as f64 * 100.0
    }
}

#[test]
fn single_author_takes_whole_repository() {
    let authors = vec![
        activity("a@x", "A", 3, &["80\t20\tsrc/lib.rs"]),
        activity("b@x", "B", 1, &[]),
    ];
    let r = analyze_repository(&"repo".to_string(), &lines(&["80\t20\tsrc/lib.rs"]), &authors);
    assert_eq!(r.len(), 2);
    assert_eq!(r[0].email, "a@x");
    assert_eq!(r[0].lines_added, 80);
    assert_eq!(r[0].lines_deleted, 20);
    assert_eq!(r[0].commits, 3);
    assert_eq!(r[0].contribution_percent.hundredths(), 10000);
    assert_eq!(format!("{:.2}", percent(&r[0])), "100.00");
    assert_eq!(r[1].email, "b@x");
    assert_eq!(r[1].contribution_percent.hundredths(), 0);
    assert_eq!(format!("{:.2}", percent(&r[1])), "0.00");
    assert_eq!(r[1].repository, "repo");
}

#[test]
fn repository_without_changes_gives_zero_shares() {
    let authors = vec![
        activity("a@x", "A", 2, &["-\t-\timage.png"]),
        activity("b@x", "B", 1, &[""]),
    ];
    let r = analyze_repository(&"repo".to_string(), &lines(&["-\t-\timage.png", ""]), &authors);
    assert_eq!(r.len(), 2);
    for c in &r {
        assert_eq!(c.contribution_percent.whole, 0);
        assert_eq!(percent(c), 0.0);
    }
}

#[test]
fn shares_of_a_repository_add_up_to_the_whole() {
    let authors = vec![
        activity("a@x", "A", 1, &["10 0 f", "5 5 g"]),
        activity("b@x", "B", 1, &["7 3 h"]),
        activity("c@x", "C", 1, &["1 2 i"]),
    ];
    let total = lines(&["10 0 f", "5 5 g", "7 3 h", "1 2 i"]);
    let r = analyze_repository(&"repo".to_string(), &total, &authors);
    let parts: u64 = r.iter().map(|c| c.contribution_percent.part).sum();
    assert_eq!(parts, 33);
    let sum: f64 = r.iter().map(percent).sum();
    assert!((sum - 100.0).abs() < 1e-9);
}

#[test]
fn contributions_ranked_descending_and_stable() {
    let authors = vec![
        activity("a@x", "A", 1, &["1 1 f"]),
        activity("b@x", "B", 1, &["5 0 f"]),
        activity("c@x", "C", 1, &["2 0 f"]),
        activity("d@x", "D", 1, &["0 5 f"]),
    ];
    let total = lines(&["1 1 f", "5 0 f", "2 0 f", "0 5 f"]);
    let r = analyze_repository(&"repo".to_string(), &total, &authors);
    let order: Vec<&str> = r.iter().map(|c| c.email.as_str()).collect();
    assert_eq!(order, vec!["b@x", "d@x", "a@x", "c@x"]);
}

#[test]
fn two_repositories_rollup() {
    let repo1 = analyze_repository(
        &"repo1".to_string(),
        &lines(&["100\t0\ta.rs"]),
        &vec![activity("a@x", "A", 4, &["100\t0\ta.rs"])],
    );
    let repo2 = analyze_repository(
        &"repo2".to_string(),
        &lines(&["200\t0\tb.rs"]),
        &vec![activity("a@x", "A", 1, &[]), activity("b@x", "B", 2, &["200\t0\tb.rs"])],
    );
    let s = calculate_author_summaries(&vec![repo1, repo2]);
    assert_eq!(s.len(), 2);
    assert_eq!(s[0].email, "b@x");
    assert_eq!(s[0].overall_contribution_percent.hundredths(), 6667);
    assert_eq!(format!("{:.2}", overall(&s[0])), "66.67");
    assert_eq!(s[0].preferred_repo, "repo2");
    assert_eq!(s[0].preferred_repo_percent.hundredths(), 10000);
    assert_eq!(s[1].email, "a@x");
    assert_eq!(s[1].total_commits, 5);
    assert_eq!(s[1].total_lines_added, 100);
    assert_eq!(s[1].overall_contribution_percent.hundredths(), 3333);
    assert_eq!(format!("{:.2}", overall(&s[1])), "33.33");
    assert_eq!(s[1].preferred_repo, "repo1");
    assert_eq!(s[1].preferred_repo_percent.hundredths(), 10000);
}

#[test]
fn same_email_across_repositories_is_one_author() {
    let repo1 = analyze_repository(
        &"one".to_string(),
        &lines(&["3 0 f"]),
        &vec![activity("a@x", "Alice", 1, &["3 0 f"])],
    );
    let repo2 = analyze_repository(
        &"two".to_string(),
        &lines(&["2 0 f"]),
        &vec![activity("a@x", "Alice Smith", 1, &["2 0 f"])],
    );
    let s = calculate_author_summaries(&vec![repo1, repo2]);
    assert_eq!(s.len(), 1);
    assert_eq!(s[0].author, "Alice");
    assert_eq!(s[0].total_commits, 2);
    assert_eq!(s[0].total_lines_added, 5);
    assert_eq!(s[0].overall_contribution_percent.hundredths(), 10000);
}

#[test]
fn preferred_repository_first_on_ties_and_empty_when_zero() {
    let repo1 = analyze_repository(
        &"alpha".to_string(),
        &lines(&["1 0 f", "1 0 g"]),
        &vec![activity("a@x", "A", 1, &["1 0 f"]), activity("z@x", "Z", 1, &["-\t-\tbin"])],
    );
    let repo2 = analyze_repository(
        &"beta".to_string(),
        &lines(&["2 0 f", "2 0 g"]),
        &vec![activity("a@x", "A", 1, &["2 0 f"])],
    );
    let s = calculate_author_summaries(&vec![repo1, repo2]);
    let a = s.iter().find(|x| x.email == "a@x").unwrap();
    assert_eq!(a.preferred_repo, "alpha");
    assert_eq!(a.preferred_repo_percent.hundredths(), 5000);
    let z = s.iter().find(|x| x.email == "z@x").unwrap();
    assert_eq!(z.preferred_repo, "");
    assert_eq!(z.preferred_repo_percent.hundredths(), 0);
}

#[test]
fn summaries_ranked_and_stable() {
    let repo = analyze_repository(
        &"r".to_string(),
        &lines(&["1 0 f", "4 0 f", "1 0 f"]),
        &vec![
            activity("a@x", "A", 1, &["1 0 f"]),
            activity("b@x", "B", 1, &["4 0 f"]),
            activity("c@x", "C", 1, &["1 0 f"]),
        ],
    );
    let s = calculate_author_summaries(&vec![repo]);
    let order: Vec<&str> = s.iter().map(|x| x.email.as_str()).collect();
    assert_eq!(order, vec!["b@x", "a@x", "c@x"]);
}

#[test]
fn summaries_are_repeatable() {
    let build = || {
        vec![
            analyze_repository(
                &"r1".to_string(),
                &lines(&["3 1 f", "2 2 g"]),
                &vec![activity("a@x", "A", 1, &["3 1 f"]), activity("b@x", "B", 1, &["2 2 g"])],
            ),
            analyze_repository(
                &"r2".to_string(),
                &lines(&["9 0 f"]),
                &vec![activity("b@x", "B", 3, &["9 0 f"])],
            ),
        ]
    };
    let input = build();
    let first = calculate_author_summaries(&input);
    let second = calculate_author_summaries(&input);
    assert_eq!(format!("{:?}", first), format!("{:?}", second));
}

#[test]
fn no_repositories_no_summaries() {
    let s = calculate_author_summaries(&vec![]);
    assert!(s.is_empty());
}

#[test]
fn authors_feed_deduplicated_by_first_name() {
    let feed = lines(&["a@x|Alice", "b@x|Bob", "a@x|Alice Smith", "no separator", "c@x|C|D"]);
    let r = distinct_authors(&feed);
    let got: Vec<(String, String)> = r.iter().map(|a| (a.email.clone(), a.name.clone())).collect();
    assert_eq!(
        got,
        vec![
            ("a@x".to_string(), "Alice".to_string()),
            ("b@x".to_string(), "Bob".to_string()),
            ("c@x".to_string(), "C|D".to_string()),
        ]
    );
}

#[test]
fn repositories_ordered_by_name() {
    let names = lines(&["zeta", "alpha", "beta", "alpha"]);
    let lists: Vec<Vec<Contribution>> = vec![
        vec![],
        analyze_repository(&"alpha".to_string(), &lines(&["1 0 f"]), &vec![activity("a@x", "A", 1, &[])]),
        vec![],
        vec![],
    ];
    let (n, l) = order_repositories(names, lists);
    assert_eq!(n, lines(&["alpha", "alpha", "beta", "zeta"]));
    assert_eq!(l[0].len(), 1);
    assert_eq!(l[1].len(), 0);
}

#[test]
fn totals_checked_before_summarizing() {
    let big = |commits: u64, added: u64| Contribution {
        author: "A".to_string(),
        email: "a@x".to_string(),
        commits,
        lines_added: added,
        lines_deleted: 0,
        contribution_percent: Share { part: added, whole: added },
        repository: "r".to_string(),
    };
    assert!(summaries_fit(&vec![vec![big(1, u64::MAX)]]));
    assert!(!summaries_fit(&vec![vec![big(1, u64::MAX)], vec![big(1, 1)]]));
    assert!(!summaries_fit(&vec![vec![big(u64::MAX, 0), big(1, 0)]]));
    assert!(summaries_fit(&vec![]));
}

#[test]
fn collection_finishes_in_name_order_with_summaries() {
    let zeta = analyze_repository(
        &"zeta".to_string(),
        &lines(&["4 0 f"]),
        &vec![activity("a@x", "A", 1, &["4 0 f"])],
    );
    let alpha = analyze_repository(
        &"alpha".to_string(),
        &lines(&["4 0 f"]),
        &vec![activity("a@x", "A", 1, &["4 0 f"])],
    );
    let (names, lists, summaries) =
        finish_collection(lines(&["zeta", "alpha"]), vec![zeta, alpha]);
    assert_eq!(names, lines(&["alpha", "zeta"]));
    assert_eq!(lists[0][0].repository, "alpha");
    assert_eq!(summaries.len(), 1);
    assert_eq!(summaries[0].preferred_repo, "alpha");
    assert_eq!(summaries[0].overall_contribution_percent.hundredths(), 10000);
}
