use git_contribution_analyzer::app::{App, AppState, AuthorSummary};
use git_contribution_analyzer::git::{is_git_repository, Contribution};
use git_contribution_analyzer::share::Share;

fn contribution(i: usize) -> Contribution {
    Contribution {
        author: format!("A{}", i),
        email: format!("a{}@x", i),
        commits: 1,
        lines_added: 1,
        lines_deleted: 0,
        contribution_percent: Share { part: 1, whole: 1 },
        repository: "r".to_string(),
    }
}

fn summary(i: usize) -> AuthorSummary {
    AuthorSummary {
        author: format!("A{}", i),
        email: format!("a{}@x", i),
        total_commits: 1,
        total_lines_added: 1,
        total_lines_deleted: 0,
        overall_contribution_percent: Share { part: 1, whole: 4 },
        preferred_repo: "r".to_string(),
        preferred_repo_percent: Share { part: 1, whole: 1 },
    }
}

fn loaded(rows: &[usize], summaries: usize) -> App {
    let mut app = App::new();
    let repos: Vec<String> = (0..rows.len()).map(|i| format!("repo{}", i)).collect();
    let lists: Vec<Vec<Contribution>> = rows.iter().map(|&n| (0..n).map(contribution).collect()).collect();
    let sums: Vec<AuthorSummary> = (0..summaries).map(summary).collect();
    app.publish(repos, lists, sums);
    app
}

#[test]
fn navigation_scenario() {
    let mut app = loaded(&[2, 0, 5], 4);
    assert_eq!(app.selected_in_tab, vec![None, None, None, None]);
    app.next_tab();
    assert_eq!(app.current_tab, 1);
    for _ in 0..5 {
        app.next();
        assert_eq!(app.selected_in_tab[1], None);
        app.previous();
        assert_eq!(app.selected_in_tab[1], None);
    }
    app.previous_tab();
    app.next();
    assert_eq!(app.selected_in_tab[0], Some(0));
    app.next();
    assert_eq!(app.selected_in_tab[0], Some(1));
    app.next();
    assert_eq!(app.selected_in_tab[0], Some(0));
    app.previous();
    assert_eq!(app.selected_in_tab[0], Some(1));
    app.previous();
    assert_eq!(app.selected_in_tab[0], Some(0));
    app.next_tab();
    app.next_tab();
    assert_eq!(app.current_tab, 2);
    app.previous();
    assert_eq!(app.selected_in_tab[2], Some(4));
    app.next();
    assert_eq!(app.selected_in_tab[2], Some(0));
    app.next_tab();
    assert_eq!(app.current_tab, 3);
    app.next();
    app.next();
    app.next();
    app.next();
    assert_eq!(app.selected_in_tab[3], Some(3));
    app.next();
    assert_eq!(app.selected_in_tab[3], Some(0));
    assert_eq!(app.selected_in_tab[0], Some(0));
}

#[test]
fn tab_cycling_with_two_repositories() {
    let mut app = loaded(&[1, 1], 1);
    assert_eq!(app.current_tab, 0);
    let mut seen = Vec::new();
    for _ in 0..3 {
        app.next_tab();
        seen.push(app.current_tab);
    }
    assert_eq!(seen, vec![1, 2, 0]);
    app.previous_tab();
    assert_eq!(app.current_tab, 2);
}

#[test]
fn new_app_is_loading_with_nothing_selected() {
    let app = App::new();
    assert!(app.state == AppState::Loading);
    assert_eq!(app.current_tab, 0);
    assert_eq!(app.selected_in_tab, vec![None]);
    assert_eq!(app.loading_progress, 0);
    assert!(!app.show_help);
}

#[test]
fn help_toggles() {
    let mut app = App::new();
    app.toggle_help();
    assert!(app.show_help);
    app.toggle_help();
    assert!(!app.show_help);
}

#[test]
fn progress_rounds_down() {
    let mut app = App::new();
    app.set_progress(1, 3);
    assert_eq!(app.loading_progress, 33);
    app.set_progress(2, 3);
    assert_eq!(app.loading_progress, 66);
    app.set_progress(3, 3);
    assert_eq!(app.loading_progress, 100);
}

#[test]
fn republish_clamps_stale_selection() {
    let mut app = loaded(&[5], 2);
    app.previous();
    assert_eq!(app.selected_in_tab[0], Some(4));
    app.next_tab();
    app.next();
    assert_eq!(app.selected_in_tab[1], Some(0));
    let lists: Vec<Vec<Contribution>> = vec![(0..3).map(contribution).collect()];
    app.publish(vec!["repo0".to_string()], lists, (0..2).map(summary).collect());
    assert!(app.state == AppState::Main);
    assert_eq!(app.selected_in_tab, vec![None, Some(0)]);
    assert_eq!(app.current_tab, 1);
}

#[test]
fn publishing_nothing_leaves_only_summary_tab() {
    let mut app = App::new();
    app.publish(Vec::new(), Vec::new(), Vec::new());
    assert!(app.state == AppState::Main);
    assert_eq!(app.selected_in_tab, vec![None]);
    app.next();
    assert_eq!(app.selected_in_tab, vec![None]);
}

#[test]
fn directory_without_git_entry_is_no_repository() {
    let here = std::path::Path::new("no/such/directory/anywhere");
    assert!(!is_git_repository(here));
}
