use loc_cache::fetcher::{loc_query, split_name, FetchStep, RepositoryEdge, RepositoryPage};
use loc_cache::persist::{closed_file, force_close_file, snapshot, PersistError};
use loc_cache::walker::{
    loc_counter_one_repo, recursive_loc, refusal, walk_failure, Accumulator, CommitEdge,
    HistoryPage, HistoryResponse, WalkError, WalkOutcome, WalkStep,
};

fn commit(author: Option<&str>, additions: u64, deletions: u64) -> CommitEdge {
    CommitEdge { author_id: author.map(|a| a.to_string()), additions, deletions }
}

fn zero() -> Accumulator {
    Accumulator { additions: 0, deletions: 0, authored_commits: 0 }
}

fn header() -> Vec<String> {
    vec!["first comment".to_string(), "second comment".to_string()]
}

/// Serves `commits` in pages of `size` and walks them; returns the number of
/// pages asked for and the totals.
fn walk_all(commits: &Vec<(Option<&str>, u64, u64)>, size: usize, owner: &str) -> (usize, Accumulator) {
    let mut totals = zero();
    let mut offset = 0;
    let mut pages = 0;
    loop {
        let end = std::cmp::min(offset + size, commits.len());
        let page = HistoryPage {
            edges: commits[offset..end].iter().map(|c| commit(c.0, c.1, c.2)).collect(),
            has_next_page: end < commits.len(),
            end_cursor: Some(format!("cursor-{}", end)),
        };
        pages += 1;
        match recursive_loc(HistoryResponse::Page(page), owner, &header(), totals) {
            WalkOutcome::Continue { totals: t, cursor } => {
                assert_eq!(cursor, Some(format!("cursor-{}", end)));
                totals = t;
                offset = end;
            }
            WalkOutcome::Done { totals: t } => return (pages, t),
            WalkOutcome::Fatal { .. } => panic!("the walk failed"),
        }
    }
}

#[test]
fn page_counts_only_the_owners_commits() {
    let page = HistoryPage {
        edges: vec![
            commit(Some("me"), 10, 1),
            commit(Some("you"), 100, 100),
            commit(None, 1000, 1000),
            commit(Some("me"), 5, 2),
        ],
        has_next_page: false,
        end_cursor: None,
    };
    match loc_counter_one_repo(&page, "me", Accumulator { additions: 1, deletions: 1, authored_commits: 1 }) {
        WalkStep::Done { totals } => {
            assert_eq!(totals.additions, 16);
            assert_eq!(totals.deletions, 4);
            assert_eq!(totals.authored_commits, 3);
        }
        _ => panic!("expected the walk to end"),
    }
}

#[test]
fn page_with_a_next_page_continues_at_its_end_cursor() {
    let page = HistoryPage {
        edges: vec![commit(Some("me"), 3, 4)],
        has_next_page: true,
        end_cursor: Some("abc".to_string()),
    };
    match loc_counter_one_repo(&page, "me", zero()) {
        WalkStep::Continue { totals, cursor } => {
            assert_eq!(totals.additions, 3);
            assert_eq!(totals.deletions, 4);
            assert_eq!(totals.authored_commits, 1);
            assert_eq!(cursor, Some("abc".to_string()));
        }
        _ => panic!("expected the walk to go on"),
    }
}

#[test]
fn empty_page_ends_the_walk_even_with_a_next_page() {
    let page = HistoryPage { edges: vec![], has_next_page: true, end_cursor: Some("abc".to_string()) };
    let start = Accumulator { additions: 7, deletions: 8, authored_commits: 9 };
    match loc_counter_one_repo(&page, "me", start) {
        WalkStep::Done { totals } => {
            assert_eq!(totals.additions, 7);
            assert_eq!(totals.deletions, 8);
            assert_eq!(totals.authored_commits, 9);
        }
        _ => panic!("expected the walk to end"),
    }
}

#[test]
fn totals_that_do_not_fit_are_an_overflow() {
    let page = HistoryPage {
        edges: vec![commit(Some("me"), 2, 0)],
        has_next_page: false,
        end_cursor: None,
    };
    let start = Accumulator { additions: u64::MAX - 1, deletions: 0, authored_commits: 0 };
    assert!(matches!(loc_counter_one_repo(&page, "me", start), WalkStep::Overflow));
    let fits = Accumulator { additions: u64::MAX - 2, deletions: 0, authored_commits: 0 };
    match loc_counter_one_repo(&page, "me", fits) {
        WalkStep::Done { totals } => assert_eq!(totals.additions, u64::MAX),
        _ => panic!("expected the walk to end"),
    }
}

#[test]
fn history_of_n_commits_takes_ceil_n_over_p_pages() {
    let mut commits: Vec<(Option<&str>, u64, u64)> = Vec::new();
    for i in 0..250u64 {
        commits.push((if i % 3 == 0 { Some("me") } else { Some("other") }, i, 1));
    }
    let (pages, totals) = walk_all(&commits, 100, "me");
    assert_eq!(pages, 3);
    assert_eq!(totals.authored_commits, 84);
    assert_eq!(totals.additions, (0..250u64).filter(|i| i % 3 == 0).sum::<u64>());
    assert_eq!(totals.deletions, 84);
}

#[test]
fn history_that_fills_its_pages_exactly() {
    let commits: Vec<(Option<&str>, u64, u64)> = (0..200).map(|_| (Some("me"), 1, 0)).collect();
    let (pages, totals) = walk_all(&commits, 100, "me");
    assert_eq!(pages, 2);
    assert_eq!(totals.authored_commits, 200);
    let (pages, _) = walk_all(&commits, 200, "me");
    assert_eq!(pages, 1);
    let (pages, _) = walk_all(&commits, 1, "me");
    assert_eq!(pages, 200);
}

#[test]
fn empty_history_takes_one_page() {
    let (pages, totals) = walk_all(&Vec::new(), 100, "me");
    assert_eq!(pages, 1);
    assert_eq!(totals.authored_commits, 0);
}

#[test]
fn repository_without_default_branch_leaves_the_totals() {
    let start = Accumulator { additions: 5, deletions: 2, authored_commits: 1 };
    match recursive_loc(HistoryResponse::NoDefaultBranch, "me", &header(), start) {
        WalkOutcome::Done { totals } => {
            assert_eq!(totals.additions, 5);
            assert_eq!(totals.deletions, 2);
            assert_eq!(totals.authored_commits, 1);
        }
        _ => panic!("expected the walk to end"),
    }
}

#[test]
fn abuse_limit_mid_walk_leaves_a_snapshot_and_a_distinct_error() {
    let partial = Accumulator { additions: 5, deletions: 2, authored_commits: 1 };
    let response = HistoryResponse::Refused { status: 403, body: "slow down".to_string() };
    match recursive_loc(response, "me", &header(), partial) {
        WalkOutcome::Fatal { error, snapshot } => {
            assert!(matches!(error, WalkError::AbuseLimit));
            let content = snapshot.unwrap();
            let rest = content.strip_prefix("first comment\nsecond comment\n").unwrap();
            let state: serde_json::Value = serde_json::from_str(rest).unwrap();
            assert_eq!(state["additions"].as_u64(), Some(5));
            assert_eq!(state["deletions"].as_u64(), Some(2));
            assert_eq!(state["authoredCommits"].as_u64(), Some(1));
            assert_eq!(state.as_object().unwrap().len(), 3);
        }
        _ => panic!("expected the run to be given up"),
    }
}

#[test]
fn other_refusals_are_transport_errors_with_status_and_body() {
    let response = HistoryResponse::Refused { status: 502, body: "bad gateway".to_string() };
    match recursive_loc(response, "me", &header(), zero()) {
        WalkOutcome::Fatal { error, snapshot } => {
            match error {
                WalkError::Transport { status, body } => {
                    assert_eq!(status, 502);
                    assert_eq!(body, "bad gateway");
                }
                _ => panic!("expected a transport error"),
            }
            assert!(snapshot.unwrap().starts_with("first comment\nsecond comment\n{"));
        }
        _ => panic!("expected the run to be given up"),
    }
}

#[test]
fn refusal_tells_the_abuse_limit_from_other_statuses() {
    assert!(matches!(refusal(403, "x".to_string()), WalkError::AbuseLimit));
    assert!(matches!(refusal(404, "x".to_string()), WalkError::Transport { status: 404, .. }));
    assert!(matches!(refusal(500, "x".to_string()), WalkError::Transport { status: 500, .. }));
}

#[test]
fn overflow_in_a_page_gives_the_run_up_with_the_totals_before_it() {
    let page = HistoryPage {
        edges: vec![commit(Some("me"), 1, 0)],
        has_next_page: false,
        end_cursor: None,
    };
    let start = Accumulator { additions: u64::MAX, deletions: 3, authored_commits: 4 };
    match recursive_loc(HistoryResponse::Page(page), "me", &header(), start) {
        WalkOutcome::Fatal { error, snapshot } => {
            assert!(matches!(error, WalkError::Overflow));
            let content = snapshot.unwrap();
            let rest = content.strip_prefix("first comment\nsecond comment\n").unwrap();
            let state: serde_json::Value = serde_json::from_str(rest).unwrap();
            assert_eq!(state["additions"].as_u64(), Some(u64::MAX));
            assert_eq!(state["authoredCommits"].as_u64(), Some(4));
        }
        _ => panic!("expected the run to be given up"),
    }
}

#[test]
fn snapshot_is_the_header_then_the_state() {
    assert_eq!(snapshot(&header(), "{}"), "first comment\nsecond comment\n{}");
    assert_eq!(snapshot(&Vec::new(), "state"), "state");
}

#[test]
fn snapshot_state_is_pretty_printed_json() {
    let totals = Accumulator { additions: 5, deletions: 2, authored_commits: 1 };
    let content = force_close_file(&Vec::new(), totals).unwrap();
    let mut members = serde_json::Map::new();
    members.insert("additions".to_string(), serde_json::Value::from(5u64));
    members.insert("deletions".to_string(), serde_json::Value::from(2u64));
    members.insert("authoredCommits".to_string(), serde_json::Value::from(1u64));
    let expected = serde_json::to_string_pretty(&serde_json::Value::Object(members)).unwrap();
    assert_eq!(content, expected);
    assert!(content.contains("\n  \"additions\": 5"));
}

#[test]
fn full_names_split_into_owner_and_repository() {
    assert_eq!(split_name("alice/repo"), ("alice".to_string(), "repo".to_string()));
    assert_eq!(split_name("alice"), ("alice".to_string(), "".to_string()));
    assert_eq!(split_name("a/b/c"), ("a".to_string(), "b".to_string()));
    assert_eq!(split_name("/b"), ("".to_string(), "b".to_string()));
    assert_eq!(split_name("a/"), ("a".to_string(), "".to_string()));
    assert_eq!(split_name(""), ("".to_string(), "".to_string()));
}

#[test]
fn repository_pages_are_appended_in_order() {
    let edge = |name: &str, n: i64| RepositoryEdge { name_with_owner: name.to_string(), commit_count: n };
    let first = RepositoryPage {
        edges: vec![edge("a/x", 1), edge("a/y", 2)],
        has_next_page: true,
        end_cursor: Some("c1".to_string()),
    };
    let edges = match loc_query(first, Vec::new()) {
        FetchStep::Continue { edges, cursor } => {
            assert_eq!(cursor, Some("c1".to_string()));
            edges
        }
        _ => panic!("expected the fetch to go on"),
    };
    let second = RepositoryPage { edges: vec![edge("b/z", 3)], has_next_page: false, end_cursor: None };
    match loc_query(second, edges) {
        FetchStep::Done { edges } => {
            let names: Vec<&str> = edges.iter().map(|e| e.name_with_owner.as_str()).collect();
            assert_eq!(names, vec!["a/x", "a/y", "b/z"]);
            assert_eq!(edges[2].commit_count, 3);
        }
        _ => panic!("expected the fetch to end"),
    }
}

#[test]
fn failed_snapshot_takes_the_place_of_the_error() {
    match walk_failure(WalkError::AbuseLimit, Err(PersistError::Serialize)) {
        WalkOutcome::Fatal { error, snapshot } => {
            assert!(matches!(error, WalkError::Snapshot));
            assert_eq!(snapshot, None);
        }
        _ => panic!("expected the run to be given up"),
    }
    match walk_failure(WalkError::AbuseLimit, Ok("content".to_string())) {
        WalkOutcome::Fatal { error, snapshot } => {
            assert!(matches!(error, WalkError::AbuseLimit));
            assert_eq!(snapshot, Some("content".to_string()));
        }
        _ => panic!("expected the run to be given up"),
    }
}

#[test]
fn closed_file_follows_what_writing_the_state_gave() {
    assert_eq!(
        closed_file(&header(), Ok("{}".to_string())),
        Ok("first comment\nsecond comment\n{}".to_string())
    );
    let failed = serde_json::from_str::<serde_json::Value>("{").unwrap_err();
    assert_eq!(closed_file(&header(), Err(failed)), Err(PersistError::Serialize));
}

#[test]
fn snapshot_replaces_the_records_by_the_totals() {
    let header = vec!["h1".to_string(), "h2".to_string()];
    let totals = Accumulator { additions: 5, deletions: 2, authored_commits: 1 };
    let content = force_close_file(&header, totals).unwrap();
    let rest = content.strip_prefix("h1\nh2\n").unwrap();
    let state: serde_json::Value = serde_json::from_str(rest).unwrap();
    let mut expected = serde_json::Map::new();
    expected.insert("additions".to_string(), serde_json::Value::from(5u64));
    expected.insert("deletions".to_string(), serde_json::Value::from(2u64));
    expected.insert("authoredCommits".to_string(), serde_json::Value::from(1u64));
    assert_eq!(state, serde_json::Value::Object(expected));
    assert!(!content.contains("r 3 1 5 2"));
}

#[test]
fn snapshot_is_made_for_any_totals() {
    for totals in [
        Accumulator { additions: 0, deletions: 0, authored_commits: 0 },
        Accumulator { additions: u64::MAX, deletions: u64::MAX, authored_commits: u64::MAX },
    ] {
        assert!(force_close_file(&Vec::new(), totals).is_ok());
        assert!(force_close_file(&header(), totals).is_ok());
    }
}
