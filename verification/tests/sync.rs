use loc_cache::archive::{add_archive, commit_counter, CacheError};
use loc_cache::cache::{flush_cache, open_or_create, placeholder_line, CacheFile};
use loc_cache::fetcher::RepositoryEdge;
use loc_cache::identity::identity;
use loc_cache::record::CacheRecord;
use loc_cache::sync::{cache_builder, loc_totals};
use loc_cache::walker::Accumulator;

const COMMENT: &str = "This line is a comment block. Write whatever you want here.";

fn edge(name: &str, commit_count: i64) -> RepositoryEdge {
    RepositoryEdge { name_with_owner: name.to_string(), commit_count }
}

fn record(name: &str, commit_count: i64, total: u64, added: u64, deleted: u64) -> String {
    format!("{} {} {} {} {}", identity(name), commit_count, total, added, deleted)
}

fn walked(additions: u64, deletions: u64, authored_commits: u64) -> Accumulator {
    Accumulator { additions, deletions, authored_commits }
}

fn header_text(n: usize) -> String {
    let mut s = String::new();
    for i in 0..n {
        s.push_str(&format!("comment {}\n", i));
    }
    s
}

#[test]
fn absent_cache_is_created_with_placeholder_header() {
    let file = open_or_create(None, 7);
    assert_eq!(file.header, vec![COMMENT.to_string(); 7]);
    assert!(file.records.is_empty());
    assert_eq!(file.write(), format!("{}\n", COMMENT).repeat(7));
    assert_eq!(placeholder_line(), COMMENT);
}

#[test]
fn absent_cache_with_no_header() {
    let file = open_or_create(None, 0);
    assert!(file.header.is_empty());
    assert_eq!(file.write(), "");
}

#[test]
fn present_cache_is_loaded_line_by_line() {
    let text = format!("one\ntwo\n{}\n{}\n", record("a/x", 3, 10, 10, 0), record("a/y", 1, 2, 3, 4));
    let file = open_or_create(Some(&text), 2);
    assert_eq!(file.header, vec!["one", "two"]);
    assert_eq!(file.records.len(), 2);
    assert_eq!(file.records[0].identity, identity("a/x"));
    assert_eq!(file.records[1].loc_deleted, 4);
    assert_eq!(file.write(), text);
}

#[test]
fn header_is_kept_verbatim() {
    let text = "  spaced \r\n\n# third with \u{3000} and tabs\t\n";
    let file = CacheFile::load(text, 3);
    assert_eq!(file.header, vec!["  spaced \r", "", "# third with \u{3000} and tabs\t"]);
    assert_eq!(file.write(), text);
}

#[test]
fn short_file_gets_its_header_filled_up() {
    let file = CacheFile::load("only\n", 3);
    assert_eq!(file.header, vec!["only", COMMENT, COMMENT]);
    assert!(file.records.is_empty());
}

#[test]
fn lines_that_hold_no_record_are_passed_over() {
    let text = format!("h\n{}\n{{\n  \"additions\": 5\n}}\n{}\n", record("a/x", 1, 1, 1, 1), record("a/y", 2, 2, 2, 2));
    let file = CacheFile::load(&text, 1);
    assert_eq!(file.records.len(), 2);
    assert_eq!(file.records[1].commit_count, 2);
}

#[test]
fn unterminated_last_line_is_a_line() {
    let text = format!("h\n{}", record("a/x", 1, 1, 1, 1));
    let file = CacheFile::load(&text, 1);
    assert_eq!(file.records.len(), 1);
    assert_eq!(file.write(), format!("{}\n", text));
}

#[test]
fn rebuild_keeps_the_header_and_resets_every_record() {
    let text = format!("h1\nh2\n{}\n", record("old/gone", 9, 9, 9, 9));
    let file = CacheFile::load(&text, 2);
    let rebuilt = flush_cache(&vec![edge("a/x", 3), edge("a/y", 4)], file, 2);
    assert_eq!(
        rebuilt.write(),
        format!("h1\nh2\n{} 0 0 0 0\n{} 0 0 0 0\n", identity("a/x"), identity("a/y"))
    );
}

#[test]
fn first_run_without_a_cache_file() {
    let sync = cache_builder(vec![edge("alice/repo", 3)], 7, false, None);
    assert!(!sync.was_fully_cached());
    assert_eq!(sync.header().len(), 7);
    assert_eq!(
        sync.pending_write(),
        Some(format!("{}{} 0 0 0 0\n", format!("{}\n", COMMENT).repeat(7), identity("alice/repo")))
    );
    assert_eq!(sync.stale_repositories(), vec![0]);
    assert_eq!(sync.target(0), ("alice".to_string(), "repo".to_string()));
    let sync = sync.store(0, walked(40, 12, 2));
    assert!(sync.stale_repositories().is_empty());
    let (content, totals) = sync.finish();
    let lines: Vec<&str> = content.lines().collect();
    assert_eq!(lines.len(), 8);
    for line in &lines[..7] {
        assert_eq!(*line, COMMENT);
    }
    assert_eq!(lines[7], format!("{} 3 2 40 12", identity("alice/repo")));
    assert!(content.ends_with('\n'));
    assert_eq!(totals.added_loc, 40);
    assert_eq!(totals.deleted_loc, 12);
    assert!(!totals.net_loc.negative);
    assert_eq!(totals.net_loc.magnitude, 28);
    assert!(!totals.was_fully_cached);
}

#[test]
fn unchanged_repository_is_not_walked() {
    let text = format!("{}{}\n", header_text(7), record("alice/repo", 3, 10, 10, 0));
    let sync = cache_builder(vec![edge("alice/repo", 3)], 7, false, Some(&text));
    assert!(sync.was_fully_cached());
    assert_eq!(sync.pending_write(), None);
    assert_eq!(sync.content(), text);
    assert!(sync.stale_repositories().is_empty());
    let (content, totals) = sync.finish();
    assert_eq!(content, text);
    assert_eq!(totals.added_loc, 10);
    assert_eq!(totals.deleted_loc, 0);
    assert_eq!(totals.net_loc.magnitude, 10);
    assert!(totals.was_fully_cached);
}

#[test]
fn second_run_changes_nothing() {
    let edges = || vec![edge("a/x", 3), edge("a/y", 0), edge("b/z", 12)];
    let mut sync = cache_builder(edges(), 2, false, Some("#1\n#2\n"));
    assert!(!sync.was_fully_cached());
    for index in sync.stale_repositories() {
        sync = sync.store(index, walked(100 + index as u64, index as u64, 1));
    }
    let (first, first_totals) = sync.finish();
    let again = cache_builder(edges(), 2, false, Some(&first));
    assert!(again.was_fully_cached());
    assert!(again.stale_repositories().is_empty());
    let (second, second_totals) = again.finish();
    assert_eq!(second, first);
    assert_eq!(second_totals.added_loc, first_totals.added_loc);
    assert_eq!(second_totals.deleted_loc, first_totals.deleted_loc);
}

#[test]
fn different_number_of_records_forces_a_rebuild() {
    let text = format!("h\n{}\n{}\n", record("a/x", 3, 1, 50, 5), record("a/y", 4, 1, 60, 6));
    let sync = cache_builder(vec![edge("a/x", 3), edge("a/y", 4), edge("a/new", 0)], 1, false, Some(&text));
    assert!(!sync.was_fully_cached());
    for r in sync.records() {
        assert_eq!(r.commit_count, 0);
        assert_eq!(r.loc_total, 0);
        assert_eq!(r.loc_added, 0);
        assert_eq!(r.loc_deleted, 0);
    }
    assert_eq!(sync.records()[2].identity, identity("a/new"));
    assert_eq!(sync.stale_repositories(), vec![0, 1]);
    let fewer = cache_builder(vec![edge("a/x", 3)], 1, false, Some(&text));
    assert!(!fewer.was_fully_cached());
    assert_eq!(fewer.records().len(), 1);
    assert_eq!(fewer.stale_repositories(), vec![0]);
}

#[test]
fn forced_rebuild_resets_a_cache_that_matches() {
    let text = format!("h\n{}\n", record("a/x", 3, 1, 50, 5));
    let sync = cache_builder(vec![edge("a/x", 3)], 1, true, Some(&text));
    assert!(!sync.was_fully_cached());
    assert_eq!(sync.records()[0].loc_added, 0);
    assert_eq!(sync.stale_repositories(), vec![0]);
    assert_eq!(sync.header(), &vec!["h".to_string()]);
}

#[test]
fn missing_file_without_repositories_is_written_all_the_same() {
    let sync = cache_builder(Vec::new(), 1, false, None);
    assert!(sync.was_fully_cached());
    assert_eq!(sync.pending_write(), Some(format!("{}\n", COMMENT)));
}

#[test]
fn rebuilt_record_of_an_empty_repository_is_not_stale() {
    let sync = cache_builder(vec![edge("a/empty", 0), edge("a/x", 1)], 0, false, None);
    assert!(!sync.was_fully_cached());
    assert_eq!(sync.stale_repositories(), vec![1]);
}

#[test]
fn only_records_with_another_commit_count_are_stale() {
    let text = format!(
        "{}\n{}\n{}\n{}\n",
        record("a/same", 3, 1, 10, 1),
        record("a/grown", 3, 1, 20, 2),
        record("a/same2", 0, 0, 0, 0),
        record("a/shrunk", 9, 2, 30, 3)
    );
    let edges = vec![edge("a/same", 3), edge("a/grown", 4), edge("a/same2", 0), edge("a/shrunk", 8)];
    let sync = cache_builder(edges, 0, false, Some(&text));
    assert!(sync.was_fully_cached());
    assert_eq!(sync.stale_repositories(), vec![1, 3]);
    let sync = sync.store(1, walked(21, 3, 2));
    assert_eq!(sync.stale_repositories(), vec![3]);
    let sync = sync.store(3, walked(0, 0, 0));
    assert!(sync.stale_repositories().is_empty());
    let (content, totals) = sync.finish();
    assert_eq!(
        content,
        format!(
            "{}\n{}\n{}\n{}\n",
            record("a/same", 3, 1, 10, 1),
            record("a/grown", 4, 2, 21, 3),
            record("a/same2", 0, 0, 0, 0),
            record("a/shrunk", 8, 0, 0, 0)
        )
    );
    assert_eq!(totals.added_loc, 31);
    assert_eq!(totals.deleted_loc, 4);
    assert!(totals.was_fully_cached);
}

#[test]
fn record_of_another_repository_at_the_position_is_stale() {
    let text = format!("{}\n{}\n", record("a/y", 2, 1, 1, 1), record("a/x", 1, 1, 1, 1));
    let sync = cache_builder(vec![edge("a/x", 1), edge("a/y", 2)], 0, false, Some(&text));
    assert!(sync.was_fully_cached());
    assert_eq!(sync.stale_repositories(), vec![0, 1]);
}

#[test]
fn snapshot_left_by_a_failed_run_is_rebuilt() {
    let text = "h1\nh2\n{\n  \"additions\": 5,\n  \"authoredCommits\": 1,\n  \"deletions\": 2\n}";
    let sync = cache_builder(vec![edge("a/x", 1)], 2, false, Some(text));
    assert!(!sync.was_fully_cached());
    assert_eq!(sync.header(), &vec!["h1".to_string(), "h2".to_string()]);
    assert_eq!(sync.records().len(), 1);
    assert_eq!(sync.records()[0].identity, identity("a/x"));
}

#[test]
fn totals_are_the_sums_over_the_records() {
    let make = |added: u64, deleted: u64| CacheRecord {
        identity: identity("a/x"),
        commit_count: 1,
        loc_total: 1,
        loc_added: added,
        loc_deleted: deleted,
    };
    let totals = loc_totals(&vec![make(10, 1), make(0, 30), make(5, 5)], true);
    assert_eq!(totals.added_loc, 15);
    assert_eq!(totals.deleted_loc, 36);
    assert!(totals.net_loc.negative);
    assert_eq!(totals.net_loc.magnitude, 21);
    assert!(totals.was_fully_cached);
    let none = loc_totals(&Vec::new(), false);
    assert_eq!((none.added_loc, none.deleted_loc, none.net_loc.magnitude), (0, 0, 0));
    assert!(!none.net_loc.negative);
    let big = loc_totals(&vec![make(u64::MAX, 0), make(u64::MAX, 0)], false);
    assert_eq!(big.added_loc, 2 * (u64::MAX as u128));
}

#[test]
fn commit_total_is_the_sum_of_the_commit_counts() {
    let text = format!(
        "{}{}\n{}\nnot a record\n{}\n",
        header_text(7),
        record("a/x", 3, 1, 10, 1),
        record("a/y", 40, 2, 20, 2),
        record("a/z", -1, 0, 0, 0)
    );
    assert_eq!(commit_counter(Some(&text), 7), Ok(42));
    assert_eq!(commit_counter(Some(&header_text(7)), 7), Ok(0));
    assert_eq!(commit_counter(Some(""), 7), Ok(0));
}

#[test]
fn commit_total_needs_a_cache_file() {
    assert_eq!(commit_counter(None, 7), Err(CacheError::Missing));
}

#[test]
fn archive_totals_come_from_the_lines_between_the_framing() {
    let mut text = header_text(7);
    text.push_str("hash1 10 4 100 20\n");
    text.push_str("hash2 20 x 50 5\n");
    text.push_str("too short 1\n");
    text.push_str("hash3 30 6 7 8,\n");
    text.push_str("footer a\nfooter b\nfooter 1 2 3 99,\n");
    let totals = add_archive(Some(&text)).unwrap();
    assert_eq!(totals.added_loc, 157);
    assert_eq!(totals.deleted_loc, 33);
    assert_eq!(totals.net_loc, 124);
    assert_eq!(totals.commits, 10);
    assert_eq!(totals.contributed_repos, 4);
}

#[test]
fn archive_comma_counts_only_on_the_last_line() {
    let mut text = header_text(7);
    text.push_str("hash1 10 4 100 20,\n");
    text.push_str("hash2 10 4 100 30,,\n");
    text.push_str("f\nf\nf\n");
    let totals = add_archive(Some(&text)).unwrap();
    assert_eq!(totals.deleted_loc, 30);
    assert_eq!(totals.added_loc, 200);
}

#[test]
fn archive_of_fewer_than_ten_lines_contributes_nothing() {
    let totals = add_archive(Some(&header_text(9))).unwrap();
    assert_eq!(
        (totals.added_loc, totals.deleted_loc, totals.net_loc, totals.commits, totals.contributed_repos),
        (0, 0, 0, 0, 0)
    );
    let ten = add_archive(Some(&header_text(10))).unwrap();
    assert_eq!(ten.contributed_repos, 0);
    let eleven = add_archive(Some(&header_text(11))).unwrap();
    assert_eq!(eleven.contributed_repos, 1);
}

#[test]
fn archive_fields_beyond_32_bits_count_as_zero() {
    let mut text = header_text(7);
    text.push_str("hash1 10 2147483648 2147483647 -2147483649\n");
    text.push_str("f\nf\nf\n");
    let totals = add_archive(Some(&text)).unwrap();
    assert_eq!(totals.commits, 0);
    assert_eq!(totals.added_loc, 2147483647);
    assert_eq!(totals.deleted_loc, 0);
}

#[test]
fn archive_needs_a_file() {
    assert!(matches!(add_archive(None), Err(CacheError::Missing)));
}
