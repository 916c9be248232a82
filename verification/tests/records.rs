use loc_cache::record::CacheRecord;
use loc_cache::tally::{query_count, QueryTally};

const HASH: &str = "ba7816bf8f01cfea414140de5dae2223b00361a396177a9cb410ff61f20015ad";

#[test]
fn record_line_has_five_fields() {
    let record = CacheRecord {
        identity: HASH.to_string(),
        commit_count: 3,
        loc_total: 10,
        loc_added: 10,
        loc_deleted: 0,
    };
    assert_eq!(record.render(), format!("{} 3 10 10 0", HASH));
}

#[test]
fn record_line_is_read_back() {
    let record = CacheRecord::parse(&format!("{} 3 10 10 0", HASH)).unwrap();
    assert_eq!(record.identity, HASH);
    assert_eq!(record.commit_count, 3);
    assert_eq!(record.loc_total, 10);
    assert_eq!(record.loc_added, 10);
    assert_eq!(record.loc_deleted, 0);
}

#[test]
fn record_line_tolerates_surrounding_whitespace_and_signs() {
    let record = CacheRecord::parse(&format!("  {}\t-7  +12 0018 5 \r", HASH)).unwrap();
    assert_eq!(record.commit_count, -7);
    assert_eq!(record.loc_total, 12);
    assert_eq!(record.loc_added, 18);
    assert_eq!(record.loc_deleted, 5);
}

#[test]
fn record_line_with_wrong_shape_is_no_record() {
    assert!(CacheRecord::parse("").is_none());
    assert!(CacheRecord::parse(&format!("{} 3 10 10", HASH)).is_none());
    assert!(CacheRecord::parse(&format!("{} 3 10 10 0 9", HASH)).is_none());
    assert!(CacheRecord::parse("abc 3 10 10 0").is_none());
    assert!(CacheRecord::parse(&format!("{} 3 -10 10 0", HASH)).is_none());
    assert!(CacheRecord::parse(&format!("{} x 10 10 0", HASH)).is_none());
    assert!(CacheRecord::parse(&format!("{} 3 10 10 18446744073709551616", HASH)).is_none());
    assert!(CacheRecord::parse(&format!("{} 9223372036854775808 1 1 1", HASH)).is_none());
    assert!(CacheRecord::parse(&HASH.to_uppercase()).is_none());
}

#[test]
fn record_numbers_at_their_limits() {
    let line = format!("{} -9223372036854775808 18446744073709551615 0 1", HASH);
    let record = CacheRecord::parse(&line).unwrap();
    assert_eq!(record.commit_count, i64::MIN);
    assert_eq!(record.loc_total, u64::MAX);
    assert_eq!(record.render(), line);
}

#[test]
fn zero_record_line() {
    assert_eq!(CacheRecord::zero(HASH.to_string()).render(), format!("{} 0 0 0 0", HASH));
}

#[test]
fn query_count_counts_each_name_apart() {
    let mut tally = QueryTally::new();
    assert_eq!(tally.count("loc_query"), 0);
    query_count(&mut tally, "loc_query");
    query_count(&mut tally, "recursive_loc");
    query_count(&mut tally, "loc_query");
    assert_eq!(tally.count("loc_query"), 2);
    assert_eq!(tally.count("recursive_loc"), 1);
    assert_eq!(tally.count("user_getter"), 0);
}
