//! Totals read straight from files: the commit total of a user's cache, and
//! the totals of the archive of repositories that no longer exist.

use vstd::prelude::*;
use crate::cache::{loaded, record_views, CacheFile};
use crate::decimal::{i64_of, parse_i64};
use crate::record::RecordView;
use crate::text::{chars_of, lines_of, split_lines, split_tokens, tokens, views};

verus! {

/// Why a file could not be read for its totals.
#[derive(Debug, PartialEq, Eq)]
pub enum CacheError {
    /// There is no such file.
    Missing,
}

/// The text of an optional string slice.
pub open spec fn content_of(content: Option<&str>) -> Option<Seq<char>> {
    match content {
        Some(text) => Some(text@),
        None => None,
    }
}

/// The sum of the commit counts of the records.
pub open spec fn commit_sum(records: Seq<RecordView>) -> int
    decreases records.len(),
{
    if records.len() == 0 {
        0
    } else {
        commit_sum(records.drop_last()) + records.last().commit_count
    }
}

/// The number of lines of framing at the top of the archive.
pub open spec fn archive_top() -> nat {
    7
}

/// The number of lines of framing at the bottom of the archive.
pub open spec fn archive_bottom() -> nat {
    3
}

/// The lines of the archive between its framing: none where the archive has
/// fewer than ten lines.
pub open spec fn interior(lines: Seq<Seq<char>>) -> Seq<Seq<char>> {
    if lines.len() < archive_top() + archive_bottom() {
        Seq::empty()
    } else {
        lines.subrange(archive_top() as int, lines.len() - archive_bottom())
    }
}

/// The word without the commas at its end.
pub open spec fn without_commas(t: Seq<char>) -> Seq<char>
    decreases t.len(),
{
    if t.len() > 0 && t.last() == ',' {
        without_commas(t.drop_last())
    } else {
        t
    }
}

/// The number that a field writes; zero where it writes none, or one that
/// does not fit in 32 bits.
pub open spec fn field(t: Seq<char>) -> int {
    match i64_of(t) {
        Some(v) => if i32::MIN <= v <= i32::MAX {
            v as int
        } else {
            0
        },
        None => 0,
    }
}

/// What one archived repository contributes.
pub struct Contribution {
    pub commits: int,
    pub added: int,
    pub deleted: int,
}

/// What a line of the archive contributes: its third, fourth and fifth words
/// are the commits, the lines added and the lines deleted. A line of fewer
/// than five words contributes nothing. On the last line the commas at the
/// end of the fifth word are no part of the number.
pub open spec fn contribution(line: Seq<char>, last: bool) -> Contribution {
    let t = tokens(line);
    if t.len() >= 5 {
        Contribution {
            commits: field(t[2]),
            added: field(t[3]),
            deleted: field(
                if last {
                    without_commas(t[4])
                } else {
                    t[4]
                },
            ),
        }
    } else {
        Contribution { commits: 0, added: 0, deleted: 0 }
    }
}

/// The contribution of the line at `i` among `lines`.
pub open spec fn contribution_at(lines: Seq<Seq<char>>, i: int) -> Contribution {
    contribution(lines[i], i == lines.len() - 1)
}

/// The commits of the first `k` lines.
pub open spec fn archived_commits(lines: Seq<Seq<char>>, k: nat) -> int
    decreases k,
{
    if k == 0 {
        0
    } else {
        archived_commits(lines, (k - 1) as nat) + contribution_at(lines, k - 1).commits
    }
}

/// The lines added of the first `k` lines.
pub open spec fn archived_added(lines: Seq<Seq<char>>, k: nat) -> int
    decreases k,
{
    if k == 0 {
        0
    } else {
        archived_added(lines, (k - 1) as nat) + contribution_at(lines, k - 1).added
    }
}

/// The lines deleted of the first `k` lines.
pub open spec fn archived_deleted(lines: Seq<Seq<char>>, k: nat) -> int
    decreases k,
{
    if k == 0 {
        0
    } else {
        archived_deleted(lines, (k - 1) as nat) + contribution_at(lines, k - 1).deleted
    }
}

/// The totals of the archive.
#[derive(Clone, Copy, Debug)]
pub struct ArchiveTotals {
    pub added_loc: i128,
    pub deleted_loc: i128,
    pub net_loc: i128,
    pub commits: i128,
    /// The number of archived repositories.
    pub contributed_repos: usize,
}

/// The sum of the commit counts of the records of a user's cache file. There
/// must be a file: a synchronisation comes first.
pub fn commit_counter(content: Option<&str>, comment_size: usize) -> (r: Result<i128, CacheError>)
    ensures
        match content {
            Some(text) => r == Ok::<i128, CacheError>(
                commit_sum(loaded(text@, comment_size as nat).records) as i128,
            ) && i128::MIN <= commit_sum(loaded(text@, comment_size as nat).records) <= i128::MAX,
            None => r == Err::<i128, CacheError>(CacheError::Missing),
        },
{
    let text = match content {
        Some(text) => text,
        None => { return Err(CacheError::Missing); },
    };
    let file = CacheFile::load(text, comment_size);
    let ghost all = record_views(file.records@);
    let mut total: i128 = 0;
    let mut i: usize = 0;
    while i < file.records.len()
        invariant
            i <= file.records.len(),
            all == record_views(file.records@),
            total == commit_sum(all.subrange(0, i as int)),
            -(i * 0x8000_0000_0000_0000) <= total <= i * 0x8000_0000_0000_0000,
        decreases file.records.len() - i,
    {
        proof {
            assert(all.subrange(0, i + 1).drop_last() == all.subrange(0, i as int));
            assert(all.subrange(0, i + 1).last() == file.records@[i as int]@);
        }
        total = total + file.records[i].commit_count as i128;
        i = i + 1;
    }
    assert(all.subrange(0, file.records.len() as int) == all);
    Ok(total)
}

/// The end of the word without the commas at its end.
fn comma_free_len(word: &Vec<char>) -> (r: usize)
    ensures
        r <= word.len(),
        word@.subrange(0, r as int) == without_commas(word@),
{
    let mut n: usize = word.len();
    assert(word@.subrange(0, n as int) == word@);
    while n > 0 && word[n - 1] == ','
        invariant
            n <= word.len(),
            without_commas(word@.subrange(0, n as int)) == without_commas(word@),
        decreases n,
    {
        assert(word@.subrange(0, n as int).drop_last() == word@.subrange(0, n - 1));
        n = n - 1;
    }
    n
}

/// The number that a field writes; zero where it writes none that fits.
fn read_field(word: &Vec<char>) -> (r: i32)
    ensures
        r == field(word@),
{
    match parse_i64(word) {
        Some(v) => if -0x8000_0000 <= v && v <= 0x7fff_ffff {
            v as i32
        } else {
            0
        },
        None => 0,
    }
}

/// The number that the first `len` characters of a word write; zero where
/// they write none.
fn read_field_upto(word: &Vec<char>, len: usize) -> (r: i32)
    requires
        len <= word.len(),
    ensures
        r == field(word@.subrange(0, len as int)),
{
    let mut head: Vec<char> = Vec::new();
    let mut i: usize = 0;
    while i < len
        invariant
            i <= len <= word.len(),
            head@ == word@.subrange(0, i as int),
        decreases len - i,
    {
        head.push(word[i]);
        i = i + 1;
    }
    read_field(&head)
}

/// The totals of the archive of repositories: the lines between the seven
/// lines of framing at its top and the three at its bottom contribute their
/// commits and their lines added and deleted. An archive of fewer than ten
/// lines contributes nothing. There must be a file.
pub fn add_archive(content: Option<&str>) -> (r: Result<ArchiveTotals, CacheError>)
    ensures
        match content {
            Some(text) => {
                let data = interior(lines_of(text@));
                r matches Ok(t) && {
                    &&& t.added_loc == archived_added(data, data.len())
                    &&& t.deleted_loc == archived_deleted(data, data.len())
                    &&& t.net_loc == t.added_loc - t.deleted_loc
                    &&& t.commits == archived_commits(data, data.len())
                    &&& t.contributed_repos == data.len()
                }
            },
            None => r matches Err(CacheError::Missing),
        },
{
    let text = match content {
        Some(text) => text,
        None => { return Err(CacheError::Missing); },
    };
    let chars = chars_of(text);
    let lines = split_lines(&chars);
    let ghost all = lines_of(text@);
    let ghost data = interior(all);
    if lines.len() < 10 {
        return Ok(
            ArchiveTotals {
                added_loc: 0,
                deleted_loc: 0,
                net_loc: 0,
                commits: 0,
                contributed_repos: 0,
            },
        );
    }
    let first: usize = 7;
    let end: usize = lines.len() - 3;
    let count: usize = end - first;
    let mut added: i128 = 0;
    let mut deleted: i128 = 0;
    let mut commits: i128 = 0;
    let mut i: usize = 0;
    while i < count
        invariant
            i <= count,
            first == 7,
            end == lines@.len() - 3,
            count == end - first,
            views(lines@) == all,
            data == all.subrange(7, all.len() - 3),
            data.len() == count,
            added == archived_added(data, i as nat),
            deleted == archived_deleted(data, i as nat),
            commits == archived_commits(data, i as nat),
            -(i * 0x8000_0000) <= added <= i * 0x8000_0000,
            -(i * 0x8000_0000) <= deleted <= i * 0x8000_0000,
            -(i * 0x8000_0000) <= commits <= i * 0x8000_0000,
        decreases count - i,
    {
        let line = &lines[first + i];
        assert(data[i as int] == line@) by {
            assert(all[first + i] == lines@[first + i]@);
        }
        let words = split_tokens(line);
        if words.len() >= 5 {
            assert(forall|k: int| 0 <= k < 5 ==> tokens(line@)[k] == (#[trigger] words@[k])@);
            let c = read_field(&words[2]);
            let a = read_field(&words[3]);
            let d = if i + 1 == count {
                let len = comma_free_len(&words[4]);
                read_field_upto(&words[4], len)
            } else {
                read_field(&words[4])
            };
            commits = commits + c as i128;
            added = added + a as i128;
            deleted = deleted + d as i128;
        }
        i = i + 1;
    }
    Ok(
        ArchiveTotals {
            added_loc: added,
            deleted_loc: deleted,
            net_loc: added - deleted,
            commits,
            contributed_repos: count,
        },
    )
}

} // verus!
