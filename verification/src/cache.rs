//! The cache file of one user: a header of comment lines, then one record
//! line for every tracked repository.

use vstd::prelude::*;
use crate::fetcher::{repositories, Repository, RepositoryEdge};
use crate::identity::{identity, identity_of};
use crate::record::{
    lemma_record_round_trip, record_line, record_of_line, storable, zero_record, CacheRecord,
    RecordView,
};
use crate::text::{
    chars_of, joined, lemma_joined_push, lemma_lines_are_single, lemma_lines_of_joined, lines_of,
    push_lines, single_line, split_lines, string_of, texts, views,
};

verus! {

/// The cache file of one user.
pub struct CacheFile {
    /// The comment lines at the top of the file, each without its newline.
    pub header: Vec<String>,
    /// The records below the header, in the order of the repositories.
    pub records: Vec<CacheRecord>,
}

/// A cache file, as mathematics.
pub struct Cache {
    pub header: Seq<Seq<char>>,
    pub records: Seq<RecordView>,
}

/// The views of a list of records.
pub open spec fn record_views(records: Seq<CacheRecord>) -> Seq<RecordView> {
    Seq::new(records.len(), |i: int| records[i]@)
}

impl View for CacheFile {
    type V = Cache;

    open spec fn view(&self) -> Cache {
        Cache { header: texts(self.header@), records: record_views(self.records@) }
    }
}

/// The comment line that fills the header of a new cache file.
pub open spec fn placeholder() -> Seq<char> {
    "This line is a comment block. Write whatever you want here."@
}

/// A cache with a header of `comment_size` lines, no line of which holds a
/// newline, and records that a cache file can hold.
pub open spec fn well_formed(c: Cache, comment_size: nat) -> bool {
    &&& c.header.len() == comment_size
    &&& forall|i: int| 0 <= i < c.header.len() ==> single_line(#[trigger] c.header[i])
    &&& forall|i: int| 0 <= i < c.records.len() ==> storable(#[trigger] c.records[i])
}

/// The records that the lines hold, in order. A line that holds none is passed
/// over.
pub open spec fn records_in(lines: Seq<Seq<char>>) -> Seq<RecordView>
    decreases lines.len(),
{
    if lines.len() == 0 {
        Seq::empty()
    } else {
        let before = records_in(lines.drop_last());
        match record_of_line(lines.last()) {
            Some(r) => before.push(r),
            None => before,
        }
    }
}

/// The first `comment_size` lines; where the lines are fewer, placeholder
/// lines make up the rest.
pub open spec fn header_of(lines: Seq<Seq<char>>, comment_size: nat) -> Seq<Seq<char>> {
    Seq::new(
        comment_size,
        |i: int|
            if i < lines.len() {
                lines[i]
            } else {
                placeholder()
            },
    )
}

/// The lines below the header.
pub open spec fn body_of(lines: Seq<Seq<char>>, comment_size: nat) -> Seq<Seq<char>> {
    if comment_size < lines.len() {
        lines.subrange(comment_size as int, lines.len() as int)
    } else {
        Seq::empty()
    }
}

/// The cache that a file with the content `text` holds.
pub open spec fn loaded(text: Seq<char>, comment_size: nat) -> Cache {
    let lines = lines_of(text);
    Cache {
        header: header_of(lines, comment_size),
        records: records_in(body_of(lines, comment_size)),
    }
}

/// The cache of a user who had no cache file: a header of placeholder lines
/// and no record.
pub open spec fn created(comment_size: nat) -> Cache {
    Cache { header: Seq::new(comment_size, |i: int| placeholder()), records: Seq::empty() }
}

/// The cache to start from: the one that the file holds, or a new one where
/// there is no file.
pub open spec fn opened(content: Option<Seq<char>>, comment_size: nat) -> Cache {
    match content {
        Some(text) => loaded(text, comment_size),
        None => created(comment_size),
    }
}

/// The lines of the records.
pub open spec fn record_lines(records: Seq<RecordView>) -> Seq<Seq<char>> {
    Seq::new(records.len(), |i: int| record_line(records[i]))
}

/// The content of the file of a cache: the header lines, then the record
/// lines, each followed by a newline.
pub open spec fn written(c: Cache) -> Seq<char> {
    joined(c.header + record_lines(c.records))
}

/// The cache after a rebuild: the header as it was, and for every repository a
/// record of which nothing was computed yet.
pub open spec fn rebuilt(c: Cache, repos: Seq<Repository>) -> Cache {
    Cache {
        header: c.header,
        records: Seq::new(repos.len(), |i: int| zero_record(identity_of(repos[i].name))),
    }
}

pub proof fn lemma_placeholder_single_line()
    ensures
        single_line(placeholder()),
{
    reveal_strlit("This line is a comment block. Write whatever you want here.");
    let s = placeholder();
    assert forall|i: int| 0 <= i < s.len() implies #[trigger] s[i] != '\n' by {}
}

/// The records read from lines are records that a cache file can hold.
pub proof fn lemma_records_in_storable(lines: Seq<Seq<char>>)
    ensures
        forall|i: int| 0 <= i < records_in(lines).len() ==> storable(#[trigger] records_in(lines)[i]),
        records_in(lines).len() <= lines.len(),
    decreases lines.len(),
{
    if lines.len() > 0 {
        lemma_records_in_storable(lines.drop_last());
        let before = records_in(lines.drop_last());
        let all = records_in(lines);
        assert forall|i: int| 0 <= i < all.len() implies storable(#[trigger] all[i]) by {
            if i < before.len() {
                assert(all[i] == before[i]);
            }
        }
    }
}

/// Reading the lines of records gives the records back.
pub proof fn lemma_records_in_record_lines(records: Seq<RecordView>)
    requires
        forall|i: int| 0 <= i < records.len() ==> storable(#[trigger] records[i]),
    ensures
        records_in(record_lines(records)) == records,
    decreases records.len(),
{
    if records.len() > 0 {
        let lines = record_lines(records);
        let fewer = records.drop_last();
        assert forall|i: int| 0 <= i < fewer.len() implies storable(#[trigger] fewer[i]) by {
            assert(fewer[i] == records[i]);
        }
        lemma_records_in_record_lines(fewer);
        assert(lines.drop_last() == record_lines(fewer));
        assert(storable(records[records.len() - 1]));
        lemma_record_round_trip(records.last());
        assert(lines.last() == record_line(records.last()));
        assert(fewer.push(records.last()) == records);
    }
}

/// What `loaded` reads is well formed.
pub proof fn lemma_loaded_well_formed(text: Seq<char>, comment_size: nat)
    ensures
        well_formed(loaded(text, comment_size), comment_size),
{
    let lines = lines_of(text);
    let c = loaded(text, comment_size);
    lemma_lines_are_single(text, 0);
    lemma_placeholder_single_line();
    lemma_records_in_storable(body_of(lines, comment_size));
    assert forall|i: int| 0 <= i < c.header.len() implies single_line(#[trigger] c.header[i]) by {
        if i < lines.len() {
            assert(c.header[i] == lines[i]);
        }
    }
}

/// Reading the file that was written for a cache gives the cache back.
pub proof fn lemma_loaded_written(c: Cache, comment_size: nat)
    requires
        well_formed(c, comment_size),
    ensures
        loaded(written(c), comment_size) == c,
{
    let lines = c.header + record_lines(c.records);
    assert forall|i: int| 0 <= i < lines.len() implies single_line(#[trigger] lines[i]) by {
        if i < c.header.len() {
            assert(lines[i] == c.header[i]);
        } else {
            let k = i - c.header.len();
            assert(lines[i] == record_line(c.records[k]));
            assert(storable(c.records[k]));
            lemma_record_round_trip(c.records[k]);
        }
    }
    lemma_lines_of_joined(lines);
    assert(lines_of(written(c)) == lines);
    assert(header_of(lines, comment_size) == c.header);
    assert(body_of(lines, comment_size) == record_lines(c.records));
    lemma_records_in_record_lines(c.records);
}

/// The placeholder comment line.
pub fn placeholder_line() -> (r: String)
    ensures
        r@ == placeholder(),
{
    "This line is a comment block. Write whatever you want here.".to_owned()
}

impl CacheFile {
    /// The cache of a user who had no cache file.
    pub fn create(comment_size: usize) -> (r: CacheFile)
        ensures
            r@ == created(comment_size as nat),
            well_formed(r@, comment_size as nat),
    {
        let mut header: Vec<String> = Vec::new();
        let mut i: usize = 0;
        while i < comment_size
            invariant
                i <= comment_size,
                header@.len() == i,
                forall|k: int| 0 <= k < i ==> (#[trigger] header@[k])@ == placeholder(),
            decreases comment_size - i,
        {
            header.push(placeholder_line());
            i = i + 1;
        }
        let r = CacheFile { header, records: Vec::new() };
        proof {
            lemma_placeholder_single_line();
            assert(r@.header == created(comment_size as nat).header);
            assert(r@.records == created(comment_size as nat).records);
        }
        r
    }

    /// Reads the cache that a file with the content `text` holds.
    pub fn load(text: &str, comment_size: usize) -> (r: CacheFile)
        ensures
            r@ == loaded(text@, comment_size as nat),
            well_formed(r@, comment_size as nat),
    {
        let chars = chars_of(text);
        let lines = split_lines(&chars);
        let ghost all = lines_of(text@);
        let n: usize = lines.len();
        let mut header: Vec<String> = Vec::new();
        let mut i: usize = 0;
        while i < comment_size
            invariant
                i <= comment_size,
                n == lines@.len(),
                views(lines@) == all,
                header@.len() == i,
                forall|k: int|
                    0 <= k < i ==> (#[trigger] header@[k])@ == header_of(all, comment_size as nat)[k],
            decreases comment_size - i,
        {
            if i < n {
                assert(all[i as int] == lines@[i as int]@);
                header.push(string_of(&lines[i]));
            } else {
                header.push(placeholder_line());
            }
            i = i + 1;
        }
        let ghost body = body_of(all, comment_size as nat);
        let mut records: Vec<CacheRecord> = Vec::new();
        let mut j: usize = if comment_size < n {
            comment_size
        } else {
            n
        };
        let start: usize = j;
        assert(body == all.subrange(start as int, n as int));
        while j < n
            invariant
                start <= j <= n,
                n == lines@.len(),
                views(lines@) == all,
                body == all.subrange(start as int, n as int),
                record_views(records@) == records_in(body.subrange(0, j - start)),
            decreases n - j,
        {
            let ghost before = body.subrange(0, j - start);
            let ghost upto = body.subrange(0, j - start + 1);
            proof {
                assert(upto.drop_last() == before);
                assert(upto.last() == all[j as int]);
                assert(all[j as int] == lines@[j as int]@);
            }
            match CacheRecord::parse_chars(&lines[j]) {
                Some(record) => {
                    proof {
                        assert(record_views(records@.push(record)) == record_views(records@).push(
                            record@,
                        ));
                    }
                    records.push(record);
                },
                None => {},
            }
            j = j + 1;
        }
        assert(body.subrange(0, n - start) == body);
        let r = CacheFile { header, records };
        proof {
            assert(r@.header == header_of(all, comment_size as nat));
            lemma_loaded_well_formed(text@, comment_size as nat);
        }
        r
    }

    /// The content of the file of the cache: the header lines, then the record
    /// lines, each followed by a newline.
    pub fn write(&self) -> (r: String)
        ensures
            r@ == written(self@),
    {
        let mut out: Vec<char> = Vec::new();
        push_lines(&mut out, &self.header);
        let ghost head = joined(texts(self.header@));
        let ghost lines = record_lines(self@.records);
        assert(out@ == head);
        let mut i: usize = 0;
        while i < self.records.len()
            invariant
                i <= self.records.len(),
                lines == record_lines(self@.records),
                out@ == joined(self@.header + lines.subrange(0, i as int)),
            decreases self.records.len() - i,
        {
            proof {
                let done = self@.header + lines.subrange(0, i as int);
                lemma_joined_push(done, lines[i as int]);
                assert(self@.header + lines.subrange(0, i + 1) == done.push(lines[i as int]));
                assert(lines[i as int] == record_line(self.records@[i as int]@));
            }
            self.records[i].push_line(&mut out);
            out.push('\n');
            i = i + 1;
        }
        assert(lines.subrange(0, self.records.len() as int) == lines);
        string_of(&out)
    }
}

/// The cache to start from: the one that the file holds, or, where there is
/// no file, a new one with a header of placeholder lines.
pub fn open_or_create(content: Option<&str>, comment_size: usize) -> (r: CacheFile)
    ensures
        r@ == opened(
            match content {
                Some(text) => Some(text@),
                None => None,
            },
            comment_size as nat,
        ),
        well_formed(r@, comment_size as nat),
{
    match content {
        Some(text) => CacheFile::load(text, comment_size),
        None => CacheFile::create(comment_size),
    }
}

/// Rebuilds the cache for a changed list of repositories: the header stays as
/// it is, and every repository gets a record of which nothing was computed
/// yet, in the order of the list.
pub fn flush_cache(edges: &Vec<RepositoryEdge>, file: CacheFile, comment_size: usize) -> (r:
    CacheFile)
    ensures
        r@ == rebuilt(file@, repositories(edges@)),
        well_formed(file@, comment_size as nat) ==> well_formed(r@, comment_size as nat),
{
    let ghost repos = repositories(edges@);
    let mut records: Vec<CacheRecord> = Vec::new();
    let mut i: usize = 0;
    while i < edges.len()
        invariant
            i <= edges.len(),
            repos == repositories(edges@),
            records@.len() == i,
            forall|k: int|
                0 <= k < i ==> (#[trigger] records@[k])@ == zero_record(identity_of(repos[k].name)),
            forall|k: int| 0 <= k < i ==> storable((#[trigger] records@[k])@),
        decreases edges.len() - i,
    {
        let id = identity(edges[i].name_with_owner.as_str());
        records.push(CacheRecord::zero(id));
        i = i + 1;
    }
    let r = CacheFile { header: file.header, records };
    assert(r@.records == rebuilt(file@, repos).records);
    r
}

} // verus!
