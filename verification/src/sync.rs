//! Synchronisation of a user's cache with the current list of repositories.

use vstd::prelude::*;
use crate::cache::{
    flush_cache, lemma_loaded_written, open_or_create, opened, rebuilt, record_views, well_formed,
    written, Cache, CacheFile,
};
use crate::fetcher::{owner_of, repo_of, repositories, split_name, Repository, RepositoryEdge};
use crate::identity::{identity, identity_of};
use crate::record::{storable, zero_record, CacheRecord, RecordView};
use crate::walker::{Accumulator, Totals};

verus! {

/// A whole number of lines, which may be negative.
#[derive(Clone, Copy, Debug)]
pub struct SignedCount {
    pub negative: bool,
    pub magnitude: u128,
}

impl View for SignedCount {
    type V = int;

    open spec fn view(&self) -> int {
        if self.negative {
            -(self.magnitude as int)
        } else {
            self.magnitude as int
        }
    }
}

/// The totals over all records of a cache.
#[derive(Clone, Copy, Debug)]
pub struct LocTotals {
    /// The lines added, over all repositories.
    pub added_loc: u128,
    /// The lines deleted, over all repositories.
    pub deleted_loc: u128,
    /// The lines added less the lines deleted.
    pub net_loc: SignedCount,
    /// Whether the cache was used as it was found: false where the record list
    /// was rebuilt. It does not say that no repository was walked again.
    pub was_fully_cached: bool,
}

/// The sum of the added lines of the records.
pub open spec fn added_sum(records: Seq<RecordView>) -> nat
    decreases records.len(),
{
    if records.len() == 0 {
        0
    } else {
        added_sum(records.drop_last()) + records.last().loc_added
    }
}

/// The sum of the deleted lines of the records.
pub open spec fn deleted_sum(records: Seq<RecordView>) -> nat
    decreases records.len(),
{
    if records.len() == 0 {
        0
    } else {
        deleted_sum(records.drop_last()) + records.last().loc_deleted
    }
}

/// Whether the record list must be rebuilt: it must where the number of
/// records differs from the number of repositories, or on demand.
pub open spec fn must_rebuild(c: Cache, repos: Seq<Repository>, force: bool) -> bool {
    c.records.len() != repos.len() || force
}

/// The cache that the staleness checks run on: rebuilt where it must be.
pub open spec fn prepared(c: Cache, repos: Seq<Repository>, force: bool) -> Cache {
    if must_rebuild(c, repos, force) {
        rebuilt(c, repos)
    } else {
        c
    }
}

/// Whether a record is stale for the repository at its position: its identity
/// is not that of the repository's name, or its commit count is not the
/// repository's current one.
pub open spec fn is_stale(record: RecordView, repo: Repository) -> bool {
    record.identity != identity_of(repo.name) || record.commit_count != repo.commit_count
}

/// The record of a repository whose history was walked with the result `t`.
pub open spec fn refreshed(repo: Repository, t: Totals) -> RecordView {
    RecordView {
        identity: identity_of(repo.name),
        commit_count: repo.commit_count,
        loc_total: t.authored_commits,
        loc_added: t.additions,
        loc_deleted: t.deletions,
    }
}

/// A cache that is in step with the repositories: one record for each, none
/// of them stale.
pub open spec fn in_step(c: Cache, repos: Seq<Repository>) -> bool {
    &&& c.records.len() == repos.len()
    &&& forall|i: int| 0 <= i < repos.len() ==> !is_stale(#[trigger] c.records[i], repos[i])
}

/// A second synchronisation right after a first, with the same repositories,
/// finds the cache as the first one wrote it: nothing is rebuilt, no record is
/// stale, and the file that it writes is the same, byte for byte.
pub proof fn lemma_sync_idempotent(c: Cache, repos: Seq<Repository>, comment_size: nat)
    requires
        well_formed(c, comment_size),
        in_step(c, repos),
    ensures
        opened(Some(written(c)), comment_size) == c,
        !must_rebuild(opened(Some(written(c)), comment_size), repos, false),
        prepared(opened(Some(written(c)), comment_size), repos, false) == c,
        in_step(prepared(opened(Some(written(c)), comment_size), repos, false), repos),
        written(prepared(opened(Some(written(c)), comment_size), repos, false)) == written(c),
{
    lemma_loaded_written(c, comment_size);
}

/// Where the number of cached records differs from the number of
/// repositories, the staleness checks run on a rebuilt cache: the header is
/// kept, and every record is reset to zero.
pub proof fn lemma_rebuild_trigger(c: Cache, repos: Seq<Repository>, force: bool)
    requires
        c.records.len() != repos.len(),
    ensures
        must_rebuild(c, repos, force),
        prepared(c, repos, force).header == c.header,
        prepared(c, repos, force).records.len() == repos.len(),
        forall|i: int|
            0 <= i < repos.len() ==> #[trigger] prepared(c, repos, force).records[i] == zero_record(
                identity_of(repos[i].name),
            ),
{
}

/// A record that was just computed for a repository is not stale, whatever
/// the walk found.
pub proof fn lemma_refreshed_is_fresh(repo: Repository, t: Totals)
    ensures
        !is_stale(refreshed(repo, t), repo),
{
}

/// The cache after every stale record was overwritten with the result of the
/// walk through its repository's history, `results[i]` for the repository at
/// `i`, and no other record was touched.
pub open spec fn synced(c: Cache, repos: Seq<Repository>, results: Seq<Totals>) -> Cache {
    Cache {
        header: c.header,
        records: Seq::new(
            c.records.len(),
            |i: int|
                if is_stale(c.records[i], repos[i]) {
                    refreshed(repos[i], results[i])
                } else {
                    c.records[i]
                },
        ),
    }
}

/// After every stale record was overwritten, the cache is in step with the
/// repositories, and the records that were not stale are as they were.
pub proof fn lemma_synced_in_step(c: Cache, repos: Seq<Repository>, results: Seq<Totals>)
    requires
        c.records.len() == repos.len(),
    ensures
        in_step(synced(c, repos, results), repos),
        forall|i: int|
            0 <= i < repos.len() && !is_stale(c.records[i], repos[i]) ==> #[trigger] synced(
                c,
                repos,
                results,
            ).records[i] == c.records[i],
{
}

/// Where the identity of a record is that of the repository's name, the
/// record is stale exactly if the commit counts differ.
pub proof fn lemma_stale_iff_count_differs(record: RecordView, repo: Repository)
    requires
        record.identity == identity_of(repo.name),
    ensures
        is_stale(record, repo) <==> record.commit_count != repo.commit_count,
{
}

pub proof fn lemma_sums_push(records: Seq<RecordView>, r: RecordView)
    ensures
        added_sum(records.push(r)) == added_sum(records) + r.loc_added,
        deleted_sum(records.push(r)) == deleted_sum(records) + r.loc_deleted,
{
    assert(records.push(r).drop_last() == records);
}

/// The totals over the records.
pub fn loc_totals(records: &Vec<CacheRecord>, was_fully_cached: bool) -> (r: LocTotals)
    ensures
        r.added_loc == added_sum(record_views(records@)),
        r.deleted_loc == deleted_sum(record_views(records@)),
        r.net_loc@ == r.added_loc - r.deleted_loc,
        r.was_fully_cached == was_fully_cached,
{
    let ghost all = record_views(records@);
    let mut added: u128 = 0;
    let mut deleted: u128 = 0;
    let mut i: usize = 0;
    while i < records.len()
        invariant
            i <= records.len(),
            all == record_views(records@),
            added == added_sum(all.subrange(0, i as int)),
            deleted == deleted_sum(all.subrange(0, i as int)),
            added <= i * 0xffff_ffff_ffff_ffff,
            deleted <= i * 0xffff_ffff_ffff_ffff,
        decreases records.len() - i,
    {
        proof {
            lemma_sums_push(all.subrange(0, i as int), all[i as int]);
            assert(all.subrange(0, i + 1) == all.subrange(0, i as int).push(all[i as int]));
            assert(all[i as int] == records@[i as int]@);
        }
        added = added + records[i].loc_added as u128;
        deleted = deleted + records[i].loc_deleted as u128;
        i = i + 1;
    }
    assert(all.subrange(0, records.len() as int) == all);
    let net_loc = if added >= deleted {
        SignedCount { negative: false, magnitude: added - deleted }
    } else {
        SignedCount { negative: true, magnitude: deleted - added }
    };
    LocTotals { added_loc: added, deleted_loc: deleted, net_loc, was_fully_cached }
}

/// A synchronisation under way: the cache, rebuilt where it had to be, and
/// the repositories that it is held against.
pub struct CacheSync {
    file: CacheFile,
    edges: Vec<RepositoryEdge>,
    comment_size: usize,
    was_fully_cached: bool,
    created: bool,
}

impl CacheSync {
    #[verifier::type_invariant]
    spec fn consistent(&self) -> bool {
        &&& well_formed(self.file@, self.comment_size as nat)
        &&& self.file.records@.len() == self.edges@.len()
    }

    /// The cache as it stands.
    pub closed spec fn cache(&self) -> Cache {
        self.file@
    }

    /// The repositories that the cache is held against.
    pub closed spec fn repos(&self) -> Seq<Repository> {
        repositories(self.edges@)
    }

    /// The number of header lines.
    pub closed spec fn header_size(&self) -> nat {
        self.comment_size as nat
    }

    /// Whether the cache was used as it was found.
    pub closed spec fn fully_cached(&self) -> bool {
        self.was_fully_cached
    }

    /// Whether there was no cache file.
    pub closed spec fn newly_created(&self) -> bool {
        self.created
    }

    /// The header lines.
    pub fn header(&self) -> (r: &Vec<String>)
        ensures
            crate::text::texts(r@) == self.cache().header,
    {
        &self.file.header
    }

    /// The records, one for every repository.
    pub fn records(&self) -> (r: &Vec<CacheRecord>)
        ensures
            record_views(r@) == self.cache().records,
            r@.len() == self.repos().len(),
            well_formed(self.cache(), self.header_size()),
    {
        proof {
            use_type_invariant(self);
        }
        &self.file.records
    }

    /// The repositories.
    pub fn edges(&self) -> (r: &Vec<RepositoryEdge>)
        ensures
            repositories(r@) == self.repos(),
    {
        &self.edges
    }

    /// Whether the cache was used as it was found: false where the record list
    /// was rebuilt.
    pub fn was_fully_cached(&self) -> (r: bool)
        ensures
            r == self.fully_cached(),
    {
        self.was_fully_cached
    }

    /// The positions of the stale records, each once, in rising order. These
    /// are the repositories whose history must be walked.
    pub fn stale_repositories(&self) -> (r: Vec<usize>)
        ensures
            forall|a: int, b: int| 0 <= a < b < r@.len() ==> r@[a] < r@[b],
            forall|k: int|
                0 <= k < r@.len() ==> (#[trigger] r@[k]) < self.repos().len() && is_stale(
                    self.cache().records[r@[k] as int],
                    self.repos()[r@[k] as int],
                ),
            forall|i: int|
                0 <= i < self.repos().len() && is_stale(
                    #[trigger] self.cache().records[i],
                    self.repos()[i],
                ) ==> r@.contains(i as usize),
    {
        proof {
            use_type_invariant(self);
        }
        let mut out: Vec<usize> = Vec::new();
        let n: usize = self.edges.len();
        let mut i: usize = 0;
        while i < n
            invariant
                i <= n,
                n == self.edges@.len(),
                n == self.file.records@.len(),
                forall|a: int, b: int| 0 <= a < b < out@.len() ==> out@[a] < out@[b],
                forall|k: int|
                    0 <= k < out@.len() ==> (#[trigger] out@[k]) < i && is_stale(
                        self.cache().records[out@[k] as int],
                        self.repos()[out@[k] as int],
                    ),
                forall|j: int|
                    0 <= j < i && is_stale(#[trigger] self.cache().records[j], self.repos()[j])
                        ==> out@.contains(j as usize),
            decreases n - i,
        {
            let id = identity(self.edges[i].name_with_owner.as_str());
            let record = &self.file.records[i];
            assert(self.cache().records[i as int] == record@);
            assert(self.repos()[i as int] == self.edges@[i as int]@);
            let stale = record.identity != id || record.commit_count != self.edges[i].commit_count;
            let ghost before = out@;
            if stale {
                out.push(i);
                assert(out@[before.len() as int] == i);
            }
            proof {
                assert forall|j: int|
                    0 <= j < i + 1 && is_stale(
                        #[trigger] self.cache().records[j],
                        self.repos()[j],
                    ) implies out@.contains(j as usize) by {
                    if j < i {
                        assert(before.contains(j as usize));
                        let k = choose|k: int| 0 <= k < before.len() && before[k] == j as usize;
                        assert(out@[k] == j as usize);
                    } else {
                        assert(out@[before.len() as int] == j as usize);
                    }
                }
            }
            i = i + 1;
        }
        out
    }

    /// The owner and the repository to ask for when the history of the
    /// repository at `index` is walked.
    pub fn target(&self, index: usize) -> (r: (String, String))
        requires
            index < self.repos().len(),
        ensures
            r.0@ == owner_of(self.repos()[index as int].name),
            r.1@ == repo_of(self.repos()[index as int].name),
    {
        split_name(self.edges[index].name_with_owner.as_str())
    }

    /// Overwrites the record at `index` with the result of the walk through
    /// the repository's history. No other record changes.
    pub fn store(self, index: usize, totals: Accumulator) -> (r: CacheSync)
        requires
            index < self.repos().len(),
        ensures
            r.repos() == self.repos(),
            r.header_size() == self.header_size(),
            r.fully_cached() == self.fully_cached(),
            r.newly_created() == self.newly_created(),
            r.cache().header == self.cache().header,
            r.cache().records == self.cache().records.update(
                index as int,
                refreshed(self.repos()[index as int], totals@),
            ),
            well_formed(r.cache(), r.header_size()),
    {
        proof {
            use_type_invariant(&self);
        }
        let ghost old_cache = self.file@;
        let ghost repos = repositories(self.edges@);
        let CacheSync { file, edges, comment_size, was_fully_cached, created } = self;
        let CacheFile { header, mut records } = file;
        let edge = &edges[index];
        let record = CacheRecord {
            identity: identity(edge.name_with_owner.as_str()),
            commit_count: edge.commit_count,
            loc_total: totals.authored_commits,
            loc_added: totals.additions,
            loc_deleted: totals.deletions,
        };
        assert(record@ == refreshed(repos[index as int], totals@));
        assert(storable(record@));
        records.set(index, record);
        let file = CacheFile { header, records };
        proof {
            assert(file@.records == old_cache.records.update(
                index as int,
                refreshed(repos[index as int], totals@),
            ));
            assert forall|i: int| 0 <= i < file@.records.len() implies storable(
                #[trigger] file@.records[i],
            ) by {
                if i != index {
                    assert(file@.records[i] == old_cache.records[i]);
                }
            }
        }
        CacheSync { file, edges, comment_size, was_fully_cached, created }
    }

    /// The content to write to the cache file before any history is walked:
    /// there is some where the file was missing or the record list was
    /// rebuilt, so that the file holds the cache that the walks start from.
    pub fn pending_write(&self) -> (r: Option<String>)
        ensures
            match r {
                Some(content) => (self.newly_created() || !self.fully_cached()) && content@
                    == written(self.cache()),
                None => !self.newly_created() && self.fully_cached(),
            },
    {
        if self.created || !self.was_fully_cached {
            Some(self.file.write())
        } else {
            None
        }
    }

    /// The content of the cache file as the cache stands.
    pub fn content(&self) -> (r: String)
        ensures
            r@ == written(self.cache()),
    {
        self.file.write()
    }

    /// The end of the synchronisation: the content to write to the cache file,
    /// and the totals over all records.
    pub fn finish(&self) -> (r: (String, LocTotals))
        ensures
            r.0@ == written(self.cache()),
            r.1.added_loc == added_sum(self.cache().records),
            r.1.deleted_loc == deleted_sum(self.cache().records),
            r.1.net_loc@ == r.1.added_loc - r.1.deleted_loc,
            r.1.was_fully_cached == self.fully_cached(),
    {
        (self.file.write(), loc_totals(&self.file.records, self.was_fully_cached))
    }
}

/// Starts a synchronisation: opens the cache from the content of the user's
/// cache file (`None` where there is no file), and rebuilds the record list
/// where its length differs from the number of repositories or `force_cache`
/// is set. Whether it was rebuilt is all that `was_fully_cached` says.
pub fn cache_builder(
    edges: Vec<RepositoryEdge>,
    comment_size: usize,
    force_cache: bool,
    content: Option<&str>,
) -> (r: CacheSync)
    ensures
        r.repos() == repositories(edges@),
        r.header_size() == comment_size,
        r.newly_created() == (content is None),
        well_formed(r.cache(), comment_size as nat),
        r.cache().records.len() == edges@.len(),
        r.cache() == prepared(
            opened(
                match content {
                    Some(text) => Some(text@),
                    None => None,
                },
                comment_size as nat,
            ),
            repositories(edges@),
            force_cache,
        ),
        r.fully_cached() == !must_rebuild(
            opened(
                match content {
                    Some(text) => Some(text@),
                    None => None,
                },
                comment_size as nat,
            ),
            repositories(edges@),
            force_cache,
        ),
{
    let found = open_or_create(content, comment_size);
    let created = content.is_none();
    if found.records.len() != edges.len() || force_cache {
        let file = flush_cache(&edges, found, comment_size);
        assert(file@.records.len() == repositories(edges@).len());
        assert(file.records@.len() == edges@.len());
        CacheSync { file, edges, comment_size, was_fully_cached: false, created }
    } else {
        CacheSync { file: found, edges, comment_size, was_fully_cached: true, created }
    }
}

} // verus!
