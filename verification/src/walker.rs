//! The walk through one repository's commit history, page by page.

use vstd::prelude::*;
use crate::persist::{force_close_file, pretty_json_object, snapshot_keys, snapshot_of, PersistError};
use crate::text::texts;

verus! {

/// The running totals of one repository's walk.
#[derive(Clone, Copy, Debug)]
pub struct Accumulator {
    /// Lines added by the commits that the tracked owner authored.
    pub additions: u64,
    /// Lines deleted by those commits.
    pub deletions: u64,
    /// The number of those commits.
    pub authored_commits: u64,
}

/// The totals of a walk, as mathematics.
pub struct Totals {
    pub additions: nat,
    pub deletions: nat,
    pub authored_commits: nat,
}

impl View for Accumulator {
    type V = Totals;

    open spec fn view(&self) -> Totals {
        Totals {
            additions: self.additions as nat,
            deletions: self.deletions as nat,
            authored_commits: self.authored_commits as nat,
        }
    }
}

/// One commit of a history page.
pub struct CommitEdge {
    /// The identity of the author's user account, where the commit names one.
    pub author_id: Option<String>,
    pub additions: u64,
    pub deletions: u64,
}

/// A commit, as mathematics.
pub struct Commit {
    pub author: Option<Seq<char>>,
    pub additions: nat,
    pub deletions: nat,
}

/// The text of an optional string.
pub open spec fn text_of(s: Option<String>) -> Option<Seq<char>> {
    match s {
        Some(t) => Some(t@),
        None => None,
    }
}

impl View for CommitEdge {
    type V = Commit;

    open spec fn view(&self) -> Commit {
        Commit {
            author: text_of(self.author_id),
            additions: self.additions as nat,
            deletions: self.deletions as nat,
        }
    }
}

/// One page of a repository's commit history.
pub struct HistoryPage {
    pub edges: Vec<CommitEdge>,
    pub has_next_page: bool,
    /// Where the next page starts.
    pub end_cursor: Option<String>,
}

/// A history page, as mathematics.
pub struct Page {
    pub commits: Seq<Commit>,
    pub has_next_page: bool,
    pub end_cursor: Option<Seq<char>>,
}

impl View for HistoryPage {
    type V = Page;

    open spec fn view(&self) -> Page {
        Page {
            commits: Seq::new(self.edges@.len(), |i: int| self.edges@[i]@),
            has_next_page: self.has_next_page,
            end_cursor: text_of(self.end_cursor),
        }
    }
}

/// What the walk does after a page.
pub enum WalkStep {
    /// Another page follows: ask for it at `cursor`.
    Continue { totals: Accumulator, cursor: Option<String> },
    /// The history is exhausted.
    Done { totals: Accumulator },
    /// A total no longer fits in 64 bits.
    Overflow,
}

/// Whether the tracked owner authored the commit.
pub open spec fn authored_by(c: Commit, owner: Seq<char>) -> bool {
    c.author == Some(owner)
}

/// The number of commits that the owner authored.
pub open spec fn authored_count(commits: Seq<Commit>, owner: Seq<char>) -> nat
    decreases commits.len(),
{
    if commits.len() == 0 {
        0
    } else {
        authored_count(commits.drop_last(), owner) + if authored_by(commits.last(), owner) {
            1nat
        } else {
            0nat
        }
    }
}

/// The lines added by the commits that the owner authored.
pub open spec fn added_lines(commits: Seq<Commit>, owner: Seq<char>) -> nat
    decreases commits.len(),
{
    if commits.len() == 0 {
        0
    } else {
        added_lines(commits.drop_last(), owner) + if authored_by(commits.last(), owner) {
            commits.last().additions
        } else {
            0nat
        }
    }
}

/// The lines deleted by the commits that the owner authored.
pub open spec fn deleted_lines(commits: Seq<Commit>, owner: Seq<char>) -> nat
    decreases commits.len(),
{
    if commits.len() == 0 {
        0
    } else {
        deleted_lines(commits.drop_last(), owner) + if authored_by(commits.last(), owner) {
            commits.last().deletions
        } else {
            0nat
        }
    }
}

/// The totals after the owner's commits among `commits` were added to `acc`.
pub open spec fn absorbed(acc: Totals, commits: Seq<Commit>, owner: Seq<char>) -> Totals {
    Totals {
        additions: acc.additions + added_lines(commits, owner),
        deletions: acc.deletions + deleted_lines(commits, owner),
        authored_commits: acc.authored_commits + authored_count(commits, owner),
    }
}

/// Totals that an `Accumulator` can hold.
pub open spec fn fits(t: Totals) -> bool {
    t.additions <= u64::MAX && t.deletions <= u64::MAX && t.authored_commits <= u64::MAX
}

/// Whether the walk goes on after `page`: it says that a next page exists and
/// it holds at least one commit.
pub open spec fn continues(page: Page) -> bool {
    page.has_next_page && page.commits.len() > 0
}

/// The totals before any page.
pub open spec fn no_totals() -> Totals {
    Totals { additions: 0, deletions: 0, authored_commits: 0 }
}

pub proof fn lemma_sums_concat(a: Seq<Commit>, b: Seq<Commit>, owner: Seq<char>)
    ensures
        authored_count(a + b, owner) == authored_count(a, owner) + authored_count(b, owner),
        added_lines(a + b, owner) == added_lines(a, owner) + added_lines(b, owner),
        deleted_lines(a + b, owner) == deleted_lines(a, owner) + deleted_lines(b, owner),
    decreases b.len(),
{
    if b.len() == 0 {
        assert(a + b == a);
    } else {
        assert((a + b).drop_last() == a + b.drop_last());
        assert((a + b).last() == b.last());
        lemma_sums_concat(a, b.drop_last(), owner);
    }
}

/// What a page leads to, as mathematics.
pub enum Step {
    /// Another page follows, asked for at `cursor`.
    Continue { totals: Totals, cursor: Option<Seq<char>> },
    /// The history is exhausted.
    Done { totals: Totals },
    /// A total no longer fits in 64 bits.
    Overflow,
}

impl View for WalkStep {
    type V = Step;

    open spec fn view(&self) -> Step {
        match *self {
            WalkStep::Continue { totals, cursor } => Step::Continue {
                totals: totals@,
                cursor: text_of(cursor),
            },
            WalkStep::Done { totals } => Step::Done { totals: totals@ },
            WalkStep::Overflow => Step::Overflow,
        }
    }
}

/// What the walk does after `page`, having `acc` before it: the owner's
/// commits of the page are added; where a total no longer fits, that is an
/// overflow; else the walk goes on at the page's end cursor, or ends, as
/// `continues` says.
pub open spec fn step_of(acc: Totals, page: Page, owner: Seq<char>) -> Step {
    let sum = absorbed(acc, page.commits, owner);
    if !fits(sum) {
        Step::Overflow
    } else if continues(page) {
        Step::Continue { totals: sum, cursor: page.end_cursor }
    } else {
        Step::Done { totals: sum }
    }
}

/// The page that a history of `commits` serves at `offset` with pages of
/// `size`: the next `size` commits, or those that are left, and a next page
/// exactly if more are left after them.
pub open spec fn served_page(
    commits: Seq<Commit>,
    size: nat,
    offset: nat,
    cursor: Option<Seq<char>>,
) -> Page {
    let end: int = if offset + size < commits.len() {
        (offset + size) as int
    } else {
        commits.len() as int
    };
    Page {
        commits: commits.subrange(offset as int, end),
        has_next_page: offset + size < commits.len(),
        end_cursor: cursor,
    }
}

/// How a walk ends: the number of pages that were asked for, the cursors
/// that the pages after the first were asked for at, and the totals, or none
/// where a total no longer fitted.
pub struct WalkEnd {
    pub pages: nat,
    pub cursors: Seq<Option<Seq<char>>>,
    pub totals: Option<Totals>,
}

/// Where the page at `offset` ends.
pub open spec fn page_end(commits: Seq<Commit>, size: nat, offset: nat) -> nat {
    if offset + size < commits.len() {
        offset + size
    } else {
        commits.len()
    }
}

/// The end of the walk through a history of `commits` that is served in pages
/// of `size`, from the page at `offset` on and with `acc` before it. The end
/// cursor of a page is the mark of the place where it ends, `marks(end)`.
/// After each page the walk does what `step_of` says.
pub open spec fn walk_end(
    commits: Seq<Commit>,
    size: nat,
    marks: spec_fn(nat) -> Option<Seq<char>>,
    offset: nat,
    acc: Totals,
    owner: Seq<char>,
) -> WalkEnd
    decreases commits.len() - offset,
{
    let page = served_page(commits, size, offset, marks(page_end(commits, size, offset)));
    match step_of(acc, page, owner) {
        Step::Overflow => WalkEnd { pages: 1, cursors: Seq::empty(), totals: None },
        Step::Done { totals } => WalkEnd { pages: 1, cursors: Seq::empty(), totals: Some(totals) },
        Step::Continue { totals, cursor } => {
            if size > 0 && offset + size < commits.len() {
                let rest = walk_end(commits, size, marks, offset + size, totals, owner);
                WalkEnd {
                    pages: 1 + rest.pages,
                    cursors: seq![cursor] + rest.cursors,
                    totals: rest.totals,
                }
            } else {
                WalkEnd { pages: 1, cursors: Seq::empty(), totals: Some(totals) }
            }
        },
    }
}

/// The least number of pages of `size` that hold `n` items.
pub open spec fn pages_needed(n: nat, size: nat) -> nat {
    ((n + size - 1) / (size as int)) as nat
}

proof fn lemma_pages_needed_step(n: nat, size: nat)
    requires
        size > 0,
        n > size,
    ensures
        pages_needed(n, size) == 1 + pages_needed((n - size) as nat, size),
{
    let a = n + size - 1;
    assert((a - size) / (size as int) == a / (size as int) - 1) by (nonlinear_arith)
        requires
            size > 0,
            a >= size,
    ;
}

proof fn lemma_pages_needed_one(n: nat, size: nat)
    requires
        size > 0,
        0 < n <= size,
    ensures
        pages_needed(n, size) == 1,
{
    let a = n + size - 1;
    assert(a / (size as int) == 1) by (nonlinear_arith)
        requires
            size > 0,
            size <= a < 2 * size,
    ;
}

/// Totals that fit after more commits fitted after fewer.
pub proof fn lemma_fits_earlier(acc: Totals, a: Seq<Commit>, b: Seq<Commit>, owner: Seq<char>)
    requires
        fits(absorbed(acc, a + b, owner)),
    ensures
        fits(absorbed(acc, a, owner)),
        absorbed(absorbed(acc, a, owner), b, owner) == absorbed(acc, a + b, owner),
{
    lemma_sums_concat(a, b, owner);
}

/// A walk from the page at `offset` on, whose totals fit in 64 bits to the
/// end of the history, asks for `ceil((N - offset) / P)` pages, each after
/// the first at the end cursor of the page before it, and ends with every
/// commit of the owner from `offset` on added to the totals, once.
pub proof fn lemma_walk_covers_history(
    commits: Seq<Commit>,
    size: nat,
    marks: spec_fn(nat) -> Option<Seq<char>>,
    offset: nat,
    acc: Totals,
    owner: Seq<char>,
)
    requires
        size > 0,
        offset < commits.len(),
        fits(absorbed(acc, commits.subrange(offset as int, commits.len() as int), owner)),
    ensures
        walk_end(commits, size, marks, offset, acc, owner).pages == pages_needed(
            (commits.len() - offset) as nat,
            size,
        ),
        walk_end(commits, size, marks, offset, acc, owner).totals == Some(
            absorbed(acc, commits.subrange(offset as int, commits.len() as int), owner),
        ),
        walk_end(commits, size, marks, offset, acc, owner).cursors.len() + 1 == walk_end(
            commits,
            size,
            marks,
            offset,
            acc,
            owner,
        ).pages,
        forall|k: int|
            0 <= k < walk_end(commits, size, marks, offset, acc, owner).cursors.len()
                ==> #[trigger] walk_end(commits, size, marks, offset, acc, owner).cursors[k]
                == marks((offset + (k + 1) * size) as nat),
    decreases commits.len() - offset,
{
    let n = commits.len();
    let page = served_page(commits, size, offset, marks(page_end(commits, size, offset)));
    let rest = commits.subrange(offset as int, n as int);
    if offset + size < n {
        let tail = commits.subrange((offset + size) as int, n as int);
        assert(page.commits + tail == rest);
        lemma_fits_earlier(acc, page.commits, tail, owner);
        assert(continues(page));
        let next = absorbed(acc, page.commits, owner);
        lemma_walk_covers_history(commits, size, marks, offset + size, next, owner);
        lemma_pages_needed_step((n - offset) as nat, size);
        let end = walk_end(commits, size, marks, offset, acc, owner);
        let after = walk_end(commits, size, marks, offset + size, next, owner);
        assert(end.cursors == seq![page.end_cursor] + after.cursors);
        assert forall|k: int| 0 <= k < end.cursors.len() implies #[trigger] end.cursors[k]
            == marks((offset + (k + 1) * size) as nat) by {
            if k == 0 {
                assert(offset + (0 + 1) * size == offset + size) by (nonlinear_arith);
            } else {
                assert(end.cursors[k] == after.cursors[k - 1]);
                assert(offset + size + (k - 1 + 1) * size == offset + (k + 1) * size)
                    by (nonlinear_arith);
            }
        }
    } else {
        assert(!continues(page));
        lemma_pages_needed_one((n - offset) as nat, size);
        assert(page.commits == rest);
    }
}

/// A walk whose totals do not fit in 64 bits to the end of the history ends
/// in an overflow, after `ceil((N - offset) / P)` pages at most.
pub proof fn lemma_walk_overflows(
    commits: Seq<Commit>,
    size: nat,
    marks: spec_fn(nat) -> Option<Seq<char>>,
    offset: nat,
    acc: Totals,
    owner: Seq<char>,
)
    requires
        size > 0,
        offset < commits.len(),
        !fits(absorbed(acc, commits.subrange(offset as int, commits.len() as int), owner)),
    ensures
        walk_end(commits, size, marks, offset, acc, owner).totals is None,
        walk_end(commits, size, marks, offset, acc, owner).pages <= pages_needed(
            (commits.len() - offset) as nat,
            size,
        ),
    decreases commits.len() - offset,
{
    let n = commits.len();
    let page = served_page(commits, size, offset, marks(page_end(commits, size, offset)));
    let rest = commits.subrange(offset as int, n as int);
    if offset + size < n {
        let tail = commits.subrange((offset + size) as int, n as int);
        assert(page.commits + tail == rest);
        lemma_sums_concat(page.commits, tail, owner);
        lemma_pages_needed_step((n - offset) as nat, size);
        let next = absorbed(acc, page.commits, owner);
        if fits(next) {
            assert(continues(page));
            lemma_walk_overflows(commits, size, marks, offset + size, next, owner);
        }
    } else {
        lemma_pages_needed_one((n - offset) as nat, size);
        assert(page.commits == rest);
    }
}

/// A history of `N` commits, `N > 0`, that is served in pages of `P` commits
/// and whose totals fit in 64 bits is walked in `ceil(N / P)` pages: each
/// page after the first is asked for at the end cursor of the page before
/// it, and the walk ends with the lines and the number of the commits whose
/// author is the tracked owner added to the totals that it began with.
pub proof fn lemma_pagination_terminates(
    commits: Seq<Commit>,
    size: nat,
    marks: spec_fn(nat) -> Option<Seq<char>>,
    acc: Totals,
    owner: Seq<char>,
)
    requires
        size > 0,
        commits.len() > 0,
        fits(absorbed(acc, commits, owner)),
    ensures
        walk_end(commits, size, marks, 0, acc, owner).pages == pages_needed(commits.len(), size),
        walk_end(commits, size, marks, 0, acc, owner).totals == Some(
            absorbed(acc, commits, owner),
        ),
        absorbed(acc, commits, owner).authored_commits == acc.authored_commits + authored_count(
            commits,
            owner,
        ),
        walk_end(commits, size, marks, 0, acc, owner).cursors.len() == pages_needed(
            commits.len(),
            size,
        ) - 1,
        forall|k: int|
            0 <= k < walk_end(commits, size, marks, 0, acc, owner).cursors.len()
                ==> #[trigger] walk_end(commits, size, marks, 0, acc, owner).cursors[k] == marks(
                ((k + 1) * size) as nat,
            ),
{
    assert(commits.subrange(0, commits.len() as int) == commits);
    lemma_walk_covers_history(commits, size, marks, 0, acc, owner);
}

/// Adds the owner's commits of one page to the totals, and decides whether
/// the walk goes on: it does where the page says that a next page exists and
/// holds at least one commit.
pub fn loc_counter_one_repo(history: &HistoryPage, owner_id: &str, totals: Accumulator) -> (r:
    WalkStep)
    ensures
        r@ == step_of(totals@, history@, owner_id@),
        match r {
            WalkStep::Continue { totals: t, cursor } => {
                &&& t@ == absorbed(totals@, history@.commits, owner_id@)
                &&& continues(history@)
                &&& text_of(cursor) == history@.end_cursor
            },
            WalkStep::Done { totals: t } => {
                &&& t@ == absorbed(totals@, history@.commits, owner_id@)
                &&& !continues(history@)
            },
            WalkStep::Overflow => !fits(absorbed(totals@, history@.commits, owner_id@)),
        },
{
    let owner = owner_id.to_owned();
    let mut acc = totals;
    let n: usize = history.edges.len();
    let ghost commits = history@.commits;
    let mut i: usize = 0;
    while i < n
        invariant
            n == history.edges@.len(),
            commits == history@.commits,
            owner@ == owner_id@,
            i <= n,
            acc@ == absorbed(totals@, commits.subrange(0, i as int), owner_id@),
        decreases n - i,
    {
        let edge = &history.edges[i];
        let ghost prefix = commits.subrange(0, i + 1);
        proof {
            assert(prefix.drop_last() == commits.subrange(0, i as int));
            assert(prefix.last() == edge@);
            lemma_sums_concat(prefix, commits.subrange(i + 1, n as int), owner_id@);
            assert(prefix + commits.subrange(i + 1, n as int) == commits);
        }
        let mine = match &edge.author_id {
            Some(author) => *author == owner,
            None => false,
        };
        if mine {
            let additions = acc.additions.checked_add(edge.additions);
            let deletions = acc.deletions.checked_add(edge.deletions);
            let authored = acc.authored_commits.checked_add(1);
            match (additions, deletions, authored) {
                (Some(a), Some(d), Some(c)) => {
                    acc = Accumulator { additions: a, deletions: d, authored_commits: c };
                },
                _ => {
                    return WalkStep::Overflow;
                },
            }
        }
        i = i + 1;
    }
    assert(commits.subrange(0, n as int) == commits);
    if history.has_next_page && n > 0 {
        WalkStep::Continue { totals: acc, cursor: history.end_cursor.clone() }
    } else {
        WalkStep::Done { totals: acc }
    }
}

/// The reply to a request for one history page.
pub enum HistoryResponse {
    /// The request succeeded and the repository has a default branch.
    Page(HistoryPage),
    /// The request succeeded and the repository has no default branch.
    NoDefaultBranch,
    /// The request did not succeed.
    Refused { status: u16, body: String },
}

/// Why a walk was given up. Each of these ends the whole run.
pub enum WalkError {
    /// The service answered with status 403: its abuse limit was hit.
    AbuseLimit,
    /// The service answered with another status that is no success.
    Transport { status: u16, body: String },
    /// A total no longer fits in 64 bits.
    Overflow,
    /// No snapshot of the totals could be made.
    Snapshot,
}

/// What the walk does after a reply.
pub enum WalkOutcome {
    /// Another page follows: ask for it at `cursor`.
    Continue { totals: Accumulator, cursor: Option<String> },
    /// The walk is over.
    Done { totals: Accumulator },
    /// The run is given up: `snapshot`, where there is one, replaces the cache
    /// file before `error` is reported.
    Fatal { error: WalkError, snapshot: Option<String> },
}

/// The snapshot of `totals` under `header`.
pub open spec fn snapshot_content(header: Seq<Seq<char>>, totals: Accumulator) -> Seq<char> {
    snapshot_of(
        header,
        pretty_json_object(
            snapshot_keys(),
            seq![totals.additions, totals.deletions, totals.authored_commits],
        ),
    )
}

/// The error of a reply that is no success: the abuse limit for status 403,
/// a transport error with the status and the body for any other.
pub fn refusal(status: u16, body: String) -> (r: WalkError)
    ensures
        status == 403 ==> r is AbuseLimit,
        status != 403 ==> (r matches WalkError::Transport { status: s, body: b } && s == status
            && b@ == body@),
{
    if status == 403 {
        WalkError::AbuseLimit
    } else {
        WalkError::Transport { status, body }
    }
}

/// The end of a run that is given up with `error`, after the attempt to make
/// a snapshot gave `saved`: with a snapshot the error stands, without one the
/// failed snapshot is the error.
pub fn walk_failure(error: WalkError, saved: Result<String, PersistError>) -> (r: WalkOutcome)
    ensures
        match saved {
            Ok(content) => r matches WalkOutcome::Fatal { error: e, snapshot: Some(s) } && e
                == error && s@ == content@,
            Err(_) => r matches WalkOutcome::Fatal { error: WalkError::Snapshot, snapshot: None },
        },
{
    match saved {
        Ok(content) => WalkOutcome::Fatal { error, snapshot: Some(content) },
        Err(_) => WalkOutcome::Fatal { error: WalkError::Snapshot, snapshot: None },
    }
}

/// Decides what follows the reply to a request for one history page.
///
/// A page is added to the totals and the walk goes on or ends as the page
/// says. A repository without a default branch has no commits: the walk ends
/// with the totals unchanged. Any other reply ends the run, and so does a
/// total that no longer fits: the snapshot of the totals as they were before
/// the reply, under `header`, is to replace the cache file, and the error
/// tells the abuse limit (status 403) from any other refusal.
pub fn recursive_loc(
    response: HistoryResponse,
    owner_id: &str,
    header: &Vec<String>,
    totals: Accumulator,
) -> (r: WalkOutcome)
    ensures
        match response {
            HistoryResponse::Page(page) => match step_of(totals@, page@, owner_id@) {
                Step::Continue { totals: sum, cursor: next } => r matches WalkOutcome::Continue {
                    totals: t,
                    cursor,
                } && t@ == sum && text_of(cursor) == next,
                Step::Done { totals: sum } => r matches WalkOutcome::Done { totals: t } && t@
                    == sum,
                Step::Overflow => r matches WalkOutcome::Fatal { error, snapshot: Some(s) }
                    && error is Overflow && s@ == snapshot_content(texts(header@), totals),
            },
            HistoryResponse::NoDefaultBranch => r matches WalkOutcome::Done { totals: t } && t
                == totals,
            HistoryResponse::Refused { status, body } => r matches WalkOutcome::Fatal {
                error,
                snapshot: Some(s),
            } && {
                &&& s@ == snapshot_content(texts(header@), totals)
                &&& status == 403 ==> error is AbuseLimit
                &&& status != 403 ==> (error matches WalkError::Transport {
                    status: es,
                    body: eb,
                } && es == status && eb@ == body@)
            },
        },
{
    match response {
        HistoryResponse::Page(page) => match loc_counter_one_repo(&page, owner_id, totals) {
            WalkStep::Continue { totals: t, cursor } => WalkOutcome::Continue { totals: t, cursor },
            WalkStep::Done { totals: t } => WalkOutcome::Done { totals: t },
            WalkStep::Overflow => walk_failure(
                WalkError::Overflow,
                force_close_file(header, totals),
            ),
        },
        HistoryResponse::NoDefaultBranch => WalkOutcome::Done { totals },
        HistoryResponse::Refused { status, body } => {
            let saved = force_close_file(header, totals);
            walk_failure(refusal(status, body), saved)
        },
    }
}

} // verus!
