//! The list of a user's repositories, gathered page by page.

use vstd::prelude::*;
use crate::text::{chars_of, string_of_range};
use crate::walker::text_of;

verus! {

/// One repository of the user's repository list.
pub struct RepositoryEdge {
    /// The repository's full name, `owner/repo`.
    pub name_with_owner: String,
    /// The number of commits on the repository's default branch.
    pub commit_count: i64,
}

/// A repository edge, as mathematics.
pub struct Repository {
    pub name: Seq<char>,
    pub commit_count: int,
}

impl View for RepositoryEdge {
    type V = Repository;

    open spec fn view(&self) -> Repository {
        Repository { name: self.name_with_owner@, commit_count: self.commit_count as int }
    }
}

/// The views of a list of edges.
pub open spec fn repositories(edges: Seq<RepositoryEdge>) -> Seq<Repository> {
    Seq::new(edges.len(), |i: int| edges[i]@)
}

/// One page of the repository list.
pub struct RepositoryPage {
    pub edges: Vec<RepositoryEdge>,
    pub has_next_page: bool,
    /// Where the next page starts.
    pub end_cursor: Option<String>,
}

/// What the fetch does after a page.
pub enum FetchStep {
    /// Another page follows: ask for it at `cursor`.
    Continue { edges: Vec<RepositoryEdge>, cursor: Option<String> },
    /// The list is complete.
    Done { edges: Vec<RepositoryEdge> },
}

/// The end of the segment of `s` that starts at `i`: the next `/`, or the end.
pub open spec fn segment_end(s: Seq<char>, i: int) -> int
    decreases s.len() - i,
{
    if 0 <= i < s.len() && s[i] != '/' {
        segment_end(s, i + 1)
    } else {
        i
    }
}

/// The owner in a full name: what stands before the first `/`.
pub open spec fn owner_of(name: Seq<char>) -> Seq<char> {
    name.subrange(0, segment_end(name, 0))
}

/// The repository in a full name: what stands between the first `/` and the
/// second, or the end; nothing where the name holds no `/`.
pub open spec fn repo_of(name: Seq<char>) -> Seq<char> {
    let first = segment_end(name, 0);
    if first < name.len() {
        name.subrange(first + 1, segment_end(name, first + 1))
    } else {
        Seq::empty()
    }
}

/// The end of the segment that starts at `from`.
fn find_segment_end(s: &Vec<char>, from: usize) -> (r: usize)
    requires
        from <= s.len(),
    ensures
        r == segment_end(s@, from as int),
        from <= r <= s.len(),
{
    let mut i: usize = from;
    while i < s.len() && s[i] != '/'
        invariant
            from <= i <= s.len(),
            segment_end(s@, from as int) == segment_end(s@, i as int),
        decreases s.len() - i,
    {
        i = i + 1;
    }
    i
}

/// Splits a full name into the owner and the repository.
pub fn split_name(name_with_owner: &str) -> (r: (String, String))
    ensures
        r.0@ == owner_of(name_with_owner@),
        r.1@ == repo_of(name_with_owner@),
{
    let chars = chars_of(name_with_owner);
    let first = find_segment_end(&chars, 0);
    let owner = string_of_range(&chars, 0, first);
    if first < chars.len() {
        let second = find_segment_end(&chars, first + 1);
        let repo = string_of_range(&chars, first + 1, second);
        (owner, repo)
    } else {
        let repo = string_of_range(&chars, first, first);
        assert(chars@.subrange(first as int, first as int) == Seq::<char>::empty());
        (owner, repo)
    }
}

/// Adds one page of the repository list to the edges gathered so far, and
/// decides whether the fetch goes on: it does while the page says that a next
/// page exists.
pub fn loc_query(page: RepositoryPage, edges: Vec<RepositoryEdge>) -> (r: FetchStep)
    ensures
        match r {
            FetchStep::Continue { edges: all, cursor } => {
                &&& page.has_next_page
                &&& all@ == edges@ + page.edges@
                &&& text_of(cursor) == text_of(page.end_cursor)
            },
            FetchStep::Done { edges: all } => {
                &&& !page.has_next_page
                &&& all@ == edges@ + page.edges@
            },
        },
{
    let mut all = edges;
    let mut fresh = page.edges;
    all.append(&mut fresh);
    if page.has_next_page {
        FetchStep::Continue { edges: all, cursor: page.end_cursor }
    } else {
        FetchStep::Done { edges: all }
    }
}

} // verus!
