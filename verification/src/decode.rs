//! Reading the replies of the service: what each reply says, with the
//! defaults that stand in for what a reply leaves out.

use vstd::prelude::*;
use crate::fetcher::{Repository, RepositoryEdge, RepositoryPage};
use crate::json::{
    as_flag, as_i64, as_list, as_text, as_u64, child, flag_value, i64_value, is_null, list_value,
    member_of, take_child, text_value, u64_value, value_of, Json,
};
use crate::text::{chars_of, same_chars};
use crate::walker::{text_of, Commit, CommitEdge, HistoryPage, HistoryResponse, Page};

verus! {

/// Why a count could not be read.
#[derive(Debug, PartialEq, Eq)]
pub enum CountError {
    /// The kind of count is neither `repos` nor `stars`.
    InvalidCountType,
}

/// The number that a value holds, or zero.
pub open spec fn u64_or_zero(j: Json) -> u64 {
    match u64_value(j) {
        Some(n) => n,
        None => 0,
    }
}

/// The signed number that a value holds, or zero.
pub open spec fn i64_or_zero(j: Json) -> i64 {
    match i64_value(j) {
        Some(n) => n,
        None => 0,
    }
}

/// The boolean that a value holds, or false.
pub open spec fn flag_or_false(j: Json) -> bool {
    match flag_value(j) {
        Some(b) => b,
        None => false,
    }
}

/// The text that a value holds, or the empty text.
pub open spec fn text_or_empty(j: Json) -> Seq<char> {
    match text_value(j) {
        Some(s) => s,
        None => Seq::empty(),
    }
}

/// The commit that an edge of a history page describes: the author is the
/// text at `node.author.user.id`, the lines added and deleted are the numbers
/// at `node.additions` and `node.deletions`, zero where there is none.
pub open spec fn commit_of(edge: Json) -> Commit {
    let node = member_of(edge, "node"@);
    Commit {
        author: text_value(member_of(member_of(member_of(node, "author"@), "user"@), "id"@)),
        additions: u64_or_zero(member_of(node, "additions"@)) as nat,
        deletions: u64_or_zero(member_of(node, "deletions"@)) as nat,
    }
}

/// The commits that a list of edges describes.
pub open spec fn commits_of(items: Seq<Json>) -> Seq<Commit> {
    Seq::new(items.len(), |i: int| commit_of(items[i]))
}

/// The page that a `history` value describes. Where `edges` is no array the
/// page holds no commit; where `pageInfo.hasNextPage` is no boolean there is
/// no next page.
pub open spec fn page_of(history: Json) -> Page {
    let info = member_of(history, "pageInfo"@);
    Page {
        commits: match list_value(member_of(history, "edges"@)) {
            Some(items) => commits_of(items),
            None => Seq::empty(),
        },
        has_next_page: flag_or_false(member_of(info, "hasNextPage"@)),
        end_cursor: text_value(member_of(info, "endCursor"@)),
    }
}

/// The default branch in the body of a reply to a history request.
pub open spec fn default_branch_of(body: Json) -> Json {
    member_of(member_of(member_of(body, "data"@), "repository"@), "defaultBranchRef"@)
}

/// The history in a default branch.
pub open spec fn history_of(branch: Json) -> Json {
    member_of(member_of(branch, "target"@), "history"@)
}

/// The repository that an edge of the repository list describes: its name is
/// the text at `node.nameWithOwner`, its commit count the number at
/// `node.defaultBranchRef.target.history.totalCount`, or zero. An edge without
/// a name describes none.
pub open spec fn repository_of(edge: Json) -> Option<Repository> {
    let node = member_of(edge, "node"@);
    match text_value(member_of(node, "nameWithOwner"@)) {
        Some(name) => Some(
            Repository {
                name,
                commit_count: i64_or_zero(
                    member_of(history_of(member_of(node, "defaultBranchRef"@)), "totalCount"@),
                ) as int,
            },
        ),
        None => None,
    }
}

/// The repositories that a list of edges describes, in order.
pub open spec fn repositories_of(items: Seq<Json>) -> Seq<Repository>
    decreases items.len(),
{
    if items.len() == 0 {
        Seq::empty()
    } else {
        let before = repositories_of(items.drop_last());
        match repository_of(items.last()) {
            Some(r) => before.push(r),
            None => before,
        }
    }
}

/// The repository list in the body of a reply.
pub open spec fn repository_list_of(body: Json) -> Json {
    member_of(member_of(member_of(body, "data"@), "user"@), "repositories"@)
}

/// The sum of the numbers at `node.stargazers.totalCount` of the first `k`
/// edges.
pub open spec fn stars_of(items: Seq<Json>, k: nat) -> int
    decreases k,
{
    if k == 0 {
        0
    } else {
        stars_of(items, (k - 1) as nat) + i64_or_zero(
            member_of(
                member_of(member_of(items[k - 1], "node"@), "stargazers"@),
                "totalCount"@,
            ),
        )
    }
}

/// Reads one edge of a history page.
pub fn commit_edge(edge: &Json) -> (r: CommitEdge)
    ensures
        r@ == commit_of(*edge),
{
    let node = child(Some(edge), "node");
    let author_id = as_text(child(child(child(node, "author"), "user"), "id"));
    let additions = match as_u64(child(node, "additions")) {
        Some(n) => n,
        None => 0,
    };
    let deletions = match as_u64(child(node, "deletions")) {
        Some(n) => n,
        None => 0,
    };
    CommitEdge { author_id, additions, deletions }
}

/// Reads a `history` value as a page.
pub fn history_page(history: Option<&Json>) -> (r: HistoryPage)
    ensures
        r@ == page_of(value_of(history)),
{
    let mut edges: Vec<CommitEdge> = Vec::new();
    match as_list(child(history, "edges")) {
        Some(items) => {
            let mut i: usize = 0;
            while i < items.len()
                invariant
                    i <= items.len(),
                    edges@.len() == i,
                    forall|k: int| 0 <= k < i ==> (#[trigger] edges@[k])@ == commit_of(items@[k]),
                decreases items.len() - i,
            {
                edges.push(commit_edge(&items[i]));
                i = i + 1;
            }
        },
        None => {},
    }
    let info = child(history, "pageInfo");
    let has_next_page = match as_flag(child(info, "hasNextPage")) {
        Some(b) => b,
        None => false,
    };
    let end_cursor = as_text(child(info, "endCursor"));
    let r = HistoryPage { edges, has_next_page, end_cursor };
    assert(r@.commits == page_of(value_of(history)).commits);
    r
}

/// Reads the reply to a request for one history page. A reply with status
/// 200 is a page, or says that the repository has no default branch; any
/// other reply is refused, with its status and the text of its body.
pub fn history_response(status: u16, body: &Json, body_text: String) -> (r: HistoryResponse)
    ensures
        status == 200 && default_branch_of(*body) is Null ==> r is NoDefaultBranch,
        status == 200 && !(default_branch_of(*body) is Null) ==> (r matches HistoryResponse::Page(
            page,
        ) && page@ == page_of(history_of(default_branch_of(*body)))),
        status != 200 ==> (r matches HistoryResponse::Refused { status: s, body: b } && s == status
            && b@ == body_text@),
{
    if status == 200 {
        let branch = child(child(child(Some(body), "data"), "repository"), "defaultBranchRef");
        if is_null(branch) {
            HistoryResponse::NoDefaultBranch
        } else {
            HistoryResponse::Page(history_page(child(child(branch, "target"), "history")))
        }
    } else {
        HistoryResponse::Refused { status, body: body_text }
    }
}

/// Reads one edge of the repository list.
pub fn repository_edge(edge: &Json) -> (r: Option<RepositoryEdge>)
    ensures
        match r {
            Some(e) => repository_of(*edge) == Some(e@),
            None => repository_of(*edge) is None,
        },
{
    let node = child(Some(edge), "node");
    match as_text(child(node, "nameWithOwner")) {
        Some(name) => {
            let history = child(child(child(node, "defaultBranchRef"), "target"), "history");
            let commit_count = match as_i64(child(history, "totalCount")) {
                Some(n) => n,
                None => 0,
            };
            Some(RepositoryEdge { name_with_owner: name, commit_count })
        },
        None => None,
    }
}

/// Reads the body of a reply to a request for one page of the repository
/// list. Edges without a name are left out.
pub fn repository_page(body: &Json) -> (r: RepositoryPage)
    ensures
        crate::fetcher::repositories(r.edges@) == match list_value(
            member_of(repository_list_of(*body), "edges"@),
        ) {
            Some(items) => repositories_of(items),
            None => Seq::empty(),
        },
        r.has_next_page == flag_or_false(
            member_of(member_of(repository_list_of(*body), "pageInfo"@), "hasNextPage"@),
        ),
        text_of(r.end_cursor) == text_value(
            member_of(member_of(repository_list_of(*body), "pageInfo"@), "endCursor"@),
        ),
{
    let list = child(child(child(Some(body), "data"), "user"), "repositories");
    let mut edges: Vec<RepositoryEdge> = Vec::new();
    match as_list(child(list, "edges")) {
        Some(items) => {
            let mut i: usize = 0;
            while i < items.len()
                invariant
                    i <= items.len(),
                    crate::fetcher::repositories(edges@) == repositories_of(
                        items@.subrange(0, i as int),
                    ),
                decreases items.len() - i,
            {
                proof {
                    let upto = items@.subrange(0, i + 1);
                    assert(upto.drop_last() == items@.subrange(0, i as int));
                    assert(upto.last() == items@[i as int]);
                }
                match repository_edge(&items[i]) {
                    Some(e) => {
                        proof {
                            assert(crate::fetcher::repositories(edges@.push(e))
                                == crate::fetcher::repositories(edges@).push(e@));
                        }
                        edges.push(e);
                    },
                    None => {},
                }
                i = i + 1;
            }
            assert(items@.subrange(0, items.len() as int) == items@);
        },
        None => {
            assert(crate::fetcher::repositories(edges@) == Seq::<Repository>::empty());
        },
    }
    let info = child(list, "pageInfo");
    let has_next_page = match as_flag(child(info, "hasNextPage")) {
        Some(b) => b,
        None => false,
    };
    let end_cursor = as_text(child(info, "endCursor"));
    RepositoryPage { edges, has_next_page, end_cursor }
}

/// Reads the identity of a user's account and the date of its creation from
/// the body of a reply: the texts at `data.user.id` and
/// `data.user.createdAt`, each empty where there is none.
pub fn user_getter(body: &Json) -> (r: (String, String))
    ensures
        r.0@ == text_or_empty(member_of(member_of(member_of(*body, "data"@), "user"@), "id"@)),
        r.1@ == text_or_empty(
            member_of(member_of(member_of(*body, "data"@), "user"@), "createdAt"@),
        ),
{
    let user = child(child(Some(body), "data"), "user");
    let id = match as_text(child(user, "id")) {
        Some(s) => s,
        None => String::new(),
    };
    let created_at = match as_text(child(user, "createdAt")) {
        Some(s) => s,
        None => String::new(),
    };
    (id, created_at)
}

/// Reads a count from the body of a reply with a page of the repository
/// list. For `repos` it is the number at `totalCount`, for `stars` the sum of
/// the numbers at `node.stargazers.totalCount` of the page's edges; a number
/// that is missing counts as zero. Any other kind of count is an error.
pub fn graph_repos_stars(count_type: &str, body: &Json) -> (r: Result<i128, CountError>)
    ensures
        count_type@ == "repos"@ ==> r == Ok::<i128, CountError>(
            i64_or_zero(member_of(repository_list_of(*body), "totalCount"@)) as i128,
        ),
        count_type@ == "stars"@ ==> r == Ok::<i128, CountError>(
            match list_value(member_of(repository_list_of(*body), "edges"@)) {
                Some(items) => stars_of(items, items.len()) as i128,
                None => 0i128,
            },
        ),
        count_type@ != "repos"@ && count_type@ != "stars"@ ==> r == Err::<i128, CountError>(
            CountError::InvalidCountType,
        ),
{
    let kind = chars_of(count_type);
    let list = child(child(child(Some(body), "data"), "user"), "repositories");
    proof {
        reveal_strlit("repos");
        reveal_strlit("stars");
        assert("repos"@ != "stars"@) by {
            assert("repos"@[0] != "stars"@[0]);
        }
    }
    if same_chars(&kind, &chars_of("repos")) {
        let n = match as_i64(child(list, "totalCount")) {
            Some(n) => n,
            None => 0,
        };
        Ok(n as i128)
    } else if same_chars(&kind, &chars_of("stars")) {
        let mut total: i128 = 0;
        match as_list(child(list, "edges")) {
            Some(items) => {
                let mut i: usize = 0;
                while i < items.len()
                    invariant
                        i <= items.len(),
                        total == stars_of(items@, i as nat),
                        -(i * 0x8000_0000_0000_0000) <= total <= i * 0x8000_0000_0000_0000,
                    decreases items.len() - i,
                {
                    let stars = child(child(child(Some(&items[i]), "node"), "stargazers"), "totalCount");
                    let n = match as_i64(stars) {
                        Some(n) => n,
                        None => 0,
                    };
                    total = total + n as i128;
                    i = i + 1;
                }
            },
            None => {},
        }
        Ok(total)
    } else {
        Err(CountError::InvalidCountType)
    }
}

/// The statistics of a user in the body of a reply: the value at `data.user`,
/// null where there is none.
pub fn stats_getter(body: Json) -> (r: Json)
    ensures
        r == member_of(member_of(body, "data"@), "user"@),
{
    take_child(take_child(body, "data"), "user")
}

} // verus!
