//! The picture that shows the statistics: an SVG document whose text spans
//! are found in the order of the document and filled in by number.

use vstd::prelude::*;
use crate::text::{push_str, string_of, texts};

verus! {

/// A node of a document.
pub enum SvgNode {
    Element(SvgElement),
    Text(String),
    /// A comment, a processing instruction or character data.
    Other,
}

/// An element of a document: its name and what it holds, in order.
pub struct SvgElement {
    pub name: String,
    pub children: Vec<SvgNode>,
}

/// Why the picture cannot be filled in.
#[derive(Debug, PartialEq, Eq)]
pub enum SvgError {
    /// The picture holds too few text spans.
    MissingSpans { found: usize },
    /// Fewer than three line counts were given.
    MissingCounts { found: usize },
}

/// Whether an element is a text span.
pub open spec fn is_tspan(e: SvgElement) -> bool {
    e.name@ == "tspan"@
}

/// Every path with `k` put before it.
pub open spec fn below(k: int, paths: Seq<Seq<int>>) -> Seq<Seq<int>> {
    Seq::new(paths.len(), |i: int| seq![k] + paths[i])
}

/// The paths to the text spans below `e` that are reached through its
/// children from the `k`-th on, in the order of the document. A path holds,
/// for each element on the way down, its position among the children of the
/// element above it.
pub open spec fn paths_from(e: SvgElement, k: nat) -> Seq<Seq<int>>
    decreases e, e.children@.len() - k,
{
    if k >= e.children@.len() {
        Seq::empty()
    } else {
        let here = match e.children@[k as int] {
            SvgNode::Element(c) => (if is_tspan(c) {
                seq![seq![k as int]]
            } else {
                Seq::empty()
            }) + below(k as int, paths_from(c, 0)),
            _ => Seq::empty(),
        };
        here + paths_from(e, k + 1)
    }
}

/// The paths to all text spans below `e`, in the order of the document.
pub open spec fn tspan_paths(e: SvgElement) -> Seq<Seq<int>> {
    paths_from(e, 0)
}

/// The texts that an element holds directly, one after the other.
pub open spec fn own_text(children: Seq<SvgNode>, k: nat) -> Seq<char>
    decreases k,
{
    if k == 0 {
        Seq::empty()
    } else {
        own_text(children, (k - 1) as nat) + match children[k - 1] {
            SvgNode::Text(t) => t@,
            _ => Seq::empty(),
        }
    }
}

/// The texts of the text spans below `e` that are reached through its
/// children from the `k`-th on, in the order of the document.
pub open spec fn texts_from(e: SvgElement, k: nat) -> Seq<Seq<char>>
    decreases e, e.children@.len() - k,
{
    if k >= e.children@.len() {
        Seq::empty()
    } else {
        let here = match e.children@[k as int] {
            SvgNode::Element(c) => (if is_tspan(c) {
                seq![own_text(c.children@, c.children@.len())]
            } else {
                Seq::empty()
            }) + texts_from(c, 0),
            _ => Seq::empty(),
        };
        here + texts_from(e, k + 1)
    }
}

/// The texts of the text spans at or below `e`, in the order of the document.
pub open spec fn tspan_texts(e: SvgElement) -> Seq<Seq<char>> {
    (if is_tspan(e) {
        seq![own_text(e.children@, e.children@.len())]
    } else {
        Seq::empty()
    }) + texts_from(e, 0)
}

/// The number of text spans that a picture must hold to be filled in.
pub open spec fn spans_needed() -> nat {
    49
}

/// The texts of the picture, each with the number of the text span that it
/// replaces, counted from zero in the order of the document.
pub open spec fn span_texts(
    commit_data: Seq<char>,
    star_data: Seq<char>,
    repo_data: Seq<char>,
    contrib_data: Seq<char>,
    issues: Seq<char>,
    prs: Seq<char>,
    loc_data: Seq<Seq<char>>,
) -> Seq<(nat, Seq<char>)> {
    seq![
        (34nat, repo_data),
        (36nat, contrib_data),
        (38nat, star_data),
        (40nat, commit_data),
        (42nat, issues),
        (44nat, prs),
        (46nat, loc_data[2]),
        (47nat, loc_data[0] + "++"@),
        (48nat, loc_data[1] + "--"@),
    ]
}

/// The views of a list of numbered texts.
pub open spec fn numbered(v: Seq<(usize, String)>) -> Seq<(nat, Seq<char>)> {
    Seq::new(v.len(), |i: int| (v[i].0 as nat, v[i].1@))
}

/// A path as positions.
pub open spec fn positions(path: Seq<usize>) -> Seq<int> {
    Seq::new(path.len(), |i: int| path[i] as int)
}

/// The views of a list of paths.
pub open spec fn path_views(paths: Seq<Vec<usize>>) -> Seq<Seq<int>> {
    Seq::new(paths.len(), |i: int| positions(paths[i]@))
}

/// Whether the element is named `tspan`.
fn named_tspan(e: &SvgElement) -> (r: bool)
    ensures
        r == is_tspan(*e),
{
    e.name == "tspan".to_owned()
}

/// The texts that an element holds directly, one after the other.
fn direct_text(e: &SvgElement) -> (r: String)
    ensures
        r@ == own_text(e.children@, e.children@.len()),
{
    let mut out: Vec<char> = Vec::new();
    let mut k: usize = 0;
    while k < e.children.len()
        invariant
            k <= e.children@.len(),
            out@ == own_text(e.children@, k as nat),
        decreases e.children@.len() - k,
    {
        match &e.children[k] {
            SvgNode::Text(t) => {
                push_str(&mut out, t.as_str());
            },
            _ => {
                assert(out@ + Seq::<char>::empty() == out@);
            },
        }
        k = k + 1;
    }
    string_of(&out)
}

/// The paths to all text spans below `element`, in the order of the
/// document.
pub fn collect_tspans(element: &SvgElement) -> (r: Vec<Vec<usize>>)
    ensures
        path_views(r@) == tspan_paths(*element),
    decreases element,
{
    let mut out: Vec<Vec<usize>> = Vec::new();
    let n: usize = element.children.len();
    let mut k: usize = 0;
    assert(path_views(out@) == Seq::<Seq<int>>::empty());
    while k < n
        invariant
            n == element.children@.len(),
            k <= n,
            path_views(out@) + paths_from(*element, k as nat) == paths_from(*element, 0),
        decreases n - k,
    {
        let ghost before = path_views(out@);
        match &element.children[k] {
            SvgNode::Element(c) => {
                if named_tspan(c) {
                    let mut path: Vec<usize> = Vec::new();
                    path.push(k);
                    proof {
                        assert(positions(path@) == seq![k as int]);
                        assert(path_views(out@.push(path)) == path_views(out@).push(
                            positions(path@),
                        ));
                    }
                    out.push(path);
                }
                let ghost first = path_views(out@);
                let inner = collect_tspans(c);
                let ghost deeper = path_views(inner@);
                let mut i: usize = 0;
                while i < inner.len()
                    invariant
                        i <= inner.len(),
                        deeper == path_views(inner@),
                        path_views(out@) == first + below(k as int, deeper).subrange(0, i as int),
                    decreases inner.len() - i,
                {
                    let mut path: Vec<usize> = Vec::new();
                    path.push(k);
                    let tail = &inner[i];
                    let mut j: usize = 0;
                    while j < tail.len()
                        invariant
                            j <= tail.len(),
                            positions(path@) == seq![k as int] + positions(tail@).subrange(
                                0,
                                j as int,
                            ),
                        decreases tail.len() - j,
                    {
                        proof {
                            assert(positions(path@.push(tail@[j as int])) == positions(path@).push(
                                tail@[j as int] as int,
                            ));
                            assert(positions(tail@).subrange(0, j + 1) == positions(
                                tail@,
                            ).subrange(0, j as int).push(tail@[j as int] as int));
                        }
                        path.push(tail[j]);
                        j = j + 1;
                    }
                    proof {
                        assert(positions(tail@).subrange(0, tail.len() as int) == positions(
                            tail@,
                        ));
                        assert(positions(path@) == below(k as int, deeper)[i as int]);
                        assert(path_views(out@.push(path)) == path_views(out@).push(
                            positions(path@),
                        ));
                        assert(below(k as int, deeper).subrange(0, i + 1) == below(
                            k as int,
                            deeper,
                        ).subrange(0, i as int).push(below(k as int, deeper)[i as int]));
                    }
                    out.push(path);
                    i = i + 1;
                }
                proof {
                    assert(below(k as int, deeper).subrange(0, inner.len() as int) == below(
                        k as int,
                        deeper,
                    ));
                    assert(path_views(out@) + paths_from(*element, (k + 1) as nat) == before
                        + paths_from(*element, k as nat));
                }
            },
            _ => {
                assert(paths_from(*element, k as nat) == paths_from(*element, (k + 1) as nat));
            },
        }
        k = k + 1;
    }
    assert(path_views(out@) + Seq::<Seq<int>>::empty() == path_views(out@));
    out
}

/// The texts of the text spans below `element`, appended to `out` in the
/// order of the document.
fn collect_texts(element: &SvgElement, out: &mut Vec<String>)
    ensures
        texts(final(out)@) == texts(old(out)@) + texts_from(*element, 0),
    decreases element,
{
    let ghost start = texts(out@);
    let n: usize = element.children.len();
    let mut k: usize = 0;
    assert(start + Seq::<Seq<char>>::empty() == start);
    while k < n
        invariant
            n == element.children@.len(),
            k <= n,
            texts(out@) + texts_from(*element, k as nat) == start + texts_from(*element, 0),
        decreases n - k,
    {
        let ghost before = texts(out@);
        match &element.children[k] {
            SvgNode::Element(c) => {
                if named_tspan(c) {
                    let text = direct_text(c);
                    proof {
                        assert(texts(out@.push(text)) == texts(out@).push(text@));
                    }
                    out.push(text);
                }
                collect_texts(c, out);
                proof {
                    assert(texts(out@) + texts_from(*element, (k + 1) as nat) == before
                        + texts_from(*element, k as nat));
                }
            },
            _ => {
                assert(texts_from(*element, k as nat) == texts_from(*element, (k + 1) as nat));
            },
        }
        k = k + 1;
    }
    assert(texts(out@) + Seq::<Seq<char>>::empty() == texts(out@));
}

/// The texts of the text spans at or below `root`, in the order of the
/// document: the text of a span is what it holds directly.
pub fn svg_element_getter(root: &SvgElement) -> (r: Vec<String>)
    ensures
        texts(r@) == tspan_texts(*root),
{
    let mut out: Vec<String> = Vec::new();
    if named_tspan(root) {
        let text = direct_text(root);
        out.push(text);
        assert(texts(out@) == seq![text@]);
    } else {
        assert(texts(out@) == Seq::<Seq<char>>::empty());
    }
    collect_texts(root, &mut out);
    out
}

/// The texts that fill in a picture of `tspans` text spans, each with the
/// number of the span whose content it replaces. `loc_data` holds the lines
/// added, the lines deleted and their difference, in this order.
/// A picture of fewer than 49 text spans cannot be filled in.
pub fn svg_overwrite(
    tspans: usize,
    commit_data: &str,
    star_data: &str,
    repo_data: &str,
    contrib_data: &str,
    issues: &str,
    prs: &str,
    loc_data: &Vec<String>,
) -> (r: Result<Vec<(usize, String)>, SvgError>)
    ensures
        loc_data@.len() < 3 ==> r == Err::<Vec<(usize, String)>, SvgError>(
            SvgError::MissingCounts { found: loc_data.len() },
        ),
        loc_data@.len() >= 3 && tspans < spans_needed() ==> r == Err::<
            Vec<(usize, String)>,
            SvgError,
        >(SvgError::MissingSpans { found: tspans }),
        loc_data@.len() >= 3 && tspans >= spans_needed() ==> (r matches Ok(v) && numbered(v@)
            == span_texts(
            commit_data@,
            star_data@,
            repo_data@,
            contrib_data@,
            issues@,
            prs@,
            texts(loc_data@),
        )),
{
    if loc_data.len() < 3 {
        return Err(SvgError::MissingCounts { found: loc_data.len() });
    }
    if tspans < 49 {
        return Err(SvgError::MissingSpans { found: tspans });
    }
    let mut added: Vec<char> = Vec::new();
    push_str(&mut added, loc_data[0].as_str());
    push_str(&mut added, "++");
    let mut deleted: Vec<char> = Vec::new();
    push_str(&mut deleted, loc_data[1].as_str());
    push_str(&mut deleted, "--");
    let mut out: Vec<(usize, String)> = Vec::new();
    out.push((34, repo_data.to_owned()));
    out.push((36, contrib_data.to_owned()));
    out.push((38, star_data.to_owned()));
    out.push((40, commit_data.to_owned()));
    out.push((42, issues.to_owned()));
    out.push((44, prs.to_owned()));
    out.push((46, loc_data[2].clone()));
    out.push((47, string_of(&added)));
    out.push((48, string_of(&deleted)));
    assert(numbered(out@) == span_texts(
        commit_data@,
        star_data@,
        repo_data@,
        contrib_data@,
        issues@,
        prs@,
        texts(loc_data@),
    ));
    Ok(out)
}

} // verus!
