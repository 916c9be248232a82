use loc_cache::picture::{
    collect_tspans, svg_element_getter, svg_overwrite, SvgElement, SvgError, SvgNode,
};
use loc_cache::report::{formatter, simple_request, RequestError};

fn element(name: &str, children: Vec<SvgNode>) -> SvgNode {
    SvgNode::Element(SvgElement { name: name.to_string(), children })
}

fn text(s: &str) -> SvgNode {
    SvgNode::Text(s.to_string())
}

fn sample() -> SvgElement {
    SvgElement {
        name: "svg".to_string(),
        children: vec![
            text("\n"),
            element(
                "text",
                vec![
                    element("tspan", vec![text("a"), element("tspan", vec![text("inner")]), text("b")]),
                    SvgNode::Other,
                    element("tspan", vec![]),
                ],
            ),
            element("tspan", vec![text("top")]),
            element("g", vec![element("g", vec![element("tspan", vec![text("deep")])])]),
        ],
    }
}

#[test]
fn statuses_from_200_to_299_are_successes() {
    assert_eq!(simple_request("loc_query", 200), Ok(()));
    assert_eq!(simple_request("loc_query", 204), Ok(()));
    assert_eq!(simple_request("loc_query", 299), Ok(()));
}

#[test]
fn other_statuses_are_errors_that_name_the_query() {
    for status in [0u16, 199, 300, 403, 404, 500] {
        assert_eq!(
            simple_request("user_getter", status),
            Err(RequestError { query: "user_getter".to_string(), status })
        );
    }
}

#[test]
fn counts_are_padded_on_the_left() {
    assert_eq!(formatter(Some(42), 5), Some("   42".to_string()));
    assert_eq!(formatter(Some(42), 2), Some("42".to_string()));
    assert_eq!(formatter(Some(12345), 3), Some("12345".to_string()));
    assert_eq!(formatter(Some(0), 0), Some("0".to_string()));
    assert_eq!(formatter(Some(7), 1), Some("7".to_string()));
    assert_eq!(formatter(None, 9), None);
    assert_eq!(formatter(Some(987), 6), Some(format!("{:>width$}", 987, width = 6)));
}

#[test]
fn text_spans_are_found_in_document_order() {
    assert_eq!(
        collect_tspans(&sample()),
        vec![vec![1, 0], vec![1, 0, 1], vec![1, 2], vec![2], vec![3, 0, 0]]
    );
}

#[test]
fn root_is_no_text_span_below_itself() {
    let root = SvgElement { name: "tspan".to_string(), children: vec![text("x")] };
    assert!(collect_tspans(&root).is_empty());
    assert_eq!(svg_element_getter(&root), vec!["x"]);
}

#[test]
fn texts_of_the_text_spans_are_what_they_hold_directly() {
    assert_eq!(svg_element_getter(&sample()), vec!["ab", "inner", "", "top", "deep"]);
}

#[test]
fn picture_texts_go_to_their_spans() {
    let loc = vec!["100".to_string(), "40".to_string(), "60".to_string()];
    let texts = svg_overwrite(49, "c", "s", "r", "k", "i", "p", &loc).unwrap();
    assert_eq!(
        texts,
        vec![
            (34, "r".to_string()),
            (36, "k".to_string()),
            (38, "s".to_string()),
            (40, "c".to_string()),
            (42, "i".to_string()),
            (44, "p".to_string()),
            (46, "60".to_string()),
            (47, "100++".to_string()),
            (48, "40--".to_string()),
        ]
    );
}

#[test]
fn picture_with_too_few_spans_is_an_error() {
    let loc = vec!["1".to_string(), "2".to_string(), "3".to_string()];
    assert_eq!(
        svg_overwrite(48, "c", "s", "r", "k", "i", "p", &loc),
        Err(SvgError::MissingSpans { found: 48 })
    );
    assert_eq!(
        svg_overwrite(0, "c", "s", "r", "k", "i", "p", &loc),
        Err(SvgError::MissingSpans { found: 0 })
    );
    assert!(svg_overwrite(50, "c", "s", "r", "k", "i", "p", &loc).is_ok());
}

#[test]
fn picture_needs_three_line_counts() {
    let loc = vec!["1".to_string(), "2".to_string()];
    assert_eq!(
        svg_overwrite(49, "c", "s", "r", "k", "i", "p", &loc),
        Err(SvgError::MissingCounts { found: 2 })
    );
}
