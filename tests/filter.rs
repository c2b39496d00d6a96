use html5ever::serialize::{serialize, SerializeOpts, TraversalScope};
use markup5ever_rcdom::{Node, SerializableHandle};
use rup::dom::{subtree, DomNode};
use rup::filter::{filter_tree, is_matching_selector_name};
use rup::html::filter;
use rup::parser::{parse, AttributeSign, CssCombinator, CssSelector, CssSelectorAttribute};
use std::rc::Rc;

fn sel(name: Option<&str>, attributes: Vec<CssSelectorAttribute>) -> CssSelector {
    CssSelector { name: name.map(|n| n.to_string()), attributes, combinator: CssCombinator::Descendant }
}

fn data_val(sign: AttributeSign, v: Option<&str>) -> CssSelectorAttribute {
    CssSelectorAttribute::Attribute("data-val".to_string(), sign, v.map(|s| s.to_string()))
}

fn serialize_all(nodes: &[Rc<Node>]) -> String {
    let mut out: Vec<u8> = Vec::new();
    for node in nodes {
        let handle = SerializableHandle::from(node.clone());
        let opts = SerializeOpts {
            scripting_enabled: true,
            traversal_scope: TraversalScope::IncludeNode,
            create_missing_parent: false,
        };
        serialize(&mut out, &handle, opts).unwrap();
    }
    String::from_utf8(out).unwrap()
}

fn element(name: &str, attributes: &[(&str, &str)], children: Vec<DomNode<u32>>, handle: u32) -> DomNode<u32> {
    DomNode::Element {
        name: name.to_string(),
        attributes: attributes.iter().map(|(n, v)| (n.to_string(), v.to_string())).collect(),
        children,
        handle,
    }
}

fn text(s: &str) -> DomNode<u32> {
    DomNode::Text { contents: s.to_string() }
}

fn handles(root: &DomNode<u32>, paths: &[Vec<usize>]) -> Vec<u32> {
    paths
        .iter()
        .map(|p| match subtree(root, p) {
            Some(DomNode::Element { handle, .. }) => *handle,
            _ => panic!("a selected path leads to no element"),
        })
        .collect()
}

const GROUPS: &str = r#"<div><div><div data-val="1"><div data-val="1">TEST 1</div><div data-val="2">TEST 2</div><div data-val="1">TEST 3</div></div><div data-val="2"><div data-val="2">TEST 4</div><div data-val="1">TEST 5</div><div data-val="2">TEST 6</div></div><div data-val="1"><div data-val="1">TEST 9</div><div data-val="2">TEST 8</div><div data-val="1">TEST 9</div></div><div data-val="3"><div data-val="5678">TEST 10</div><div data-val="67567">TEST 11</div><div data-val="797985">TEST 12</div></div></div></div>"#;

#[test]
fn filter_documents() {
    let div = || sel(Some("div"), vec![]);
    let span = || sel(Some("span"), vec![]);
    let nine_spans: String = (1..=9).map(|i| format!(r#"<span class="{i}">TEST {i}</span>"#)).collect();
    let scenarios: Vec<(Vec<CssSelector>, String, &str, usize)> = vec![
        (
            vec![
                div(),
                span(),
                sel(Some("span"), vec![CssSelectorAttribute::ID("1".to_string())]),
                sel(Some("span"), vec![CssSelectorAttribute::Class("3".to_string())]),
            ],
            r#"<div><span><span id="1"><span class="3">TEST 3</span></span></span></div>"#.to_string(),
            r#"<span class="3">TEST 3</span>"#,
            1,
        ),
        (
            vec![sel(Some("span"), vec![CssSelectorAttribute::ID("3".to_string())])],
            r#"<div><span id="3"><span class="7">TEST 7</span><span class="8">TEST 8</span><span class="9">TEST 9</span></span></div>"#.to_string(),
            r#"<span id="3"><span class="7">TEST 7</span><span class="8">TEST 8</span><span class="9">TEST 9</span></span>"#,
            1,
        ),
        (
            vec![span(), span(), span(), span(), span(), span(), span()],
            format!("<span><span><span><span><span><span>{nine_spans}</span></span></span></span></span></span>"),
            r#"<span class="1">TEST 1</span><span class="2">TEST 2</span><span class="3">TEST 3</span><span class="4">TEST 4</span><span class="5">TEST 5</span><span class="6">TEST 6</span><span class="7">TEST 7</span><span class="8">TEST 8</span><span class="9">TEST 9</span>"#,
            9,
        ),
        (
            vec![div(), div(), sel(None, vec![data_val(AttributeSign::Equal, Some("2"))])],
            GROUPS.to_string(),
            r#"<div data-val="2">TEST 2</div><div data-val="2"><div data-val="2">TEST 4</div><div data-val="1">TEST 5</div><div data-val="2">TEST 6</div></div><div data-val="2">TEST 8</div>"#,
            3,
        ),
        (
            vec![div(), div(), sel(None, vec![data_val(AttributeSign::BeginWith, Some("5"))])],
            GROUPS.to_string(),
            r#"<div data-val="5678">TEST 10</div>"#,
            1,
        ),
        (
            vec![div(), div(), sel(None, vec![data_val(AttributeSign::EndWith, Some("5"))])],
            GROUPS.to_string(),
            r#"<div data-val="797985">TEST 12</div>"#,
            1,
        ),
        (
            vec![div(), div(), sel(None, vec![data_val(AttributeSign::Contain, Some("756"))])],
            GROUPS.to_string(),
            r#"<div data-val="67567">TEST 11</div>"#,
            1,
        ),
        (
            vec![div(), div(), sel(None, vec![data_val(AttributeSign::Empty, None)])],
            GROUPS.to_string(),
            r#"<div data-val="1"><div data-val="1">TEST 1</div><div data-val="2">TEST 2</div><div data-val="1">TEST 3</div></div><div data-val="2"><div data-val="2">TEST 4</div><div data-val="1">TEST 5</div><div data-val="2">TEST 6</div></div><div data-val="1"><div data-val="1">TEST 9</div><div data-val="2">TEST 8</div><div data-val="1">TEST 9</div></div><div data-val="3"><div data-val="5678">TEST 10</div><div data-val="67567">TEST 11</div><div data-val="797985">TEST 12</div></div>"#,
            4,
        ),
        (
            vec![
                div(),
                sel(
                    Some("span"),
                    vec![
                        CssSelectorAttribute::Class("test2".to_string()),
                        CssSelectorAttribute::Attribute(
                            "data-attr".to_string(),
                            AttributeSign::Equal,
                            Some("test".to_string()),
                        ),
                        CssSelectorAttribute::Class("test3".to_string()),
                        CssSelectorAttribute::Class("test1".to_string()),
                    ],
                ),
            ],
            r#"<div><span data-attr="test" class="test1 test2 test3">TEST 1</span><span data-attr="test" class="test1 test2">TEST 2</span></div>"#.to_string(),
            r#"<span data-attr="test" class="test1 test2 test3">TEST 1</span>"#,
            1,
        ),
        (
            vec![
                sel(Some("div"), vec![data_val(AttributeSign::Equal, Some("1"))]),
                sel(Some("div"), vec![CssSelectorAttribute::PseudoClass("first-child".to_string(), None)]),
            ],
            r#"<div data-val="1"><div>TEST 1</div><div>TEST 2</div></div>"#.to_string(),
            r#"<div>TEST 1</div>"#,
            1,
        ),
        (
            vec![sel(Some("li"), vec![]), div()],
            r#"<div><span>TEST</span><div>TEST 2</div></div>"#.to_string(),
            r#""#,
            0,
        ),
    ];
    for (selectors, content, expected_html, count) in scenarios {
        let selection = filter(&content, &selectors);
        assert_eq!(selection.nodes.len(), count);
        assert_eq!(serialize_all(&selection.nodes), expected_html);
    }
}

#[test]
fn chains_parsed_from_text_select_as_built_ones() {
    let selection = filter(GROUPS, &parse("div div [data-val=2]".to_string()));
    assert_eq!(selection.nodes.len(), 3);
    let selection = filter(
        r#"<div data-val="1"><div>TEST 1</div><div>TEST 2</div></div>"#,
        &parse("div[data-val=1] div:first-child".to_string()),
    );
    assert_eq!(serialize_all(&selection.nodes), "<div>TEST 1</div>");
}

#[test]
fn second_child_is_not_first_child() {
    let content = r#"<div data-val="1"><div>TEST 1</div><div>TEST 2</div></div><div data-val="1"><p></p><div>TEST 3</div></div>"#;
    let selection = filter(content, &parse("div[data-val=1] div:first-child".to_string()));
    assert_eq!(serialize_all(&selection.nodes), "<div>TEST 1</div>");
}

#[test]
fn missing_element_selects_nothing() {
    let selection = filter("<div><div>x</div></div>", &parse("li div".to_string()));
    assert!(selection.nodes.is_empty());
}

#[test]
fn repeated_attribute_fails_every_test_on_it() {
    let tree = DomNode::Document {
        children: vec![element("div", &[("data-val", "2"), ("data-val", "1")], vec![text("TEST")], 1)],
    };
    for v in ["1", "2"] {
        let chain = vec![sel(None, vec![data_val(AttributeSign::Equal, Some(v))])];
        assert!(filter_tree(&tree, &chain).is_empty());
    }
    let chain = vec![sel(None, vec![data_val(AttributeSign::Empty, None)])];
    assert!(filter_tree(&tree, &chain).is_empty());
    let single = DomNode::Document { children: vec![element("div", &[("data-val", "2")], vec![], 1)] };
    let chain = vec![sel(None, vec![data_val(AttributeSign::Equal, Some("2"))])];
    assert_eq!(filter_tree(&single, &chain), vec![vec![0]]);
}

fn sample_tree() -> DomNode<u32> {
    DomNode::Document {
        children: vec![element(
            "html",
            &[],
            vec![element(
                "body",
                &[],
                vec![
                    element("div", &[("class", "a")], vec![element("span", &[], vec![text("1")], 4)], 3),
                    text(" "),
                    DomNode::Comment,
                    element(
                        "div",
                        &[("class", "b")],
                        vec![
                            element("span", &[("id", "x")], vec![], 6),
                            element("p", &[], vec![element("span", &[], vec![], 8)], 7),
                        ],
                        5,
                    ),
                ],
                2,
            )],
            1,
        )],
    }
}

#[test]
fn selected_elements_satisfy_the_last_selector() {
    let tree = sample_tree();
    let chain = parse("div span".to_string());
    let paths = filter_tree(&tree, &chain);
    assert_eq!(handles(&tree, &paths), vec![4, 6, 8]);
    for p in &paths {
        match subtree(&tree, p) {
            Some(DomNode::Element { name, .. }) => assert_eq!(name, "span"),
            _ => panic!("not an element"),
        }
    }
}

#[test]
fn filtering_twice_gives_the_same_list() {
    let tree = sample_tree();
    let chain = parse("body span".to_string());
    let first = filter_tree(&tree, &chain);
    let second = filter_tree(&tree, &chain);
    assert_eq!(first, second);
    assert_eq!(first.len(), 3);
    let a = filter(GROUPS, &parse("div div [data-val]".to_string()));
    let b = filter(GROUPS, &parse("div div [data-val]".to_string()));
    assert_eq!(a.nodes.len(), 4);
    assert_eq!(serialize_all(&a.nodes), serialize_all(&b.nodes));
}

#[test]
fn results_come_in_document_order() {
    let tree = sample_tree();
    let paths = filter_tree(&tree, &parse("span".to_string()));
    assert_eq!(paths, vec![vec![0, 0, 0, 0], vec![0, 0, 3, 0], vec![0, 0, 3, 1, 0]]);
    for w in paths.windows(2) {
        assert!(w[0] < w[1]);
    }
    assert_eq!(handles(&tree, &paths), vec![4, 6, 8]);
}

#[test]
fn selected_element_is_not_entered() {
    let tree = sample_tree();
    let paths = filter_tree(&tree, &parse("div".to_string()));
    assert_eq!(handles(&tree, &paths), vec![3, 5]);
    let paths = filter_tree(&tree, &parse(String::new()));
    assert_eq!(handles(&tree, &paths), vec![1]);
}

#[test]
fn combinators_are_not_enforced() {
    let tree = sample_tree();
    let direct = filter_tree(&tree, &parse("div > span".to_string()));
    let descendant = filter_tree(&tree, &parse("div span".to_string()));
    assert_eq!(direct, descendant);
    let adjacent = filter_tree(&tree, &parse("html + span".to_string()));
    assert_eq!(handles(&tree, &adjacent), vec![4, 6, 8]);
}

#[test]
fn class_test_and_pseudo_class_combine_with_or() {
    let tree = DomNode::Document {
        children: vec![element(
            "body",
            &[],
            vec![
                element("div", &[], vec![], 1),
                element("div", &[("class", "red")], vec![], 2),
                element("div", &[], vec![], 3),
            ],
            0,
        )],
    };
    let paths = filter_tree(&tree, &parse("div.red:first-child".to_string()));
    assert_eq!(handles(&tree, &paths), vec![1, 2]);
    let paths = filter_tree(&tree, &parse("div:first-child".to_string()));
    assert_eq!(handles(&tree, &paths), vec![1]);
    assert!(filter_tree(&tree, &parse("div:nth-child(2)".to_string())).is_empty());
    assert!(filter_tree(&tree, &parse("div:last-child".to_string())).is_empty());
}

#[test]
fn first_child_counts_element_siblings_only() {
    let tree = DomNode::Document {
        children: vec![element(
            "body",
            &[],
            vec![text("x"), DomNode::Comment, element("p", &[], vec![], 1), element("p", &[], vec![], 2)],
            0,
        )],
    };
    let paths = filter_tree(&tree, &parse("p:first-child".to_string()));
    assert_eq!(handles(&tree, &paths), vec![1]);
}

#[test]
fn class_words_are_counted_one_by_one() {
    let tree = DomNode::Document {
        children: vec![
            element("a", &[("class", "x  y\tz\n")], vec![], 1),
            element("a", &[("class", "x x")], vec![], 2),
            element("a", &[("class", "x"), ("class", "x")], vec![], 3),
            element("a", &[("class", "xy")], vec![], 4),
        ],
    };
    assert_eq!(handles(&tree, &filter_tree(&tree, &parse(".x".to_string()))), vec![1]);
    assert_eq!(handles(&tree, &filter_tree(&tree, &parse(".z".to_string()))), vec![1]);
    assert!(filter_tree(&tree, &parse(".".to_string())).is_empty());
}

#[test]
fn attribute_tests_read_the_whole_value() {
    let tree = DomNode::Document {
        children: vec![
            element("a", &[("class", "p q")], vec![], 1),
            element("a", &[("href", "https://example.org/x")], vec![], 2),
            element("a", &[("id", "main")], vec![], 3),
        ],
    };
    let h = |expr: &str| handles(&tree, &filter_tree(&tree, &parse(expr.to_string())));
    assert_eq!(h("[class='p q']"), vec![1]);
    assert_eq!(h("[class]"), vec![1]);
    assert_eq!(h("a[href^=https]"), vec![2]);
    assert_eq!(h("a[href$='/x']"), vec![2]);
    assert_eq!(h("a[href*=example]"), vec![2]);
    assert!(h("a[href*=examples]").is_empty());
    assert_eq!(h("a[href^=]"), vec![2]);
    assert!(h("a[href=]").is_empty());
    assert_eq!(h("#main"), vec![3]);
    assert_eq!(h("a#main[id]"), vec![3]);
    assert!(h("#mai").is_empty());
    assert!(h("b#main").is_empty());
}

#[test]
fn empty_value_is_compared_as_given() {
    let tree = DomNode::Document {
        children: vec![element("a", &[("title", "")], vec![], 1), element("a", &[("title", "x")], vec![], 2)],
    };
    let h = |expr: &str| handles(&tree, &filter_tree(&tree, &parse(expr.to_string())));
    assert_eq!(h("[title=]"), vec![1]);
    assert_eq!(h("[title*=]"), vec![1, 2]);
    assert_eq!(h("[title$='']"), vec![1, 2]);
}

#[test]
fn selection_keeps_tree_and_paths() {
    let selection = filter(GROUPS, &parse("div div [data-val=2]".to_string()));
    assert_eq!(selection.paths.len(), selection.nodes.len());
    for (path, node) in selection.paths.iter().zip(selection.nodes.iter()) {
        match subtree(&selection.tree, path) {
            Some(DomNode::Element { handle, .. }) => assert!(Rc::ptr_eq(handle, node)),
            _ => panic!("a selected path leads to no element"),
        }
    }
}

#[test]
fn name_test() {
    let named = sel(Some("div"), vec![]);
    assert!(is_matching_selector_name(&named, &"div".to_string()));
    assert!(!is_matching_selector_name(&named, &"DIV".to_string()));
    assert!(is_matching_selector_name(&sel(None, vec![]), &"span".to_string()));
}

#[test]
fn subtree_follows_child_indexes() {
    let tree = sample_tree();
    assert!(matches!(subtree(&tree, &vec![]), Some(DomNode::Document { .. })));
    assert!(matches!(subtree(&tree, &vec![0, 0, 1]), Some(DomNode::Text { .. })));
    assert!(subtree(&tree, &vec![0, 0, 9]).is_none());
    assert!(subtree(&tree, &vec![0, 0, 1, 0]).is_none());
}
