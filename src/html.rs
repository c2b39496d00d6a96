//! Selecting elements of an HTML document given as text.
//!
//! The text is parsed by html5ever into a markup5ever_rcdom tree, which is
//! copied into a `DomNode` tree whose elements keep their rcdom handles; the
//! matcher then runs on that copy and the handles of the selected elements
//! are handed back, ready for html5ever's serializer.
use crate::dom::{holds_handles, node_at, path_view, subtree, DomNode, Tree};
use crate::filter::{filter_spec, filter_tree, lemma_selected_is_element, lemma_selected_satisfy_last, paths_view, selected_at};
use crate::parser::{chain_view, CssSelector};
use html5ever::tendril::TendrilSink;
use markup5ever_rcdom::{Node, NodeData, RcDom};
use std::rc::Rc;
use vstd::prelude::*;

verus! {

#[verifier::external_type_specification]
#[verifier::external_body]
pub struct ExNode(markup5ever_rcdom::Node);

/// The tree that HTML5 parsing (html5ever into markup5ever_rcdom, default
/// options) builds from a document's text, without its handles.
pub uninterp spec fn html_tree_of(content: Seq<char>) -> Tree;

/// Relies on html5ever::parse_document with an RcDom sink and default
/// options: the tree it builds depends on the text alone. Returns the
/// document's handle and the copy of its tree. tendril, which holds the text
/// and the tree's strings, panics when a buffer is asked to grow past 2^31
/// bytes; rcdom appends each text token to the text node before it, and the
/// tokenizer may turn one byte into the three of U+FFFD, so the text is held
/// to a third of that.
#[verifier::external_body]
fn parse_html(content: &str) -> (r: (Rc<Node>, DomNode<Rc<Node>>))
    requires
        content.len() <= 0x2aaa_aaaa,
    ensures
        r.1@ == html_tree_of(content@),
{
    let dom = html5ever::parse_document(RcDom::default(), Default::default()).one(content);
    (dom.document.clone(), copy_tree(&dom.document))
}

/// The copying half of `parse_html`: reads markup5ever_rcdom's node fields
/// (children, element name and attributes, text) into a `DomNode`, one arm per
/// node kind, each element keeping its handle.
#[verifier::external_body]
fn copy_tree(h: &Rc<Node>) -> DomNode<Rc<Node>> {
    let children = h.children.borrow().iter().map(copy_tree).collect();
    match &h.data {
        NodeData::Document => DomNode::Document { children },
        NodeData::Element { name, attrs, .. } => {
            let attributes = attrs.borrow().iter().map(|a| (a.name.local.to_string(), a.value.to_string())).collect();
            DomNode::Element { name: name.local.to_string(), attributes, children, handle: h.clone() }
        },
        NodeData::Text { contents } => DomNode::Text { contents: contents.borrow().to_string() },
        NodeData::Comment { .. } => DomNode::Comment,
        NodeData::Doctype { .. } => DomNode::Doctype,
        NodeData::ProcessingInstruction { .. } => DomNode::ProcessingInstruction,
    }
}

/// Relies on Rc::clone: a second pointer to the same node.
#[verifier::external_body]
fn clone_handle(h: &Rc<Node>) -> (r: Rc<Node>)
    ensures
        r == *h,
{
    Rc::clone(h)
}

/// Elements selected in an HTML document, with the document they belong to.
///
/// markup5ever_rcdom empties the subtree of a node when the node is dropped,
/// so the selected elements keep their contents only while the document
/// handle lives: keep the selection while rendering its nodes.
pub struct Selection {
    /// The parsed document.
    pub document: Rc<Node>,
    /// The copy of the document's tree that the matcher read.
    pub tree: DomNode<Rc<Node>>,
    /// The paths of the selected elements in `tree`, in document order.
    pub paths: Vec<Vec<usize>>,
    /// The handles of the selected elements, one for each path.
    pub nodes: Vec<Rc<Node>>,
}

/// The elements of the HTML document `content` that the chain `selectors`
/// selects, in document order, as markup5ever_rcdom handles (each can be
/// handed to html5ever's serializer). The text may hold at most 0x2aaa_aaaa
/// bytes, so that no string of the parsed tree outgrows tendril's buffers.
pub fn filter(content: &str, selectors: &Vec<CssSelector>) -> (r: Selection)
    requires
        content.len() <= 0x2aaa_aaaa,
    ensures
        r.tree@ == html_tree_of(content@),
        paths_view(r.paths@) == filter_spec(r.tree@, chain_view(selectors@)),
        holds_handles(r.tree, paths_view(r.paths@), r.nodes@),
{
    let (document, tree) = parse_html(content);
    assert(tree@ == html_tree_of(content@));
    let paths = filter_tree(&tree, selectors);
    let ghost chain = chain_view(selectors@);
    let ghost ps = paths_view(paths@);
    proof {
        lemma_selected_satisfy_last(tree@, chain);
    }
    let mut out: Vec<Rc<Node>> = Vec::new();
    let mut j: usize = 0;
    while j < paths.len()
        invariant
            j <= paths.len(),
            ps == paths_view(paths@),
            ps == filter_spec(tree@, chain),
            forall|m: int| 0 <= m < ps.len() ==> selected_at(tree@, #[trigger] ps[m], chain.last(), 0),
            out@.len() == j,
            forall|m: int|
                0 <= m < j ==> (node_at(tree, #[trigger] ps[m]) matches Some(DomNode::Element { handle, .. })
                    && handle == out@[m]),
        decreases paths.len() - j,
    {
        proof {
            lemma_selected_is_element(tree, ps[j as int], chain.last(), 0);
        }
        assert(path_view(paths@[j as int]@) == ps[j as int]);
        match subtree(&tree, &paths[j]) {
            Some(DomNode::Element { handle, .. }) => {
                out.push(clone_handle(handle));
            },
            _ => {
                assert(false);
            },
        }
        j = j + 1;
    }
    assert(holds_handles(tree, ps, out@));
    Selection { document, tree, paths, nodes: out }
}

} // verus!
