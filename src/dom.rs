//! The document tree that the matcher reads.
//!
//! A tree holds what matching needs: element names, attributes in source
//! order (a name may occur twice), children in order, and text; comments,
//! doctypes and processing instructions are kept as bare markers. Each element also
//! carries a handle of the caller's choosing, which the matcher hands back for
//! the elements it selects; the model of the tree leaves handles out.
use vstd::prelude::*;

verus! {

/// A node of a document tree; `H` is the type of the handle that each element carries.
#[verifier::reject_recursive_types(H)]
pub enum DomNode<H> {
    Document { children: Vec<DomNode<H>> },
    Element {
        name: String,
        attributes: Vec<(String, String)>,
        children: Vec<DomNode<H>>,
        handle: H,
    },
    Text { contents: String },
    Comment,
    Doctype,
    ProcessingInstruction,
}

/// The mathematical value of a document tree.
pub enum Tree {
    Document { children: Seq<Tree> },
    Element { name: Seq<char>, attributes: Seq<(Seq<char>, Seq<char>)>, children: Seq<Tree> },
    Text { contents: Seq<char> },
    Comment,
    Doctype,
    ProcessingInstruction,
}

pub open spec fn attributes_view(a: Seq<(String, String)>) -> Seq<(Seq<char>, Seq<char>)> {
    a.map_values(|e: (String, String)| (e.0@, e.1@))
}

/// The model of a node.
pub open spec fn tree_of<H>(n: DomNode<H>) -> Tree
    decreases n, 0int,
{
    match n {
        DomNode::Document { children } => Tree::Document {
            children: trees_of(children@, children@.len() as int),
        },
        DomNode::Element { name, attributes, children, .. } => Tree::Element {
            name: name@,
            attributes: attributes_view(attributes@),
            children: trees_of(children@, children@.len() as int),
        },
        DomNode::Text { contents } => Tree::Text { contents: contents@ },
        DomNode::Comment => Tree::Comment,
        DomNode::Doctype => Tree::Doctype,
        DomNode::ProcessingInstruction => Tree::ProcessingInstruction,
    }
}

/// The models of the first `k` nodes of `kids`.
pub open spec fn trees_of<H>(kids: Seq<DomNode<H>>, k: int) -> Seq<Tree>
    decreases kids, k,
{
    if k <= 0 || k > kids.len() {
        Seq::empty()
    } else {
        trees_of(kids, k - 1).push(tree_of(kids[k - 1]))
    }
}

impl<H> View for DomNode<H> {
    type V = Tree;

    open spec fn view(&self) -> Tree {
        tree_of(*self)
    }
}

pub proof fn lemma_trees_of<H>(kids: Seq<DomNode<H>>, k: int)
    requires
        0 <= k <= kids.len(),
    ensures
        trees_of(kids, k).len() == k,
        forall|j: int| 0 <= j < k ==> #[trigger] trees_of(kids, k)[j] == tree_of(kids[j]),
    decreases k,
{
    if k > 0 {
        lemma_trees_of(kids, k - 1);
    }
}

/// The children of a node, in its model; a node that is neither the document
/// nor an element has none.
pub open spec fn children_of(t: Tree) -> Seq<Tree> {
    match t {
        Tree::Document { children } => children,
        Tree::Element { children, .. } => children,
        _ => Seq::empty(),
    }
}

/// The children of a node: each child's model is the matching child of the node's model.
pub proof fn lemma_children<H>(n: DomNode<H>)
    ensures
        match n {
            DomNode::Document { children } => children_of(tree_of(n)).len() == children@.len()
                && forall|j: int|
                0 <= j < children@.len() ==> #[trigger] children_of(tree_of(n))[j] == tree_of(
                    children@[j],
                ),
            DomNode::Element { children, .. } => children_of(tree_of(n)).len() == children@.len()
                && forall|j: int|
                0 <= j < children@.len() ==> #[trigger] children_of(tree_of(n))[j] == tree_of(
                    children@[j],
                ),
            _ => true,
        },
{
    match n {
        DomNode::Document { children } => lemma_trees_of(children@, children@.len() as int),
        DomNode::Element { children, .. } => lemma_trees_of(children@, children@.len() as int),
        _ => {},
    }
}

/// The node at `path` below `n`: the child indexes are followed in order.
pub open spec fn node_at<H>(n: DomNode<H>, path: Seq<int>) -> Option<DomNode<H>>
    decreases path.len(),
{
    if path.len() == 0 {
        Some(n)
    } else {
        match n {
            DomNode::Document { children } => if 0 <= path[0] < children@.len() {
                node_at(children@[path[0]], path.drop_first())
            } else {
                None
            },
            DomNode::Element { children, .. } => if 0 <= path[0] < children@.len() {
                node_at(children@[path[0]], path.drop_first())
            } else {
                None
            },
            _ => None,
        }
    }
}

/// The model of a path.
pub open spec fn path_view(p: Seq<usize>) -> Seq<int> {
    p.map_values(|x: usize| x as int)
}

/// The node at `path` below `root`, if the path leads to one.
pub fn subtree<'a, H>(root: &'a DomNode<H>, path: &Vec<usize>) -> (r: Option<&'a DomNode<H>>)
    ensures
        match node_at(*root, path_view(path@)) {
            Some(m) => r is Some && *r->0 == m,
            None => r is None,
        },
{
    let ghost p = path_view(path@);
    let mut cur: &DomNode<H> = root;
    let mut j: usize = 0;
    assert(p.skip(0) =~= p);
    while j < path.len()
        invariant
            j <= path.len(),
            p == path_view(path@),
            node_at(*root, p) == node_at(*cur, p.skip(j as int)),
        decreases path.len() - j,
    {
        let ghost rest = p.skip(j as int);
        assert(rest.drop_first() =~= p.skip(j + 1));
        assert(rest[0] == path@[j as int] as int);
        let k = path[j];
        match cur {
            DomNode::Document { children } => {
                if k < children.len() {
                    cur = &children[k];
                } else {
                    return None;
                }
            },
            DomNode::Element { children, .. } => {
                if k < children.len() {
                    cur = &children[k];
                } else {
                    return None;
                }
            },
            _ => {
                return None;
            },
        }
        j = j + 1;
    }
    assert(p.skip(j as int) =~= Seq::<int>::empty());
    Some(cur)
}

/// `r` holds, for each path of `paths` in turn, the handle of the element
/// that the path leads to in `t`.
pub open spec fn holds_handles<H>(t: DomNode<H>, paths: Seq<Seq<int>>, r: Seq<H>) -> bool {
    &&& r.len() == paths.len()
    &&& forall|j: int|
        0 <= j < paths.len() ==> (node_at(t, #[trigger] paths[j]) matches Some(
            DomNode::Element { handle, .. },
        ) && handle == r[j])
}

} // verus!
