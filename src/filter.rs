//! The tree matcher: one depth-first, pre-order walk of a document tree that
//! collects the elements at which a chain of selectors is complete.
//!
//! The walk carries the index of the next selector to satisfy and the
//! element's position among its parent's element children. An element that
//! satisfies that selector moves the walk to the next one; an element that
//! satisfies the last one is selected, and the walk does not enter it.
//! Combinators are read by the parser but not enforced here: every step of a
//! chain is a descendant step.
//!
//! Results are paths: the indexes of the children to follow from the root.
use crate::dom::{attributes_view, children_of, lemma_children, node_at, DomNode, Tree};
use crate::parser::{chain_view, AttributeSign, CssSelector, CssSelectorAttribute, Predicate, Selector};
use crate::text::{chars_of, chars_eq, contains, ends_with, is_white_space, starts_with};
use crate::text::{seq_contains, seq_ends_with, seq_starts_with, white_space};
use vstd::prelude::*;

verus! {

pub open spec fn id_name() -> Seq<char> {
    seq!['i', 'd']
}

pub open spec fn class_name() -> Seq<char> {
    seq!['c', 'l', 'a', 's', 's']
}

pub open spec fn first_child_name() -> Seq<char> {
    seq!['f', 'i', 'r', 's', 't', '-', 'c', 'h', 'i', 'l', 'd']
}

// ---------------------------------------------------------------------------
// The words of a `class` value.
/// The words already complete and the word being read.
pub open spec fn words_prefix(s: Seq<char>) -> (Seq<Seq<char>>, Seq<char>)
    decreases s.len(),
{
    if s.len() == 0 {
        (Seq::empty(), Seq::empty())
    } else {
        let (words, current) = words_prefix(s.drop_last());
        if white_space(s.last()) {
            if current.len() > 0 {
                (words.push(current), Seq::empty())
            } else {
                (words, Seq::empty())
            }
        } else {
            (words, current.push(s.last()))
        }
    }
}

/// The non-empty runs of non-white-space characters of `s`, in order.
pub open spec fn words_of(s: Seq<char>) -> Seq<Seq<char>> {
    let (words, current) = words_prefix(s);
    if current.len() > 0 {
        words.push(current)
    } else {
        words
    }
}

/// How many of `words` equal `w`.
pub open spec fn occurrences(words: Seq<Seq<char>>, w: Seq<char>) -> nat
    decreases words.len(),
{
    if words.len() == 0 {
        0
    } else {
        occurrences(words.drop_last(), w) + if words.last() == w {
            1nat
        } else {
            0nat
        }
    }
}

// ---------------------------------------------------------------------------
// Tests on one element.
/// Whether an attribute value passes the comparison `sign` against `expected`.
pub open spec fn compares(sign: AttributeSign, expected: Option<Seq<char>>, value: Seq<char>) -> bool {
    match sign {
        AttributeSign::Empty => true,
        AttributeSign::Equal => expected == Some(value),
        AttributeSign::Contain => expected is Some && seq_contains(value, expected->0),
        AttributeSign::BeginWith => expected is Some && seq_starts_with(value, expected->0),
        AttributeSign::EndWith => expected is Some && seq_ends_with(value, expected->0),
    }
}

/// How many matches an attribute entry gives a test: a `class` entry is one
/// entry per word for a class test; any other pairing is one entry or none.
pub open spec fn entry_hits(p: Predicate, entry: (Seq<char>, Seq<char>)) -> nat {
    match p {
        Predicate::Id(v) => if entry.0 == id_name() && entry.1 == v {
            1
        } else {
            0
        },
        Predicate::Class(v) => if entry.0 == class_name() {
            occurrences(words_of(entry.1), v)
        } else {
            0
        },
        Predicate::Attribute(n, sign, expected) => if entry.0 == n && compares(sign, expected, entry.1) {
            1
        } else {
            0
        },
        _ => 0,
    }
}

/// How many matches the attribute entries give a test.
pub open spec fn hits(p: Predicate, attributes: Seq<(Seq<char>, Seq<char>)>) -> nat
    decreases attributes.len(),
{
    if attributes.len() == 0 {
        0
    } else {
        hits(p, attributes.drop_last()) + entry_hits(p, attributes.last())
    }
}

/// The attribute name that a test reads: `id`, `class`, or the named one.
pub open spec fn subject(p: Predicate) -> Seq<char> {
    match p {
        Predicate::Id(_) => id_name(),
        Predicate::Class(_) => class_name(),
        Predicate::Attribute(n, _, _) => n,
        _ => Seq::empty(),
    }
}

/// How many attribute entries are named `n`.
pub open spec fn name_count(n: Seq<char>, attributes: Seq<(Seq<char>, Seq<char>)>) -> nat
    decreases attributes.len(),
{
    if attributes.len() == 0 {
        0
    } else {
        name_count(n, attributes.drop_last()) + if attributes.last().0 == n {
            1nat
        } else {
            0nat
        }
    }
}

/// An id, class or attribute test holds when the element carries the
/// attribute it reads exactly once (a name given twice fails every test on
/// it) and the test finds exactly one match there.
pub open spec fn plain_test_holds(p: Predicate, attributes: Seq<(Seq<char>, Seq<char>)>) -> bool {
    name_count(subject(p), attributes) == 1 && hits(p, attributes) == 1
}

/// Whether a test is an id, class or attribute test.
pub open spec fn is_plain(p: Predicate) -> bool {
    p is Id || p is Class || p is Attribute
}

/// Every id, class and attribute test holds. A selector whose only tests are
/// pseudo-classes does not pass this way: its pseudo-classes decide alone.
pub open spec fn plain_tests_hold(preds: Seq<Predicate>, attributes: Seq<(Seq<char>, Seq<char>)>) -> bool {
    &&& forall|j: int| 0 <= j < preds.len() && is_plain(#[trigger] preds[j]) ==> plain_test_holds(preds[j], attributes)
    &&& ((exists|j: int| 0 <= j < preds.len() && is_plain(#[trigger] preds[j])) || !(exists|j: int|
        0 <= j < preds.len() && #[trigger] preds[j] is PseudoClass))
}

/// Some test is `:first-child` without argument, and the element is the first
/// element child of its parent.
pub open spec fn pseudo_test_holds(preds: Seq<Predicate>, position: int) -> bool {
    position == 0 && exists|j: int|
        0 <= j < preds.len() && #[trigger] preds[j] == Predicate::PseudoClass(first_child_name(), None)
}

/// Whether an element with this name and these attributes, at this position
/// among its parent's element children, satisfies the selector. The tests
/// combine as (all id, class and attribute tests) or (some pseudo-class test).
pub open spec fn element_matches(
    s: Selector,
    name: Seq<char>,
    attributes: Seq<(Seq<char>, Seq<char>)>,
    position: int,
) -> bool {
    &&& (s.name is None || s.name == Some(name))
    &&& (plain_tests_hold(s.predicates, attributes) || pseudo_test_holds(s.predicates, position))
}

// ---------------------------------------------------------------------------
// The walk.
/// How many of the first `k` of `kids` are elements.
pub open spec fn elements_before(kids: Seq<Tree>, k: int) -> int
    decreases k,
{
    if k <= 0 || k > kids.len() {
        0
    } else {
        elements_before(kids, k - 1) + if kids[k - 1] is Element {
            1int
        } else {
            0int
        }
    }
}

/// `p` with the child index `k` put in front.
pub open spec fn under(k: int, paths: Seq<Seq<int>>) -> Seq<Seq<int>> {
    paths.map_values(|p: Seq<int>| seq![k] + p)
}

/// The paths, relative to `t`, of the elements selected in `t`, when the walk
/// reaches `t` with `i` selectors of `chain` satisfied and `t` at `position`
/// among its parent's element children.
pub open spec fn walk(t: Tree, chain: Seq<Selector>, i: int, position: int) -> Seq<Seq<int>>
    decreases t, 0int,
{
    match t {
        Tree::Document { children } => walk_children(children, chain, i, children.len() as int),
        Tree::Element { name, attributes, children } => {
            if i < 0 || i >= chain.len() {
                Seq::empty()
            } else if element_matches(chain[i], name, attributes, position) {
                if i + 1 == chain.len() {
                    seq![Seq::empty()]
                } else {
                    walk_children(children, chain, i + 1, children.len() as int)
                }
            } else {
                walk_children(children, chain, i, children.len() as int)
            }
        },
        _ => Seq::empty(),
    }
}

/// The paths of the elements selected in the first `k` of `kids`.
pub open spec fn walk_children(kids: Seq<Tree>, chain: Seq<Selector>, i: int, k: int) -> Seq<Seq<int>>
    decreases kids, k,
{
    if k <= 0 || k > kids.len() {
        Seq::empty()
    } else {
        walk_children(kids, chain, i, k - 1) + under(
            k - 1,
            walk(kids[k - 1], chain, i, elements_before(kids, k - 1)),
        )
    }
}

/// The paths of the elements that `chain` selects in `t`, in document order.
pub open spec fn filter_spec(t: Tree, chain: Seq<Selector>) -> Seq<Seq<int>> {
    walk(t, chain, 0, 0)
}

// ---------------------------------------------------------------------------
// The executable tests.
pub open spec fn word_views(ws: Seq<Vec<char>>) -> Seq<Seq<char>> {
    ws.map_values(|w: Vec<char>| w@)
}

/// The words of a `class` value.
fn words(s: &Vec<char>) -> (r: Vec<Vec<char>>)
    ensures
        word_views(r@) == words_of(s@),
{
    let mut done: Vec<Vec<char>> = Vec::new();
    let mut current: Vec<char> = Vec::new();
    let mut i: usize = 0;
    assert(word_views(done@) =~= Seq::<Seq<char>>::empty());
    while i < s.len()
        invariant
            i <= s.len(),
            (word_views(done@), current@) == words_prefix(s@.take(i as int)),
        decreases s.len() - i,
    {
        assert(s@.take(i + 1).drop_last() =~= s@.take(i as int));
        let c = s[i];
        if is_white_space(c) {
            if current.len() > 0 {
                let ghost before = done@;
                done.push(current);
                assert(word_views(done@) =~= word_views(before).push(current@));
            }
            current = Vec::new();
        } else {
            current.push(c);
        }
        i = i + 1;
    }
    assert(s@.take(i as int) =~= s@);
    if current.len() > 0 {
        let ghost before = done@;
        done.push(current);
        assert(word_views(done@) =~= word_views(before).push(current@));
    }
    done
}

/// A count, stopped at two: enough to tell "exactly one".
pub open spec fn capped(n: nat) -> nat {
    if n >= 2 {
        2
    } else {
        n
    }
}

fn occurrences_capped(ws: &Vec<Vec<char>>, w: &Vec<char>) -> (r: usize)
    ensures
        r == capped(occurrences(word_views(ws@), w@)),
{
    let ghost views = word_views(ws@);
    let mut count: usize = 0;
    let mut k: usize = 0;
    while k < ws.len()
        invariant
            k <= ws.len(),
            views == word_views(ws@),
            count == capped(occurrences(views.take(k as int), w@)),
        decreases ws.len() - k,
    {
        assert(views.take(k + 1).drop_last() =~= views.take(k as int));
        if chars_eq(&ws[k], w) && count < 2 {
            count = count + 1;
        }
        k = k + 1;
    }
    assert(views.take(k as int) =~= views);
    count
}

fn opt_chars_of(o: &Option<String>) -> (r: Option<Vec<char>>)
    ensures
        match o {
            Some(s) => r is Some && r->0@ == s@,
            None => r is None,
        },
{
    match o {
        Some(s) => Some(chars_of(s.as_str())),
        None => None,
    }
}

fn compares_exec(sign: AttributeSign, expected: &Option<String>, value: &Vec<char>) -> (r: bool)
    ensures
        r == compares(sign, crate::parser::opt_view(*expected), value@),
{
    let e = opt_chars_of(expected);
    match sign {
        AttributeSign::Empty => true,
        AttributeSign::Equal => match &e {
            Some(x) => chars_eq(x, value),
            None => false,
        },
        AttributeSign::Contain => match &e {
            Some(x) => contains(value, x),
            None => false,
        },
        AttributeSign::BeginWith => match &e {
            Some(x) => starts_with(value, x),
            None => false,
        },
        AttributeSign::EndWith => match &e {
            Some(x) => ends_with(value, x),
            None => false,
        },
    }
}

fn entry_hits_capped(p: &CssSelectorAttribute, name: &Vec<char>, value: &Vec<char>) -> (r: usize)
    ensures
        r == capped(entry_hits(p@, (name@, value@))),
{
    match p {
        CssSelectorAttribute::ID(v) => {
            let id: Vec<char> = vec!['i', 'd'];
            assert(id@ =~= id_name());
            if chars_eq(name, &id) && chars_eq(value, &chars_of(v.as_str())) {
                1
            } else {
                0
            }
        },
        CssSelectorAttribute::Class(v) => {
            let class: Vec<char> = vec!['c', 'l', 'a', 's', 's'];
            assert(class@ =~= class_name());
            if chars_eq(name, &class) {
                occurrences_capped(&words(value), &chars_of(v.as_str()))
            } else {
                0
            }
        },
        CssSelectorAttribute::Attribute(n, sign, expected) => {
            if chars_eq(name, &chars_of(n.as_str())) && compares_exec(*sign, expected, value) {
                1
            } else {
                0
            }
        },
        _ => 0,
    }
}

/// How many matches the element's attributes give the test, stopped at two.
fn hits_capped(p: &CssSelectorAttribute, attrs: &Vec<(String, String)>) -> (r: usize)
    ensures
        r == capped(hits(p@, attributes_view(attrs@))),
{
    let ghost av = attributes_view(attrs@);
    let mut count: usize = 0;
    let mut k: usize = 0;
    while k < attrs.len()
        invariant
            k <= attrs.len(),
            av == attributes_view(attrs@),
            count == capped(hits(p@, av.take(k as int))),
        decreases attrs.len() - k,
    {
        assert(av.take(k + 1).drop_last() =~= av.take(k as int));
        let name = chars_of(attrs[k].0.as_str());
        let value = chars_of(attrs[k].1.as_str());
        let e = entry_hits_capped(p, &name, &value);
        count = if count + e >= 2 {
            2
        } else {
            count + e
        };
        k = k + 1;
    }
    assert(av.take(k as int) =~= av);
    count
}

/// The attribute name that a test reads.
fn subject_of(p: &CssSelectorAttribute) -> (r: Vec<char>)
    ensures
        r@ == subject(p@),
{
    match p {
        CssSelectorAttribute::ID(_) => {
            let r: Vec<char> = vec!['i', 'd'];
            assert(r@ =~= id_name());
            r
        },
        CssSelectorAttribute::Class(_) => {
            let r: Vec<char> = vec!['c', 'l', 'a', 's', 's'];
            assert(r@ =~= class_name());
            r
        },
        CssSelectorAttribute::Attribute(n, _, _) => chars_of(n.as_str()),
        _ => {
            let r: Vec<char> = Vec::new();
            assert(r@ =~= Seq::<char>::empty());
            r
        },
    }
}

/// How many attribute entries are named `n`, stopped at two.
fn name_count_capped(n: &Vec<char>, attrs: &Vec<(String, String)>) -> (r: usize)
    ensures
        r == capped(name_count(n@, attributes_view(attrs@))),
{
    let ghost av = attributes_view(attrs@);
    let mut count: usize = 0;
    let mut k: usize = 0;
    while k < attrs.len()
        invariant
            k <= attrs.len(),
            av == attributes_view(attrs@),
            count == capped(name_count(n@, av.take(k as int))),
        decreases attrs.len() - k,
    {
        assert(av.take(k + 1).drop_last() =~= av.take(k as int));
        if chars_eq(&chars_of(attrs[k].0.as_str()), n) && count < 2 {
            count = count + 1;
        }
        k = k + 1;
    }
    assert(av.take(k as int) =~= av);
    count
}

/// Whether the selector's name test passes: it has no name, or the element's.
pub fn is_matching_selector_name(selector: &CssSelector, element_name: &String) -> (r: bool)
    ensures
        r == (selector@.name is None || selector@.name == Some(element_name@)),
{
    match &selector.name {
        Some(n) => *n == *element_name,
        None => true,
    }
}

/// Whether each id, class and attribute test of the selector finds exactly
/// one match among the attributes.
fn is_matching_selector_attributes(selector: &CssSelector, attrs: &Vec<(String, String)>) -> (r: bool)
    ensures
        r == plain_tests_hold(selector@.predicates, attributes_view(attrs@)),
{
    let ghost preds = selector@.predicates;
    let mut has_plain = false;
    let mut has_pseudo = false;
    let mut k: usize = 0;
    while k < selector.attributes.len()
        invariant
            k <= selector.attributes.len(),
            preds == selector@.predicates,
            forall|j: int| 0 <= j < k && is_plain(#[trigger] preds[j]) ==> plain_test_holds(preds[j], attributes_view(attrs@)),
            has_plain == exists|j: int| 0 <= j < k && is_plain(#[trigger] preds[j]),
            has_pseudo == exists|j: int| 0 <= j < k && #[trigger] preds[j] is PseudoClass,
        decreases selector.attributes.len() - k,
    {
        let p = &selector.attributes[k];
        let (plain, pseudo) = match p {
            CssSelectorAttribute::ID(_) => (true, false),
            CssSelectorAttribute::Class(_) => (true, false),
            CssSelectorAttribute::Attribute(..) => (true, false),
            CssSelectorAttribute::PseudoClass(..) => (false, true),
            CssSelectorAttribute::Empty => (false, false),
        };
        assert(preds[k as int] == p@);
        if plain && (name_count_capped(&subject_of(p), attrs) != 1 || hits_capped(p, attrs) != 1) {
            return false;
        }
        has_plain = has_plain || plain;
        has_pseudo = has_pseudo || pseudo;
        k = k + 1;
    }
    has_plain || !has_pseudo
}

/// Whether the selector holds `:first-child` without argument and the
/// element is the first element child of its parent.
fn is_matching_selector_pseudo_class(selector: &CssSelector, position: usize) -> (r: bool)
    ensures
        r == pseudo_test_holds(selector@.predicates, position as int),
{
    let ghost preds = selector@.predicates;
    if position != 0 {
        return false;
    }
    let first_child: Vec<char> = vec!['f', 'i', 'r', 's', 't', '-', 'c', 'h', 'i', 'l', 'd'];
    assert(first_child@ =~= first_child_name());
    let mut k: usize = 0;
    while k < selector.attributes.len()
        invariant
            k <= selector.attributes.len(),
            preds == selector@.predicates,
            position == 0,
            first_child@ == first_child_name(),
            forall|j: int| 0 <= j < k ==> #[trigger] preds[j] != Predicate::PseudoClass(first_child_name(), None),
        decreases selector.attributes.len() - k,
    {
        let p = &selector.attributes[k];
        assert(preds[k as int] == p@);
        match p {
            CssSelectorAttribute::PseudoClass(n, None) => {
                if chars_eq(&chars_of(n.as_str()), &first_child) {
                    assert(preds[k as int] == Predicate::PseudoClass(first_child_name(), None));
                    return true;
                }
            },
            _ => {},
        }
        k = k + 1;
    }
    false
}

// ---------------------------------------------------------------------------
// The executable walk.
/// The model of a list of paths.
pub open spec fn paths_view(r: Seq<Vec<usize>>) -> Seq<Seq<int>> {
    r.map_values(|p: Vec<usize>| p@.map_values(|x: usize| x as int))
}

/// Appends to `out` each path of `sub` with `k` put in front.
fn push_under(out: &mut Vec<Vec<usize>>, k: usize, sub: Vec<Vec<usize>>)
    ensures
        paths_view(final(out)@) == paths_view(old(out)@) + under(k as int, paths_view(sub@)),
{
    let ghost start = paths_view(out@);
    let mut sub = sub;
    let mut j: usize = 0;
    while j < sub.len()
        invariant
            j <= sub.len(),
            paths_view(out@) == start + under(k as int, paths_view(sub@)).take(j as int),
        decreases sub.len() - j,
    {
        let mut p: Vec<usize> = Vec::new();
        p.push(k);
        let mut rest = sub[j].clone();
        let ghost tail = sub@[j as int]@;
        assert(rest@ == tail);
        p.append(&mut rest);
        let ghost before = paths_view(out@);
        out.push(p);
        assert(p@.map_values(|x: usize| x as int) =~= seq![k as int] + tail.map_values(|x: usize| x as int));
        assert(under(k as int, paths_view(sub@)).take(j + 1) =~= under(k as int, paths_view(sub@)).take(j as int).push(
            seq![k as int] + tail.map_values(|x: usize| x as int),
        ));
        assert(paths_view(out@) =~= before.push(p@.map_values(|x: usize| x as int)));
        j = j + 1;
    }
    assert(under(k as int, paths_view(sub@)).take(j as int) =~= under(k as int, paths_view(sub@)));
}

/// The elements selected under the children `children` of a node.
fn explore_children_nodes<H>(children: &Vec<DomNode<H>>, selectors: &Vec<CssSelector>, index: usize) -> (r: Vec<Vec<usize>>)
    requires
        index <= selectors.len(),
    ensures
        paths_view(r@) == walk_children(
            crate::dom::trees_of(children@, children@.len() as int),
            chain_view(selectors@),
            index as int,
            children@.len() as int,
        ),
    decreases children, 0int,
{
    let ghost kids = crate::dom::trees_of(children@, children@.len() as int);
    let ghost chain = chain_view(selectors@);
    proof {
        crate::dom::lemma_trees_of(children@, children@.len() as int);
    }
    let mut out: Vec<Vec<usize>> = Vec::new();
    let mut position: usize = 0;
    let mut k: usize = 0;
    assert(paths_view(out@) =~= Seq::<Seq<int>>::empty());
    while k < children.len()
        invariant
            k <= children.len(),
            position <= k,
            index <= selectors.len(),
            kids == crate::dom::trees_of(children@, children@.len() as int),
            kids.len() == children@.len(),
            forall|j: int| 0 <= j < kids.len() ==> #[trigger] kids[j] == crate::dom::tree_of(children@[j]),
            chain == chain_view(selectors@),
            position == elements_before(kids, k as int),
            paths_view(out@) == walk_children(kids, chain, index as int, k as int),
        decreases children.len() - k,
    {
        let child = &children[k];
        let sub = filter_matching_nodes(child, selectors, index, position);
        push_under(&mut out, k, sub);
        let is_element = match child {
            DomNode::Element { .. } => true,
            _ => false,
        };
        assert(kids[k as int] is Element == is_element);
        if is_element {
            position = position + 1;
        }
        k = k + 1;
    }
    out
}

/// The elements selected in the subtree of `node`, reached with `index`
/// selectors satisfied and at `position` among its parent's element children.
fn filter_matching_nodes<H>(node: &DomNode<H>, selectors: &Vec<CssSelector>, index: usize, position: usize) -> (r: Vec<Vec<usize>>)
    requires
        index <= selectors.len(),
    ensures
        paths_view(r@) == walk(node@, chain_view(selectors@), index as int, position as int),
    decreases node, 1int,
{
    proof {
        lemma_children(*node);
    }
    match node {
        DomNode::Document { children } => explore_children_nodes(children, selectors, index),
        DomNode::Element { name, attributes, children, .. } => {
            if index == selectors.len() {
                return Vec::new();
            }
            let selector = &selectors[index];
            let is_matching_node = is_matching_selector_name(selector, name) && (
            is_matching_selector_attributes(selector, attributes)
                || is_matching_selector_pseudo_class(selector, position));
            let next_index = if is_matching_node {
                index + 1
            } else {
                index
            };
            if next_index == selectors.len() && is_matching_node {
                let here: Vec<usize> = Vec::new();
                assert(here@.map_values(|x: usize| x as int) =~= Seq::<int>::empty());
                let mut r: Vec<Vec<usize>> = Vec::new();
                r.push(here);
                assert(paths_view(r@) =~= seq![Seq::<int>::empty()]);
                r
            } else {
                explore_children_nodes(children, selectors, next_index)
            }
        },
        _ => {
            let r: Vec<Vec<usize>> = Vec::new();
            assert(paths_view(r@) =~= Seq::<Seq<int>>::empty());
            r
        },
    }
}

/// The elements that the chain `selectors` selects in the tree `root`, as
/// paths from the root, in document order.
pub fn filter_tree<H>(root: &DomNode<H>, selectors: &Vec<CssSelector>) -> (r: Vec<Vec<usize>>)
    ensures
        paths_view(r@) == filter_spec(root@, chain_view(selectors@)),
{
    filter_matching_nodes(root, selectors, 0, 0)
}

// ---------------------------------------------------------------------------
// What holds of every result.
/// Whether the node at `path` below `t` is an element that satisfies `s`, at
/// the position among its parent's element children that the walk gives it
/// (`position` is that of `t` itself).
pub open spec fn selected_at(t: Tree, path: Seq<int>, s: Selector, position: int) -> bool
    decreases path.len(),
{
    if path.len() == 0 {
        t matches Tree::Element { name, attributes, .. } && element_matches(s, name, attributes, position)
    } else {
        let kids = children_of(t);
        0 <= path[0] < kids.len() && selected_at(
            kids[path[0]],
            path.drop_first(),
            s,
            elements_before(kids, path[0]),
        )
    }
}

/// Whether path `a` comes before path `b` in document order (pre-order): a
/// node comes before its descendants, and siblings in the order of their indexes.
pub open spec fn precedes(a: Seq<int>, b: Seq<int>) -> bool
    decreases a.len(),
{
    if a.len() == 0 {
        b.len() > 0
    } else if b.len() == 0 {
        false
    } else if a[0] != b[0] {
        a[0] < b[0]
    } else {
        precedes(a.drop_first(), b.drop_first())
    }
}

/// Each path of `r` comes before all the paths after it.
pub open spec fn in_document_order(r: Seq<Seq<int>>) -> bool {
    forall|x: int, y: int| 0 <= x < y < r.len() ==> #[trigger] precedes(r[x], r[y])
}

proof fn lemma_precedes_irreflexive(a: Seq<int>)
    ensures
        !precedes(a, a),
    decreases a.len(),
{
    if a.len() > 0 {
        lemma_precedes_irreflexive(a.drop_first());
    }
}

proof fn lemma_precedes_under(k: int, a: Seq<int>, b: Seq<int>)
    ensures
        precedes(seq![k] + a, seq![k] + b) == precedes(a, b),
{
    assert((seq![k] + a).drop_first() =~= a);
    assert((seq![k] + b).drop_first() =~= b);
}

proof fn lemma_walk(t: Tree, chain: Seq<Selector>, i: int, position: int)
    requires
        0 <= i,
    ensures
        in_document_order(walk(t, chain, i, position)),
        forall|j: int|
            0 <= j < walk(t, chain, i, position).len() ==> selected_at(
                t,
                #[trigger] walk(t, chain, i, position)[j],
                chain.last(),
                position,
            ),
    decreases t, 0int,
{
    let r = walk(t, chain, i, position);
    match t {
        Tree::Document { children } => {
            lemma_walk_children(children, chain, i, children.len() as int);
        },
        Tree::Element { name, attributes, children } => {
            if i < 0 || i >= chain.len() {
            } else if element_matches(chain[i], name, attributes, position) {
                if i + 1 == chain.len() {
                    assert(r[0] == Seq::<int>::empty());
                } else {
                    lemma_walk_children(children, chain, i + 1, children.len() as int);
                }
            } else {
                lemma_walk_children(children, chain, i, children.len() as int);
            }
        },
        _ => {},
    }
}

proof fn lemma_walk_children(kids: Seq<Tree>, chain: Seq<Selector>, i: int, k: int)
    requires
        0 <= i,
    ensures
        in_document_order(walk_children(kids, chain, i, k)),
        forall|j: int|
            0 <= j < walk_children(kids, chain, i, k).len() ==> {
                let p = #[trigger] walk_children(kids, chain, i, k)[j];
                &&& p.len() > 0
                &&& 0 <= p[0] < k
                &&& p[0] < kids.len()
                &&& selected_at(kids[p[0]], p.drop_first(), chain.last(), elements_before(kids, p[0]))
            },
    decreases kids, k,
{
    if k <= 0 || k > kids.len() {
    } else {
        let before = walk_children(kids, chain, i, k - 1);
        let w = walk(kids[k - 1], chain, i, elements_before(kids, k - 1));
        let after = under(k - 1, w);
        let r = walk_children(kids, chain, i, k);
        lemma_walk_children(kids, chain, i, k - 1);
        lemma_walk(kids[k - 1], chain, i, elements_before(kids, k - 1));
        assert(r == before + after);
        assert forall|j: int| 0 <= j < after.len() implies #[trigger] after[j].drop_first() == w[j] && after[j][0] == k - 1 by {
            assert(after[j].drop_first() =~= w[j]);
        }
        assert forall|j: int| 0 <= j < r.len() implies {
            let p = #[trigger] r[j];
            &&& p.len() > 0
            &&& 0 <= p[0] < k
            &&& p[0] < kids.len()
            &&& selected_at(kids[p[0]], p.drop_first(), chain.last(), elements_before(kids, p[0]))
        } by {
            if j >= before.len() {
                assert(r[j] == after[j - before.len()]);
            }
        }
        assert forall|x: int, y: int| 0 <= x < y < r.len() implies #[trigger] precedes(r[x], r[y]) by {
            if y < before.len() {
                assert(precedes(before[x], before[y]));
            } else if x < before.len() {
                assert(r[y] == after[y - before.len()]);
                assert(r[x][0] < k - 1);
            } else {
                let xa = x - before.len();
                let ya = y - before.len();
                assert(r[x] == after[xa]);
                assert(r[y] == after[ya]);
                assert(precedes(w[xa], w[ya]));
                lemma_precedes_under(k - 1, w[xa], w[ya]);
            }
        }
    }
}

/// Every element that the matcher selects is an element of the tree that
/// satisfies the chain's last selector, at the position among its siblings
/// where the walk reached it: nothing is selected by accident. (The root's
/// own position counts as 0.)
pub proof fn lemma_selected_satisfy_last(t: Tree, chain: Seq<Selector>)
    ensures
        forall|j: int|
            0 <= j < filter_spec(t, chain).len() ==> selected_at(
                t,
                #[trigger] filter_spec(t, chain)[j],
                chain.last(),
                0,
            ),
{
    lemma_walk(t, chain, 0, 0);
}

/// The matcher's result comes in document order, and so holds no element twice.
pub proof fn lemma_document_order(t: Tree, chain: Seq<Selector>)
    ensures
        in_document_order(filter_spec(t, chain)),
        forall|x: int, y: int|
            0 <= x < y < filter_spec(t, chain).len() ==> #[trigger] filter_spec(t, chain)[x] != #[trigger] filter_spec(
                t,
                chain,
            )[y],
{
    lemma_walk(t, chain, 0, 0);
    let r = filter_spec(t, chain);
    assert forall|x: int, y: int| 0 <= x < y < r.len() implies #[trigger] r[x] != #[trigger] r[y] by {
        assert(precedes(r[x], r[y]));
        lemma_precedes_irreflexive(r[x]);
    }
}

/// Running the matcher twice on the same tree and chain gives the same list,
/// in the same order: the result depends on the tree and the chain alone, and
/// the walk leaves the tree as it found it.
pub proof fn lemma_filter_repeatable<H>(
    root: DomNode<H>,
    selectors: Seq<CssSelector>,
    first: Seq<Vec<usize>>,
    second: Seq<Vec<usize>>,
)
    requires
        paths_view(first) == filter_spec(root@, chain_view(selectors)),
        paths_view(second) == filter_spec(root@, chain_view(selectors)),
    ensures
        paths_view(first) == paths_view(second),
{
}

/// An element that carries an attribute name more than once fails every id,
/// class or attribute test on that name, whatever the values: the test asks
/// for exactly one entry, not at least one.
pub proof fn lemma_repeated_name_fails(p: Predicate, attributes: Seq<(Seq<char>, Seq<char>)>)
    requires
        is_plain(p),
        name_count(subject(p), attributes) >= 2,
    ensures
        !plain_test_holds(p, attributes),
{
}

/// A path along which an element was selected leads to an element of the tree.
pub proof fn lemma_selected_is_element<H>(n: DomNode<H>, path: Seq<int>, s: Selector, position: int)
    requires
        selected_at(n@, path, s, position),
    ensures
        node_at(n, path) matches Some(DomNode::Element { .. }),
    decreases path.len(),
{
    lemma_children(n);
    if path.len() > 0 {
        match n {
            DomNode::Document { children } => {
                lemma_selected_is_element(
                    children@[path[0]],
                    path.drop_first(),
                    s,
                    elements_before(children_of(n@), path[0]),
                );
            },
            DomNode::Element { children, .. } => {
                lemma_selected_is_element(
                    children@[path[0]],
                    path.drop_first(),
                    s,
                    elements_before(children_of(n@), path[0]),
                );
            },
            _ => {},
        }
    }
}

} // verus!
