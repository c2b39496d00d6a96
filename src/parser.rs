//! The selector grammar: turns an expression such as `div.red > span#id`
//! into a chain of selectors.
//!
//! The expression is first cut into tokens at spaces (a space inside an
//! attribute selector `[...]` does not cut), then each token is read by a
//! small state machine, one character at a time.
use crate::text::{chars_of, string_of};
use vstd::prelude::*;

verus! {

/// The comparison made by an attribute selector.
#[derive(Debug, Clone, Copy, PartialEq, Eq, Structural)]
pub enum AttributeSign {
    /// `[name]`: the attribute is present, whatever its value.
    Empty,
    /// `[name=value]`
    Equal,
    /// `[name*=value]`
    Contain,
    /// `[name^=value]`
    BeginWith,
    /// `[name$=value]`
    EndWith,
}

/// One test that a selector makes on an element.
#[derive(Debug, Clone, PartialEq)]
pub enum CssSelectorAttribute {
    /// No test yet: the state of the reader before a marker was seen.
    Empty,
    /// `#value`: the `id` attribute equals the value.
    ID(String),
    /// `.value`: one of the whitespace-separated words of `class` is the value.
    Class(String),
    /// `[name]`, `[name=value]`, `[name*=value]`, `[name^=value]`, `[name$=value]`.
    Attribute(String, AttributeSign, Option<String>),
    /// `:name` or `:name(argument)`.
    PseudoClass(String, Option<String>),
}

/// How a selector relates to the one before it in a chain.
#[derive(Debug, Clone, Copy, PartialEq, Eq, Structural)]
pub enum CssCombinator {
    /// `A B`
    Descendant,
    /// `A > B`
    DirectChild,
    /// `A + B`
    AdjacentSibling,
}

impl Default for CssCombinator {
    fn default() -> (r: Self)
        ensures
            r == CssCombinator::Descendant,
    {
        CssCombinator::Descendant
    }
}

/// One step of a chain: an optional element name and the tests on the element.
#[derive(Debug, Clone, PartialEq)]
pub struct CssSelector {
    pub name: Option<String>,
    pub attributes: Vec<CssSelectorAttribute>,
    pub combinator: CssCombinator,
}

impl Default for CssSelector {
    fn default() -> (r: Self)
        ensures
            r@ == empty_selector(),
    {
        let r = CssSelector { name: None, attributes: Vec::new(), combinator: CssCombinator::Descendant };
        assert(r@.predicates =~= Seq::<Predicate>::empty());
        r
    }
}

/// The mathematical value of a `CssSelectorAttribute`.
pub enum Predicate {
    Empty,
    Id(Seq<char>),
    Class(Seq<char>),
    Attribute(Seq<char>, AttributeSign, Option<Seq<char>>),
    PseudoClass(Seq<char>, Option<Seq<char>>),
}

/// The mathematical value of a `CssSelector`.
pub struct Selector {
    pub name: Option<Seq<char>>,
    pub predicates: Seq<Predicate>,
    pub combinator: CssCombinator,
}

pub open spec fn opt_view(o: Option<String>) -> Option<Seq<char>> {
    match o {
        Some(s) => Some(s@),
        None => None,
    }
}

impl View for CssSelectorAttribute {
    type V = Predicate;

    open spec fn view(&self) -> Predicate {
        match self {
            CssSelectorAttribute::Empty => Predicate::Empty,
            CssSelectorAttribute::ID(s) => Predicate::Id(s@),
            CssSelectorAttribute::Class(s) => Predicate::Class(s@),
            CssSelectorAttribute::Attribute(n, sign, v) => Predicate::Attribute(n@, *sign, opt_view(*v)),
            CssSelectorAttribute::PseudoClass(n, a) => Predicate::PseudoClass(n@, opt_view(*a)),
        }
    }
}

impl View for CssSelector {
    type V = Selector;

    open spec fn view(&self) -> Selector {
        Selector {
            name: opt_view(self.name),
            predicates: self.attributes@.map_values(|a: CssSelectorAttribute| a@),
            combinator: self.combinator,
        }
    }
}

/// The mathematical value of a chain of selectors.
pub open spec fn chain_view(v: Seq<CssSelector>) -> Seq<Selector> {
    v.map_values(|s: CssSelector| s@)
}

/// A selector with no name and no test: it matches every element.
pub open spec fn empty_selector() -> Selector {
    Selector { name: None, predicates: Seq::empty(), combinator: CssCombinator::Descendant }
}

// ---------------------------------------------------------------------------
// Cutting the expression into tokens.
/// The state of the cutter: the tokens already cut, the token being read, and
/// whether the reader stands inside `[...]`.
pub struct CutState {
    pub done: Seq<Seq<char>>,
    pub current: Seq<char>,
    pub in_brackets: bool,
}

pub open spec fn cut_step(st: CutState, c: char) -> CutState {
    if c == ' ' && !st.in_brackets {
        CutState { done: st.done.push(st.current), current: Seq::empty(), in_brackets: false }
    } else if c == '[' {
        CutState { done: st.done, current: st.current.push(c), in_brackets: true }
    } else if c == ']' {
        CutState { done: st.done, current: st.current.push(c), in_brackets: false }
    } else {
        CutState { done: st.done, current: st.current.push(c), in_brackets: st.in_brackets }
    }
}

/// The cutter's state after reading all of `s`.
pub open spec fn cut_prefix(s: Seq<char>) -> CutState
    decreases s.len(),
{
    if s.len() == 0 {
        CutState { done: Seq::empty(), current: Seq::empty(), in_brackets: false }
    } else {
        cut_step(cut_prefix(s.drop_last()), s.last())
    }
}

/// The tokens of an expression. Every space outside `[...]` ends a token, so
/// two spaces in a row give an empty token; a last token that is empty is dropped.
pub open spec fn tokens_of(s: Seq<char>) -> Seq<Seq<char>> {
    let st = cut_prefix(s);
    if st.current.len() > 0 {
        st.done.push(st.current)
    } else {
        st.done
    }
}

// ---------------------------------------------------------------------------
// Reading one token.
/// The state of the token reader: the name read so far, the tests already
/// complete, the test being read, and the previous character of the token.
pub struct ReadState {
    pub name: Option<Seq<char>>,
    pub done: Seq<Predicate>,
    pub pending: Predicate,
    pub prev: char,
}

pub open spec fn read_start() -> ReadState {
    ReadState { name: None, done: Seq::empty(), pending: Predicate::Empty, prev: '\0' }
}

/// The complete tests, with the pending one added unless no test was begun.
pub open spec fn flushed(st: ReadState) -> Seq<Predicate> {
    if st.pending is Empty {
        st.done
    } else {
        st.done.push(st.pending)
    }
}

pub open spec fn is_marker(c: char) -> bool {
    c == '#' || c == '.' || c == '[' || c == ':'
}

/// The empty test that a marker begins.
pub open spec fn begun_by(c: char) -> Predicate {
    if c == '#' {
        Predicate::Id(Seq::empty())
    } else if c == '.' {
        Predicate::Class(Seq::empty())
    } else if c == '[' {
        Predicate::Attribute(Seq::empty(), AttributeSign::Empty, None)
    } else {
        Predicate::PseudoClass(Seq::empty(), None)
    }
}

pub open spec fn append_opt(o: Option<Seq<char>>, c: char) -> Option<Seq<char>> {
    match o {
        Some(s) => Some(s.push(c)),
        None => Some(seq![c]),
    }
}

/// One character inside an open `[...]` whose name is `n`, comparison `sign`
/// and value `v`; `prev` is the character before it. The `=` that sets the
/// comparison starts an empty value, so a value is absent exactly while the
/// test is still a presence test. `*`, `$` and `^` are dropped wherever the
/// value is absent or still empty.
pub open spec fn attribute_step(
    st: ReadState,
    n: Seq<char>,
    sign: AttributeSign,
    v: Option<Seq<char>>,
    c: char,
) -> ReadState {
    if c == ']' {
        ReadState {
            name: st.name,
            done: st.done.push(Predicate::Attribute(n, sign, v)),
            pending: Predicate::Empty,
            prev: c,
        }
    } else if c == '=' && sign == AttributeSign::Empty {
        let sign = if st.prev == '^' {
            AttributeSign::BeginWith
        } else if st.prev == '$' {
            AttributeSign::EndWith
        } else if st.prev == '*' {
            AttributeSign::Contain
        } else {
            AttributeSign::Equal
        };
        ReadState { pending: Predicate::Attribute(n, sign, Some(Seq::empty())), prev: c, ..st }
    } else if (c == '*' || c == '$' || c == '^') && (v is None || v == Some(Seq::<char>::empty())) {
        ReadState { prev: c, ..st }
    } else if sign == AttributeSign::Empty {
        ReadState { pending: Predicate::Attribute(n.push(c), sign, v), prev: c, ..st }
    } else if c == '\'' || c == '"' {
        ReadState { prev: c, ..st }
    } else {
        ReadState { pending: Predicate::Attribute(n, sign, append_opt(v, c)), prev: c, ..st }
    }
}

/// One character after `:`; `n` is the name and `a` the argument read so far.
pub open spec fn pseudo_step(st: ReadState, n: Seq<char>, a: Option<Seq<char>>, c: char) -> ReadState {
    if c == '(' || c == ')' {
        ReadState { prev: c, ..st }
    } else if st.prev == '(' {
        ReadState { pending: Predicate::PseudoClass(n, Some(seq![c])), prev: c, ..st }
    } else if a is Some {
        ReadState { pending: Predicate::PseudoClass(n, append_opt(a, c)), prev: c, ..st }
    } else {
        ReadState { pending: Predicate::PseudoClass(n.push(c), None), prev: c, ..st }
    }
}

/// The token reader's transition on one character.
pub open spec fn read_step(st: ReadState, c: char) -> ReadState {
    if is_marker(c) && !(st.pending is Attribute) {
        ReadState { name: st.name, done: flushed(st), pending: begun_by(c), prev: c }
    } else {
        match st.pending {
            Predicate::Empty => ReadState { name: append_opt(st.name, c), prev: c, ..st },
            Predicate::Id(s) => ReadState { pending: Predicate::Id(s.push(c)), prev: c, ..st },
            Predicate::Class(s) => ReadState { pending: Predicate::Class(s.push(c)), prev: c, ..st },
            Predicate::Attribute(n, sign, v) => attribute_step(st, n, sign, v, c),
            Predicate::PseudoClass(n, a) => pseudo_step(st, n, a, c),
        }
    }
}

/// The token reader's state after reading all of `t`.
pub open spec fn read_prefix(t: Seq<char>) -> ReadState
    decreases t.len(),
{
    if t.len() == 0 {
        read_start()
    } else {
        read_step(read_prefix(t.drop_last()), t.last())
    }
}

/// The selector that a token denotes, given the combinator before it.
pub open spec fn selector_of(t: Seq<char>, combinator: CssCombinator) -> Selector {
    let st = read_prefix(t);
    Selector { name: st.name, predicates: flushed(st), combinator }
}

// ---------------------------------------------------------------------------
// The chain.
/// The selectors built from the first tokens, and the combinator that the
/// next selector takes.
pub open spec fn chain_prefix(ts: Seq<Seq<char>>) -> (Seq<Selector>, CssCombinator)
    decreases ts.len(),
{
    if ts.len() == 0 {
        (Seq::empty(), CssCombinator::Descendant)
    } else {
        let (nodes, comb) = chain_prefix(ts.drop_last());
        let t = ts.last();
        if t == seq!['>'] {
            (nodes, CssCombinator::DirectChild)
        } else if t == seq!['+'] {
            (nodes, CssCombinator::AdjacentSibling)
        } else {
            (nodes.push(selector_of(t, comb)), CssCombinator::Descendant)
        }
    }
}

/// The chain that an expression denotes; an expression that yields no
/// selector at all denotes the one selector that matches every element.
pub open spec fn parse_spec(s: Seq<char>) -> Seq<Selector> {
    let nodes = chain_prefix(tokens_of(s)).0;
    if nodes.len() == 0 {
        seq![empty_selector()]
    } else {
        nodes
    }
}


// ---------------------------------------------------------------------------
// The executable reader.
/// A test being read, with its text still as characters.
enum Pending {
    Empty,
    Id(Vec<char>),
    Class(Vec<char>),
    Attribute(Vec<char>, AttributeSign, Option<Vec<char>>),
    PseudoClass(Vec<char>, Option<Vec<char>>),
}

spec fn opt_chars(o: Option<Vec<char>>) -> Option<Seq<char>> {
    match o {
        Some(v) => Some(v@),
        None => None,
    }
}

impl View for Pending {
    type V = Predicate;

    closed spec fn view(&self) -> Predicate {
        match self {
            Pending::Empty => Predicate::Empty,
            Pending::Id(s) => Predicate::Id(s@),
            Pending::Class(s) => Predicate::Class(s@),
            Pending::Attribute(n, sign, v) => Predicate::Attribute(n@, *sign, opt_chars(*v)),
            Pending::PseudoClass(n, a) => Predicate::PseudoClass(n@, opt_chars(*a)),
        }
    }
}

struct Reader {
    name: Option<Vec<char>>,
    done: Vec<CssSelectorAttribute>,
    pending: Pending,
    prev: char,
}

impl View for Reader {
    type V = ReadState;

    closed spec fn view(&self) -> ReadState {
        ReadState {
            name: opt_chars(self.name),
            done: self.done@.map_values(|a: CssSelectorAttribute| a@),
            pending: self.pending@,
            prev: self.prev,
        }
    }
}

fn opt_string(o: &Option<Vec<char>>) -> (r: Option<String>)
    ensures
        opt_view(r) == opt_chars(*o),
{
    match o {
        Some(v) => Some(string_of(v)),
        None => None,
    }
}

fn push_opt(o: Option<Vec<char>>, c: char) -> (r: Option<Vec<char>>)
    ensures
        opt_chars(r) == append_opt(opt_chars(o), c),
{
    match o {
        Some(mut v) => {
            v.push(c);
            Some(v)
        },
        None => {
            let mut v: Vec<char> = Vec::new();
            v.push(c);
            assert(v@ =~= seq![c]);
            Some(v)
        },
    }
}

/// The complete tests of `r`, with its pending one added unless none was begun.
fn flush(r: Reader) -> (out: Vec<CssSelectorAttribute>)
    ensures
        out@.map_values(|a: CssSelectorAttribute| a@) == flushed(r@),
{
    let mut done = r.done;
    let ghost before = done@;
    let attribute = match &r.pending {
        Pending::Empty => {
            return done;
        },
        Pending::Id(s) => CssSelectorAttribute::ID(string_of(s)),
        Pending::Class(s) => CssSelectorAttribute::Class(string_of(s)),
        Pending::Attribute(n, sign, v) => CssSelectorAttribute::Attribute(
            string_of(n),
            *sign,
            opt_string(v),
        ),
        Pending::PseudoClass(n, a) => CssSelectorAttribute::PseudoClass(string_of(n), opt_string(a)),
    };
    done.push(attribute);
    assert(done@.map_values(|a: CssSelectorAttribute| a@) =~= before.map_values(
        |a: CssSelectorAttribute| a@,
    ).push(r.pending@));
    done
}

fn begin(c: char) -> (p: Pending)
    requires
        is_marker(c),
    ensures
        p@ == begun_by(c),
{
    if c == '#' {
        Pending::Id(Vec::new())
    } else if c == '.' {
        Pending::Class(Vec::new())
    } else if c == '[' {
        Pending::Attribute(Vec::new(), AttributeSign::Empty, None)
    } else {
        Pending::PseudoClass(Vec::new(), None)
    }
}

fn read_char(r: Reader, c: char) -> (out: Reader)
    ensures
        out@ == read_step(r@, c),
{
    let ghost st = r@;
    let in_attribute = match &r.pending {
        Pending::Attribute(..) => true,
        _ => false,
    };
    if (c == '#' || c == '.' || c == '[' || c == ':') && !in_attribute {
        let name = r.name;
        let prev = r.prev;
        let done = flush(Reader { name: None, done: r.done, pending: r.pending, prev });
        return Reader { name, done, pending: begin(c), prev: c };
    }
    let Reader { name, done, pending, prev } = r;
    match pending {
        Pending::Empty => Reader { name: push_opt(name, c), done, pending: Pending::Empty, prev: c },
        Pending::Id(mut s) => {
            s.push(c);
            Reader { name, done, pending: Pending::Id(s), prev: c }
        },
        Pending::Class(mut s) => {
            s.push(c);
            Reader { name, done, pending: Pending::Class(s), prev: c }
        },
        Pending::Attribute(mut n, sign, v) => {
            let unset = match &v {
                None => true,
                Some(s) => s.len() == 0,
            };
            assert(unset == (opt_chars(v) is None || opt_chars(v) == Some(Seq::<char>::empty()))) by {
                if let Some(s) = v {
                    if s@.len() == 0 {
                        assert(s@ =~= Seq::<char>::empty());
                    }
                }
            }
            if c == ']' {
                let mut done = done;
                let ghost before = done@;
                let a = CssSelectorAttribute::Attribute(string_of(&n), sign, opt_string(&v));
                done.push(a);
                assert(done@.map_values(|a: CssSelectorAttribute| a@) =~= before.map_values(
                    |a: CssSelectorAttribute| a@,
                ).push(Predicate::Attribute(n@, sign, opt_chars(v))));
                Reader { name, done, pending: Pending::Empty, prev: c }
            } else if c == '=' && sign == AttributeSign::Empty {
                let sign = if prev == '^' {
                    AttributeSign::BeginWith
                } else if prev == '$' {
                    AttributeSign::EndWith
                } else if prev == '*' {
                    AttributeSign::Contain
                } else {
                    AttributeSign::Equal
                };
                let value: Vec<char> = Vec::new();
                assert(value@ =~= Seq::<char>::empty());
                Reader { name, done, pending: Pending::Attribute(n, sign, Some(value)), prev: c }
            } else if (c == '*' || c == '$' || c == '^') && unset {
                Reader { name, done, pending: Pending::Attribute(n, sign, v), prev: c }
            } else if sign == AttributeSign::Empty {
                n.push(c);
                Reader { name, done, pending: Pending::Attribute(n, sign, v), prev: c }
            } else if c == '\'' || c == '"' {
                Reader { name, done, pending: Pending::Attribute(n, sign, v), prev: c }
            } else {
                Reader { name, done, pending: Pending::Attribute(n, sign, push_opt(v, c)), prev: c }
            }
        },
        Pending::PseudoClass(mut n, a) => {
            if c == '(' || c == ')' {
                Reader { name, done, pending: Pending::PseudoClass(n, a), prev: c }
            } else if prev == '(' {
                let mut s: Vec<char> = Vec::new();
                s.push(c);
                assert(s@ =~= seq![c]);
                Reader { name, done, pending: Pending::PseudoClass(n, Some(s)), prev: c }
            } else if a.is_some() {
                Reader { name, done, pending: Pending::PseudoClass(n, push_opt(a, c)), prev: c }
            } else {
                n.push(c);
                Reader { name, done, pending: Pending::PseudoClass(n, None), prev: c }
            }
        },
    }
}

/// The selector that the token `t` denotes, given the combinator before it.
fn read_token(t: &Vec<char>, combinator: CssCombinator) -> (r: CssSelector)
    ensures
        r@ == selector_of(t@, combinator),
{
    let mut reader = Reader { name: None, done: Vec::new(), pending: Pending::Empty, prev: '\0' };
    assert(reader@.done =~= Seq::<Predicate>::empty());
    let mut i: usize = 0;
    while i < t.len()
        invariant
            i <= t.len(),
            reader@ == read_prefix(t@.take(i as int)),
        decreases t.len() - i,
    {
        assert(t@.take(i + 1).drop_last() =~= t@.take(i as int));
        reader = read_char(reader, t[i]);
        i = i + 1;
    }
    assert(t@.take(i as int) =~= t@);
    let name = opt_string(&reader.name);
    let attributes = flush(reader);
    CssSelector { name, attributes, combinator }
}

spec fn token_views(ts: Seq<Vec<char>>) -> Seq<Seq<char>> {
    ts.map_values(|t: Vec<char>| t@)
}

/// The tokens of the expression whose characters are `s`.
fn cut(s: &Vec<char>) -> (r: Vec<Vec<char>>)
    ensures
        token_views(r@) == tokens_of(s@),
{
    let mut done: Vec<Vec<char>> = Vec::new();
    let mut current: Vec<char> = Vec::new();
    let mut in_brackets = false;
    let mut i: usize = 0;
    assert(token_views(done@) =~= Seq::<Seq<char>>::empty());
    while i < s.len()
        invariant
            i <= s.len(),
            token_views(done@) == cut_prefix(s@.take(i as int)).done,
            current@ == cut_prefix(s@.take(i as int)).current,
            in_brackets == cut_prefix(s@.take(i as int)).in_brackets,
        decreases s.len() - i,
    {
        assert(s@.take(i + 1).drop_last() =~= s@.take(i as int));
        let c = s[i];
        if c == ' ' && !in_brackets {
            let ghost before = done@;
            done.push(current);
            assert(token_views(done@) =~= token_views(before).push(current@));
            current = Vec::new();
        } else {
            if c == '[' {
                in_brackets = true;
            } else if c == ']' {
                in_brackets = false;
            }
            current.push(c);
        }
        i = i + 1;
    }
    assert(s@.take(i as int) =~= s@);
    if current.len() > 0 {
        let ghost before = done@;
        done.push(current);
        assert(token_views(done@) =~= token_views(before).push(current@));
    }
    done
}

/// Whether the token is the single character `c`.
fn is_single(t: &Vec<char>, c: char) -> (r: bool)
    ensures
        r == (t@ == seq![c]),
{
    if t.len() == 1 && t[0] == c {
        assert(t@ =~= seq![c]);
        true
    } else {
        false
    }
}

// ---------------------------------------------------------------------------
// Values and comparisons.
/// An attribute test has a value exactly when its comparison is not the
/// presence test; other tests have nothing to say here.
pub open spec fn value_fits_sign(p: Predicate) -> bool {
    p matches Predicate::Attribute(_, sign, v) ==> ((sign == AttributeSign::Empty) <==> v is None)
}

pub open spec fn tests_fit_signs(ps: Seq<Predicate>) -> bool {
    forall|j: int| 0 <= j < ps.len() ==> value_fits_sign(#[trigger] ps[j])
}

/// Every attribute test of the chain has a value exactly when it is not a presence test.
pub open spec fn chain_fits_signs(c: Seq<Selector>) -> bool {
    forall|i: int| 0 <= i < c.len() ==> tests_fit_signs(#[trigger] c[i].predicates)
}

proof fn lemma_read_prefix_fits(t: Seq<char>)
    ensures
        tests_fit_signs(read_prefix(t).done),
        value_fits_sign(read_prefix(t).pending),
    decreases t.len(),
{
    if t.len() > 0 {
        lemma_read_prefix_fits(t.drop_last());
        let st = read_prefix(t.drop_last());
        let done = read_prefix(t).done;
        assert forall|j: int| 0 <= j < done.len() implies value_fits_sign(#[trigger] done[j]) by {
            if j < st.done.len() {
                assert(done[j] == st.done[j]);
            }
        }
    }
}

proof fn lemma_chain_prefix_fits(ts: Seq<Seq<char>>)
    ensures
        chain_fits_signs(chain_prefix(ts).0),
    decreases ts.len(),
{
    if ts.len() > 0 {
        lemma_chain_prefix_fits(ts.drop_last());
        let nodes = chain_prefix(ts.drop_last()).0;
        let all = chain_prefix(ts).0;
        lemma_read_prefix_fits(ts.last());
        let st = read_prefix(ts.last());
        assert(tests_fit_signs(flushed(st))) by {
            let f = flushed(st);
            assert forall|j: int| 0 <= j < f.len() implies value_fits_sign(#[trigger] f[j]) by {
                if j < st.done.len() {
                    assert(f[j] == st.done[j]);
                }
            }
        }
        assert forall|i: int| 0 <= i < all.len() implies tests_fit_signs(#[trigger] all[i].predicates) by {
            if i < nodes.len() {
                assert(all[i] == nodes[i]);
            }
        }
    }
}

/// What `parse` yields: an attribute test carries a value exactly when its
/// comparison is not the presence test (`[a=]` compares with the empty value).
pub proof fn lemma_parse_fits_signs(s: Seq<char>)
    ensures
        chain_fits_signs(parse_spec(s)),
{
    lemma_chain_prefix_fits(tokens_of(s));
    let c = parse_spec(s);
    if chain_prefix(tokens_of(s)).0.len() == 0 {
        assert(tests_fit_signs(c[0].predicates));
    }
}

/// Parses a selector expression into its chain of selectors.
///
/// Parsing never fails: what the grammar does not foresee is read as well as
/// it goes (a stray character becomes part of a name or a value). The chain
/// always holds at least one selector.
pub fn parse(expression: String) -> (r: Vec<CssSelector>)
    ensures
        chain_view(r@) == parse_spec(expression@),
        r@.len() >= 1,
        chain_fits_signs(chain_view(r@)),
{
    proof {
        lemma_parse_fits_signs(expression@);
    }
    let chars = chars_of(expression.as_str());
    let tokens = cut(&chars);
    let ghost ts = token_views(tokens@);
    let mut nodes: Vec<CssSelector> = Vec::new();
    let mut combinator = CssCombinator::Descendant;
    let mut i: usize = 0;
    assert(chain_view(nodes@) =~= Seq::<Selector>::empty());
    while i < tokens.len()
        invariant
            i <= tokens.len(),
            ts == token_views(tokens@),
            (chain_view(nodes@), combinator) == chain_prefix(ts.take(i as int)),
        decreases tokens.len() - i,
    {
        assert(ts.take(i + 1).drop_last() =~= ts.take(i as int));
        let t = &tokens[i];
        assert(ts.take(i + 1).last() == t@);
        if is_single(t, '>') {
            combinator = CssCombinator::DirectChild;
        } else if is_single(t, '+') {
            combinator = CssCombinator::AdjacentSibling;
        } else {
            let ghost before = nodes@;
            nodes.push(read_token(t, combinator));
            assert(chain_view(nodes@) =~= chain_view(before).push(nodes@.last()@));
            combinator = CssCombinator::Descendant;
        }
        i = i + 1;
    }
    assert(ts.take(i as int) =~= ts);
    if nodes.len() == 0 {
        nodes.push(CssSelector::default());
        assert(chain_view(nodes@) =~= seq![empty_selector()]);
    }
    nodes
}

} // verus!
