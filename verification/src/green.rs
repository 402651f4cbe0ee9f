//! Immutable syntax trees and the builder that makes them.
//!
//! A node has a kind and an ordered list of children; a token has a kind and
//! its text. The builder receives a tree in pre-order: `start_node` opens a
//! node, `token` adds a token to the open node, `finish_node` closes it. A
//! checkpoint taken earlier lets `start_node_at` open a node that adopts the
//! children added since the checkpoint.

use std::rc::Rc;
use vstd::prelude::*;
use vstd::string::StringExecFns;

use crate::cstgen::syntax::SyntaxKind;

verus! {

/// A syntax tree as a mathematical value.
pub enum Tree {
    Node { kind: SyntaxKind, children: Seq<Tree> },
    Leaf { kind: SyntaxKind, text: Seq<char> },
}

impl Tree {
    /// The kind of the root of the tree.
    pub open spec fn kind(self) -> SyntaxKind {
        match self {
            Tree::Node { kind, .. } => kind,
            Tree::Leaf { kind, .. } => kind,
        }
    }

    /// The children of a node (none for a token).
    pub open spec fn children(self) -> Seq<Tree> {
        match self {
            Tree::Node { children, .. } => children,
            Tree::Leaf { .. } => Seq::empty(),
        }
    }
}

/// The text of a tree: the texts of its tokens, in order.
pub open spec fn tree_text(t: Tree) -> Seq<char>
    decreases t, 1nat,
{
    match t {
        Tree::Leaf { text, .. } => text,
        Tree::Node { children, .. } => trees_text(children),
    }
}

/// The texts of `ts`, one after the other.
pub open spec fn trees_text(ts: Seq<Tree>) -> Seq<char>
    decreases ts, 0nat,
{
    if ts.len() == 0 {
        Seq::empty()
    } else {
        tree_text(ts[0]) + trees_text(ts.drop_first())
    }
}

/// The text of a concatenation of trees is the concatenation of their texts.
pub proof fn lemma_trees_text_concat(a: Seq<Tree>, b: Seq<Tree>)
    ensures
        trees_text(a + b) == trees_text(a) + trees_text(b),
    decreases a.len(),
{
    if a.len() == 0 {
        assert(a + b =~= b);
        assert(trees_text(a) + trees_text(b) =~= trees_text(b));
    } else {
        lemma_trees_text_concat(a.drop_first(), b);
        assert((a + b).drop_first() =~= a.drop_first() + b);
        assert((a + b)[0] == a[0]);
        assert(trees_text(a + b) =~= trees_text(a) + trees_text(b));
    }
}

/// Appending a tree appends its text.
pub proof fn lemma_trees_text_push(a: Seq<Tree>, t: Tree)
    ensures
        trees_text(a.push(t)) == trees_text(a) + tree_text(t),
{
    lemma_trees_text_concat(a, seq![t]);
    assert(a.push(t) =~= a + seq![t]);
    let one = seq![t];
    assert(one.drop_first() =~= Seq::<Tree>::empty());
    assert(one[0] == t);
    assert(trees_text(one.drop_first()) =~= Seq::<char>::empty());
    assert(trees_text(one) == tree_text(one[0]) + trees_text(one.drop_first()));
    assert(trees_text(one) =~= tree_text(t));
}

/// Calls `Rc::clone`, which makes another pointer to the same allocation;
/// the contract states that the new pointer holds the same value.
#[verifier::external_body]
fn rc_share<T>(rc: &Rc<T>) -> (r: Rc<T>)
    ensures
        r == *rc,
{
    Rc::clone(rc)
}

/// A token of a syntax tree.
#[derive(Debug, PartialEq, Eq, Hash)]
pub struct GreenToken {
    kind: SyntaxKind,
    text: Rc<String>,
}

/// What a node holds.
#[derive(Debug, PartialEq, Eq, Hash)]
struct NodeData {
    kind: SyntaxKind,
    children: Vec<GreenElement>,
}

/// A node of a syntax tree. Copies of a node share its data.
#[derive(Debug, PartialEq, Eq, Hash)]
pub struct GreenNode {
    data: Rc<NodeData>,
}

/// A child of a node: a node or a token.
#[derive(Debug, PartialEq, Eq, Hash)]
pub enum GreenElement {
    Node(GreenNode),
    Token(GreenToken),
}

/// The tree of a node.
pub closed spec fn node_tree(n: GreenNode) -> Tree
    decreases n, 1nat,
{
    Tree::Node { kind: n.data.kind, children: elems_tree(n.data.children@) }
}

/// The trees of a list of children.
pub closed spec fn elems_tree(cs: Seq<GreenElement>) -> Seq<Tree>
    decreases cs, 0nat,
{
    if cs.len() == 0 {
        Seq::empty()
    } else {
        seq![elem_tree(cs[0])] + elems_tree(cs.drop_first())
    }
}

/// The tree of a child.
pub closed spec fn elem_tree(e: GreenElement) -> Tree
    decreases e, 2nat,
{
    match e {
        GreenElement::Node(n) => node_tree(n),
        GreenElement::Token(t) => Tree::Leaf { kind: t.kind, text: t.text@ },
    }
}

/// The trees of a list of children are the trees of its elements.
pub proof fn lemma_elems_tree(cs: Seq<GreenElement>)
    ensures
        elems_tree(cs).len() == cs.len(),
        forall|i: int| 0 <= i < cs.len() ==> #[trigger] elems_tree(cs)[i] == elem_tree(cs[i]),
    decreases cs.len(),
{
    if cs.len() > 0 {
        lemma_elems_tree(cs.drop_first());
        assert forall|i: int| 0 <= i < cs.len() implies #[trigger] elems_tree(cs)[i] == elem_tree(cs[i]) by {
            if i > 0 {
                assert(elems_tree(cs)[i] == elems_tree(cs.drop_first())[i - 1]);
            }
        }
    }
}

impl View for GreenToken {
    type V = Tree;

    closed spec fn view(&self) -> Tree {
        Tree::Leaf { kind: self.kind, text: self.text@ }
    }
}

impl View for GreenNode {
    type V = Tree;

    closed spec fn view(&self) -> Tree {
        node_tree(*self)
    }
}

impl View for GreenElement {
    type V = Tree;

    closed spec fn view(&self) -> Tree {
        elem_tree(*self)
    }
}

impl Clone for GreenToken {
    fn clone(&self) -> (t: GreenToken)
        ensures
            t@ == self@,
    {
        GreenToken { kind: self.kind, text: rc_share(&self.text) }
    }
}

impl Clone for GreenNode {
    fn clone(&self) -> (n: GreenNode)
        ensures
            n@ == self@,
    {
        GreenNode { data: rc_share(&self.data) }
    }
}

impl Clone for GreenElement {
    fn clone(&self) -> (e: GreenElement)
        ensures
            e@ == self@,
    {
        match self {
            GreenElement::Node(n) => GreenElement::Node(n.clone()),
            GreenElement::Token(t) => GreenElement::Token(t.clone()),
        }
    }
}

impl GreenToken {
    /// A token of kind `kind` with text `text`.
    pub fn new(kind: SyntaxKind, text: String) -> (t: GreenToken)
        ensures
            t@ == (Tree::Leaf { kind, text: text@ }),
    {
        GreenToken { kind, text: Rc::new(text) }
    }

    /// The kind of the token.
    pub fn kind(&self) -> (k: SyntaxKind)
        ensures
            k == self@.kind(),
    {
        self.kind
    }

    /// The text of the token.
    pub fn text(&self) -> (s: &str)
        ensures
            s@ == tree_text(self@),
    {
        self.text.as_str()
    }
}

impl GreenNode {
    /// A node of kind `kind` with the given children.
    pub fn new(kind: SyntaxKind, children: Vec<GreenElement>) -> (n: GreenNode)
        ensures
            n@ is Node,
            n@.kind() == kind,
            n@.children().len() == children@.len(),
            forall|i: int| 0 <= i < children@.len() ==> #[trigger] n@.children()[i] == children@[i]@,
    {
        proof {
            lemma_elems_tree(children@);
        }
        GreenNode { data: Rc::new(NodeData { kind, children }) }
    }

    /// The kind of the node.
    pub fn kind(&self) -> (k: SyntaxKind)
        ensures
            k == self@.kind(),
    {
        self.data.kind
    }

    /// The children of the node, in order.
    pub fn children(&self) -> (cs: &Vec<GreenElement>)
        ensures
            self@ is Node,
            cs@.len() == self@.children().len(),
            forall|i: int| 0 <= i < cs@.len() ==> #[trigger] cs@[i]@ == self@.children()[i],
    {
        proof {
            lemma_elems_tree(self.data.children@);
        }
        &self.data.children
    }
}

impl GreenNode {
    /// The text of the node: the texts of its tokens, in order.
    pub fn text(&self) -> (s: String)
        ensures
            s@ == tree_text(self@),
        decreases self@,
    {
        let children = self.children();
        let ghost cs = self@.children();
        let mut s = String::new();
        let mut i: usize = 0;
        while i < children.len()
            invariant
                self@ is Node,
                cs == self@.children(),
                i <= children.len(),
                children@.len() == cs.len(),
                forall|j: int| 0 <= j < children@.len() ==> #[trigger] children@[j]@ == cs[j],
                s@ == trees_text(cs.take(i as int)),
            decreases children.len() - i,
        {
            let ghost before = s@;
            match children[i].as_node() {
                Some(node) => {
                    proof {
                        assert(decreases_to!(self@ => cs[i as int]));
                    }
                    let t = node.text();
                    s.append(t.as_str());
                },
                None => {
                    match children[i].as_token() {
                        Some(token) => {
                            s.append(token.text());
                        },
                        None => {},
                    }
                },
            }
            proof {
                lemma_trees_text_push(cs.take(i as int), cs[i as int]);
                assert(cs.take(i + 1) =~= cs.take(i as int).push(cs[i as int]));
            }
            i += 1;
        }
        proof {
            assert(cs.take(children.len() as int) =~= cs);
        }
        s
    }
}

impl GreenElement {
    /// The node, if this child is one.
    pub fn as_node(&self) -> (n: Option<&GreenNode>)
        ensures
            self@ is Node <==> n is Some,
            n matches Some(node) ==> node@ == self@,
    {
        match self {
            GreenElement::Node(node) => Some(node),
            GreenElement::Token(_) => None,
        }
    }

    /// The token, if this child is one.
    pub fn as_token(&self) -> (t: Option<&GreenToken>)
        ensures
            self@ is Leaf <==> t is Some,
            t matches Some(token) ==> token@ == self@,
    {
        match self {
            GreenElement::Node(_) => None,
            GreenElement::Token(token) => Some(token),
        }
    }

    /// The kind of the child.
    pub fn kind(&self) -> (k: SyntaxKind)
        ensures
            k == self@.kind(),
    {
        match self {
            GreenElement::Node(n) => n.kind(),
            GreenElement::Token(t) => t.kind(),
        }
    }
}

/// A place in the builder's list of finished children, to which a later
/// `start_node_at` can go back.
#[derive(Clone, Copy, Debug)]
pub struct Checkpoint(usize);

impl Checkpoint {
    /// The number of children finished when the checkpoint was taken.
    pub closed spec fn spec_index(self) -> nat {
        self.0 as nat
    }
}

/// What a builder holds: the open nodes (kind, index of the first child)
/// and the children finished so far.
pub struct BuilderModel {
    pub parents: Seq<(SyntaxKind, nat)>,
    pub children: Seq<Tree>,
}

impl BuilderModel {
    /// The builder of a new tree: nothing open, nothing finished.
    pub open spec fn empty() -> BuilderModel {
        BuilderModel { parents: Seq::empty(), children: Seq::empty() }
    }

    /// The open nodes start in order, each at a child that exists or at the end.
    pub closed spec fn wf(self) -> bool {
        &&& forall|i: int| 0 <= i < self.parents.len() ==> #[trigger] self.parents[i].1 <= self.children.len()
        &&& forall|i: int, j: int|
            0 <= i <= j < self.parents.len() ==> #[trigger] self.parents[i].1 <= #[trigger] self.parents[j].1
    }

    /// Opens a node of kind `kind`.
    pub open spec fn start_node(self, kind: SyntaxKind) -> BuilderModel {
        BuilderModel { parents: self.parents.push((kind, self.children.len())), children: self.children }
    }

    /// Whether a node may be opened at checkpoint index `at`.
    pub open spec fn can_start_at(self, at: nat) -> bool {
        &&& at <= self.children.len()
        &&& self.parents.len() > 0 ==> at >= self.parents.last().1
    }

    /// Opens a node of kind `kind` whose children start at index `at`.
    pub open spec fn start_node_at(self, at: nat, kind: SyntaxKind) -> BuilderModel {
        BuilderModel { parents: self.parents.push((kind, at)), children: self.children }
    }

    /// Adds a token.
    pub open spec fn token(self, kind: SyntaxKind, text: Seq<char>) -> BuilderModel {
        BuilderModel { parents: self.parents, children: self.children.push(Tree::Leaf { kind, text }) }
    }

    /// Closes the last opened node: its children are those finished since it opened.
    pub open spec fn finish_node(self) -> BuilderModel {
        let (kind, first) = self.parents.last();
        BuilderModel {
            parents: self.parents.drop_last(),
            children: self.children.take(first as int).push(
                Tree::Node { kind, children: self.children.skip(first as int) },
            ),
        }
    }

    /// The text of what has been built so far.
    pub open spec fn text(self) -> Seq<char> {
        trees_text(self.children)
    }
}

/// The builder of a new tree is well formed.
pub proof fn lemma_empty_wf()
    ensures
        BuilderModel::empty().wf(),
{
}

/// Opening and closing nodes keeps the builder well formed and its text;
/// a token adds its text.
pub proof fn lemma_builder_ops(b: BuilderModel, kind: SyntaxKind, text: Seq<char>, at: nat)
    requires
        b.wf(),
    ensures
        b.parents.len() > 0 ==> b.parents.last().1 <= b.children.len(),
        b.start_node(kind).wf(),
        b.start_node(kind).text() == b.text(),
        b.token(kind, text).wf(),
        b.token(kind, text).text() == b.text() + text,
        b.can_start_at(at) ==> b.start_node_at(at, kind).wf(),
        b.start_node_at(at, kind).text() == b.text(),
        b.parents.len() > 0 ==> b.finish_node().wf(),
        b.parents.len() > 0 ==> b.finish_node().text() == b.text(),
{
    lemma_trees_text_push(b.children, Tree::Leaf { kind, text });
    let s = b.start_node(kind);
    assert forall|i: int, j: int| 0 <= i <= j < s.parents.len() implies #[trigger] s.parents[i].1 <= #[trigger] s.parents[j].1 by {
        if j < b.parents.len() {
            assert(s.parents[i] == b.parents[i]);
            assert(s.parents[j] == b.parents[j]);
        } else if i < b.parents.len() {
            assert(s.parents[i] == b.parents[i]);
        }
    }
    assert forall|i: int| 0 <= i < s.parents.len() implies #[trigger] s.parents[i].1 <= s.children.len() by {
        if i < b.parents.len() {
            assert(s.parents[i] == b.parents[i]);
        }
    }
    if b.can_start_at(at) {
        let s2 = b.start_node_at(at, kind);
        assert forall|i: int, j: int| 0 <= i <= j < s2.parents.len() implies #[trigger] s2.parents[i].1 <= #[trigger] s2.parents[j].1 by {
            if j < b.parents.len() {
                assert(s2.parents[i] == b.parents[i]);
                assert(s2.parents[j] == b.parents[j]);
            } else if i < b.parents.len() {
                assert(s2.parents[i] == b.parents[i]);
                assert(b.parents[i].1 <= b.parents[b.parents.len() - 1].1);
            }
        }
        assert forall|i: int| 0 <= i < s2.parents.len() implies #[trigger] s2.parents[i].1 <= s2.children.len() by {
            if i < b.parents.len() {
                assert(s2.parents[i] == b.parents[i]);
            }
        }
    }
    let t = b.token(kind, text);
    assert forall|i: int| 0 <= i < t.parents.len() implies #[trigger] t.parents[i].1 <= t.children.len() by {
        assert(t.parents[i] == b.parents[i]);
    }
    if b.parents.len() > 0 {
        let (k, first) = b.parents.last();
        let f = b.finish_node();
        let n = b.parents.len();
        assert(first <= b.children.len());
        assert forall|i: int| 0 <= i < f.parents.len() implies #[trigger] f.parents[i].1 <= f.children.len() by {
            assert(f.parents[i] == b.parents[i]);
            assert(b.parents[i].1 <= b.parents[n - 1].1);
        }
        assert forall|i: int, j: int| 0 <= i <= j < f.parents.len() implies #[trigger] f.parents[i].1 <= #[trigger] f.parents[j].1 by {
            assert(f.parents[i] == b.parents[i]);
            assert(f.parents[j] == b.parents[j]);
        }
        let pre = b.children.take(first as int);
        let post = b.children.skip(first as int);
        lemma_trees_text_push(pre, Tree::Node { kind: k, children: post });
        lemma_trees_text_concat(pre, post);
        assert(pre + post =~= b.children);
    }
}

/// Builds a tree from a pre-order walk of it.
pub struct GreenNodeBuilder {
    parents: Vec<(SyntaxKind, usize)>,
    children: Vec<GreenElement>,
}

impl View for GreenNodeBuilder {
    type V = BuilderModel;

    closed spec fn view(&self) -> BuilderModel {
        BuilderModel {
            parents: self.parents@.map_values(|p: (SyntaxKind, usize)| (p.0, p.1 as nat)),
            children: elems_tree(self.children@),
        }
    }
}

impl GreenNodeBuilder {
    /// A builder with nothing open and nothing finished.
    pub fn new() -> (b: GreenNodeBuilder)
        ensures
            b@ == BuilderModel::empty(),
            b@.wf(),
    {
        let b = GreenNodeBuilder { parents: Vec::new(), children: Vec::new() };
        proof {
            assert(b@.parents =~= Seq::<(SyntaxKind, nat)>::empty());
            lemma_elems_tree(b.children@);
            assert(b@.children =~= Seq::<Tree>::empty());
        }
        b
    }

    /// Adds a token of kind `kind` with text `text` to the open node.
    pub fn token(&mut self, kind: SyntaxKind, text: String)
        ensures
            final(self)@ == old(self)@.token(kind, text@),
    {
        let ghost old_children = self.children@;
        let t = GreenToken::new(kind, text);
        self.children.push(GreenElement::Token(t));
        proof {
            lemma_elems_tree(old_children);
            lemma_elems_tree(self.children@);
            assert(elems_tree(self.children@) =~= elems_tree(old_children).push(Tree::Leaf { kind, text: text@ }));
        }
    }

    /// Opens a node of kind `kind`.
    pub fn start_node(&mut self, kind: SyntaxKind)
        ensures
            final(self)@ == old(self)@.start_node(kind),
    {
        let len = self.children.len();
        proof {
            lemma_elems_tree(self.children@);
        }
        self.parents.push((kind, len));
        proof {
            assert(self@.parents =~= old(self)@.parents.push((kind, old(self)@.children.len())));
        }
    }

    /// Closes the last opened node.
    pub fn finish_node(&mut self)
        requires
            old(self)@.wf(),
            old(self)@.parents.len() > 0,
        ensures
            final(self)@ == old(self)@.finish_node(),
    {
        let ghost old_children = self.children@;
        let ghost old_parents = self.parents@;
        proof {
            lemma_elems_tree(old_children);
            assert(old(self)@.parents[old_parents.len() - 1] == (old_parents[old_parents.len() - 1].0, old_parents[old_parents.len() - 1].1 as nat));
        }
        let (kind, first) = match self.parents.pop() {
            Some(p) => p,
            None => (SyntaxKind::Unknown, 0),
        };
        let tail = self.children.split_off(first);
        let node = GreenNode { data: Rc::new(NodeData { kind, children: tail }) };
        self.children.push(GreenElement::Node(node));
        proof {
            let m = old(self)@;
            lemma_elems_tree(tail@);
            lemma_elems_tree(self.children@);
            assert(node_tree(node) == (Tree::Node { kind, children: elems_tree(tail@) }));
            assert(elems_tree(tail@) =~= m.children.skip(first as int));
            assert(elems_tree(self.children@) =~= m.children.take(first as int).push(Tree::Node { kind, children: m.children.skip(first as int) }));
            assert(self@.parents =~= m.parents.drop_last());
        }
    }

    /// A checkpoint at the children finished so far.
    pub fn checkpoint(&self) -> (c: Checkpoint)
        ensures
            c.spec_index() == self@.children.len(),
    {
        proof {
            lemma_elems_tree(self.children@);
        }
        Checkpoint(self.children.len())
    }

    /// Opens a node of kind `kind` that adopts the children finished since `checkpoint`.
    pub fn start_node_at(&mut self, checkpoint: Checkpoint, kind: SyntaxKind)
        requires
            old(self)@.can_start_at(checkpoint.spec_index()),
        ensures
            final(self)@ == old(self)@.start_node_at(checkpoint.spec_index(), kind),
    {
        self.parents.push((kind, checkpoint.0));
        proof {
            assert(self@.parents =~= old(self)@.parents.push((kind, checkpoint.spec_index())));
        }
    }

    /// The finished tree: the one node left when everything is closed.
    pub fn finish(self) -> (n: GreenNode)
        requires
            self@.parents.len() == 0,
            self@.children.len() == 1,
            self@.children[0] is Node,
        ensures
            n@ == self@.children[0],
    {
        proof {
            lemma_elems_tree(self.children@);
        }
        let mut children = self.children;
        match children.pop() {
            Some(GreenElement::Node(n)) => n,
            _ => GreenNode::new(SyntaxKind::Unknown, Vec::new()),
        }
    }
}

} // verus!
