//! A typed view of the concrete syntax tree.
//!
//! Each AST type wraps a node of the tree whose kind it accepts; its
//! accessors find child nodes of the kinds they look for, in order.

pub mod ast;
pub mod traits;

use vstd::prelude::*;

use crate::cstgen::syntax::SyntaxKind;
use crate::green::{GreenNode, Tree};
use ast::{SyntaxNode, SyntaxToken};

verus! {

broadcast use Seq::filter_distributes_over_add;

/// A type that views nodes of some kinds of the syntax tree.
pub trait AstNode: Sized {
    /// Whether nodes of kind `kind` are of this type.
    spec fn kind_fits(kind: SyntaxKind) -> bool;

    /// The node this value views.
    spec fn tree(&self) -> Tree;

    /// Whether the value is of the type, or (for an enum) of the variant,
    /// that the kind of its node calls for.
    spec fn kind_agrees(&self) -> bool;

    /// Whether nodes of kind `kind` are of this type.
    fn can_cast(kind: SyntaxKind) -> (b: bool)
        ensures
            b == Self::kind_fits(kind),
    ;

    /// Views `syntax` as this type, if its kind fits.
    fn cast(syntax: SyntaxNode) -> (r: Option<Self>)
        ensures
            r is Some <==> Self::kind_fits(syntax@.kind()),
            r matches Some(n) ==> n.tree() == syntax@ && n.kind_agrees(),
    ;

    /// The node this value views.
    fn syntax(&self) -> (s: &SyntaxNode)
        ensures
            s@ == self.tree(),
    ;
}

/// The test for a child that is a node.
pub open spec fn is_node() -> spec_fn(Tree) -> bool {
    |c: Tree| c is Node
}

/// The test for a node that a `T` views.
pub open spec fn fits<T: AstNode>() -> spec_fn(Tree) -> bool {
    |c: Tree| T::kind_fits(c.kind())
}

/// The test for a node of kind `kind`.
pub open spec fn of_kind(kind: SyntaxKind) -> spec_fn(Tree) -> bool {
    |c: Tree| c.kind() == kind
}

/// The test for a token of kind `kind`.
pub open spec fn token_of_kind(kind: SyntaxKind) -> spec_fn(Tree) -> bool {
    |c: Tree| c is Leaf && c.kind() == kind
}

/// The children of `t` that are nodes, in order.
pub open spec fn child_nodes(t: Tree) -> Seq<Tree> {
    t.children().filter(is_node())
}

/// The child nodes of `t` that a `T` views, in order.
pub open spec fn children_as<T: AstNode>(t: Tree) -> Seq<Tree> {
    child_nodes(t).filter(fits::<T>())
}

/// The first of a sequence, if there is one.
pub open spec fn first(s: Seq<Tree>) -> Option<Tree> {
    if s.len() > 0 {
        Some(s[0])
    } else {
        None
    }
}

/// The `n`-th child node of `t` that a `T` views, if there is one.
pub open spec fn nth_child_as<T: AstNode>(t: Tree, n: int) -> Option<Tree> {
    let cs = children_as::<T>(t);
    if 0 <= n < cs.len() {
        Some(cs[n])
    } else {
        None
    }
}

/// The trees that `ns` view.
pub open spec fn trees<T: AstNode>(ns: Seq<T>) -> Seq<Tree> {
    ns.map_values(|n: T| n.tree())
}

/// The tree that `n` views, if there is one.
pub open spec fn tree_of<T: AstNode>(n: Option<T>) -> Option<Tree> {
    match n {
        Some(x) => Some(x.tree()),
        None => None,
    }
}

/// A value, if there is one, is of the type or variant its node's kind calls for.
pub open spec fn agrees<T: AstNode>(n: Option<T>) -> bool {
    n matches Some(x) ==> x.kind_agrees()
}

/// Every value of `ns` is of the type or variant its node's kind calls for.
pub open spec fn all_agree<T: AstNode>(ns: Seq<T>) -> bool {
    forall|i: int| 0 <= i < ns.len() ==> #[trigger] ns[i].kind_agrees()
}

/// Filtering one element more of a sequence.
pub proof fn lemma_filter_take<A>(s: Seq<A>, pred: spec_fn(A) -> bool, i: int)
    requires
        0 <= i < s.len(),
    ensures
        s.take(i + 1).filter(pred) == if pred(s[i]) {
            s.take(i).filter(pred).push(s[i])
        } else {
            s.take(i).filter(pred)
        },
{
    reveal(Seq::filter);
    assert(s.take(i + 1).drop_last() =~= s.take(i));
}

/// Where the first `i` elements of `s` hold `k` elements that pass `pred`
/// and element `i` passes, the `k`-th element that passes is element `i`.
pub proof fn lemma_filter_hit<A>(s: Seq<A>, pred: spec_fn(A) -> bool, i: int)
    requires
        0 <= i < s.len(),
        pred(s[i]),
    ensures
        s.take(i).filter(pred).len() < s.filter(pred).len(),
        s.filter(pred)[s.take(i).filter(pred).len() as int] == s[i],
{
    lemma_filter_take(s, pred, i);
    assert(s =~= s.take(i + 1) + s.skip(i + 1));
    assert((s.take(i + 1) + s.skip(i + 1)).filter(pred) == s.take(i + 1).filter(pred) + s.skip(i + 1).filter(pred));
}

/// The child nodes of `node` that a `T` views, in order.
pub(crate) fn cast_children<T: AstNode>(node: &SyntaxNode) -> (r: Vec<T>)
    ensures
        trees(r@) == children_as::<T>(node@),
        all_agree(r@),
{
    let cs = node.children();
    let ghost s = child_nodes(node@);
    let mut r: Vec<T> = Vec::new();
    let mut i: usize = 0;
    while i < cs.len()
        invariant
            i <= cs.len(),
            s.len() == cs.len(),
            forall|j: int| 0 <= j < cs.len() ==> #[trigger] cs@[j]@ == s[j],
            trees(r@) == s.take(i as int).filter(fits::<T>()),
            all_agree(r@),
        decreases cs.len() - i,
    {
        proof {
            lemma_filter_take(s, fits::<T>(), i as int);
        }
        let c = cs[i].clone();
        match T::cast(c) {
            Some(t) => {
                r.push(t);
                proof {
                    assert(trees(r@) =~= s.take(i as int).filter(fits::<T>()).push(s[i as int]));
                }
            },
            None => {},
        }
        i += 1;
    }
    proof {
        assert(s.take(cs.len() as int) =~= s);
    }
    r
}

/// The `n`-th child node of `node` that a `T` views, if there is one.
pub(crate) fn nth_child<T: AstNode>(node: &SyntaxNode, n: usize) -> (r: Option<T>)
    ensures
        tree_of(r) == nth_child_as::<T>(node@, n as int),
        agrees(r),
{
    let cs = node.children();
    let ghost s = child_nodes(node@);
    let mut count: usize = 0;
    let mut i: usize = 0;
    while i < cs.len()
        invariant
            i <= cs.len(),
            s == child_nodes(node@),
            s.len() == cs.len(),
            forall|j: int| 0 <= j < cs.len() ==> #[trigger] cs@[j]@ == s[j],
            count == s.take(i as int).filter(fits::<T>()).len(),
            count <= n,
        decreases cs.len() - i,
    {
        proof {
            lemma_filter_take(s, fits::<T>(), i as int);
        }
        let c = cs[i].clone();
        match T::cast(c) {
            Some(t) => {
                if count == n {
                    proof {
                        lemma_filter_hit(s, fits::<T>(), i as int);
                    }
                    return Some(t);
                }
                count += 1;
            },
            None => {},
        }
        i += 1;
    }
    proof {
        assert(s.take(cs.len() as int) =~= s);
    }
    None
}

/// The first child node of `node` that a `T` views, if there is one.
pub(crate) fn find_child<T: AstNode>(node: &SyntaxNode) -> (r: Option<T>)
    ensures
        tree_of(r) == first(children_as::<T>(node@)),
        agrees(r),
{
    nth_child(node, 0)
}

/// The first child node of `node` of kind `kind`, if there is one.
pub(crate) fn find_node(node: &SyntaxNode, kind: SyntaxKind) -> (r: Option<SyntaxNode>)
    ensures
        match first(child_nodes(node@).filter(of_kind(kind))) {
            Some(t) => r matches Some(c) && c@ == t,
            None => r is None,
        },
{
    let cs = node.children();
    let ghost s = child_nodes(node@);
    let mut i: usize = 0;
    while i < cs.len()
        invariant
            i <= cs.len(),
            s == child_nodes(node@),
            s.len() == cs.len(),
            forall|j: int| 0 <= j < cs.len() ==> #[trigger] cs@[j]@ == s[j],
            s.take(i as int).filter(of_kind(kind)).len() == 0,
        decreases cs.len() - i,
    {
        proof {
            lemma_filter_take(s, of_kind(kind), i as int);
        }
        if cs[i].kind() == kind {
            proof {
                lemma_filter_hit(s, of_kind(kind), i as int);
            }
            return Some(cs[i].clone());
        }
        i += 1;
    }
    proof {
        assert(s.take(cs.len() as int) =~= s);
    }
    None
}

/// The first token among the children of `node` of kind `kind`, if there is one.
pub(crate) fn find_token(node: &SyntaxNode, kind: SyntaxKind) -> (r: Option<SyntaxToken>)
    ensures
        match first(node@.children().filter(token_of_kind(kind))) {
            Some(t) => r matches Some(tok) && tok@ == t,
            None => r is None,
        },
{
    let elems = node.green().children();
    let ghost s = node@.children();
    let mut i: usize = 0;
    while i < elems.len()
        invariant
            i <= elems.len(),
            s == node@.children(),
            s.len() == elems.len(),
            forall|j: int| 0 <= j < elems.len() ==> #[trigger] elems@[j]@ == s[j],
            s.take(i as int).filter(token_of_kind(kind)).len() == 0,
        decreases elems.len() - i,
    {
        proof {
            lemma_filter_take(s, token_of_kind(kind), i as int);
        }
        match elems[i].as_token() {
            Some(token) => {
                if token.kind() == kind {
                    proof {
                        lemma_filter_hit(s, token_of_kind(kind), i as int);
                    }
                    return Some(SyntaxToken::new(token.clone()));
                }
            },
            None => {},
        }
        i += 1;
    }
    proof {
        assert(s.take(elems.len() as int) =~= s);
    }
    None
}

/// Lowers a concrete syntax tree into an AST: a [`ast::File`] when the
/// root is a `File` node.
pub fn lower(root: GreenNode) -> (r: Option<ast::File>)
    ensures
        r is Some <==> root@.kind() == SyntaxKind::File,
        r matches Some(f) ==> f.tree() == root@,
{
    ast::File::cast(SyntaxNode::new_root(root))
}

} // verus!
