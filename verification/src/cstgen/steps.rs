//! The steps that parsing routines are made of: looking at the next
//! token, taking tokens into the tree, opening and closing nodes.

use vstd::prelude::*;

use crate::cstgen::lexer::{texts, Lexeme};
use crate::cstgen::syntax::SyntaxKind;
use crate::cstgen::lexer::lemma_texts_concat;
use crate::green::{
    lemma_builder_ops, lemma_trees_text_concat, lemma_trees_text_push, tree_text, trees_text, BuilderModel, Tree,
};

verus! {

/// Whether a routine went on or stopped.
#[derive(PartialEq, Eq, Structural, Copy, Clone, Debug)]
pub enum ControlFlow {
    Break,
    Continue,
}

/// Why a source has no syntax tree. The grammar has no rule for what each
/// variant describes: parsing stops there with the error, and no tree is
/// built (so [`crate::cstgen::lower`] requires a source that parses).
#[derive(PartialEq, Eq, Structural, Copy, Clone, Debug)]
pub enum ParseError {
    /// A pattern (after `const` or `let`) did not start with an identifier.
    UnexpectedTokenInPattern,
    /// An operator that binds tighter than what came before followed an
    /// expression, and is neither a call nor a field access (so far `!`).
    UnexpectedOperator(SyntaxKind),
    /// A loop of the grammar took no token in a round and would go round
    /// forever, as a list of items (in a file, a trait or an impl) does at a
    /// token that starts no item.
    NoProgress,
}

/// Where parsing stands: the position of the next token and what the builder holds.
pub struct PState {
    pub pos: nat,
    pub b: BuilderModel,
}

/// What a routine did: tokens taken, what the builder then holds, and its flow.
pub struct Done {
    pub used: nat,
    pub b: BuilderModel,
    pub flow: ControlFlow,
}

/// The outcome of a routine.
pub type Outcome = Result<Done, ParseError>;

/// The state after a routine that started at `st` and did `d`.
pub open spec fn after(st: PState, d: Done) -> PState {
    PState { pos: st.pos + d.used, b: d.b }
}

/// The routine that went from `st0` to `st1` with flow `flow`.
pub open spec fn done(st0: PState, st1: PState, flow: ControlFlow) -> Done {
    Done { used: (st1.pos - st0.pos) as nat, b: st1.b, flow }
}

/// Tokens left from `pos` (0 past the end).
pub open spec fn rem(toks: Seq<Lexeme>, pos: nat) -> nat {
    if pos <= toks.len() {
        (toks.len() - pos) as nat
    } else {
        0
    }
}

/// The kind of the next token (`Eof` past the end).
pub open spec fn peek(toks: Seq<Lexeme>, pos: nat) -> SyntaxKind {
    if pos < toks.len() {
        toks[pos as int].kind
    } else {
        SyntaxKind::Eof
    }
}

/// Comments and white space.
pub open spec fn is_trivia(kind: SyntaxKind) -> bool {
    kind == SyntaxKind::Comment || kind == SyntaxKind::Whitespace
}

/// Opens a node.
pub closed spec fn open(st: PState, kind: SyntaxKind) -> PState {
    PState { pos: st.pos, b: st.b.start_node(kind) }
}

/// Opens a node whose children start at index `at`.
pub closed spec fn open_at(st: PState, at: nat, kind: SyntaxKind) -> PState {
    PState { pos: st.pos, b: st.b.start_node_at(at, kind) }
}

/// Closes the last opened node.
pub closed spec fn close(st: PState) -> PState {
    PState { pos: st.pos, b: st.b.finish_node() }
}

/// What opening and closing nodes do to a state.
pub proof fn lemma_node_ops(st: PState, kind: SyntaxKind, at: nat)
    ensures
        open(st, kind) == (PState { pos: st.pos, b: st.b.start_node(kind) }),
        open_at(st, at, kind) == (PState { pos: st.pos, b: st.b.start_node_at(at, kind) }),
        close(st) == (PState { pos: st.pos, b: st.b.finish_node() }),
{
}

/// Opening a node stays at the same token.
pub broadcast proof fn lemma_open_pos(st: PState, kind: SyntaxKind)
    ensures
        #[trigger] open(st, kind).pos == st.pos,
{
}

/// Opening a node at a checkpoint stays at the same token.
pub broadcast proof fn lemma_open_at_pos(st: PState, at: nat, kind: SyntaxKind)
    ensures
        #[trigger] open_at(st, at, kind).pos == st.pos,
{
}

/// Closing a node stays at the same token.
pub broadcast proof fn lemma_close_pos(st: PState)
    ensures
        #[trigger] close(st).pos == st.pos,
{
}

/// Takes the next token into the tree.
pub open spec fn push_token(toks: Seq<Lexeme>, st: PState) -> PState {
    PState { pos: st.pos + 1, b: st.b.token(toks[st.pos as int].kind, toks[st.pos as int].text) }
}

/// Takes every comment and white space that follows.
#[verifier::opaque]
pub open spec fn trivia(toks: Seq<Lexeme>, st: PState) -> PState
    decreases rem(toks, st.pos),
{
    if st.pos < toks.len() && is_trivia(toks[st.pos as int].kind) {
        trivia(toks, push_token(toks, st))
    } else {
        st
    }
}

/// Takes the next token (if there is one), then the trivia after it.
#[verifier::opaque]
pub open spec fn bump(toks: Seq<Lexeme>, st: PState) -> PState {
    if st.pos < toks.len() {
        trivia(toks, push_token(toks, st))
    } else {
        st
    }
}

/// Trivia never moves back.
pub broadcast proof fn lemma_trivia_forward(toks: Seq<Lexeme>, st: PState)
    ensures
        #[trigger] trivia(toks, st).pos >= st.pos,
    decreases rem(toks, st.pos),
{
    reveal(trivia);
    if st.pos < toks.len() && is_trivia(toks[st.pos as int].kind) {
        lemma_trivia_forward(toks, push_token(toks, st));
    }
}

/// After trivia there is no trivia left to take.
pub proof fn lemma_trivia_idem(toks: Seq<Lexeme>, st: PState)
    ensures
        trivia(toks, trivia(toks, st)) == trivia(toks, st),
    decreases rem(toks, st.pos),
{
    reveal(trivia);
    if st.pos < toks.len() && is_trivia(toks[st.pos as int].kind) {
        lemma_trivia_idem(toks, push_token(toks, st));
    }
}

/// Taking the next token never moves back.
pub broadcast proof fn lemma_bump_forward(toks: Seq<Lexeme>, st: PState)
    ensures
        #[trigger] bump(toks, st).pos >= st.pos,
        st.pos < toks.len() ==> bump(toks, st).pos > st.pos,
{
    reveal(bump);
    lemma_trivia_forward(toks, push_token(toks, st));
}

/// Expecting a token never moves back.
pub broadcast proof fn lemma_expect_forward(toks: Seq<Lexeme>, st: PState, kind: SyntaxKind)
    ensures
        #[trigger] expect(toks, st, kind).pos >= st.pos,
        peek(toks, st.pos) == kind && st.pos < toks.len() ==> expect(toks, st, kind).pos > st.pos,
{
    reveal(expect);
    lemma_trivia_forward(toks, push_token(toks, st));
}

/// Expecting an optional token never moves back.
pub broadcast proof fn lemma_expect_optional_forward(toks: Seq<Lexeme>, st: PState, kind: SyntaxKind)
    ensures
        (#[trigger] expect_optional(toks, st, kind)).0.pos >= st.pos,
        expect_optional(toks, st, kind).1 == ControlFlow::Continue <==> peek(toks, st.pos) == kind,
        peek(toks, st.pos) == kind && st.pos < toks.len() ==> expect_optional(toks, st, kind).0.pos > st.pos,
{
    reveal(expect_optional);
    lemma_expect_forward(toks, st, kind);
}

/// The steps that take tokens never move back.
pub broadcast group group_steps_forward {
    lemma_open_pos,
    lemma_open_at_pos,
    lemma_close_pos,
    lemma_trivia_forward,
    lemma_bump_forward,
    lemma_expect_forward,
    lemma_expect_optional_forward,
}

/// Takes the next token and the trivia after it if the token is of kind `kind`.
#[verifier::opaque]
pub open spec fn expect(toks: Seq<Lexeme>, st: PState, kind: SyntaxKind) -> PState {
    if peek(toks, st.pos) == kind && st.pos < toks.len() {
        trivia(toks, push_token(toks, st))
    } else {
        st
    }
}

/// Like [`expect`], and says whether the next token was of kind `kind`.
#[verifier::opaque]
pub open spec fn expect_optional(toks: Seq<Lexeme>, st: PState, kind: SyntaxKind) -> (PState, ControlFlow) {
    if peek(toks, st.pos) == kind {
        (expect(toks, st, kind), ControlFlow::Continue)
    } else {
        (st, ControlFlow::Break)
    }
}

/// `Name`: an identifier.
pub open spec fn name(toks: Seq<Lexeme>, st: PState) -> PState {
    close(expect(toks, open(st, SyntaxKind::Name), SyntaxKind::Ident))
}

/// A pattern: so far only `PatIdent`, a name.
pub open spec fn pattern(toks: Seq<Lexeme>, st: PState) -> Result<PState, ParseError> {
    if peek(toks, st.pos) == SyntaxKind::Ident {
        Ok(close(name(toks, open(st, SyntaxKind::PatIdent))))
    } else {
        Err(ParseError::UnexpectedTokenInPattern)
    }
}

/// The binding power of a postfix operator (none for other kinds).
pub open spec fn tightness(kind: SyntaxKind) -> Option<nat> {
    if kind == SyntaxKind::Dot {
        Some(0)
    } else if kind == SyntaxKind::Bang {
        Some(1)
    } else if kind == SyntaxKind::ParenOpen {
        Some(2)
    } else {
        None
    }
}

/// Whether the operator `right` binds tighter than the one at `left`.
pub open spec fn binds_tighter(left: SyntaxKind, right: SyntaxKind) -> bool {
    match (tightness(left), tightness(right)) {
        (_, None) => false,
        (None, _) => true,
        (Some(l), Some(r)) => r > l,
    }
}

/// What [`binds_tighter`] may be asked: a left side without binding power
/// must be the start of an expression (`Eof`) when the right side has one.
pub open spec fn binds_tighter_defined(left: SyntaxKind, right: SyntaxKind) -> bool {
    tightness(left) is None && tightness(right) is Some ==> left == SyntaxKind::Eof
}

/// The outcome of running `k` at `st1` (reached from `st0`), seen from `st0`.
pub open spec fn chain(st0: PState, st1: PState, r: Outcome) -> Outcome {
    match r {
        Ok(d) => Ok(done(st0, after(st1, d), d.flow)),
        Err(e) => Err(e),
    }
}

/// Ends a routine at `st1` by closing its node.
pub open spec fn closed_at(st0: PState, r: Outcome, st1: PState) -> Outcome {
    match r {
        Ok(d) => Ok(done(st0, close(after(st1, d)), ControlFlow::Continue)),
        Err(e) => Err(e),
    }
}

/// A position within the tokens and a well-formed builder.
pub open spec fn state_wf(toks: Seq<Lexeme>, st: PState) -> bool {
    st.pos <= toks.len() && st.b.wf()
}

/// From `a` to `b` parsing moved forward within the tokens, closed every
/// node it opened, kept the children it found, and added the text of the
/// tokens it took.
pub closed spec fn grows(toks: Seq<Lexeme>, a: PState, b: PState) -> bool {
    &&& a.pos <= b.pos <= toks.len()
    &&& b.b.wf()
    &&& b.b.parents == a.b.parents
    &&& a.b.children.len() <= b.b.children.len()
    &&& b.b.children.take(a.b.children.len() as int) == a.b.children
    &&& b.b.text() == a.b.text() + texts(toks.subrange(a.pos as int, b.pos as int))
}

/// Growing moves forward within the tokens and keeps the state well formed.
pub broadcast proof fn lemma_grows_basics(toks: Seq<Lexeme>, a: PState, b: PState)
    requires
        #[trigger] grows(toks, a, b),
    ensures
        a.pos <= b.pos <= toks.len(),
        state_wf(toks, b),
        b.b.parents == a.b.parents,
{
}

/// What growing means, in full.
pub proof fn lemma_grows_unfold(toks: Seq<Lexeme>, a: PState, b: PState)
    requires
        grows(toks, a, b),
    ensures
        a.pos <= b.pos <= toks.len(),
        b.b.wf(),
        b.b.parents == a.b.parents,
        a.b.children.len() <= b.b.children.len(),
        b.b.children.take(a.b.children.len() as int) == a.b.children,
        b.b.text() == a.b.text() + texts(toks.subrange(a.pos as int, b.pos as int)),
{
}

/// Staying put is growing.
pub proof fn lemma_grows_refl(toks: Seq<Lexeme>, st: PState)
    requires
        state_wf(toks, st),
    ensures
        grows(toks, st, st),
{
    assert(toks.subrange(st.pos as int, st.pos as int) =~= Seq::<Lexeme>::empty());
    assert(st.b.text() + texts(Seq::<Lexeme>::empty()) =~= st.b.text());
    assert(st.b.children.take(st.b.children.len() as int) =~= st.b.children);
}

/// Growing twice is growing.
pub broadcast proof fn lemma_grows_trans(toks: Seq<Lexeme>, a: PState, b: PState, c: PState)
    requires
        #[trigger] grows(toks, a, b),
        #[trigger] grows(toks, b, c),
    ensures
        grows(toks, a, c),
{
    let x = toks.subrange(a.pos as int, b.pos as int);
    let y = toks.subrange(b.pos as int, c.pos as int);
    assert(x + y =~= toks.subrange(a.pos as int, c.pos as int));
    lemma_texts_concat(x, y);
    assert(c.b.text() =~= a.b.text() + texts(toks.subrange(a.pos as int, c.pos as int)));
    assert(c.b.children.take(a.b.children.len() as int) =~= c.b.children.take(b.b.children.len() as int).take(
        a.b.children.len() as int,
    ));
}

/// Taking one token grows.
pub proof fn lemma_push_token_grows(toks: Seq<Lexeme>, st: PState)
    requires
        state_wf(toks, st),
        st.pos < toks.len(),
    ensures
        grows(toks, st, push_token(toks, st)),
{
    let t = toks[st.pos as int];
    lemma_builder_ops(st.b, t.kind, t.text, 0);
    let one = toks.subrange(st.pos as int, st.pos + 1int);
    assert(one =~= seq![t]);
    assert(one.drop_first() =~= Seq::<Lexeme>::empty());
    assert(texts(one) == one[0].text + texts(one.drop_first()));
    assert(texts(one) =~= t.text);
    let s1 = push_token(toks, st);
    assert(s1.b.children.take(st.b.children.len() as int) =~= st.b.children);
}

/// Taking trivia grows.
pub proof fn lemma_trivia_grows(toks: Seq<Lexeme>, st: PState)
    requires
        state_wf(toks, st),
    ensures
        grows(toks, st, trivia(toks, st)),
    decreases rem(toks, st.pos),
{
    reveal(trivia);
    if st.pos < toks.len() && is_trivia(toks[st.pos as int].kind) {
        let s1 = push_token(toks, st);
        lemma_push_token_grows(toks, st);
        lemma_trivia_grows(toks, s1);
        lemma_grows_trans(toks, st, s1, trivia(toks, s1));
    } else {
        lemma_grows_refl(toks, st);
    }
}

/// The steps that take tokens grow.
pub proof fn lemma_steps_grow(toks: Seq<Lexeme>, st: PState, kind: SyntaxKind)
    requires
        state_wf(toks, st),
    ensures
        grows(toks, st, bump(toks, st)),
        grows(toks, st, expect(toks, st, kind)),
        grows(toks, st, expect_optional(toks, st, kind).0),
        st.pos < toks.len() ==> bump(toks, st).pos > st.pos,
        peek(toks, st.pos) == kind && st.pos < toks.len() ==> expect(toks, st, kind).pos > st.pos,
{
    reveal(bump);
    reveal(expect);
    reveal(expect_optional);
    lemma_grows_refl(toks, st);
    if st.pos < toks.len() {
        let s1 = push_token(toks, st);
        lemma_push_token_grows(toks, st);
        lemma_trivia_grows(toks, s1);
        lemma_grows_trans(toks, st, s1, trivia(toks, s1));
    }
}

/// Opening a node keeps the state well formed, and a routine that grows
/// from the opened node can close it: the whole grows.
pub proof fn lemma_node_grows(toks: Seq<Lexeme>, st: PState, kind: SyntaxKind, mid: PState)
    requires
        state_wf(toks, st),
    ensures
        state_wf(toks, open(st, kind)),
        grows(toks, open(st, kind), mid) ==> {
            &&& mid.b.parents.len() > 0
            &&& grows(toks, st, close(mid))
            &&& close(mid).b.children == st.b.children.push(
                Tree::Node { kind, children: mid.b.children.skip(st.b.children.len() as int) },
            )
        },
{
    lemma_builder_ops(st.b, kind, Seq::empty(), 0);
    if grows(toks, open(st, kind), mid) {
        let n = st.b.children.len();
        let o = open(st, kind);
        assert(mid.b.parents == st.b.parents.push((kind, n)));
        assert(mid.b.parents.last() == (kind, n));
        lemma_builder_ops(mid.b, kind, Seq::empty(), 0);
        let c = close(mid);
        assert(mid.b.parents.drop_last() =~= st.b.parents);
        assert(c.b.children.take(n as int) =~= mid.b.children.take(n as int));
        assert(c.b.children.take(n as int) =~= st.b.children);
        assert(c.b.children =~= st.b.children.push(Tree::Node { kind, children: mid.b.children.skip(n as int) }));
    }
}

/// A node opened at the checkpoint `st0` (after growing to `s1`) can be
/// opened, and closing it after growing from it grows from `st0`.
pub proof fn lemma_node_at_grows(toks: Seq<Lexeme>, st0: PState, s1: PState, kind: SyntaxKind, mid: PState)
    requires
        state_wf(toks, st0),
        grows(toks, st0, s1),
    ensures
        s1.b.can_start_at(st0.b.children.len()),
        state_wf(toks, open_at(s1, st0.b.children.len(), kind)),
        grows(toks, open_at(s1, st0.b.children.len(), kind), mid) ==> {
            &&& mid.b.parents.len() > 0
            &&& grows(toks, st0, close(mid))
            &&& close(mid).b.children == st0.b.children.push(
                Tree::Node { kind, children: mid.b.children.skip(st0.b.children.len() as int) },
            )
        },
{
    let cp = st0.b.children.len();
    lemma_builder_ops(st0.b, kind, Seq::empty(), cp);
    lemma_builder_ops(s1.b, kind, Seq::empty(), cp);
    if grows(toks, open_at(s1, cp, kind), mid) {
        assert(mid.b.parents.last() == (kind, cp));
        lemma_builder_ops(mid.b, kind, Seq::empty(), 0);
        let c = close(mid);
        assert(mid.b.parents.drop_last() =~= st0.b.parents);
        assert(mid.b.children.take(cp as int) =~= mid.b.children.take(s1.b.children.len() as int).take(cp as int));
        assert(c.b.children.take(cp as int) =~= mid.b.children.take(cp as int));
        assert(c.b.children.take(cp as int) =~= st0.b.children);
        let x = toks.subrange(st0.pos as int, s1.pos as int);
        let y = toks.subrange(s1.pos as int, mid.pos as int);
        assert(x + y =~= toks.subrange(st0.pos as int, mid.pos as int));
        lemma_texts_concat(x, y);
        assert(c.b.text() =~= st0.b.text() + texts(toks.subrange(st0.pos as int, c.pos as int)));
        assert(c.b.children =~= st0.b.children.push(Tree::Node { kind, children: mid.b.children.skip(cp as int) }));
    }
}

/// From `a` to `b` exactly one node was added: the node built.
pub open spec fn adds_one_node(a: PState, b: PState) -> bool {
    &&& b.b.children.len() == a.b.children.len() + 1
    &&& b.b.children.last() is Node
}

/// A routine that grew from `a` to `b` by adding one node put into that
/// node exactly the tokens it took.
pub proof fn lemma_node_text(toks: Seq<Lexeme>, a: PState, b: PState)
    requires
        grows(toks, a, b),
        adds_one_node(a, b),
    ensures
        tree_text(b.b.children.last()) == texts(toks.subrange(a.pos as int, b.pos as int)),
{
    let n = a.b.children.len();
    assert(b.b.children =~= a.b.children.push(b.b.children.last()));
    lemma_trees_text_push(a.b.children, b.b.children.last());
    let x = a.b.text();
    let y = tree_text(b.b.children.last());
    let z = texts(toks.subrange(a.pos as int, b.pos as int));
    assert(x + y == x + z);
    assert forall|i: int| 0 <= i < y.len() implies y[i] == z[i] by {
        assert((x + y)[x.len() + i] == (x + z)[x.len() + i]);
    }
    assert(y.len() == z.len()) by {
        assert((x + y).len() == (x + z).len());
    }
    assert(y =~= z);
}

/// A pattern grows.
pub proof fn lemma_pattern_grows(toks: Seq<Lexeme>, st: PState)
    requires
        state_wf(toks, st),
    ensures
        pattern(toks, st) matches Ok(s) ==> grows(toks, st, s),
        grows(toks, st, name(toks, st)),
{
    let o = open(st, SyntaxKind::Name);
    lemma_node_grows(toks, st, SyntaxKind::Name, expect(toks, o, SyntaxKind::Ident));
    lemma_steps_grow(toks, o, SyntaxKind::Ident);
    if peek(toks, st.pos) == SyntaxKind::Ident {
        let o2 = open(st, SyntaxKind::PatIdent);
        lemma_node_grows(toks, st, SyntaxKind::PatIdent, name(toks, o2));
        let o3 = open(o2, SyntaxKind::Name);
        lemma_node_grows(toks, o2, SyntaxKind::Name, expect(toks, o3, SyntaxKind::Ident));
        lemma_steps_grow(toks, o3, SyntaxKind::Ident);
    }
}

/// What a parsing routine promises: it did what the grammar says, and on
/// success it grew from where it started.
pub open spec fn runs(
    toks: Seq<Lexeme>,
    st0: PState,
    expected: Outcome,
    st1: PState,
    got: Result<ControlFlow, ParseError>,
) -> bool {
    match expected {
        Ok(d) => got == Ok::<ControlFlow, ParseError>(d.flow) && st1 == after(st0, d) && grows(toks, st0, st1),
        Err(e) => got == Err::<ControlFlow, ParseError>(e),
    }
}

/// What a parsing routine that always goes on promises: it did what the
/// grammar says, and on success it grew from where it started.
pub open spec fn completes(
    toks: Seq<Lexeme>,
    st0: PState,
    expected: Outcome,
    st1: PState,
    got: Result<(), ParseError>,
) -> bool {
    match expected {
        Ok(d) => got is Ok && st1 == after(st0, d) && grows(toks, st0, st1),
        Err(e) => got == Err::<(), ParseError>(e),
    }
}

/// Chaining through an intermediate state is chaining directly.
pub proof fn lemma_chain_chain(a: PState, b: PState, c: PState, r: Outcome)
    requires
        a.pos <= b.pos <= c.pos,
    ensures
        chain(a, b, chain(b, c, r)) == chain(a, c, r),
{
}

/// The children added from `a` to `b`.
pub open spec fn added(a: PState, b: PState) -> Seq<Tree> {
    b.b.children.skip(a.b.children.len() as int)
}

/// Children that are all tokens.
pub open spec fn all_leaves(s: Seq<Tree>) -> bool {
    forall|k: int| 0 <= k < s.len() ==> #[trigger] s[k] is Leaf
}

/// Two sequences with the same front are equal behind it.
pub proof fn lemma_cancel_left<A>(x: Seq<A>, y: Seq<A>, z: Seq<A>)
    requires
        x + y == x + z,
    ensures
        y == z,
{
    let xy = x + y;
    let xz = x + z;
    assert(xy == xz);
    assert(xy.len() == x.len() + y.len());
    assert(xz.len() == x.len() + z.len());
    assert forall|i: int| 0 <= i < y.len() implies y[i] == z[i] by {
        assert(xy[x.len() + i] == y[i]);
        assert(xz[x.len() + i] == z[i]);
    }
    assert(y =~= z);
}

/// Growing adds children behind what was there, and they hold the text of
/// the tokens taken.
pub proof fn lemma_added(toks: Seq<Lexeme>, a: PState, b: PState)
    requires
        grows(toks, a, b),
    ensures
        b.b.children == a.b.children + added(a, b),
        trees_text(added(a, b)) == texts(toks.subrange(a.pos as int, b.pos as int)),
{
    let n = a.b.children.len() as int;
    assert(b.b.children =~= b.b.children.take(n) + added(a, b));
    lemma_trees_text_concat(a.b.children, added(a, b));
    lemma_cancel_left(trees_text(a.b.children), trees_text(added(a, b)), texts(toks.subrange(a.pos as int, b.pos as int)));
}

/// What two growths add one after the other is what they add together.
pub proof fn lemma_added_concat(toks: Seq<Lexeme>, a: PState, b: PState, c: PState)
    requires
        grows(toks, a, b),
        grows(toks, b, c),
    ensures
        added(a, c) == added(a, b) + added(b, c),
{
    lemma_added(toks, a, b);
    lemma_added(toks, b, c);
    lemma_grows_trans(toks, a, b, c);
    lemma_added(toks, a, c);
    assert(c.b.children == a.b.children + (added(a, b) + added(b, c)));
    lemma_cancel_left(a.b.children, added(a, c), added(a, b) + added(b, c));
}

/// Trivia adds only tokens.
pub proof fn lemma_trivia_leaves(toks: Seq<Lexeme>, st: PState)
    requires
        state_wf(toks, st),
    ensures
        all_leaves(added(st, trivia(toks, st))),
    decreases rem(toks, st.pos),
{
    reveal(trivia);
    lemma_trivia_grows(toks, st);
    if st.pos < toks.len() && is_trivia(toks[st.pos as int].kind) {
        let s1 = push_token(toks, st);
        lemma_push_token_grows(toks, st);
        lemma_trivia_leaves(toks, s1);
        lemma_trivia_grows(toks, s1);
        lemma_added_concat(toks, st, s1, trivia(toks, s1));
        let t = toks[st.pos as int];
        lemma_added(toks, st, s1);
        assert(s1.b.children == st.b.children.push(Tree::Leaf { kind: t.kind, text: t.text }));
        assert(added(st, s1) =~= seq![Tree::Leaf { kind: t.kind, text: t.text }]);
    } else {
        assert(added(st, st) =~= Seq::<Tree>::empty());
    }
}

/// The steps that take tokens add only tokens.
pub proof fn lemma_steps_leaves(toks: Seq<Lexeme>, st: PState, kind: SyntaxKind)
    requires
        state_wf(toks, st),
    ensures
        all_leaves(added(st, bump(toks, st))),
        all_leaves(added(st, expect(toks, st, kind))),
        all_leaves(added(st, expect_optional(toks, st, kind).0)),
{
    reveal(bump);
    reveal(expect);
    reveal(expect_optional);
    assert(added(st, st) =~= Seq::<Tree>::empty());
    if st.pos < toks.len() {
        let s1 = push_token(toks, st);
        let t = toks[st.pos as int];
        lemma_push_token_grows(toks, st);
        lemma_trivia_leaves(toks, s1);
        lemma_trivia_grows(toks, s1);
        lemma_added_concat(toks, st, s1, trivia(toks, s1));
        assert(added(st, s1) =~= seq![Tree::Leaf { kind: t.kind, text: t.text }]);
    }
}

/// Trivia adds only comments and white space.
pub(crate) proof fn lemma_trivia_kinds(toks: Seq<Lexeme>, st: PState)
    requires
        state_wf(toks, st),
    ensures
        forall|k: int|
            0 <= k < added(st, trivia(toks, st)).len() ==> is_trivia(#[trigger] added(st, trivia(toks, st))[k].kind()),
    decreases rem(toks, st.pos),
{
    reveal(trivia);
    lemma_trivia_grows(toks, st);
    if st.pos < toks.len() && is_trivia(toks[st.pos as int].kind) {
        let s1 = push_token(toks, st);
        lemma_push_token_grows(toks, st);
        lemma_trivia_kinds(toks, s1);
        lemma_trivia_grows(toks, s1);
        lemma_added_concat(toks, st, s1, trivia(toks, s1));
        let t = toks[st.pos as int];
        lemma_added(toks, st, s1);
        assert(s1.b.children == st.b.children.push(Tree::Leaf { kind: t.kind, text: t.text }));
        assert(added(st, s1) =~= seq![Tree::Leaf { kind: t.kind, text: t.text }]);
    } else {
        assert(added(st, st) =~= Seq::<Tree>::empty());
    }
}

/// Taking a token of kind `kind` adds that token and trivia.
pub(crate) proof fn lemma_steps_kinds(toks: Seq<Lexeme>, st: PState, kind: SyntaxKind)
    requires
        state_wf(toks, st),
    ensures
        forall|k: int|
            0 <= k < added(st, expect_optional(toks, st, kind).0).len() ==> {
                let c = #[trigger] added(st, expect_optional(toks, st, kind).0)[k];
                c.kind() == kind || is_trivia(c.kind())
            },
{
    reveal(expect);
    reveal(expect_optional);
    assert(added(st, st) =~= Seq::<Tree>::empty());
    if peek(toks, st.pos) == kind && st.pos < toks.len() {
        let s1 = push_token(toks, st);
        let t = toks[st.pos as int];
        lemma_push_token_grows(toks, st);
        lemma_trivia_kinds(toks, s1);
        lemma_trivia_grows(toks, s1);
        lemma_added_concat(toks, st, s1, trivia(toks, s1));
        assert(added(st, s1) =~= seq![Tree::Leaf { kind: t.kind, text: t.text }]);
        assert(t.kind == kind);
    }
}

} // verus!
