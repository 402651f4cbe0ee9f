//! Expressions are as long as they can be: wherever the grammar parses an
//! expression (an argument of a call, the condition of an `if`, the value or
//! the type of a `const`, the type of an argument, the type of an `impl`, the
//! right operand of a `.`, an expression statement), the expression takes
//! every postfix operator (`.`, `!` or `(`) that follows it, so the token
//! right after it is never one of them.
//!
//! Positions in the tokens are found from the text: the children of a node
//! hold the text of the tokens they took, and tokens are never empty, so the
//! text of the first children fixes where they end.

use vstd::prelude::*;

use crate::cstgen::grammar::{
    arg, arg_list, args, expr, expr_block, expr_closure, expr_if, expr_impl, expr_inner, expr_paren, exprs, item, item_const, items, postfix,
    expr_prefix, prefix_then_expr, statement, statements, struct_field, struct_fields, expr_enum, expr_struct, expr_trait,
};
use crate::cstgen::lexer::{lemma_texts_concat, lexeme_well_formed, lexemes_well_formed, texts, Lexeme};
use crate::cstgen::lossless::{
    lemma_arg, lemma_arg_list, lemma_args, lemma_expr, lemma_expr_block, lemma_expr_closure, lemma_expr_inner, lemma_expr_prefix,
    lemma_exprs, lemma_postfix,
    lemma_item, lemma_item_const, lemma_items, lemma_statement, lemma_statements, lemma_struct_field, lemma_struct_fields,
};
use crate::cstgen::steps::{
    added, adds_one_node, after, all_leaves, binds_tighter, bump, close, expect, expect_optional, grows,
    lemma_added, lemma_added_concat, lemma_cancel_left, lemma_node_at_grows, lemma_node_grows, lemma_node_ops,
    lemma_grows_refl, lemma_pattern_grows, lemma_steps_grow, lemma_steps_kinds, lemma_steps_leaves, name, open, open_at, pattern, peek, rem,
    state_wf, tightness, ControlFlow, Outcome, PState,
};
use crate::cstgen::syntax::SyntaxKind;
use crate::green::{lemma_trees_text_push, tree_text, trees_text, Tree};

verus! {

broadcast use {
    crate::cstgen::steps::lemma_grows_trans,
    crate::cstgen::steps::lemma_grows_basics,
    crate::cstgen::steps::group_steps_forward,
};

/// The kinds of the nodes that expressions make.
pub open spec fn expression_kind(kind: SyntaxKind) -> bool {
    ||| kind == SyntaxKind::ExprRef
    ||| kind == SyntaxKind::ExprPtr
    ||| kind == SyntaxKind::ExprIdent
    ||| kind == SyntaxKind::ExprBlock
    ||| kind == SyntaxKind::ExprParen
    ||| kind == SyntaxKind::ExprClosure
    ||| kind == SyntaxKind::ExprEnum
    ||| kind == SyntaxKind::ExprStruct
    ||| kind == SyntaxKind::ExprTrait
    ||| kind == SyntaxKind::ExprImpl
    ||| kind == SyntaxKind::ExprIf
    ||| kind == SyntaxKind::ExprCall
    ||| kind == SyntaxKind::ExprField
}

/// The postfix operators: `.`, `!` and `(`.
pub open spec fn postfix_operator(kind: SyntaxKind) -> bool {
    tightness(kind) is Some
}

/// `children` stand for the tokens from `start` on, and each expression
/// node among the first `upto` of them is followed by a token that is no
/// postfix operator (or by the end).
pub open spec fn ends_cleanly(toks: Seq<Lexeme>, start: nat, children: Seq<Tree>, upto: int) -> bool {
    forall|i: int, q: int|
        #![trigger children[i], toks.subrange(start as int, q)]
        0 <= i < upto && i < children.len() && children[i] is Node && expression_kind(children[i].kind())
            && start <= q <= toks.len() && texts(toks.subrange(start as int, q)) == trees_text(
            children.take(i + 1),
        ) ==> !postfix_operator(peek(toks, q as nat))
}

/// The text of the tokens from `a` to `c` is that from `a` to `b` and then
/// that from `b` to `c`.
proof fn lemma_texts_split(toks: Seq<Lexeme>, a: int, b: int, c: int)
    requires
        0 <= a <= b <= c <= toks.len(),
    ensures
        texts(toks.subrange(a, c)) == texts(toks.subrange(a, b)) + texts(toks.subrange(b, c)),
{
    assert(toks.subrange(a, b) + toks.subrange(b, c) =~= toks.subrange(a, c));
    lemma_texts_concat(toks.subrange(a, b), toks.subrange(b, c));
}

/// Some tokens have some text.
proof fn lemma_texts_nonempty(toks: Seq<Lexeme>, a: int, b: int)
    requires
        lexemes_well_formed(toks),
        0 <= a < b <= toks.len(),
    ensures
        texts(toks.subrange(a, b)).len() > 0,
{
    let s = toks.subrange(a, b);
    assert(lexeme_well_formed(toks[a]));
    assert(s[0] == toks[a]);
    assert(texts(s) == s[0].text + texts(s.drop_first()));
}

/// Where the text of the tokens from `a` to `q` begins with that from `a`
/// to `b`, `q` lies at or after `b` and the rest is the text from `b` to `q`.
proof fn lemma_texts_prefix(toks: Seq<Lexeme>, a: int, b: int, q: int, r: Seq<char>)
    requires
        lexemes_well_formed(toks),
        0 <= a <= b <= toks.len(),
        a <= q <= toks.len(),
        texts(toks.subrange(a, q)) == texts(toks.subrange(a, b)) + r,
    ensures
        b <= q,
        texts(toks.subrange(b, q)) == r,
{
    if q < b {
        lemma_texts_split(toks, a, q, b);
        lemma_texts_nonempty(toks, q, b);
        assert(false);
    }
    lemma_texts_split(toks, a, b, q);
    lemma_cancel_left(texts(toks.subrange(a, b)), texts(toks.subrange(b, q)), r);
}

/// The text of one tree is the text of the sequence of it.
proof fn lemma_trees_text_one(c: Tree)
    ensures
        trees_text(seq![c]) == tree_text(c),
{
    lemma_trees_text_push(Seq::empty(), c);
    assert(Seq::<Tree>::empty().push(c) =~= seq![c]);
    assert(trees_text(Seq::<Tree>::empty()) =~= Seq::<char>::empty());
}

/// Children with no expression node end cleanly.
proof fn lemma_clean_plain(toks: Seq<Lexeme>, a: nat, x: Seq<Tree>)
    requires
        forall|k: int| 0 <= k < x.len() ==> !(#[trigger] x[k] is Node && expression_kind(x[k].kind())),
    ensures
        ends_cleanly(toks, a, x, x.len() as int),
{
}

/// One child, followed by a token that is no postfix operator, ends cleanly.
proof fn lemma_clean_single(toks: Seq<Lexeme>, a: nat, c: Tree, q0: int)
    requires
        lexemes_well_formed(toks),
        a <= q0 <= toks.len(),
        texts(toks.subrange(a as int, q0)) == tree_text(c),
        !postfix_operator(peek(toks, q0 as nat)),
    ensures
        ends_cleanly(toks, a, seq![c], 1),
{
    lemma_trees_text_one(c);
    assert forall|i: int, q: int|
        #![trigger seq![c][i], toks.subrange(a as int, q)]
        0 <= i < 1 && i < seq![c].len() && seq![c][i] is Node && expression_kind(seq![c][i].kind()) && a <= q
            <= toks.len() && texts(toks.subrange(a as int, q)) == trees_text(seq![c].take(i + 1)) implies !postfix_operator(
        peek(toks, q as nat),
    ) by {
        assert(seq![c].take(1) =~= seq![c]);
        lemma_texts_prefix(toks, a as int, q0, q, Seq::empty());
        assert(texts(toks.subrange(a as int, q)) =~= texts(toks.subrange(a as int, q0)) + Seq::<char>::empty());
        if q > q0 {
            lemma_texts_nonempty(toks, q0, q);
        }
    }
}

/// Children that end cleanly, then children that end cleanly from where
/// the first ones stop, end cleanly.
proof fn lemma_clean_concat(toks: Seq<Lexeme>, a: nat, b: nat, x: Seq<Tree>, y: Seq<Tree>)
    requires
        lexemes_well_formed(toks),
        a <= b <= toks.len(),
        texts(toks.subrange(a as int, b as int)) == trees_text(x),
        ends_cleanly(toks, a, x, x.len() as int),
        ends_cleanly(toks, b, y, y.len() as int),
    ensures
        ends_cleanly(toks, a, x + y, (x.len() + y.len()) as int),
{
    let xy = x + y;
    assert forall|i: int, q: int|
        #![trigger xy[i], toks.subrange(a as int, q)]
        0 <= i < x.len() + y.len() && i < xy.len() && xy[i] is Node && expression_kind(xy[i].kind()) && a <= q
            <= toks.len() && texts(toks.subrange(a as int, q)) == trees_text(xy.take(i + 1)) implies !postfix_operator(
        peek(toks, q as nat),
    ) by {
        if i < x.len() {
            assert(xy.take(i + 1) =~= x.take(i + 1));
            assert(xy[i] == x[i]);
            assert(x[i] is Node);
        } else {
            let j = i - x.len();
            assert(xy.take(i + 1) =~= x + y.take(j + 1));
            assert(xy[i] == y[j]);
            crate::green::lemma_trees_text_concat(x, y.take(j + 1));
            lemma_texts_prefix(toks, a as int, b as int, q, trees_text(y.take(j + 1)));
            assert(y[j] is Node);
        }
    }
}

/// Children that end cleanly still do, up to where they stop, when more
/// children follow.
proof fn lemma_clean_prefix(toks: Seq<Lexeme>, a: nat, x: Seq<Tree>, y: Seq<Tree>)
    requires
        ends_cleanly(toks, a, x, x.len() as int),
    ensures
        ends_cleanly(toks, a, x + y, x.len() as int),
{
    let xy = x + y;
    assert forall|i: int, q: int|
        #![trigger xy[i], toks.subrange(a as int, q)]
        0 <= i < x.len() && i < xy.len() && xy[i] is Node && expression_kind(xy[i].kind()) && a <= q
            <= toks.len() && texts(toks.subrange(a as int, q)) == trees_text(xy.take(i + 1)) implies !postfix_operator(
        peek(toks, q as nat),
    ) by {
        assert(xy.take(i + 1) =~= x.take(i + 1));
        assert(xy[i] == x[i]);
        assert(x[i] is Node);
    }
}

/// What two growths add ends cleanly where each part does.
proof fn lemma_clean_chain(toks: Seq<Lexeme>, a: PState, b: PState, c: PState)
    requires
        lexemes_well_formed(toks),
        grows(toks, a, b),
        grows(toks, b, c),
        ends_cleanly(toks, a.pos, added(a, b), added(a, b).len() as int),
        ends_cleanly(toks, b.pos, added(b, c), added(b, c).len() as int),
    ensures
        ends_cleanly(toks, a.pos, added(a, c), added(a, c).len() as int),
{
    lemma_added(toks, a, b);
    lemma_added_concat(toks, a, b, c);
    lemma_clean_concat(toks, a.pos, b.pos, added(a, b), added(b, c));
}

/// The steps that take tokens add only tokens, which end cleanly.
proof fn lemma_clean_steps(toks: Seq<Lexeme>, st: PState, kind: SyntaxKind)
    requires
        state_wf(toks, st),
    ensures
        ends_cleanly(toks, st.pos, added(st, bump(toks, st)), added(st, bump(toks, st)).len() as int),
        ends_cleanly(toks, st.pos, added(st, expect(toks, st, kind)), added(st, expect(toks, st, kind)).len() as int),
        ends_cleanly(
            toks,
            st.pos,
            added(st, expect_optional(toks, st, kind).0),
            added(st, expect_optional(toks, st, kind).0).len() as int,
        ),
{
    lemma_steps_leaves(toks, st, kind);
    let x = added(st, bump(toks, st));
    let y = added(st, expect(toks, st, kind));
    let z = added(st, expect_optional(toks, st, kind).0);
    assert forall|k: int| 0 <= k < x.len() implies !(#[trigger] x[k] is Node && expression_kind(x[k].kind())) by {}
    assert forall|k: int| 0 <= k < y.len() implies !(#[trigger] y[k] is Node && expression_kind(y[k].kind())) by {}
    assert forall|k: int| 0 <= k < z.len() implies !(#[trigger] z[k] is Node && expression_kind(z[k].kind())) by {}
    lemma_clean_plain(toks, st.pos, x);
    lemma_clean_plain(toks, st.pos, y);
    lemma_clean_plain(toks, st.pos, z);
}

/// Postfix operators after an expression are all taken: where they stop,
/// no postfix operator follows.
pub proof fn lemma_postfix_end(toks: Seq<Lexeme>, st: PState, cp: nat)
    ensures
        postfix(toks, st, SyntaxKind::Eof, cp) matches Ok(d) ==> !postfix_operator(peek(toks, st.pos + d.used)),
    decreases rem(toks, st.pos),
{
    let right = peek(toks, st.pos);
    if binds_tighter(SyntaxKind::Eof, right) {
        if right == SyntaxKind::ParenOpen {
            let s1 = open(bump(toks, open_at(st, cp, SyntaxKind::ExprCall)), SyntaxKind::CallArgs);
            if let Ok(d) = exprs(toks, s1) {
                let s2 = close(expect(toks, close(after(s1, d)), SyntaxKind::ParenClose));
                if rem(toks, s2.pos) < rem(toks, st.pos) {
                    lemma_postfix_end(toks, s2, cp);
                }
            }
        } else if right == SyntaxKind::Dot {
            let s1 = bump(toks, open_at(st, cp, SyntaxKind::ExprField));
            if let Ok(d) = expr(toks, s1) {
                let s2 = close(after(s1, d));
                if rem(toks, s2.pos) < rem(toks, st.pos) {
                    lemma_postfix_end(toks, s2, cp);
                }
            }
        }
    }
}

/// An expression takes every postfix operator that follows it: the node it
/// builds, if any, is followed by a token that is no postfix operator.
pub proof fn lemma_expr_inner_ends_cleanly(toks: Seq<Lexeme>, st: PState)
    requires
        lexemes_well_formed(toks),
        state_wf(toks, st),
    ensures
        expr_inner(toks, st, SyntaxKind::Eof) matches Ok(d) ==> {
            let a = added(st, after(st, d));
            ends_cleanly(toks, st.pos, a, a.len() as int)
        },
{
    lemma_expr_inner(toks, st, SyntaxKind::Eof);
    if let Ok(d) = expr_inner(toks, st, SyntaxKind::Eof) {
        let e = after(st, d);
        lemma_added(toks, st, e);
        if d.flow == ControlFlow::Break {
            assert(added(st, e) =~= Seq::<Tree>::empty());
        } else {
            if let Ok(d0) = crate::cstgen::grammar::expr_prefix(toks, st, true) {
                let s1 = after(st, d0);
                lemma_postfix_end(toks, s1, st.b.children.len());
            }
            let c = e.b.children.last();
            assert(added(st, e) =~= seq![c]);
            lemma_trees_text_one(c);
            lemma_clean_single(toks, st.pos, c, e.pos as int);
        }
    }
}

/// An expression takes every postfix operator that follows it (see
/// [`lemma_expr_inner_ends_cleanly`]).
pub proof fn lemma_expr_ends_cleanly(toks: Seq<Lexeme>, st: PState)
    requires
        lexemes_well_formed(toks),
        state_wf(toks, st),
    ensures
        expr(toks, st) matches Ok(d) ==> {
            let a = added(st, after(st, d));
            ends_cleanly(toks, st.pos, a, a.len() as int)
        },
{
    lemma_expr_inner_ends_cleanly(toks, st);
}

/// Each expression of a comma-separated list (the arguments of a call, the
/// variants of an `enum`) takes every postfix operator that follows it.
pub proof fn lemma_exprs_end_cleanly(toks: Seq<Lexeme>, st: PState)
    requires
        lexemes_well_formed(toks),
        state_wf(toks, st),
    ensures
        exprs(toks, st) matches Ok(d) ==> {
            let a = added(st, after(st, d));
            ends_cleanly(toks, st.pos, a, a.len() as int)
        },
    decreases rem(toks, st.pos),
{
    lemma_exprs(toks, st);
    lemma_expr(toks, st);
    lemma_expr_ends_cleanly(toks, st);
    if let Ok(d) = expr(toks, st) {
        let m = after(st, d);
        let (s1, flow) = expect_optional(toks, m, SyntaxKind::Comma);
        lemma_steps_grow(toks, m, SyntaxKind::Comma);
        lemma_clean_steps(toks, m, SyntaxKind::Comma);
        lemma_clean_chain(toks, st, m, s1);
        if flow == ControlFlow::Continue && rem(toks, s1.pos) < rem(toks, st.pos) {
            lemma_exprs(toks, s1);
            lemma_exprs_end_cleanly(toks, s1);
            if let Ok(d2) = exprs(toks, s1) {
                lemma_clean_chain(toks, st, s1, after(s1, d2));
            }
        }
    }
}

/// An expression statement holds one expression, which takes every postfix
/// operator that follows it.
pub proof fn lemma_statement_ends_cleanly(toks: Seq<Lexeme>, st: PState)
    requires
        lexemes_well_formed(toks),
        state_wf(toks, st),
        peek(toks, st.pos) != SyntaxKind::LetKw,
    ensures
        statement(toks, st) matches Ok(d) ==> d.flow == ControlFlow::Continue ==> {
            let a = added(st, after(st, d));
            &&& a.len() == 1
            &&& a[0] is Node
            &&& a[0].kind() == SyntaxKind::StmtExpr
            &&& ends_cleanly(toks, st.pos, a[0].children(), a[0].children().len() as int)
        },
{
    lemma_statement(toks, st);
    lemma_expr_inner(toks, st, SyntaxKind::Eof);
    lemma_expr_inner_ends_cleanly(toks, st);
    if let Ok(d) = expr_inner(toks, st, SyntaxKind::Eof) {
        if d.flow != ControlFlow::Break {
            let s1 = after(st, d);
            let n = st.b.children.len();
            let o = open_at(s1, n, SyntaxKind::StmtExpr);
            lemma_node_at_grows(toks, st, s1, SyntaxKind::StmtExpr, o);
            crate::cstgen::steps::lemma_grows_refl(toks, o);
            lemma_node_ops(s1, SyntaxKind::StmtExpr, n);
            let e = close(o);
            assert(added(st, e) =~= seq![Tree::Node { kind: SyntaxKind::StmtExpr, children: added(st, s1) }]);
        }
    }
}

/// The condition of an `if` takes every postfix operator that follows it:
/// in the `ExprIf` node, every expression child but the block at its end is
/// followed by a token that is no postfix operator.
pub proof fn lemma_if_ends_cleanly(toks: Seq<Lexeme>, st: PState)
    requires
        lexemes_well_formed(toks),
        state_wf(toks, st),
    ensures
        expr_if(toks, st) matches Ok(d) ==> {
            let a = added(st, after(st, d));
            &&& a.len() == 1
            &&& a[0] is Node
            &&& a[0].kind() == SyntaxKind::ExprIf
            &&& ends_cleanly(toks, st.pos, a[0].children(), a[0].children().len() - 1)
        },
{
    let o = open(st, SyntaxKind::ExprIf);
    lemma_node_grows(toks, st, SyntaxKind::ExprIf, o);
    lemma_node_ops(st, SyntaxKind::ExprIf, 0);
    let s1 = bump(toks, o);
    lemma_steps_grow(toks, o, SyntaxKind::IfKw);
    lemma_clean_steps(toks, o, SyntaxKind::IfKw);
    if rem(toks, s1.pos) < rem(toks, st.pos) {
        lemma_expr(toks, s1);
        lemma_expr_ends_cleanly(toks, s1);
        if let Ok(d) = expr(toks, s1) {
            let m = after(s1, d);
            lemma_clean_chain(toks, o, s1, m);
            lemma_expr_block(toks, m);
            if let Ok(d2) = expr_block(toks, m) {
                let e = after(m, d2);
                lemma_node_grows(toks, st, SyntaxKind::ExprIf, e);
                lemma_added_concat(toks, o, m, e);
                lemma_clean_prefix(toks, o.pos, added(o, m), added(m, e));
                assert(added(m, e).len() == 1);
                assert(added(st, close(e)) =~= seq![Tree::Node { kind: SyntaxKind::ExprIf, children: added(o, e) }]);
            }
        }
    }
}

/// The value of a `const` item takes every postfix operator that follows
/// it: in the `ItemConst` node, every expression child is followed by a
/// token that is no postfix operator.
#[verifier::spinoff_prover]
pub proof fn lemma_item_const_ends_cleanly(toks: Seq<Lexeme>, st: PState)
    requires
        lexemes_well_formed(toks),
        state_wf(toks, st),
    ensures
        item_const(toks, st) matches Ok(d) ==> {
            let a = added(st, after(st, d));
            &&& a.len() == 1
            &&& a[0] is Node
            &&& a[0].kind() == SyntaxKind::ItemConst
            &&& ends_cleanly(toks, st.pos, a[0].children(), a[0].children().len() as int)
        },
{
    lemma_item_const(toks, st);
    let s1 = open(st, SyntaxKind::ItemConst);
    lemma_node_grows(toks, st, SyntaxKind::ItemConst, s1);
    lemma_node_ops(st, SyntaxKind::ItemConst, 0);
    crate::cstgen::steps::lemma_grows_refl(toks, s1);
    assert(added(s1, s1) =~= Seq::<Tree>::empty());
    let s2 = expect_optional(toks, s1, SyntaxKind::PubKw).0;
    lemma_steps_grow(toks, s1, SyntaxKind::PubKw);
    lemma_clean_steps(toks, s1, SyntaxKind::PubKw);
    let s3 = expect(toks, s2, SyntaxKind::ConstKw);
    lemma_steps_grow(toks, s2, SyntaxKind::ConstKw);
    lemma_clean_steps(toks, s2, SyntaxKind::ConstKw);
    lemma_clean_chain(toks, s1, s2, s3);
    lemma_pattern_grows(toks, s3);
    if let Ok(s4) = pattern(toks, s3) {
        // the pattern adds one `PatIdent` node, which is no expression
        let p0 = open(s3, SyntaxKind::PatIdent);
        lemma_node_grows(toks, s3, SyntaxKind::PatIdent, p0);
        lemma_pattern_grows(toks, p0);
        lemma_node_grows(toks, s3, SyntaxKind::PatIdent, name(toks, p0));
        let pa = added(s3, s4);
        assert(pa.len() == 1 && pa[0].kind() == SyntaxKind::PatIdent);
        lemma_clean_plain(toks, s3.pos, pa);
        lemma_clean_chain(toks, s1, s3, s4);
        let s5 = if peek(toks, s4.pos) == SyntaxKind::Colon {
            let t0 = open(s4, SyntaxKind::Type);
            lemma_node_grows(toks, s4, SyntaxKind::Type, t0);
            let t1 = bump(toks, t0);
            lemma_steps_grow(toks, t0, SyntaxKind::Colon);
            lemma_expr(toks, t1);
            match expr(toks, t1) {
                Ok(d) => {
                    let t2 = after(t1, d);
                    lemma_node_grows(toks, s4, SyntaxKind::Type, t2);
                    let ta = added(s4, close(t2));
                    assert(ta.len() == 1 && ta[0].kind() == SyntaxKind::Type);
                    lemma_clean_plain(toks, s4.pos, ta);
                    lemma_clean_chain(toks, s1, s4, close(t2));
                    close(t2)
                },
                Err(_) => s4,
            }
        } else {
            s4
        };
        if peek(toks, s4.pos) != SyntaxKind::Colon || expr(toks, bump(toks, open(s4, SyntaxKind::Type))) is Ok {
            let (s6, flow) = expect_optional(toks, s5, SyntaxKind::Eq);
            lemma_steps_grow(toks, s5, SyntaxKind::Eq);
            lemma_clean_steps(toks, s5, SyntaxKind::Eq);
            lemma_clean_chain(toks, s1, s5, s6);
            let s7 = if flow == ControlFlow::Continue {
                lemma_expr(toks, s6);
                lemma_expr_ends_cleanly(toks, s6);
                match expr(toks, s6) {
                    Ok(d) => {
                        lemma_clean_chain(toks, s1, s6, after(s6, d));
                        after(s6, d)
                    },
                    Err(_) => s6,
                }
            } else {
                s6
            };
            if flow != ControlFlow::Continue || expr(toks, s6) is Ok {
                let e = expect(toks, s7, SyntaxKind::Semi);
                lemma_steps_grow(toks, s7, SyntaxKind::Semi);
                lemma_clean_steps(toks, s7, SyntaxKind::Semi);
                lemma_clean_chain(toks, s1, s7, e);
                lemma_node_grows(toks, st, SyntaxKind::ItemConst, e);
                assert(added(st, close(e)) =~= seq![Tree::Node { kind: SyntaxKind::ItemConst, children: added(s1, e) }]);
            }
        }
    }
}

/// Closing a node opened at `st` and grown to `e` adds one node, whose
/// children are what was added since it opened.
proof fn lemma_node_closes(toks: Seq<Lexeme>, st: PState, kind: SyntaxKind, e: PState)
    requires
        state_wf(toks, st),
        grows(toks, open(st, kind), e),
    ensures
        added(st, close(e)) == seq![Tree::Node { kind, children: added(open(st, kind), e) }],
        open(st, kind).pos == st.pos,
{
    lemma_node_grows(toks, st, kind, e);
    lemma_node_ops(st, kind, 0);
    assert(added(st, close(e)) =~= seq![Tree::Node { kind, children: added(open(st, kind), e) }]);
}

/// Opening a node adds nothing, which ends cleanly.
proof fn lemma_clean_open(toks: Seq<Lexeme>, st: PState, kind: SyntaxKind)
    requires
        state_wf(toks, st),
    ensures
        state_wf(toks, open(st, kind)),
        grows(toks, open(st, kind), open(st, kind)),
        ends_cleanly(toks, st.pos, added(open(st, kind), open(st, kind)), 0),
{
    lemma_node_grows(toks, st, kind, open(st, kind));
    lemma_grows_refl(toks, open(st, kind));
}

/// An expression item's expression takes every postfix operator that
/// follows it: every expression child of the `ItemExpr` node is followed by
/// a token that is no postfix operator.
pub proof fn lemma_item_expr_ends_cleanly(toks: Seq<Lexeme>, st: PState)
    requires
        lexemes_well_formed(toks),
        state_wf(toks, st),
        peek(toks, st.pos) != SyntaxKind::PubKw,
        peek(toks, st.pos) != SyntaxKind::ConstKw,
    ensures
        item(toks, st) matches Ok(d) ==> {
            let a = added(st, after(st, d));
            &&& a.len() == 1
            &&& a[0] is Node
            &&& a[0].kind() == SyntaxKind::ItemExpr
            &&& ends_cleanly(toks, st.pos, a[0].children(), a[0].children().len() as int)
        },
{
    let o = open(st, SyntaxKind::ItemExpr);
    lemma_clean_open(toks, st, SyntaxKind::ItemExpr);
    lemma_node_ops(st, SyntaxKind::ItemExpr, 0);
    lemma_expr(toks, o);
    lemma_expr_ends_cleanly(toks, o);
    if let Ok(d) = expr(toks, o) {
        let m = after(o, d);
        let e = expect_optional(toks, m, SyntaxKind::Semi).0;
        lemma_steps_grow(toks, m, SyntaxKind::Semi);
        lemma_clean_steps(toks, m, SyntaxKind::Semi);
        lemma_clean_chain(toks, o, m, e);
        lemma_node_closes(toks, st, SyntaxKind::ItemExpr, e);
    }
}

/// A reference or pointer expression (`&e`, `*e`) holds a whole expression:
/// every expression child of its node is followed by a token that is no
/// postfix operator.
pub proof fn lemma_prefix_then_expr_ends_cleanly(toks: Seq<Lexeme>, st: PState, kind: SyntaxKind)
    requires
        lexemes_well_formed(toks),
        state_wf(toks, st),
    ensures
        prefix_then_expr(toks, st, kind) matches Ok(d) ==> {
            let a = added(st, after(st, d));
            &&& a.len() == 1
            &&& a[0] is Node
            &&& a[0].kind() == kind
            &&& ends_cleanly(toks, st.pos, a[0].children(), a[0].children().len() as int)
        },
{
    let o = open(st, kind);
    lemma_clean_open(toks, st, kind);
    lemma_node_ops(st, kind, 0);
    let s1 = bump(toks, o);
    lemma_steps_grow(toks, o, kind);
    lemma_clean_steps(toks, o, kind);
    if rem(toks, s1.pos) < rem(toks, st.pos) {
        lemma_expr(toks, s1);
        lemma_expr_ends_cleanly(toks, s1);
        if let Ok(d) = expr(toks, s1) {
            let m = after(s1, d);
            lemma_clean_chain(toks, o, s1, m);
            lemma_node_closes(toks, st, kind, m);
        }
    }
}

/// A parenthesized expression holds a whole expression: every expression
/// child of the `ExprParen` node is followed by a token that is no postfix
/// operator.
pub proof fn lemma_paren_ends_cleanly(toks: Seq<Lexeme>, st: PState)
    requires
        lexemes_well_formed(toks),
        state_wf(toks, st),
    ensures
        expr_paren(toks, st) matches Ok(d) ==> {
            let a = added(st, after(st, d));
            &&& a.len() == 1
            &&& a[0] is Node
            &&& a[0].kind() == SyntaxKind::ExprParen
            &&& ends_cleanly(toks, st.pos, a[0].children(), a[0].children().len() as int)
        },
{
    let o = open(st, SyntaxKind::ExprParen);
    lemma_clean_open(toks, st, SyntaxKind::ExprParen);
    lemma_node_ops(st, SyntaxKind::ExprParen, 0);
    let s1 = bump(toks, o);
    lemma_steps_grow(toks, o, SyntaxKind::ParenOpen);
    lemma_clean_steps(toks, o, SyntaxKind::ParenOpen);
    if rem(toks, s1.pos) < rem(toks, st.pos) {
        lemma_expr(toks, s1);
        lemma_expr_ends_cleanly(toks, s1);
        if let Ok(d) = expr(toks, s1) {
            let m = after(s1, d);
            lemma_clean_chain(toks, o, s1, m);
            let e = expect(toks, m, SyntaxKind::ParenClose);
            lemma_steps_grow(toks, m, SyntaxKind::ParenClose);
            lemma_clean_steps(toks, m, SyntaxKind::ParenClose);
            lemma_clean_chain(toks, o, m, e);
            lemma_node_closes(toks, st, SyntaxKind::ExprParen, e);
        }
    }
}

/// An item adds one item node, which is no expression.
#[verifier::spinoff_prover]
proof fn lemma_item_clean(toks: Seq<Lexeme>, st: PState)
    requires
        lexemes_well_formed(toks),
        state_wf(toks, st),
    ensures
        item(toks, st) matches Ok(d) ==> {
            let a = added(st, after(st, d));
            ends_cleanly(toks, st.pos, a, a.len() as int)
        },
{
    let k = peek(toks, st.pos);
    if k == SyntaxKind::PubKw || k == SyntaxKind::ConstKw {
        lemma_item_const_ends_cleanly(toks, st);
        if let Ok(d) = item_const(toks, st) {
            lemma_clean_plain(toks, st.pos, added(st, after(st, d)));
        }
    } else {
        lemma_item_expr_ends_cleanly(toks, st);
        if let Ok(d) = item(toks, st) {
            lemma_clean_plain(toks, st.pos, added(st, after(st, d)));
        }
    }
}

/// Items add only item nodes, which are no expressions.
#[verifier::spinoff_prover]
proof fn lemma_items_clean(toks: Seq<Lexeme>, st: PState, stop: SyntaxKind)
    requires
        lexemes_well_formed(toks),
        state_wf(toks, st),
    ensures
        items(toks, st, stop) matches Ok(d) ==> {
            let a = added(st, after(st, d));
            ends_cleanly(toks, st.pos, a, a.len() as int)
        },
    decreases rem(toks, st.pos),
{
    if peek(toks, st.pos) == stop {
        assert(added(st, st) =~= Seq::<Tree>::empty());
    } else {
        lemma_item(toks, st);
        lemma_item_clean(toks, st);
        if let Ok(d) = item(toks, st) {
            let s1 = after(st, d);
            if rem(toks, s1.pos) < rem(toks, st.pos) {
                lemma_items_clean(toks, s1, stop);
                lemma_items(toks, s1, stop);
                if let Ok(d2) = items(toks, s1, stop) {
                    lemma_clean_chain(toks, st, s1, after(s1, d2));
                }
            }
        }
    }
}

/// The type of an `impl` is a whole expression: every expression child of
/// the `ExprImpl` node is followed by a token that is no postfix operator.
pub proof fn lemma_impl_ends_cleanly(toks: Seq<Lexeme>, st: PState)
    requires
        lexemes_well_formed(toks),
        state_wf(toks, st),
    ensures
        expr_impl(toks, st) matches Ok(d) ==> {
            let a = added(st, after(st, d));
            &&& a.len() == 1
            &&& a[0] is Node
            &&& a[0].kind() == SyntaxKind::ExprImpl
            &&& ends_cleanly(toks, st.pos, a[0].children(), a[0].children().len() as int)
        },
{
    let o = open(st, SyntaxKind::ExprImpl);
    lemma_clean_open(toks, st, SyntaxKind::ExprImpl);
    lemma_node_ops(st, SyntaxKind::ExprImpl, 0);
    let s1 = bump(toks, o);
    lemma_steps_grow(toks, o, SyntaxKind::ImplKw);
    lemma_clean_steps(toks, o, SyntaxKind::ImplKw);
    if rem(toks, s1.pos) < rem(toks, st.pos) {
        lemma_expr(toks, s1);
        lemma_expr_ends_cleanly(toks, s1);
        if let Ok(d) = expr(toks, s1) {
            let m = after(s1, d);
            lemma_clean_chain(toks, o, s1, m);
            let s2 = expect(toks, m, SyntaxKind::BraceOpen);
            lemma_steps_grow(toks, m, SyntaxKind::BraceOpen);
            lemma_clean_steps(toks, m, SyntaxKind::BraceOpen);
            lemma_clean_chain(toks, o, m, s2);
            lemma_items(toks, s2, SyntaxKind::BraceClose);
            lemma_items_clean(toks, s2, SyntaxKind::BraceClose);
            if let Ok(d2) = items(toks, s2, SyntaxKind::BraceClose) {
                let s3 = after(s2, d2);
                lemma_clean_chain(toks, o, s2, s3);
                let e = expect(toks, s3, SyntaxKind::BraceClose);
                lemma_steps_grow(toks, s3, SyntaxKind::BraceClose);
                lemma_clean_steps(toks, s3, SyntaxKind::BraceClose);
                lemma_clean_chain(toks, o, s3, e);
                lemma_node_closes(toks, st, SyntaxKind::ExprImpl, e);
            }
        }
    }
}

/// The pattern adds one `PatIdent` node, which is no expression.
proof fn lemma_pattern_clean(toks: Seq<Lexeme>, st: PState)
    requires
        state_wf(toks, st),
    ensures
        pattern(toks, st) matches Ok(s) ==> grows(toks, st, s) && ends_cleanly(
            toks,
            st.pos,
            added(st, s),
            added(st, s).len() as int,
        ),
{
    lemma_pattern_grows(toks, st);
    if let Ok(s) = pattern(toks, st) {
        let p0 = open(st, SyntaxKind::PatIdent);
        lemma_node_grows(toks, st, SyntaxKind::PatIdent, p0);
        lemma_pattern_grows(toks, p0);
        lemma_node_closes(toks, st, SyntaxKind::PatIdent, name(toks, p0));
        lemma_clean_plain(toks, st.pos, added(st, s));
    }
}

/// A `let` statement's value takes every postfix operator that follows it:
/// every expression child of the `StmtLocal` node is followed by a token
/// that is no postfix operator.
pub proof fn lemma_let_ends_cleanly(toks: Seq<Lexeme>, st: PState)
    requires
        lexemes_well_formed(toks),
        state_wf(toks, st),
        peek(toks, st.pos) == SyntaxKind::LetKw,
    ensures
        statement(toks, st) matches Ok(d) ==> {
            let a = added(st, after(st, d));
            &&& a.len() == 1
            &&& a[0] is Node
            &&& a[0].kind() == SyntaxKind::StmtLocal
            &&& ends_cleanly(toks, st.pos, a[0].children(), a[0].children().len() as int)
        },
{
    let o = open(st, SyntaxKind::StmtLocal);
    lemma_clean_open(toks, st, SyntaxKind::StmtLocal);
    lemma_node_ops(st, SyntaxKind::StmtLocal, 0);
    let s1 = bump(toks, o);
    lemma_steps_grow(toks, o, SyntaxKind::LetKw);
    lemma_clean_steps(toks, o, SyntaxKind::LetKw);
    lemma_pattern_clean(toks, s1);
    if let Ok(s2) = pattern(toks, s1) {
        lemma_clean_chain(toks, o, s1, s2);
        let (s3, flow) = expect_optional(toks, s2, SyntaxKind::Eq);
        lemma_steps_grow(toks, s2, SyntaxKind::Eq);
        lemma_clean_steps(toks, s2, SyntaxKind::Eq);
        lemma_clean_chain(toks, o, s2, s3);
        if flow == ControlFlow::Continue {
            lemma_expr(toks, s3);
            lemma_expr_ends_cleanly(toks, s3);
            if let Ok(d) = expr(toks, s3) {
                let s4 = after(s3, d);
                lemma_clean_chain(toks, o, s3, s4);
                let e = expect(toks, s4, SyntaxKind::Semi);
                lemma_steps_grow(toks, s4, SyntaxKind::Semi);
                lemma_clean_steps(toks, s4, SyntaxKind::Semi);
                lemma_clean_chain(toks, o, s4, e);
                lemma_node_closes(toks, st, SyntaxKind::StmtLocal, e);
            }
        } else {
            let e = expect(toks, s3, SyntaxKind::Semi);
            lemma_steps_grow(toks, s3, SyntaxKind::Semi);
            lemma_clean_steps(toks, s3, SyntaxKind::Semi);
            lemma_clean_chain(toks, o, s3, e);
            lemma_node_closes(toks, st, SyntaxKind::StmtLocal, e);
        }
    }
}

/// Each field value of a `struct` takes every postfix operator that
/// follows it.
pub proof fn lemma_struct_fields_end_cleanly(toks: Seq<Lexeme>, st: PState)
    requires
        lexemes_well_formed(toks),
        state_wf(toks, st),
    ensures
        struct_fields(toks, st) matches Ok(d) ==> {
            let a = added(st, after(st, d));
            ends_cleanly(toks, st.pos, a, a.len() as int)
        },
    decreases rem(toks, st.pos),
{
    lemma_struct_fields(toks, st);
    lemma_struct_field(toks, st);
    // a field: a `Name` node, `:` and its trivia, then an expression
    let n0 = open(st, SyntaxKind::Name);
    lemma_clean_open(toks, st, SyntaxKind::Name);
    lemma_steps_grow(toks, n0, SyntaxKind::Ident);
    lemma_node_closes(toks, st, SyntaxKind::Name, expect(toks, n0, SyntaxKind::Ident));
    let s0 = name(toks, st);
    lemma_pattern_grows(toks, st);
    lemma_clean_plain(toks, st.pos, added(st, s0));
    let s1 = expect(toks, s0, SyntaxKind::Colon);
    lemma_steps_grow(toks, s0, SyntaxKind::Colon);
    lemma_clean_steps(toks, s0, SyntaxKind::Colon);
    lemma_clean_chain(toks, st, s0, s1);
    lemma_expr(toks, s1);
    lemma_expr_ends_cleanly(toks, s1);
    if let Ok(d) = expr(toks, s1) {
        let m = after(s1, d);
        lemma_clean_chain(toks, st, s1, m);
        let (s2, flow) = expect_optional(toks, m, SyntaxKind::Comma);
        lemma_steps_grow(toks, m, SyntaxKind::Comma);
        lemma_clean_steps(toks, m, SyntaxKind::Comma);
        lemma_clean_chain(toks, st, m, s2);
        if flow == ControlFlow::Continue && rem(toks, s2.pos) < rem(toks, st.pos) {
            lemma_struct_fields(toks, s2);
            lemma_struct_fields_end_cleanly(toks, s2);
            if let Ok(d2) = struct_fields(toks, s2) {
                lemma_clean_chain(toks, st, s2, after(s2, d2));
            }
        }
    }
}

/// A closure's return type, block and body take every postfix operator
/// that follows them: every expression child of the `ExprClosure` node is
/// followed by a token that is no postfix operator.
#[verifier::spinoff_prover]
pub proof fn lemma_closure_ends_cleanly(toks: Seq<Lexeme>, st: PState)
    requires
        lexemes_well_formed(toks),
        state_wf(toks, st),
    ensures
        expr_closure(toks, st) matches Ok(d) ==> {
            let a = added(st, after(st, d));
            &&& a.len() == 1
            &&& a[0] is Node
            &&& a[0].kind() == SyntaxKind::ExprClosure
            &&& ends_cleanly(toks, st.pos, a[0].children(), a[0].children().len() as int)
        },
{
    let o = open(st, SyntaxKind::ExprClosure);
    lemma_clean_open(toks, st, SyntaxKind::ExprClosure);
    lemma_node_ops(st, SyntaxKind::ExprClosure, 0);
    let s1 = bump(toks, o);
    lemma_steps_grow(toks, o, SyntaxKind::Pipe);
    lemma_clean_steps(toks, o, SyntaxKind::Pipe);
    if rem(toks, s1.pos) < rem(toks, st.pos) {
        lemma_arg_list(toks, s1, false);
        // the argument list adds one `ArgList` node, which is no expression
        let l0 = open(s1, SyntaxKind::ArgList);
        lemma_clean_open(toks, s1, SyntaxKind::ArgList);
        lemma_args(toks, l0, false);
        if let Ok(d) = arg_list(toks, s1, false) {
            let da = args(toks, l0, false)->Ok_0;
            lemma_node_closes(toks, s1, SyntaxKind::ArgList, after(l0, da));
            let a = after(s1, d);
            lemma_clean_plain(toks, s1.pos, added(s1, a));
            lemma_clean_chain(toks, o, s1, a);
            let s2 = expect(toks, a, SyntaxKind::Pipe);
            lemma_steps_grow(toks, a, SyntaxKind::Pipe);
            lemma_clean_steps(toks, a, SyntaxKind::Pipe);
            lemma_clean_chain(toks, o, a, s2);
            let (s3, flow) = expect_optional(toks, s2, SyntaxKind::Arrow);
            lemma_steps_grow(toks, s2, SyntaxKind::Arrow);
            lemma_clean_steps(toks, s2, SyntaxKind::Arrow);
            lemma_clean_chain(toks, o, s2, s3);
            lemma_expr(toks, s3);
            lemma_expr_ends_cleanly(toks, s3);
            if let Ok(d2) = expr(toks, s3) {
                let s4 = after(s3, d2);
                lemma_clean_chain(toks, o, s3, s4);
                lemma_node_closes(toks, st, SyntaxKind::ExprClosure, s4);
                if flow == ControlFlow::Continue && peek(toks, s4.pos) == SyntaxKind::BraceOpen {
                    lemma_expr(toks, s4);
                    lemma_expr_ends_cleanly(toks, s4);
                    if let Ok(d3) = expr(toks, s4) {
                        lemma_clean_chain(toks, o, s4, after(s4, d3));
                        lemma_node_closes(toks, st, SyntaxKind::ExprClosure, after(s4, d3));
                    }
                }
            }
        }
    }
}

/// A routine that succeeded from `st` built exactly one node, of kind `kind`.
pub open spec fn builds(st: PState, r: Outcome, kind: SyntaxKind) -> bool {
    r matches Ok(d) ==> {
        let a = added(st, after(st, d));
        &&& a.len() == 1
        &&& a[0] is Node
        &&& a[0].kind() == kind
    }
}

/// `{` statements `}` builds an `ExprBlock` node.
proof fn lemma_block_kind(toks: Seq<Lexeme>, st: PState)
    requires
        state_wf(toks, st),
    ensures
        builds(st, expr_block(toks, st), SyntaxKind::ExprBlock),
{
    let o = open(st, SyntaxKind::ExprBlock);
    lemma_node_grows(toks, st, SyntaxKind::ExprBlock, o);
    let s1 = expect(toks, o, SyntaxKind::BraceOpen);
    lemma_steps_grow(toks, o, SyntaxKind::BraceOpen);
    lemma_statements(toks, s1);
    if let Ok(d) = statements(toks, s1) {
        let m = after(s1, d);
        lemma_steps_grow(toks, m, SyntaxKind::BraceClose);
        lemma_node_closes(toks, st, SyntaxKind::ExprBlock, expect(toks, m, SyntaxKind::BraceClose));
    }
}

/// `enum {` variants `}` builds an `ExprEnum` node.
proof fn lemma_enum_kind(toks: Seq<Lexeme>, st: PState)
    requires
        state_wf(toks, st),
    ensures
        builds(st, expr_enum(toks, st), SyntaxKind::ExprEnum),
{
    let o = open(st, SyntaxKind::ExprEnum);
    lemma_node_grows(toks, st, SyntaxKind::ExprEnum, o);
    let b = bump(toks, o);
    lemma_steps_grow(toks, o, SyntaxKind::EnumKw);
    let s1 = expect(toks, b, SyntaxKind::BraceOpen);
    lemma_steps_grow(toks, b, SyntaxKind::BraceOpen);
    if rem(toks, s1.pos) < rem(toks, st.pos) {
        lemma_exprs(toks, s1);
        if let Ok(d) = exprs(toks, s1) {
            let m = after(s1, d);
            lemma_steps_grow(toks, m, SyntaxKind::BraceClose);
            lemma_node_closes(toks, st, SyntaxKind::ExprEnum, expect(toks, m, SyntaxKind::BraceClose));
        }
    }
}

/// `struct {` fields `}` builds an `ExprStruct` node.
proof fn lemma_struct_kind(toks: Seq<Lexeme>, st: PState)
    requires
        state_wf(toks, st),
    ensures
        builds(st, expr_struct(toks, st), SyntaxKind::ExprStruct),
{
    let o = open(st, SyntaxKind::ExprStruct);
    lemma_node_grows(toks, st, SyntaxKind::ExprStruct, o);
    let b = bump(toks, o);
    lemma_steps_grow(toks, o, SyntaxKind::StructKw);
    let s1 = expect(toks, b, SyntaxKind::BraceOpen);
    lemma_steps_grow(toks, b, SyntaxKind::BraceOpen);
    if rem(toks, s1.pos) < rem(toks, st.pos) {
        lemma_struct_fields(toks, s1);
        if let Ok(d) = struct_fields(toks, s1) {
            let m = after(s1, d);
            lemma_steps_grow(toks, m, SyntaxKind::BraceClose);
            lemma_node_closes(toks, st, SyntaxKind::ExprStruct, expect(toks, m, SyntaxKind::BraceClose));
        }
    }
}

/// `trait {` items `}` builds an `ExprTrait` node.
proof fn lemma_trait_kind(toks: Seq<Lexeme>, st: PState)
    requires
        state_wf(toks, st),
    ensures
        builds(st, expr_trait(toks, st), SyntaxKind::ExprTrait),
{
    let o = open(st, SyntaxKind::ExprTrait);
    lemma_node_grows(toks, st, SyntaxKind::ExprTrait, o);
    let b = bump(toks, o);
    lemma_steps_grow(toks, o, SyntaxKind::TraitKw);
    let s1 = expect(toks, b, SyntaxKind::BraceOpen);
    lemma_steps_grow(toks, b, SyntaxKind::BraceOpen);
    if rem(toks, s1.pos) < rem(toks, st.pos) {
        lemma_items(toks, s1, SyntaxKind::BraceClose);
        if let Ok(d) = items(toks, s1, SyntaxKind::BraceClose) {
            let m = after(s1, d);
            lemma_steps_grow(toks, m, SyntaxKind::BraceClose);
            lemma_node_closes(toks, st, SyntaxKind::ExprTrait, expect(toks, m, SyntaxKind::BraceClose));
        }
    }
}

/// Postfix operators wrap the expression in `ExprCall` and `ExprField`
/// nodes: where the expression's node is of an expression kind, so is the
/// node after them.
proof fn lemma_postfix_kind(toks: Seq<Lexeme>, st0: PState, st: PState, left: SyntaxKind, cp: nat)
    requires
        state_wf(toks, st0),
        grows(toks, st0, st),
        adds_one_node(st0, st),
        cp == st0.b.children.len(),
        expression_kind(st.b.children.last().kind()),
    ensures
        postfix(toks, st, left, cp) matches Ok(d) ==> expression_kind(after(st, d).b.children.last().kind()),
    decreases rem(toks, st.pos),
{
    let right = peek(toks, st.pos);
    if binds_tighter(left, right) {
        if right == SyntaxKind::ParenOpen {
            let o = open_at(st, cp, SyntaxKind::ExprCall);
            lemma_node_at_grows(toks, st0, st, SyntaxKind::ExprCall, o);
            let b = bump(toks, o);
            lemma_steps_grow(toks, o, SyntaxKind::ParenOpen);
            let s1 = open(b, SyntaxKind::CallArgs);
            lemma_node_grows(toks, b, SyntaxKind::CallArgs, s1);
            lemma_exprs(toks, s1);
            if let Ok(d) = exprs(toks, s1) {
                let m = after(s1, d);
                lemma_node_grows(toks, b, SyntaxKind::CallArgs, m);
                lemma_steps_grow(toks, close(m), SyntaxKind::ParenClose);
                let e = expect(toks, close(m), SyntaxKind::ParenClose);
                lemma_node_at_grows(toks, st0, st, SyntaxKind::ExprCall, e);
                let s2 = close(e);
                if rem(toks, s2.pos) < rem(toks, st.pos) {
                    lemma_postfix_kind(toks, st0, s2, left, cp);
                }
            }
        } else if right == SyntaxKind::Dot {
            let o = open_at(st, cp, SyntaxKind::ExprField);
            lemma_node_at_grows(toks, st0, st, SyntaxKind::ExprField, o);
            let s1 = bump(toks, o);
            lemma_steps_grow(toks, o, SyntaxKind::Dot);
            lemma_expr(toks, s1);
            if let Ok(d) = expr(toks, s1) {
                lemma_node_at_grows(toks, st0, st, SyntaxKind::ExprField, after(s1, d));
                let s2 = close(after(s1, d));
                if rem(toks, s2.pos) < rem(toks, st.pos) {
                    lemma_postfix_kind(toks, st0, s2, left, cp);
                }
            }
        }
    }
}

/// An expression head builds one node of an expression kind, unless no
/// expression starts here.
#[verifier::spinoff_prover]
proof fn lemma_prefix_kind(toks: Seq<Lexeme>, st: PState, allow_closures: bool)
    requires
        lexemes_well_formed(toks),
        state_wf(toks, st),
    ensures
        expr_prefix(toks, st, allow_closures) matches Ok(d) ==> (d.flow == ControlFlow::Continue ==> {
            let a = added(st, after(st, d));
            &&& a.len() == 1
            &&& a[0] is Node
            &&& expression_kind(a[0].kind())
            &&& a[0].kind() != SyntaxKind::ExprCall
            &&& a[0].kind() != SyntaxKind::ExprField
        }),
{
    let k = peek(toks, st.pos);
    if k == SyntaxKind::Ampersand {
        lemma_prefix_then_expr_ends_cleanly(toks, st, SyntaxKind::ExprRef);
    } else if k == SyntaxKind::Asterisk {
        lemma_prefix_then_expr_ends_cleanly(toks, st, SyntaxKind::ExprPtr);
    } else if k == SyntaxKind::Ident {
        let o = open(st, SyntaxKind::ExprIdent);
        lemma_node_grows(toks, st, SyntaxKind::ExprIdent, o);
        lemma_steps_grow(toks, o, SyntaxKind::Ident);
        lemma_node_closes(toks, st, SyntaxKind::ExprIdent, bump(toks, o));
    } else if k == SyntaxKind::BraceOpen {
        lemma_block_kind(toks, st);
    } else if k == SyntaxKind::ParenOpen {
        lemma_paren_ends_cleanly(toks, st);
    } else if k == SyntaxKind::Pipe && allow_closures {
        lemma_closure_ends_cleanly(toks, st);
    } else if k == SyntaxKind::EnumKw {
        lemma_enum_kind(toks, st);
    } else if k == SyntaxKind::StructKw {
        lemma_struct_kind(toks, st);
    } else if k == SyntaxKind::TraitKw {
        lemma_trait_kind(toks, st);
    } else if k == SyntaxKind::ImplKw {
        lemma_impl_ends_cleanly(toks, st);
    } else if k == SyntaxKind::IfKw {
        lemma_if_ends_cleanly(toks, st);
    }
}

/// An expression builds one node, of an expression kind, unless no
/// expression starts where it was asked for.
pub proof fn lemma_expr_kind(toks: Seq<Lexeme>, st: PState)
    requires
        lexemes_well_formed(toks),
        state_wf(toks, st),
    ensures
        expr_inner(toks, st, SyntaxKind::Eof) matches Ok(d) ==> (d.flow == ControlFlow::Continue ==> {
            let a = added(st, after(st, d));
            &&& a.len() == 1
            &&& a[0] is Node
            &&& expression_kind(a[0].kind())
        }),
{
    lemma_expr_prefix(toks, st, true);
    lemma_prefix_kind(toks, st, true);
    if let Ok(d) = crate::cstgen::grammar::expr_prefix(toks, st, true) {
        if d.flow != ControlFlow::Break {
            let s1 = after(st, d);
            let cp = st.b.children.len();
            lemma_added(toks, st, s1);
            assert(s1.b.children.last() == added(st, s1)[0]);
            lemma_postfix(toks, st, s1, SyntaxKind::Eof, cp);
            lemma_postfix_kind(toks, st, s1, SyntaxKind::Eof, cp);
            if let Ok(d2) = postfix(toks, s1, SyntaxKind::Eof, cp) {
                let e = after(s1, d2);
                lemma_added(toks, st, e);
                assert(added(st, e)[0] == e.b.children.last());
            }
        }
    }
}

/// A `Type` node that ends in an expression node.
pub open spec fn type_with_expression(t: Tree) -> bool {
    &&& t is Node
    &&& t.kind() == SyntaxKind::Type
    &&& t.children().len() > 0
    &&& t.children().last() is Node
    &&& expression_kind(t.children().last().kind())
}

/// `children` stand for the tokens from `start` on, and each `Type` node
/// among them that ends in an expression is followed by a token that is no
/// postfix operator (or by the end).
pub open spec fn types_end_cleanly(toks: Seq<Lexeme>, start: nat, children: Seq<Tree>) -> bool {
    forall|i: int, q: int|
        #![trigger children[i], toks.subrange(start as int, q)]
        0 <= i < children.len() && type_with_expression(children[i]) && start <= q <= toks.len() && texts(
            toks.subrange(start as int, q),
        ) == trees_text(children.take(i + 1)) ==> !postfix_operator(peek(toks, q as nat))
}

/// Children with no `Type` node satisfy [`types_end_cleanly`].
proof fn lemma_types_plain(toks: Seq<Lexeme>, a: nat, x: Seq<Tree>)
    requires
        forall|k: int| 0 <= k < x.len() ==> !(#[trigger] x[k] is Node && x[k].kind() == SyntaxKind::Type),
    ensures
        types_end_cleanly(toks, a, x),
{
}

/// What two growths add satisfies [`types_end_cleanly`] where each part
/// does.
proof fn lemma_types_chain(toks: Seq<Lexeme>, a: PState, b: PState, c: PState)
    requires
        lexemes_well_formed(toks),
        grows(toks, a, b),
        grows(toks, b, c),
        types_end_cleanly(toks, a.pos, added(a, b)),
        types_end_cleanly(toks, b.pos, added(b, c)),
    ensures
        types_end_cleanly(toks, a.pos, added(a, c)),
{
    lemma_added(toks, a, b);
    lemma_added_concat(toks, a, b, c);
    let x = added(a, b);
    let y = added(b, c);
    let xy = x + y;
    assert forall|i: int, q: int|
        #![trigger xy[i], toks.subrange(a.pos as int, q)]
        0 <= i < xy.len() && type_with_expression(xy[i]) && a.pos <= q <= toks.len() && texts(
            toks.subrange(a.pos as int, q),
        ) == trees_text(xy.take(i + 1)) implies !postfix_operator(peek(toks, q as nat)) by {
        if i < x.len() {
            assert(xy.take(i + 1) =~= x.take(i + 1));
            assert(xy[i] == x[i]);
        } else {
            let j = i - x.len();
            assert(xy.take(i + 1) =~= x + y.take(j + 1));
            assert(xy[i] == y[j]);
            crate::green::lemma_trees_text_concat(x, y.take(j + 1));
            lemma_texts_prefix(toks, a.pos as int, b.pos as int, q, trees_text(y.take(j + 1)));
        }
    }
}

/// The steps that take tokens add no `Type` node.
proof fn lemma_types_steps(toks: Seq<Lexeme>, st: PState, kind: SyntaxKind)
    requires
        state_wf(toks, st),
    ensures
        types_end_cleanly(toks, st.pos, added(st, expect(toks, st, kind))),
        types_end_cleanly(toks, st.pos, added(st, expect_optional(toks, st, kind).0)),
{
    lemma_steps_leaves(toks, st, kind);
    let y = added(st, expect(toks, st, kind));
    let z = added(st, expect_optional(toks, st, kind).0);
    assert forall|k: int| 0 <= k < y.len() implies !(#[trigger] y[k] is Node && y[k].kind() == SyntaxKind::Type) by {}
    assert forall|k: int| 0 <= k < z.len() implies !(#[trigger] z[k] is Node && z[k].kind() == SyntaxKind::Type) by {}
    lemma_types_plain(toks, st.pos, y);
    lemma_types_plain(toks, st.pos, z);
}

/// An expression adds no `Type` node.
proof fn lemma_types_expr(toks: Seq<Lexeme>, st: PState)
    requires
        lexemes_well_formed(toks),
        state_wf(toks, st),
    ensures
        expr(toks, st) matches Ok(d) ==> types_end_cleanly(toks, st.pos, added(st, after(st, d))),
{
    lemma_expr_inner(toks, st, SyntaxKind::Eof);
    lemma_expr_kind(toks, st);
    if let Ok(d) = expr_inner(toks, st, SyntaxKind::Eof) {
        let a = added(st, after(st, d));
        if d.flow == ControlFlow::Break {
            lemma_added(toks, st, after(st, d));
            assert(a =~= Seq::<Tree>::empty());
        }
        assert forall|k: int| 0 <= k < a.len() implies !(#[trigger] a[k] is Node && a[k].kind() == SyntaxKind::Type) by {}
        lemma_types_plain(toks, st.pos, a);
    }
}

/// The `Type` node of a `const` item: `:` and then an expression, which
/// takes every postfix operator that follows it.
#[verifier::spinoff_prover]
proof fn lemma_type_node_clean(toks: Seq<Lexeme>, s4: PState)
    requires
        lexemes_well_formed(toks),
        state_wf(toks, s4),
    ensures
        ({
            let t1 = bump(toks, open(s4, SyntaxKind::Type));
            expr(toks, t1) matches Ok(d) ==> {
                &&& grows(toks, s4, close(after(t1, d)))
                &&& types_end_cleanly(toks, s4.pos, added(s4, close(after(t1, d))))
                &&& ends_cleanly(toks, s4.pos, added(s4, close(after(t1, d))), added(s4, close(after(t1, d))).len() as int)
            }
        }),
{
    let t0 = open(s4, SyntaxKind::Type);
    lemma_node_grows(toks, s4, SyntaxKind::Type, t0);
    let t1 = bump(toks, t0);
    lemma_steps_grow(toks, t0, SyntaxKind::Colon);
    lemma_expr(toks, t1);
    lemma_expr_ends_cleanly(toks, t1);
    lemma_expr_kind(toks, t1);
    lemma_expr_inner(toks, t1, SyntaxKind::Eof);
    if let Ok(d) = expr(toks, t1) {
        let t2 = after(t1, d);
        lemma_node_grows(toks, s4, SyntaxKind::Type, t2);
        lemma_node_closes(toks, s4, SyntaxKind::Type, t2);
        let ta = added(s4, close(t2));
        let node = ta[0];
        assert(ta =~= seq![node]);
        assert(node.kind() == SyntaxKind::Type);
        assert(!expression_kind(node.kind()));
        lemma_clean_plain(toks, s4.pos, ta);
        lemma_added(toks, s4, close(t2));
        lemma_trees_text_one(node);
        // where the type ends in an expression, that expression was built by `expr`
        assert forall|i: int, q: int|
            #![trigger ta[i], toks.subrange(s4.pos as int, q)]
            0 <= i < ta.len() && type_with_expression(ta[i]) && s4.pos <= q <= toks.len() && texts(
                toks.subrange(s4.pos as int, q),
            ) == trees_text(ta.take(i + 1)) implies !postfix_operator(peek(toks, q as nat)) by {
            assert(i == 0);
            assert(ta.take(1) =~= ta);
            lemma_texts_prefix(toks, s4.pos as int, t2.pos as int, q, Seq::empty());
            assert(texts(toks.subrange(s4.pos as int, q)) =~= texts(toks.subrange(s4.pos as int, t2.pos as int)) + Seq::<char>::empty());
            if q > t2.pos {
                lemma_texts_nonempty(toks, t2.pos as int, q);
            }
            assert(q == t2.pos);
            let inner = added(t0, t2);
            assert(node.children() == inner);
            lemma_added_concat(toks, t0, t1, t2);
            lemma_steps_leaves(toks, t0, SyntaxKind::Colon);
            let ei = added(t1, t2);
            assert(inner == added(t0, t1) + ei);
            if ei.len() == 0 {
                assert(inner =~= added(t0, t1));
                assert(inner.last() is Leaf);
            }
            assert(ei.len() == 1);
            assert(inner.last() == ei[0]);
            lemma_added(toks, t1, t2);
            assert(ei.take(1) =~= ei);
        }
    }
}

/// The type of a `const` item is a whole expression: in the `ItemConst`
/// node, a `Type` node that ends in an expression is followed by a token
/// that is no postfix operator.
#[verifier::spinoff_prover]
pub proof fn lemma_const_type_ends_cleanly(toks: Seq<Lexeme>, st: PState)
    requires
        lexemes_well_formed(toks),
        state_wf(toks, st),
    ensures
        item_const(toks, st) matches Ok(d) ==> {
            let a = added(st, after(st, d));
            &&& a.len() == 1
            &&& a[0] is Node
            &&& a[0].kind() == SyntaxKind::ItemConst
            &&& types_end_cleanly(toks, st.pos, a[0].children())
        },
{
    lemma_item_const(toks, st);
    let s1 = open(st, SyntaxKind::ItemConst);
    lemma_node_grows(toks, st, SyntaxKind::ItemConst, s1);
    lemma_node_ops(st, SyntaxKind::ItemConst, 0);
    crate::cstgen::steps::lemma_grows_refl(toks, s1);
    let s2 = expect_optional(toks, s1, SyntaxKind::PubKw).0;
    lemma_steps_grow(toks, s1, SyntaxKind::PubKw);
    lemma_types_steps(toks, s1, SyntaxKind::PubKw);
    let s3 = expect(toks, s2, SyntaxKind::ConstKw);
    lemma_steps_grow(toks, s2, SyntaxKind::ConstKw);
    lemma_types_steps(toks, s2, SyntaxKind::ConstKw);
    lemma_types_chain(toks, s1, s2, s3);
    lemma_pattern_grows(toks, s3);
    if let Ok(s4) = pattern(toks, s3) {
        let p0 = open(s3, SyntaxKind::PatIdent);
        lemma_node_grows(toks, s3, SyntaxKind::PatIdent, p0);
        lemma_pattern_grows(toks, p0);
        lemma_node_closes(toks, s3, SyntaxKind::PatIdent, name(toks, p0));
        let pa = added(s3, s4);
        lemma_types_plain(toks, s3.pos, pa);
        lemma_types_chain(toks, s1, s3, s4);
        lemma_type_node_clean(toks, s4);
        let s5 = if peek(toks, s4.pos) == SyntaxKind::Colon {
            let t1 = bump(toks, open(s4, SyntaxKind::Type));
            match expr(toks, t1) {
                Ok(d) => {
                    lemma_types_chain(toks, s1, s4, close(after(t1, d)));
                    close(after(t1, d))
                },
                Err(_) => s4,
            }
        } else {
            s4
        };
        if peek(toks, s4.pos) != SyntaxKind::Colon || expr(toks, bump(toks, open(s4, SyntaxKind::Type))) is Ok {
            let (s6, flow) = expect_optional(toks, s5, SyntaxKind::Eq);
            lemma_steps_grow(toks, s5, SyntaxKind::Eq);
            lemma_types_steps(toks, s5, SyntaxKind::Eq);
            lemma_types_chain(toks, s1, s5, s6);
            let s7 = if flow == ControlFlow::Continue {
                lemma_expr(toks, s6);
                lemma_types_expr(toks, s6);
                match expr(toks, s6) {
                    Ok(d) => {
                        lemma_types_chain(toks, s1, s6, after(s6, d));
                        after(s6, d)
                    },
                    Err(_) => s6,
                }
            } else {
                s6
            };
            if flow != ControlFlow::Continue || expr(toks, s6) is Ok {
                let e = expect(toks, s7, SyntaxKind::Semi);
                lemma_steps_grow(toks, s7, SyntaxKind::Semi);
                lemma_types_steps(toks, s7, SyntaxKind::Semi);
                lemma_types_chain(toks, s1, s7, e);
                lemma_node_grows(toks, st, SyntaxKind::ItemConst, e);
                assert(added(st, close(e)) =~= seq![Tree::Node { kind: SyntaxKind::ItemConst, children: added(s1, e) }]);
            }
        }
    }
}

/// `children` stand for the tokens from `start` on, and each expression
/// node among them that comes after a `sep` token is followed by a token
/// that is no postfix operator (or by the end).
pub open spec fn ends_cleanly_after(toks: Seq<Lexeme>, start: nat, children: Seq<Tree>, sep: SyntaxKind) -> bool {
    forall|i: int, j: int, q: int|
        #![trigger children[i], children[j], toks.subrange(start as int, q)]
        0 <= j < i < children.len() && children[j] is Leaf && children[j].kind() == sep && children[i] is Node
            && expression_kind(children[i].kind()) && start <= q <= toks.len() && texts(toks.subrange(start as int, q))
            == trees_text(children.take(i + 1)) ==> !postfix_operator(peek(toks, q as nat))
}

/// The type in an `Arg` is a whole expression: in the `Arg` node, an
/// expression child that comes after the `:` token is followed by a token
/// that is no postfix operator.
#[verifier::spinoff_prover]
pub proof fn lemma_arg_type_ends_cleanly(toks: Seq<Lexeme>, st: PState, allow_closures: bool)
    requires
        lexemes_well_formed(toks),
        state_wf(toks, st),
    ensures
        arg(toks, st, allow_closures) matches Ok(d) ==> {
            let a = added(st, after(st, d));
            &&& a.len() == 1
            &&& a[0] is Node
            &&& a[0].kind() == SyntaxKind::Arg
            &&& ends_cleanly_after(toks, st.pos, a[0].children(), SyntaxKind::Colon)
        },
{
    lemma_arg(toks, st, allow_closures);
    let s1 = open(st, SyntaxKind::Arg);
    lemma_node_grows(toks, st, SyntaxKind::Arg, s1);
    lemma_node_ops(st, SyntaxKind::Arg, 0);
    lemma_grows_refl(toks, s1);
    let s2 = expect_optional(toks, s1, SyntaxKind::ConstKw).0;
    lemma_steps_grow(toks, s1, SyntaxKind::ConstKw);
    lemma_steps_leaves(toks, s1, SyntaxKind::ConstKw);
    lemma_steps_kinds(toks, s1, SyntaxKind::ConstKw);
    lemma_expr_prefix(toks, s2, allow_closures);
    lemma_prefix_kind(toks, s2, allow_closures);
    if let Ok(d) = expr_prefix(toks, s2, allow_closures) {
        let s3 = after(s2, d);
        let (s4, flow) = expect_optional(toks, s3, SyntaxKind::Colon);
        lemma_steps_grow(toks, s3, SyntaxKind::Colon);
        lemma_steps_leaves(toks, s3, SyntaxKind::Colon);
        lemma_added_concat(toks, s1, s2, s3);
        lemma_added_concat(toks, s1, s3, s4);
        lemma_added(toks, s1, s4);
        if flow == ControlFlow::Continue {
            lemma_expr(toks, s4);
            lemma_expr_ends_cleanly(toks, s4);
        }
        if flow != ControlFlow::Continue || expr(toks, s4) is Ok {
            let e = if flow == ControlFlow::Continue {
                after(s4, expr(toks, s4)->Ok_0)
            } else {
                s4
            };
            if flow == ControlFlow::Continue {
                lemma_added_concat(toks, s1, s4, e);
            } else {
                lemma_grows_refl(toks, s4);
                assert(added(s4, s4) =~= Seq::<Tree>::empty());
                assert(added(s1, s4) =~= added(s1, s4) + added(s4, s4));
            }
            lemma_node_grows(toks, st, SyntaxKind::Arg, e);
            lemma_node_closes(toks, st, SyntaxKind::Arg, e);
            let ch = added(s1, e);
            let aa = added(s1, s2);
            let hh = added(s2, s3);
            let x = added(s1, s4);
            let ee = added(s4, e);
            assert(ch == x + ee);
            assert(x == aa + hh + added(s3, s4));
            assert forall|i: int, j: int, q: int|
                #![trigger ch[i], ch[j], toks.subrange(st.pos as int, q)]
                0 <= j < i < ch.len() && ch[j] is Leaf && ch[j].kind() == SyntaxKind::Colon && ch[i] is Node
                    && expression_kind(ch[i].kind()) && st.pos <= q <= toks.len() && texts(
                    toks.subrange(st.pos as int, q),
                ) == trees_text(ch.take(i + 1)) implies !postfix_operator(peek(toks, q as nat)) by {
                if i < aa.len() {
                    assert(ch[i] == aa[i]);
                } else if i < aa.len() + hh.len() {
                    assert(hh.len() <= 1);
                    assert(j < aa.len());
                    assert(ch[j] == aa[j]);
                } else if i < x.len() {
                    assert(ch[i] == added(s3, s4)[i - aa.len() - hh.len()]);
                } else {
                    let jj = i - x.len();
                    assert(ch[i] == ee[jj]);
                    assert(ch.take(i + 1) =~= x + ee.take(jj + 1));
                    crate::green::lemma_trees_text_concat(x, ee.take(jj + 1));
                    lemma_texts_prefix(toks, st.pos as int, s4.pos as int, q, trees_text(ee.take(jj + 1)));
                    assert(ee[jj] is Node);
                }
            }
        }
    }
}

/// Along the operands of postfix operators (the first child of each
/// `ExprCall` and `ExprField` node, which starts where the node starts),
/// the right operand of every `.` takes every postfix operator that follows
/// it.
pub open spec fn fields_end_cleanly(toks: Seq<Lexeme>, start: nat, t: Tree) -> bool
    decreases t,
{
    match t {
        Tree::Node { kind, children } => {
            if (kind == SyntaxKind::ExprCall || kind == SyntaxKind::ExprField) && children.len() > 0 {
                &&& (kind == SyntaxKind::ExprField ==> ends_cleanly_after(toks, start, children, SyntaxKind::Dot))
                &&& fields_end_cleanly(toks, start, children[0])
            } else {
                true
            }
        },
        Tree::Leaf { .. } => true,
    }
}

/// Each postfix operator wraps the node before it, and the right operand
/// of a `.` is a whole expression.
#[verifier::spinoff_prover]
proof fn lemma_postfix_fields(toks: Seq<Lexeme>, st0: PState, st: PState, cp: nat)
    requires
        lexemes_well_formed(toks),
        state_wf(toks, st0),
        grows(toks, st0, st),
        adds_one_node(st0, st),
        cp == st0.b.children.len(),
        fields_end_cleanly(toks, st0.pos, st.b.children.last()),
    ensures
        postfix(toks, st, SyntaxKind::Eof, cp) matches Ok(d) ==> fields_end_cleanly(
            toks,
            st0.pos,
            after(st, d).b.children.last(),
        ),
    decreases rem(toks, st.pos),
{
    let right = peek(toks, st.pos);
    let c = st.b.children.last();
    lemma_added(toks, st0, st);
    assert(added(st0, st) =~= seq![c]);
    assert(st.b.children[cp as int] == c);
    if binds_tighter(SyntaxKind::Eof, right) {
        if right == SyntaxKind::ParenOpen {
            let o = open_at(st, cp, SyntaxKind::ExprCall);
            lemma_node_ops(st, SyntaxKind::ExprCall, cp);
            lemma_node_at_grows(toks, st0, st, SyntaxKind::ExprCall, o);
            let b = bump(toks, o);
            lemma_steps_grow(toks, o, SyntaxKind::ParenOpen);
            let s1 = open(b, SyntaxKind::CallArgs);
            lemma_node_grows(toks, b, SyntaxKind::CallArgs, s1);
            lemma_exprs(toks, s1);
            if let Ok(d) = exprs(toks, s1) {
                let m = after(s1, d);
                lemma_node_grows(toks, b, SyntaxKind::CallArgs, m);
                lemma_steps_grow(toks, close(m), SyntaxKind::ParenClose);
                let e = expect(toks, close(m), SyntaxKind::ParenClose);
                lemma_node_at_grows(toks, st0, st, SyntaxKind::ExprCall, e);
                lemma_added(toks, o, e);
                let s2 = close(e);
                let n = s2.b.children.last();
                assert(n == Tree::Node { kind: SyntaxKind::ExprCall, children: e.b.children.skip(cp as int) });
                assert(n.children()[0] == c);
                assert(fields_end_cleanly(toks, st0.pos, n));
                if rem(toks, s2.pos) < rem(toks, st.pos) {
                    lemma_postfix_fields(toks, st0, s2, cp);
                }
            }
        } else if right == SyntaxKind::Dot {
            let o = open_at(st, cp, SyntaxKind::ExprField);
            lemma_node_ops(st, SyntaxKind::ExprField, cp);
            lemma_node_at_grows(toks, st0, st, SyntaxKind::ExprField, o);
            let s1 = bump(toks, o);
            lemma_steps_grow(toks, o, SyntaxKind::Dot);
            lemma_steps_leaves(toks, o, SyntaxKind::Dot);
            lemma_expr(toks, s1);
            lemma_expr_ends_cleanly(toks, s1);
            if let Ok(d) = expr(toks, s1) {
                let m = after(s1, d);
                lemma_node_at_grows(toks, st0, st, SyntaxKind::ExprField, m);
                lemma_added(toks, o, s1);
                lemma_added_concat(toks, o, s1, m);
                lemma_added(toks, o, m);
                let s2 = close(m);
                let n = s2.b.children.last();
                let ch = m.b.children.skip(cp as int);
                assert(n == Tree::Node { kind: SyntaxKind::ExprField, children: ch });
                let x = seq![c] + added(o, s1);
                let ee = added(s1, m);
                assert(ch =~= x + ee);
                // the text before the right operand
                lemma_trees_text_one(c);
                crate::green::lemma_trees_text_concat(seq![c], added(o, s1));
                lemma_texts_split(toks, st0.pos as int, st.pos as int, s1.pos as int);
                assert(texts(toks.subrange(st0.pos as int, s1.pos as int)) == trees_text(x));
                assert forall|i: int, j: int, q: int|
                    #![trigger ch[i], ch[j], toks.subrange(st0.pos as int, q)]
                    0 <= j < i < ch.len() && ch[j] is Leaf && ch[j].kind() == SyntaxKind::Dot && ch[i] is Node
                        && expression_kind(ch[i].kind()) && st0.pos <= q <= toks.len() && texts(
                        toks.subrange(st0.pos as int, q),
                    ) == trees_text(ch.take(i + 1)) implies !postfix_operator(peek(toks, q as nat)) by {
                    if i < x.len() {
                        assert(ch[i] == added(o, s1)[i - 1]);
                    } else {
                        let jj = i - x.len();
                        assert(ch[i] == ee[jj]);
                        assert(ch.take(i + 1) =~= x + ee.take(jj + 1));
                        crate::green::lemma_trees_text_concat(x, ee.take(jj + 1));
                        lemma_texts_prefix(toks, st0.pos as int, s1.pos as int, q, trees_text(ee.take(jj + 1)));
                        assert(ee[jj] is Node);
                    }
                }
                assert(ch[0] == c);
                assert(fields_end_cleanly(toks, st0.pos, n));
                if rem(toks, s2.pos) < rem(toks, st.pos) {
                    lemma_postfix_fields(toks, st0, s2, cp);
                }
            }
        }
    }
}

/// The right operand of `.` is a whole expression: in the node an
/// expression builds, along the operands of its calls and field accesses,
/// every expression that follows a `.` is followed by a token that is no
/// postfix operator.
pub proof fn lemma_fields_end_cleanly(toks: Seq<Lexeme>, st: PState)
    requires
        lexemes_well_formed(toks),
        state_wf(toks, st),
    ensures
        expr_inner(toks, st, SyntaxKind::Eof) matches Ok(d) ==> (d.flow == ControlFlow::Continue ==> fields_end_cleanly(
            toks,
            st.pos,
            added(st, after(st, d))[0],
        )),
{
    lemma_expr_prefix(toks, st, true);
    lemma_prefix_kind(toks, st, true);
    if let Ok(d) = expr_prefix(toks, st, true) {
        if d.flow != ControlFlow::Break {
            let s1 = after(st, d);
            let cp = st.b.children.len();
            lemma_added(toks, st, s1);
            assert(s1.b.children.last() == added(st, s1)[0]);
            assert(fields_end_cleanly(toks, st.pos, s1.b.children.last()));
            lemma_postfix(toks, st, s1, SyntaxKind::Eof, cp);
            lemma_postfix_fields(toks, st, s1, cp);
            if let Ok(d2) = postfix(toks, s1, SyntaxKind::Eof, cp) {
                let e = after(s1, d2);
                lemma_added(toks, st, e);
                assert(added(st, e)[0] == e.b.children.last());
            }
        }
    }
}

} // verus!
