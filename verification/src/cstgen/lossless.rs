//! Parsing loses nothing: every routine of the grammar that succeeds
//! closes the nodes it opens, keeps what was built before it, and adds the
//! text of exactly the tokens it takes. A routine for a construct adds
//! exactly one node, whose text is the tokens it took (see
//! [`crate::cstgen::steps::lemma_node_text`]); an expression head stops,
//! taking nothing, exactly where no expression starts. So the syntax tree
//! of a source that parses is a `File` node whose text is the source.

use vstd::prelude::*;

use crate::cstgen::grammar::{
    arg, arg_list, args, expr, expr_block, expr_closure, expr_enum, expr_if, expr_impl, expr_inner,
    expr_paren, expr_prefix, expr_struct, expr_trait, exprs, file, initial, item, item_const, items,
    lemma_items_stop, parse_source, parses, postfix, prefix_then_expr, statement, statements,
    struct_field, struct_fields, syntax_tree,
};
use crate::cstgen::lexer::{lemma_lex_lossless, lex_spec, lexeme_well_formed, Lexeme};
use crate::cstgen::steps::{
    adds_one_node, after, binds_tighter, bump, close, expect, expect_optional, grows, lemma_grows_refl, lemma_grows_unfold,
    lemma_node_at_grows, lemma_node_grows, lemma_node_ops, lemma_pattern_grows, lemma_steps_grow,
    lemma_trivia_grows, name, open, open_at, pattern, peek, rem, state_wf, trivia, ControlFlow, Outcome,
    PState,
};
use crate::cstgen::syntax::SyntaxKind;
use crate::green::{lemma_empty_wf, tree_text, Tree};

verus! {

broadcast use {
    crate::cstgen::steps::lemma_grows_trans,
    crate::cstgen::steps::lemma_grows_basics,
    crate::cstgen::steps::group_steps_forward,
};

/// A routine that succeeded from `st` grew from `st`.
pub open spec fn grows_on_ok(toks: Seq<Lexeme>, st: PState, r: Outcome) -> bool {
    r matches Ok(d) ==> grows(toks, st, after(st, d))
}

/// A routine that succeeded from `st` built exactly one node, and went on.
pub open spec fn one_node(st: PState, r: Outcome) -> bool {
    r matches Ok(d) ==> d.flow == ControlFlow::Continue && adds_one_node(st, after(st, d))
}

/// A routine that succeeded from `st` built exactly one node where it went
/// on, and did nothing at all where it stopped.
pub open spec fn node_or_nothing(st: PState, r: Outcome) -> bool {
    r matches Ok(d) ==> if d.flow == ControlFlow::Continue {
        adds_one_node(st, after(st, d))
    } else {
        after(st, d) == st
    }
}

/// A routine that succeeded from `st`, inside a node whose children start
/// at the children of `st0`, grew from `st0`.
pub open spec fn grows_from_on_ok(toks: Seq<Lexeme>, st0: PState, st: PState, r: Outcome) -> bool {
    r matches Ok(d) ==> grows(toks, st0, after(st, d))
}

/// [`items`] grows.
pub proof fn lemma_items(toks: Seq<Lexeme>, st: PState, stop: SyntaxKind)
    requires
        state_wf(toks, st),
    ensures
        grows_on_ok(toks, st, items(toks, st, stop)),
    decreases rem(toks, st.pos), 7nat,
{
    lemma_grows_refl(toks, st);
    if peek(toks, st.pos) != stop {
        lemma_item(toks, st);
        if let Ok(d) = item(toks, st) {
            let s1 = after(st, d);
            if rem(toks, s1.pos) < rem(toks, st.pos) {
                lemma_items(toks, s1, stop);
            }
        }
    }
}

/// [`item`] grows.
pub proof fn lemma_item(toks: Seq<Lexeme>, st: PState)
    requires
        state_wf(toks, st),
    ensures
        grows_on_ok(toks, st, item(toks, st)),
        one_node(st, item(toks, st)),
    decreases rem(toks, st.pos), 6nat,
{
    let k = peek(toks, st.pos);
    if k == SyntaxKind::PubKw || k == SyntaxKind::ConstKw {
        lemma_item_const(toks, st);
    } else {
        let s1 = open(st, SyntaxKind::ItemExpr);
        lemma_node_grows(toks, st, SyntaxKind::ItemExpr, s1);
        lemma_expr(toks, s1);
        if let Ok(d) = expr(toks, s1) {
            let s2 = after(s1, d);
            lemma_steps_grow(toks, s2, SyntaxKind::Semi);
            lemma_node_grows(toks, st, SyntaxKind::ItemExpr, expect_optional(toks, s2, SyntaxKind::Semi).0);
        }
    }
}

/// [`item_const`] grows.
pub proof fn lemma_item_const(toks: Seq<Lexeme>, st: PState)
    requires
        state_wf(toks, st),
    ensures
        grows_on_ok(toks, st, item_const(toks, st)),
        one_node(st, item_const(toks, st)),
    decreases rem(toks, st.pos), 5nat,
{
    let s1 = open(st, SyntaxKind::ItemConst);
    lemma_node_grows(toks, st, SyntaxKind::ItemConst, s1);
    let s2 = expect_optional(toks, s1, SyntaxKind::PubKw).0;
    lemma_steps_grow(toks, s1, SyntaxKind::PubKw);
    let s3 = expect(toks, s2, SyntaxKind::ConstKw);
    lemma_steps_grow(toks, s2, SyntaxKind::ConstKw);
    lemma_pattern_grows(toks, s3);
    if let Ok(s4) = pattern(toks, s3) {
        if peek(toks, s4.pos) == SyntaxKind::Colon {
            let t0 = open(s4, SyntaxKind::Type);
            lemma_node_grows(toks, s4, SyntaxKind::Type, t0);
            let t1 = bump(toks, t0);
            lemma_steps_grow(toks, t0, SyntaxKind::Colon);
            lemma_expr(toks, t1);
            if let Ok(d) = expr(toks, t1) {
                lemma_node_grows(toks, s4, SyntaxKind::Type, after(t1, d));
                lemma_item_const_rest(toks, st, close(after(t1, d)));
            }
        } else {
            lemma_item_const_rest(toks, st, s4);
        }
    }
}

/// The end of an `ItemConst`, from `s5` after its type: the optional
/// value and the `;`.
proof fn lemma_item_const_rest(toks: Seq<Lexeme>, st: PState, s5: PState)
    requires
        state_wf(toks, st),
        grows(toks, open(st, SyntaxKind::ItemConst), s5),
    ensures
        ({
            let (s6, flow) = expect_optional(toks, s5, SyntaxKind::Eq);
            if flow == ControlFlow::Continue {
                expr(toks, s6) matches Ok(d) ==> {
                    let e = close(expect(toks, after(s6, d), SyntaxKind::Semi));
                    grows(toks, st, e) && adds_one_node(st, e)
                }
            } else {
                let e = close(expect(toks, s6, SyntaxKind::Semi));
                grows(toks, st, e) && adds_one_node(st, e)
            }
        }),
    decreases rem(toks, st.pos), 4nat,
{
    lemma_node_grows(toks, st, SyntaxKind::ItemConst, s5);
    let (s6, flow) = expect_optional(toks, s5, SyntaxKind::Eq);
    lemma_steps_grow(toks, s5, SyntaxKind::Eq);
    if flow == ControlFlow::Continue {
        lemma_expr(toks, s6);
        if let Ok(d) = expr(toks, s6) {
            let s7 = after(s6, d);
            lemma_steps_grow(toks, s7, SyntaxKind::Semi);
            lemma_node_grows(toks, st, SyntaxKind::ItemConst, expect(toks, s7, SyntaxKind::Semi));
        }
    } else {
        lemma_steps_grow(toks, s6, SyntaxKind::Semi);
        lemma_node_grows(toks, st, SyntaxKind::ItemConst, expect(toks, s6, SyntaxKind::Semi));
    }
}

/// [`arg`] grows.
#[verifier::spinoff_prover]
#[verifier::rlimit(30)]
pub proof fn lemma_arg(toks: Seq<Lexeme>, st: PState, allow_closures: bool)
    requires
        state_wf(toks, st),
    ensures
        grows_on_ok(toks, st, arg(toks, st, allow_closures)),
        one_node(st, arg(toks, st, allow_closures)),
    decreases rem(toks, st.pos), 2nat,
{
    let s1 = open(st, SyntaxKind::Arg);
    lemma_node_grows(toks, st, SyntaxKind::Arg, s1);
    let s2 = expect_optional(toks, s1, SyntaxKind::ConstKw).0;
    lemma_steps_grow(toks, s1, SyntaxKind::ConstKw);
    lemma_expr_prefix(toks, s2, allow_closures);
    if let Ok(d) = expr_prefix(toks, s2, allow_closures) {
        let s3 = after(s2, d);
        let (s4, flow) = expect_optional(toks, s3, SyntaxKind::Colon);
        lemma_steps_grow(toks, s3, SyntaxKind::Colon);
        if flow == ControlFlow::Continue {
            lemma_expr(toks, s4);
            if let Ok(d2) = expr(toks, s4) {
                lemma_node_grows(toks, st, SyntaxKind::Arg, after(s4, d2));
            }
        } else {
            lemma_node_grows(toks, st, SyntaxKind::Arg, s4);
        }
    }
}

/// [`args`] grows.
#[verifier::spinoff_prover]
#[verifier::rlimit(30)]
pub proof fn lemma_args(toks: Seq<Lexeme>, st: PState, allow_closures: bool)
    requires
        state_wf(toks, st),
    ensures
        grows_on_ok(toks, st, args(toks, st, allow_closures)),
    decreases rem(toks, st.pos), 3nat,
{
    lemma_arg(toks, st, allow_closures);
    if let Ok(d) = arg(toks, st, allow_closures) {
        let s0 = after(st, d);
        let (s1, flow) = expect_optional(toks, s0, SyntaxKind::Comma);
        lemma_steps_grow(toks, s0, SyntaxKind::Comma);
        if flow == ControlFlow::Continue && rem(toks, s1.pos) < rem(toks, st.pos) {
            lemma_args(toks, s1, allow_closures);
        }
    }
}

/// [`arg_list`] grows.
pub proof fn lemma_arg_list(toks: Seq<Lexeme>, st: PState, allow_closures: bool)
    requires
        state_wf(toks, st),
    ensures
        grows_on_ok(toks, st, arg_list(toks, st, allow_closures)),
        one_node(st, arg_list(toks, st, allow_closures)),
    decreases rem(toks, st.pos), 4nat,
{
    let s1 = open(st, SyntaxKind::ArgList);
    lemma_node_grows(toks, st, SyntaxKind::ArgList, s1);
    lemma_args(toks, s1, allow_closures);
    if let Ok(d) = args(toks, s1, allow_closures) {
        lemma_node_grows(toks, st, SyntaxKind::ArgList, after(s1, d));
    }
}

/// [`struct_field`] grows.
pub proof fn lemma_struct_field(toks: Seq<Lexeme>, st: PState)
    requires
        state_wf(toks, st),
    ensures
        grows_on_ok(toks, st, struct_field(toks, st)),
    decreases rem(toks, st.pos), 4nat,
{
    lemma_pattern_grows(toks, st);
    let s0 = name(toks, st);
    lemma_steps_grow(toks, s0, SyntaxKind::Colon);
    let s1 = expect(toks, s0, SyntaxKind::Colon);
    lemma_expr(toks, s1);
}

/// [`struct_fields`] grows.
pub proof fn lemma_struct_fields(toks: Seq<Lexeme>, st: PState)
    requires
        state_wf(toks, st),
    ensures
        grows_on_ok(toks, st, struct_fields(toks, st)),
    decreases rem(toks, st.pos), 5nat,
{
    lemma_struct_field(toks, st);
    if let Ok(d) = struct_field(toks, st) {
        let s0 = after(st, d);
        let (s1, flow) = expect_optional(toks, s0, SyntaxKind::Comma);
        lemma_steps_grow(toks, s0, SyntaxKind::Comma);
        if flow == ControlFlow::Continue && rem(toks, s1.pos) < rem(toks, st.pos) {
            lemma_struct_fields(toks, s1);
        }
    }
}

/// [`exprs`] grows.
pub proof fn lemma_exprs(toks: Seq<Lexeme>, st: PState)
    requires
        state_wf(toks, st),
    ensures
        grows_on_ok(toks, st, exprs(toks, st)),
    decreases rem(toks, st.pos), 4nat,
{
    lemma_expr(toks, st);
    if let Ok(d) = expr(toks, st) {
        let s0 = after(st, d);
        let (s1, flow) = expect_optional(toks, s0, SyntaxKind::Comma);
        lemma_steps_grow(toks, s0, SyntaxKind::Comma);
        if flow == ControlFlow::Continue && rem(toks, s1.pos) < rem(toks, st.pos) {
            lemma_exprs(toks, s1);
        }
    }
}

/// [`statement`] grows.
pub proof fn lemma_statement(toks: Seq<Lexeme>, st: PState)
    requires
        state_wf(toks, st),
    ensures
        grows_on_ok(toks, st, statement(toks, st)),
        node_or_nothing(st, statement(toks, st)),
    decreases rem(toks, st.pos), 3nat,
{
    if peek(toks, st.pos) == SyntaxKind::LetKw {
        let s0 = open(st, SyntaxKind::StmtLocal);
        lemma_node_grows(toks, st, SyntaxKind::StmtLocal, s0);
        let s1 = bump(toks, s0);
        lemma_steps_grow(toks, s0, SyntaxKind::LetKw);
        lemma_pattern_grows(toks, s1);
        if let Ok(s2) = pattern(toks, s1) {
            let (s3, flow) = expect_optional(toks, s2, SyntaxKind::Eq);
            lemma_steps_grow(toks, s2, SyntaxKind::Eq);
            if flow == ControlFlow::Continue {
                lemma_expr(toks, s3);
                if let Ok(d) = expr(toks, s3) {
                    let s4 = after(s3, d);
                    lemma_steps_grow(toks, s4, SyntaxKind::Semi);
                    lemma_node_grows(toks, st, SyntaxKind::StmtLocal, expect(toks, s4, SyntaxKind::Semi));
                }
            } else {
                lemma_steps_grow(toks, s3, SyntaxKind::Semi);
                lemma_node_grows(toks, st, SyntaxKind::StmtLocal, expect(toks, s3, SyntaxKind::Semi));
            }
        }
    } else {
        lemma_expr_inner(toks, st, SyntaxKind::Eof);
        if let Ok(d) = expr_inner(toks, st, SyntaxKind::Eof) {
            if d.flow != ControlFlow::Break {
                let s1 = after(st, d);
                let o = open_at(s1, st.b.children.len(), SyntaxKind::StmtExpr);
                lemma_node_at_grows(toks, st, s1, SyntaxKind::StmtExpr, o);
                lemma_grows_refl(toks, o);
            }
        }
    }
}

/// [`statements`] grows.
pub proof fn lemma_statements(toks: Seq<Lexeme>, st: PState)
    requires
        state_wf(toks, st),
    ensures
        grows_on_ok(toks, st, statements(toks, st)),
    decreases rem(toks, st.pos), 4nat,
{
    lemma_statement(toks, st);
    if let Ok(d) = statement(toks, st) {
        let s1 = after(st, d);
        if d.flow == ControlFlow::Continue && rem(toks, s1.pos) < rem(toks, st.pos) {
            lemma_statements(toks, s1);
        }
    }
}

/// [`expr_block`] grows.
pub proof fn lemma_expr_block(toks: Seq<Lexeme>, st: PState)
    requires
        state_wf(toks, st),
    ensures
        grows_on_ok(toks, st, expr_block(toks, st)),
        one_node(st, expr_block(toks, st)),
    decreases rem(toks, st.pos), if peek(toks, st.pos) == SyntaxKind::BraceOpen { 0nat } else { 5nat },
{
    let s0 = open(st, SyntaxKind::ExprBlock);
    lemma_node_grows(toks, st, SyntaxKind::ExprBlock, s0);
    lemma_steps_grow(toks, s0, SyntaxKind::BraceOpen);
    let s1 = expect(toks, s0, SyntaxKind::BraceOpen);
    lemma_statements(toks, s1);
    if let Ok(d) = statements(toks, s1) {
        let s2 = after(s1, d);
        lemma_steps_grow(toks, s2, SyntaxKind::BraceClose);
        lemma_node_grows(toks, st, SyntaxKind::ExprBlock, expect(toks, s2, SyntaxKind::BraceClose));
    }
}

/// [`expr`] grows.
pub proof fn lemma_expr(toks: Seq<Lexeme>, st: PState)
    requires
        state_wf(toks, st),
    ensures
        grows_on_ok(toks, st, expr(toks, st)),
    decreases rem(toks, st.pos), 3nat,
{
    lemma_expr_inner(toks, st, SyntaxKind::Eof);
}

/// [`expr_inner`] grows.
pub proof fn lemma_expr_inner(toks: Seq<Lexeme>, st: PState, left: SyntaxKind)
    requires
        state_wf(toks, st),
    ensures
        grows_on_ok(toks, st, expr_inner(toks, st, left)),
        node_or_nothing(st, expr_inner(toks, st, left)),
    decreases rem(toks, st.pos), 2nat,
{
    lemma_expr_prefix(toks, st, true);
    if let Ok(d) = expr_prefix(toks, st, true) {
        if d.flow != ControlFlow::Break {
            lemma_postfix(toks, st, after(st, d), left, st.b.children.len());
        }
    }
}

/// [`postfix`] from `st` grows from `st0`, where the expression that it
/// wraps started.
pub proof fn lemma_postfix(toks: Seq<Lexeme>, st0: PState, st: PState, left: SyntaxKind, cp: nat)
    requires
        state_wf(toks, st0),
        grows(toks, st0, st),
        adds_one_node(st0, st),
        cp == st0.b.children.len(),
    ensures
        grows_from_on_ok(toks, st0, st, postfix(toks, st, left, cp)),
        postfix(toks, st, left, cp) matches Ok(d) ==> d.flow == ControlFlow::Continue && adds_one_node(
            st0,
            after(st, d),
        ),
    decreases rem(toks, st.pos), 1nat,
{
    let right = peek(toks, st.pos);
    if binds_tighter(left, right) {
        if right == SyntaxKind::ParenOpen {
            let o = open_at(st, cp, SyntaxKind::ExprCall);
            lemma_node_at_grows(toks, st0, st, SyntaxKind::ExprCall, o);
            let b = bump(toks, o);
            lemma_steps_grow(toks, o, SyntaxKind::ParenOpen);
            let s1 = open(b, SyntaxKind::CallArgs);
            lemma_node_grows(toks, b, SyntaxKind::CallArgs, s1);
            lemma_exprs(toks, s1);
            if let Ok(d) = exprs(toks, s1) {
                let m = after(s1, d);
                lemma_node_grows(toks, b, SyntaxKind::CallArgs, m);
                lemma_steps_grow(toks, close(m), SyntaxKind::ParenClose);
                let e = expect(toks, close(m), SyntaxKind::ParenClose);
                lemma_node_at_grows(toks, st0, st, SyntaxKind::ExprCall, e);
                let s2 = close(e);
                if rem(toks, s2.pos) < rem(toks, st.pos) {
                    lemma_postfix(toks, st0, s2, left, cp);
                }
            }
        } else if right == SyntaxKind::Dot {
            let o = open_at(st, cp, SyntaxKind::ExprField);
            lemma_node_at_grows(toks, st0, st, SyntaxKind::ExprField, o);
            let s1 = bump(toks, o);
            lemma_steps_grow(toks, o, SyntaxKind::Dot);
            lemma_expr(toks, s1);
            if let Ok(d) = expr(toks, s1) {
                lemma_node_at_grows(toks, st0, st, SyntaxKind::ExprField, after(s1, d));
                let s2 = close(after(s1, d));
                if rem(toks, s2.pos) < rem(toks, st.pos) {
                    lemma_postfix(toks, st0, s2, left, cp);
                }
            }
        }
    }
}

/// A node of kind `kind` around the next token and an expression grows.
pub proof fn lemma_prefix_then_expr(toks: Seq<Lexeme>, st: PState, kind: SyntaxKind)
    requires
        state_wf(toks, st),
    ensures
        grows_on_ok(toks, st, prefix_then_expr(toks, st, kind)),
        one_node(st, prefix_then_expr(toks, st, kind)),
    decreases rem(toks, st.pos), 0nat,
{
    let s0 = open(st, kind);
    lemma_node_grows(toks, st, kind, s0);
    let s1 = bump(toks, s0);
    lemma_steps_grow(toks, s0, kind);
    if rem(toks, s1.pos) < rem(toks, st.pos) {
        lemma_expr(toks, s1);
        if let Ok(d) = expr(toks, s1) {
            lemma_node_grows(toks, st, kind, after(s1, d));
        }
    }
}

/// [`expr_prefix`] grows.
pub proof fn lemma_expr_prefix(toks: Seq<Lexeme>, st: PState, allow_closures: bool)
    requires
        state_wf(toks, st),
    ensures
        grows_on_ok(toks, st, expr_prefix(toks, st, allow_closures)),
        node_or_nothing(st, expr_prefix(toks, st, allow_closures)),
    decreases rem(toks, st.pos), 1nat,
{
    let k = peek(toks, st.pos);
    lemma_grows_refl(toks, st);
    if k == SyntaxKind::Ampersand {
        lemma_prefix_then_expr(toks, st, SyntaxKind::ExprRef);
    } else if k == SyntaxKind::Asterisk {
        lemma_prefix_then_expr(toks, st, SyntaxKind::ExprPtr);
    } else if k == SyntaxKind::Ident {
        let s0 = open(st, SyntaxKind::ExprIdent);
        lemma_node_grows(toks, st, SyntaxKind::ExprIdent, s0);
        lemma_steps_grow(toks, s0, k);
        lemma_node_grows(toks, st, SyntaxKind::ExprIdent, bump(toks, s0));
    } else if k == SyntaxKind::BraceOpen {
        lemma_expr_block(toks, st);
    } else if k == SyntaxKind::ParenOpen {
        lemma_expr_paren(toks, st);
    } else if k == SyntaxKind::Pipe && allow_closures {
        lemma_expr_closure(toks, st);
    } else if k == SyntaxKind::EnumKw {
        lemma_expr_enum(toks, st);
    } else if k == SyntaxKind::StructKw {
        lemma_expr_struct(toks, st);
    } else if k == SyntaxKind::TraitKw {
        lemma_expr_trait(toks, st);
    } else if k == SyntaxKind::ImplKw {
        lemma_expr_impl(toks, st);
    } else if k == SyntaxKind::IfKw {
        lemma_expr_if(toks, st);
    }
}

/// [`expr_paren`] grows.
pub proof fn lemma_expr_paren(toks: Seq<Lexeme>, st: PState)
    requires
        state_wf(toks, st),
    ensures
        grows_on_ok(toks, st, expr_paren(toks, st)),
        one_node(st, expr_paren(toks, st)),
    decreases rem(toks, st.pos), 0nat,
{
    let s0 = open(st, SyntaxKind::ExprParen);
    lemma_node_grows(toks, st, SyntaxKind::ExprParen, s0);
    let s1 = bump(toks, s0);
    lemma_steps_grow(toks, s0, SyntaxKind::ParenOpen);
    if rem(toks, s1.pos) < rem(toks, st.pos) {
        lemma_expr(toks, s1);
        if let Ok(d) = expr(toks, s1) {
            let s2 = after(s1, d);
            lemma_steps_grow(toks, s2, SyntaxKind::ParenClose);
            lemma_node_grows(toks, st, SyntaxKind::ExprParen, expect(toks, s2, SyntaxKind::ParenClose));
        }
    }
}

/// [`expr_enum`] grows.
pub proof fn lemma_expr_enum(toks: Seq<Lexeme>, st: PState)
    requires
        state_wf(toks, st),
    ensures
        grows_on_ok(toks, st, expr_enum(toks, st)),
        one_node(st, expr_enum(toks, st)),
    decreases rem(toks, st.pos), 0nat,
{
    let s0 = open(st, SyntaxKind::ExprEnum);
    lemma_node_grows(toks, st, SyntaxKind::ExprEnum, s0);
    let b = bump(toks, s0);
    lemma_steps_grow(toks, s0, SyntaxKind::EnumKw);
    let s1 = expect(toks, b, SyntaxKind::BraceOpen);
    lemma_steps_grow(toks, b, SyntaxKind::BraceOpen);
    if rem(toks, s1.pos) < rem(toks, st.pos) {
        lemma_exprs(toks, s1);
        if let Ok(d) = exprs(toks, s1) {
            let s2 = after(s1, d);
            lemma_steps_grow(toks, s2, SyntaxKind::BraceClose);
            lemma_node_grows(toks, st, SyntaxKind::ExprEnum, expect(toks, s2, SyntaxKind::BraceClose));
        }
    }
}

/// [`expr_struct`] grows.
pub proof fn lemma_expr_struct(toks: Seq<Lexeme>, st: PState)
    requires
        state_wf(toks, st),
    ensures
        grows_on_ok(toks, st, expr_struct(toks, st)),
        one_node(st, expr_struct(toks, st)),
    decreases rem(toks, st.pos), 0nat,
{
    let s0 = open(st, SyntaxKind::ExprStruct);
    lemma_node_grows(toks, st, SyntaxKind::ExprStruct, s0);
    let b = bump(toks, s0);
    lemma_steps_grow(toks, s0, SyntaxKind::StructKw);
    let s1 = expect(toks, b, SyntaxKind::BraceOpen);
    lemma_steps_grow(toks, b, SyntaxKind::BraceOpen);
    if rem(toks, s1.pos) < rem(toks, st.pos) {
        lemma_struct_fields(toks, s1);
        if let Ok(d) = struct_fields(toks, s1) {
            let s2 = after(s1, d);
            lemma_steps_grow(toks, s2, SyntaxKind::BraceClose);
            lemma_node_grows(toks, st, SyntaxKind::ExprStruct, expect(toks, s2, SyntaxKind::BraceClose));
        }
    }
}

/// [`expr_trait`] grows.
pub proof fn lemma_expr_trait(toks: Seq<Lexeme>, st: PState)
    requires
        state_wf(toks, st),
    ensures
        grows_on_ok(toks, st, expr_trait(toks, st)),
        one_node(st, expr_trait(toks, st)),
    decreases rem(toks, st.pos), 0nat,
{
    let s0 = open(st, SyntaxKind::ExprTrait);
    lemma_node_grows(toks, st, SyntaxKind::ExprTrait, s0);
    let b = bump(toks, s0);
    lemma_steps_grow(toks, s0, SyntaxKind::TraitKw);
    let s1 = expect(toks, b, SyntaxKind::BraceOpen);
    lemma_steps_grow(toks, b, SyntaxKind::BraceOpen);
    if rem(toks, s1.pos) < rem(toks, st.pos) {
        lemma_items(toks, s1, SyntaxKind::BraceClose);
        if let Ok(d) = items(toks, s1, SyntaxKind::BraceClose) {
            let s2 = after(s1, d);
            lemma_steps_grow(toks, s2, SyntaxKind::BraceClose);
            lemma_node_grows(toks, st, SyntaxKind::ExprTrait, expect(toks, s2, SyntaxKind::BraceClose));
        }
    }
}

/// [`expr_impl`] grows.
pub proof fn lemma_expr_impl(toks: Seq<Lexeme>, st: PState)
    requires
        state_wf(toks, st),
    ensures
        grows_on_ok(toks, st, expr_impl(toks, st)),
        one_node(st, expr_impl(toks, st)),
    decreases rem(toks, st.pos), 0nat,
{
    let s0 = open(st, SyntaxKind::ExprImpl);
    lemma_node_grows(toks, st, SyntaxKind::ExprImpl, s0);
    let s1 = bump(toks, s0);
    lemma_steps_grow(toks, s0, SyntaxKind::ImplKw);
    if rem(toks, s1.pos) < rem(toks, st.pos) {
        lemma_expr(toks, s1);
        if let Ok(d) = expr(toks, s1) {
            let a = after(s1, d);
            lemma_steps_grow(toks, a, SyntaxKind::BraceOpen);
            let s2 = expect(toks, a, SyntaxKind::BraceOpen);
            lemma_items(toks, s2, SyntaxKind::BraceClose);
            if let Ok(d2) = items(toks, s2, SyntaxKind::BraceClose) {
                let s3 = after(s2, d2);
                lemma_steps_grow(toks, s3, SyntaxKind::BraceClose);
                lemma_node_grows(toks, st, SyntaxKind::ExprImpl, expect(toks, s3, SyntaxKind::BraceClose));
            }
        }
    }
}

/// [`expr_if`] grows.
pub proof fn lemma_expr_if(toks: Seq<Lexeme>, st: PState)
    requires
        state_wf(toks, st),
    ensures
        grows_on_ok(toks, st, expr_if(toks, st)),
        one_node(st, expr_if(toks, st)),
    decreases rem(toks, st.pos), 0nat,
{
    let s0 = open(st, SyntaxKind::ExprIf);
    lemma_node_grows(toks, st, SyntaxKind::ExprIf, s0);
    let s1 = bump(toks, s0);
    lemma_steps_grow(toks, s0, SyntaxKind::IfKw);
    if rem(toks, s1.pos) < rem(toks, st.pos) {
        lemma_expr(toks, s1);
        if let Ok(d) = expr(toks, s1) {
            let s2 = after(s1, d);
            lemma_expr_block(toks, s2);
            if let Ok(d2) = expr_block(toks, s2) {
                lemma_node_grows(toks, st, SyntaxKind::ExprIf, after(s2, d2));
            }
        }
    }
}

/// [`expr_closure`] grows.
pub proof fn lemma_expr_closure(toks: Seq<Lexeme>, st: PState)
    requires
        state_wf(toks, st),
    ensures
        grows_on_ok(toks, st, expr_closure(toks, st)),
        one_node(st, expr_closure(toks, st)),
    decreases rem(toks, st.pos), 0nat,
{
    let s0 = open(st, SyntaxKind::ExprClosure);
    lemma_node_grows(toks, st, SyntaxKind::ExprClosure, s0);
    let s1 = bump(toks, s0);
    lemma_steps_grow(toks, s0, SyntaxKind::Pipe);
    if rem(toks, s1.pos) < rem(toks, st.pos) {
        lemma_arg_list(toks, s1, false);
        if let Ok(d) = arg_list(toks, s1, false) {
            let a = after(s1, d);
            lemma_steps_grow(toks, a, SyntaxKind::Pipe);
            let s2 = expect(toks, a, SyntaxKind::Pipe);
            let (s3, flow) = expect_optional(toks, s2, SyntaxKind::Arrow);
            lemma_steps_grow(toks, s2, SyntaxKind::Arrow);
            lemma_expr(toks, s3);
            if let Ok(d2) = expr(toks, s3) {
                let s4 = after(s3, d2);
                lemma_node_grows(toks, st, SyntaxKind::ExprClosure, s4);
                if flow == ControlFlow::Continue && peek(toks, s4.pos) == SyntaxKind::BraceOpen {
                    lemma_expr(toks, s4);
                    if let Ok(d3) = expr(toks, s4) {
                        lemma_node_grows(toks, st, SyntaxKind::ExprClosure, after(s4, d3));
                    }
                }
            }
        }
    }
}

/// Whether an expression starts with a token of kind `kind`; a closure
/// (starting with `|`) only where closures are allowed.
pub open spec fn starts_expression(kind: SyntaxKind, allow_closures: bool) -> bool {
    ||| kind == SyntaxKind::Ampersand
    ||| kind == SyntaxKind::Asterisk
    ||| kind == SyntaxKind::Ident
    ||| kind == SyntaxKind::BraceOpen
    ||| kind == SyntaxKind::ParenOpen
    ||| kind == SyntaxKind::Pipe && allow_closures
    ||| kind == SyntaxKind::EnumKw
    ||| kind == SyntaxKind::StructKw
    ||| kind == SyntaxKind::TraitKw
    ||| kind == SyntaxKind::ImplKw
    ||| kind == SyntaxKind::IfKw
}

/// An expression head stops (`Break`) exactly where no expression starts,
/// and then takes nothing and builds nothing.
pub proof fn lemma_expr_prefix_stops(toks: Seq<Lexeme>, st: PState, allow_closures: bool)
    requires
        state_wf(toks, st),
    ensures
        (expr_prefix(toks, st, allow_closures) matches Ok(d) && d.flow == ControlFlow::Break)
            <==> !starts_expression(peek(toks, st.pos), allow_closures),
        expr_prefix(toks, st, allow_closures) matches Ok(d) ==> (d.flow == ControlFlow::Break ==> after(st, d)
            == st),
{
    lemma_expr_prefix(toks, st, allow_closures);
    let k = peek(toks, st.pos);
    if k == SyntaxKind::Ampersand {
        lemma_prefix_then_expr(toks, st, SyntaxKind::ExprRef);
    } else if k == SyntaxKind::Asterisk {
        lemma_prefix_then_expr(toks, st, SyntaxKind::ExprPtr);
    } else if k == SyntaxKind::BraceOpen {
        lemma_expr_block(toks, st);
    } else if k == SyntaxKind::ParenOpen {
        lemma_expr_paren(toks, st);
    } else if k == SyntaxKind::Pipe && allow_closures {
        lemma_expr_closure(toks, st);
    } else if k == SyntaxKind::EnumKw {
        lemma_expr_enum(toks, st);
    } else if k == SyntaxKind::StructKw {
        lemma_expr_struct(toks, st);
    } else if k == SyntaxKind::TraitKw {
        lemma_expr_trait(toks, st);
    } else if k == SyntaxKind::ImplKw {
        lemma_expr_impl(toks, st);
    } else if k == SyntaxKind::IfKw {
        lemma_expr_if(toks, st);
    }
}

/// An expression stops (`Break`) exactly where its head does.
pub proof fn lemma_expr_inner_stops(toks: Seq<Lexeme>, st: PState, left: SyntaxKind)
    requires
        state_wf(toks, st),
    ensures
        (expr_inner(toks, st, left) matches Ok(d) && d.flow == ControlFlow::Break) <==> (expr_prefix(
            toks,
            st,
            true,
        ) matches Ok(d) && d.flow == ControlFlow::Break),
{
    lemma_expr_prefix(toks, st, true);
    if let Ok(d) = expr_prefix(toks, st, true) {
        if d.flow != ControlFlow::Break {
            lemma_postfix(toks, st, after(st, d), left, st.b.children.len());
        }
    }
}

/// A statement stops (`Break`) exactly where neither `let` nor an
/// expression starts, and then takes nothing and builds nothing.
pub proof fn lemma_statement_stops(toks: Seq<Lexeme>, st: PState)
    requires
        state_wf(toks, st),
    ensures
        (statement(toks, st) matches Ok(d) && d.flow == ControlFlow::Break) <==> (peek(toks, st.pos)
            != SyntaxKind::LetKw && !starts_expression(peek(toks, st.pos), true)),
        statement(toks, st) matches Ok(d) ==> (d.flow == ControlFlow::Break ==> after(st, d) == st),
{
    lemma_statement(toks, st);
    lemma_expr_prefix_stops(toks, st, true);
    lemma_expr_inner_stops(toks, st, SyntaxKind::Eof);
}

/// [`file`] grows, and leaves one more child: the `File` node.
pub proof fn lemma_file(toks: Seq<Lexeme>, st: PState)
    requires
        state_wf(toks, st),
    ensures
        grows_on_ok(toks, st, file(toks, st)),
        one_node(st, file(toks, st)),
        file(toks, st) matches Ok(d) ==> {
            let s1 = trivia(toks, open(st, SyntaxKind::File));
            items(toks, s1, SyntaxKind::Eof) matches Ok(d1) && {
                let m = after(s1, d1);
                &&& peek(toks, m.pos) == SyntaxKind::Eof
                &&& d.b.children == st.b.children.push(
                    Tree::Node { kind: SyntaxKind::File, children: m.b.children.skip(st.b.children.len() as int) },
                )
            }
        },
{
    let s0 = open(st, SyntaxKind::File);
    lemma_node_grows(toks, st, SyntaxKind::File, s0);
    let s1 = trivia(toks, s0);
    lemma_trivia_grows(toks, s0);
    lemma_items(toks, s1, SyntaxKind::Eof);
    lemma_items_stop(toks, s1, SyntaxKind::Eof);
    if let Ok(d) = items(toks, s1, SyntaxKind::Eof) {
        lemma_node_grows(toks, st, SyntaxKind::File, after(s1, d));
    }
}

/// The syntax tree of a source that parses is a `File` node, and its text
/// is the source.
pub proof fn lemma_syntax_tree(src: Seq<char>)
    requires
        parses(src),
    ensures
        syntax_tree(src) is Node,
        syntax_tree(src).kind() == SyntaxKind::File,
        tree_text(syntax_tree(src)) == src,
        parse_source(src)->Ok_0.b.parents.len() == 0,
        parse_source(src)->Ok_0.b.children.len() == 1,
{
    let toks = lex_spec(src);
    let init = initial();
    lemma_empty_wf();
    lemma_lex_lossless(src);
    lemma_file(toks, init);
    let d = parse_source(src)->Ok_0;
    let st1 = after(init, d);
    let s1 = trivia(toks, open(init, SyntaxKind::File));
    let m = after(s1, items(toks, s1, SyntaxKind::Eof)->Ok_0);
    lemma_grows_unfold(toks, init, st1);
    // the items run to the end of the tokens, none of which is `Eof`
    if m.pos < toks.len() {
        assert(lexeme_well_formed(toks[m.pos as int]));
    }
    lemma_node_ops(m, SyntaxKind::File, 0);
    assert(st1.pos == m.pos);
    assert(st1.pos == toks.len());
    assert(toks.subrange(0, toks.len() as int) =~= toks);
    assert(init.b.text() =~= Seq::<char>::empty());
    assert(st1.b.children.drop_first() =~= Seq::<Tree>::empty());
    assert(st1.b.text() == tree_text(st1.b.children[0]) + Seq::<char>::empty());
}

} // verus!
