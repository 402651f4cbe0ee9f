//! From source text to a concrete syntax tree.
//!
//! The routines here are the executable form of [`grammar`]: each one
//! drives the [`Parser`] and is proved to do exactly what its namesake in
//! `grammar` describes.

pub mod grammar;
pub mod lexer;
pub mod lossless;
pub mod maximal;
pub mod parser;
pub mod steps;
pub mod syntax;

use vstd::prelude::*;

use crate::cstgen::lexer::byte_len;
use crate::cstgen::lossless::lemma_syntax_tree;
use crate::green::{tree_text, GreenNode};
use parser::Parser;
use steps::{
    binds_tighter, binds_tighter_defined, chain, completes, grows, lemma_chain_chain, lemma_grows_refl,
    lemma_node_at_grows, lemma_node_grows, lemma_pattern_grows, lemma_steps_grow, peek, rem, runs,
    ControlFlow, ParseError,
};
pub use syntax::{Lang, SyntaxKind};

verus! {

broadcast use {steps::lemma_grows_trans, steps::lemma_grows_basics, steps::group_steps_forward};

/// Takes every comment and white space that follows into the tree.
pub(crate) fn trivia(p: &mut Parser)
    requires
        old(p).wf(),
    ensures
        final(p).wf(),
        final(p).toks() == old(p).toks(),
        final(p).state() == steps::trivia(old(p).toks(), old(p).state()),
        grows(old(p).toks(), old(p).state(), final(p).state()),
    decreases rem(old(p).toks(), old(p).state().pos), 1nat,
{
    proof {
        reveal(steps::trivia);
        steps::lemma_trivia_grows(old(p).toks(), old(p).state());
    }
    loop
        invariant
            p.wf(),
            old(p).wf(),
            p.toks() == old(p).toks(),
            steps::trivia(p.toks(), p.state()) == steps::trivia(old(p).toks(), old(p).state()),
            rem(p.toks(), p.state().pos) <= rem(old(p).toks(), old(p).state().pos),
        decreases rem(p.toks(), p.state().pos),
    {
        let k = p.peek();
        if k == SyntaxKind::Comment || k == SyntaxKind::Whitespace {
            proof {
                reveal(steps::trivia);
                reveal(steps::bump);
                lemma_steps_grow(p.toks(), p.state(), k);
                steps::lemma_trivia_idem(p.toks(), steps::push_token(p.toks(), p.state()));
            }
            p.bump();
        } else {
            proof {
                reveal(steps::trivia);
                steps::lemma_trivia_grows(old(p).toks(), old(p).state());
            }
            return;
        }
    }
}

/// `Name`: an identifier.
fn name(p: &mut Parser)
    requires
        old(p).wf(),
    ensures
        final(p).toks() == old(p).toks(),
        final(p).state() == steps::name(old(p).toks(), old(p).state()),
        grows(old(p).toks(), old(p).state(), final(p).state()),
{
    proof {
        lemma_pattern_grows(p.toks(), p.state());
    }
    let ghost st = p.state();
    p.start_node(SyntaxKind::Name);
    p.expect(SyntaxKind::Ident);
    proof {
        lemma_node_grows(p.toks(), st, SyntaxKind::Name, p.state());
    }
    p.finish_node();
}

/// A pattern: an identifier, in a `PatIdent` node.
fn pattern(p: &mut Parser) -> (r: Result<(), ParseError>)
    requires
        old(p).wf(),
    ensures
        final(p).toks() == old(p).toks(),
        match steps::pattern(old(p).toks(), old(p).state()) {
            Ok(s) => r is Ok && final(p).state() == s && grows(old(p).toks(), old(p).state(), s),
            Err(e) => r == Err::<(), ParseError>(e),
        },
{
    proof {
        lemma_pattern_grows(p.toks(), p.state());
    }
    if p.at(SyntaxKind::Ident) {
        let ghost st = p.state();
        p.start_node(SyntaxKind::PatIdent);
        name(p);
        proof {
            lemma_node_grows(p.toks(), st, SyntaxKind::PatIdent, p.state());
        }
        p.finish_node();
        Ok(())
    } else {
        Err(ParseError::UnexpectedTokenInPattern)
    }
}

/// The binding power of a postfix operator.
fn tightness(kind: SyntaxKind) -> (t: Option<u8>)
    ensures
        match steps::tightness(kind) {
            Some(n) => t == Some(n as u8),
            None => t is None,
        },
{
    if kind == SyntaxKind::Dot {
        Some(0)
    } else if kind == SyntaxKind::Bang {
        Some(1)
    } else if kind == SyntaxKind::ParenOpen {
        Some(2)
    } else {
        None
    }
}

/// Whether the operator `right` binds tighter than the one at `left`.
pub fn right_binds_tighter(left: SyntaxKind, right: SyntaxKind) -> (b: bool)
    requires
        binds_tighter_defined(left, right),
    ensures
        b == binds_tighter(left, right),
{
    let left_tightness = tightness(left);
    let right_tightness = tightness(right);
    match (left_tightness, right_tightness) {
        (_, None) => false,
        (None, _) => true,
        (Some(l), Some(r)) => r > l,
    }
}

/// Items until the next token is `stop`.
fn items(p: &mut Parser, stop: SyntaxKind) -> (r: Result<(), ParseError>)
    requires
        old(p).wf(),
    ensures
        final(p).toks() == old(p).toks(),
        completes(old(p).toks(), old(p).state(), grammar::items(old(p).toks(), old(p).state(), stop), final(p).state(), r),
    decreases rem(old(p).toks(), old(p).state().pos), 7nat,
{
    let ghost toks = p.toks();
    let ghost st0 = p.state();
    proof {
        lemma_grows_refl(toks, st0);
    }
    while !p.at(stop)
        invariant
            p.wf(),
            p.toks() == toks,
            toks == old(p).toks(),
            st0 == old(p).state(),
            grows(toks, st0, p.state()),
            grammar::items(toks, st0, stop) == chain(st0, p.state(), grammar::items(toks, p.state(), stop)),
        decreases rem(toks, p.state().pos),
    {
        let ghost st = p.state();
        let start = p.position();
        match item(p) {
            Err(e) => return Err(e),
            Ok(()) => {},
        }
        if p.position() <= start {
            return Err(ParseError::NoProgress);
        }
        proof {
            lemma_chain_chain(st0, st, p.state(), grammar::items(toks, p.state(), stop));
        }
    }
    Ok(())
}

/// An item: a `const` item, or an expression with an optional `;`.
fn item(p: &mut Parser) -> (r: Result<(), ParseError>)
    requires
        old(p).wf(),
    ensures
        final(p).toks() == old(p).toks(),
        completes(old(p).toks(), old(p).state(), grammar::item(old(p).toks(), old(p).state()), final(p).state(), r),
    decreases rem(old(p).toks(), old(p).state().pos), 6nat,
{
    let ghost toks = p.toks();
    let ghost st = p.state();
    let k = p.peek();
    if k == SyntaxKind::PubKw || k == SyntaxKind::ConstKw {
        item_const(p)
    } else {
        p.start_node(SyntaxKind::ItemExpr);
        match expr(p) {
            Err(e) => return Err(e),
            Ok(()) => {},
        }
        p.expect_optional(SyntaxKind::Semi);
        proof {
            lemma_node_grows(toks, st, SyntaxKind::ItemExpr, p.state());
        }
        p.finish_node();
        Ok(())
    }
}

/// `ItemConst`: `pub const pattern: type = value;`, where `pub`, the type
/// and the value may be left out.
#[verifier::spinoff_prover]
fn item_const(p: &mut Parser) -> (r: Result<(), ParseError>)
    requires
        old(p).wf(),
    ensures
        final(p).toks() == old(p).toks(),
        completes(old(p).toks(), old(p).state(), grammar::item_const(old(p).toks(), old(p).state()), final(p).state(), r),
    decreases rem(old(p).toks(), old(p).state().pos), 5nat,
{
    let ghost toks = p.toks();
    let ghost st = p.state();
    p.start_node(SyntaxKind::ItemConst);
    p.expect_optional(SyntaxKind::PubKw);
    p.expect(SyntaxKind::ConstKw);
    match pattern(p) {
        Err(e) => return Err(e),
        Ok(()) => {},
    }
    if p.at(SyntaxKind::Colon) {
        let ghost s4 = p.state();
        p.start_node(SyntaxKind::Type);
        p.bump();
        match expr(p) {
            Err(e) => return Err(e),
            Ok(()) => {},
        }
        proof {
            lemma_node_grows(toks, s4, SyntaxKind::Type, p.state());
        }
        p.finish_node();
    }
    if p.expect_optional(SyntaxKind::Eq) == ControlFlow::Continue {
        match expr(p) {
            Err(e) => return Err(e),
            Ok(()) => {},
        }
    }
    p.expect(SyntaxKind::Semi);
    proof {
        lemma_node_grows(toks, st, SyntaxKind::ItemConst, p.state());
    }
    p.finish_node();
    Ok(())
}

/// An expression: an expression head and the postfix operators after it.
fn expr(p: &mut Parser) -> (r: Result<(), ParseError>)
    requires
        old(p).wf(),
    ensures
        final(p).toks() == old(p).toks(),
        completes(old(p).toks(), old(p).state(), grammar::expr(old(p).toks(), old(p).state()), final(p).state(), r),
    decreases rem(old(p).toks(), old(p).state().pos), 3nat,
{
    match expr_inner(p, SyntaxKind::Eof) {
        Ok(_) => Ok(()),
        Err(e) => Err(e),
    }
}

/// An expression head, then the postfix operators that bind tighter than
/// `left`; `Break` when no expression starts here.
#[verifier::spinoff_prover]
fn expr_inner(p: &mut Parser, left: SyntaxKind) -> (r: Result<ControlFlow, ParseError>)
    requires
        old(p).wf(),
        steps::tightness(left) is Some || left == SyntaxKind::Eof,
    ensures
        final(p).toks() == old(p).toks(),
        runs(old(p).toks(), old(p).state(), grammar::expr_inner(old(p).toks(), old(p).state(), left), final(p).state(), r),
    decreases rem(old(p).toks(), old(p).state().pos), 2nat,
{
    let ghost toks = p.toks();
    let ghost st0 = p.state();
    let ghost cp = st0.b.children.len();
    let checkpoint = p.checkpoint();
    match expr_prefix(p, true) {
        Err(e) => return Err(e),
        Ok(flow) => {
            if flow == ControlFlow::Break {
                return Ok(ControlFlow::Break);
            }
        },
    }
    loop
        invariant
            p.wf(),
            p.toks() == toks,
            toks == old(p).toks(),
            st0 == old(p).state(),
            grows(toks, st0, p.state()),
            steps::state_wf(toks, st0),
            checkpoint.spec_index() == cp,
            cp == st0.b.children.len(),
            steps::tightness(left) is Some || left == SyntaxKind::Eof,
            grammar::expr_inner(toks, st0, left) == chain(st0, p.state(), grammar::postfix(toks, p.state(), left, cp)),
        decreases rem(toks, p.state().pos),
    {
        let ghost st = p.state();
        let right = p.peek();
        if !right_binds_tighter(left, right) {
            return Ok(ControlFlow::Continue);
        }
        proof {
            lemma_node_at_grows(toks, st0, st, SyntaxKind::ExprCall, st);
        }
        if right == SyntaxKind::ParenOpen {
            p.start_node_at(checkpoint, SyntaxKind::ExprCall);
            p.bump();
            let ghost s1 = p.state();
            p.start_node(SyntaxKind::CallArgs);
            match exprs(p) {
                Err(e) => return Err(e),
                Ok(()) => {},
            }
            proof {
                lemma_node_grows(toks, s1, SyntaxKind::CallArgs, p.state());
            }
            p.finish_node();
            p.expect(SyntaxKind::ParenClose);
            proof {
                lemma_node_at_grows(toks, st0, st, SyntaxKind::ExprCall, p.state());
            }
            p.finish_node();
        } else if right == SyntaxKind::Dot {
            proof {
                lemma_node_at_grows(toks, st0, st, SyntaxKind::ExprField, st);
            }
            p.start_node_at(checkpoint, SyntaxKind::ExprField);
            p.bump();
            match expr(p) {
                Err(e) => return Err(e),
                Ok(()) => {},
            }
            proof {
                lemma_node_at_grows(toks, st0, st, SyntaxKind::ExprField, p.state());
            }
            p.finish_node();
        } else {
            return Err(ParseError::UnexpectedOperator(right));
        }
        proof {
            lemma_chain_chain(st0, st, p.state(), grammar::postfix(toks, p.state(), left, cp));
        }
    }
}

/// Expressions separated by commas, as long as a comma follows.
fn exprs(p: &mut Parser) -> (r: Result<(), ParseError>)
    requires
        old(p).wf(),
    ensures
        final(p).toks() == old(p).toks(),
        completes(old(p).toks(), old(p).state(), grammar::exprs(old(p).toks(), old(p).state()), final(p).state(), r),
    decreases rem(old(p).toks(), old(p).state().pos), 4nat,
{
    let ghost toks = p.toks();
    let ghost st0 = p.state();
    proof {
        lemma_grows_refl(toks, st0);
    }
    loop
        invariant
            p.wf(),
            p.toks() == toks,
            toks == old(p).toks(),
            st0 == old(p).state(),
            grows(toks, st0, p.state()),
            grammar::exprs(toks, st0) == chain(st0, p.state(), grammar::exprs(toks, p.state())),
        decreases rem(toks, p.state().pos),
    {
        let ghost st = p.state();
        let start = p.position();
        match expr(p) {
            Err(e) => return Err(e),
            Ok(()) => {},
        }
        if p.expect_optional(SyntaxKind::Comma) == ControlFlow::Break {
            return Ok(());
        }
        if p.position() <= start {
            return Err(ParseError::NoProgress);
        }
        proof {
            lemma_chain_chain(st0, st, p.state(), grammar::exprs(toks, p.state()));
        }
    }
}

/// The head of an expression; `Break`, taking nothing, when none starts here.
#[verifier::spinoff_prover]
fn expr_prefix(p: &mut Parser, allow_closures: bool) -> (r: Result<ControlFlow, ParseError>)
    requires
        old(p).wf(),
    ensures
        final(p).toks() == old(p).toks(),
        runs(old(p).toks(), old(p).state(), grammar::expr_prefix(old(p).toks(), old(p).state(), allow_closures), final(p).state(), r),
    decreases rem(old(p).toks(), old(p).state().pos), 1nat,
{
    let ghost toks = p.toks();
    let ghost st = p.state();
    let k = p.peek();
    let done: Result<(), ParseError> = if k == SyntaxKind::Ampersand {
        prefix_then_expr(p, SyntaxKind::ExprRef)
    } else if k == SyntaxKind::Asterisk {
        prefix_then_expr(p, SyntaxKind::ExprPtr)
    } else if k == SyntaxKind::Ident {
        p.start_node(SyntaxKind::ExprIdent);
        p.bump();
        proof {
            lemma_node_grows(toks, st, SyntaxKind::ExprIdent, p.state());
        }
        p.finish_node();
        Ok(())
    } else if k == SyntaxKind::BraceOpen {
        expr_block(p)
    } else if k == SyntaxKind::ParenOpen {
        expr_paren(p)
    } else if k == SyntaxKind::Pipe && allow_closures {
        expr_closure(p)
    } else if k == SyntaxKind::EnumKw {
        expr_enum(p)
    } else if k == SyntaxKind::StructKw {
        expr_struct(p)
    } else if k == SyntaxKind::TraitKw {
        expr_trait(p)
    } else if k == SyntaxKind::ImplKw {
        expr_impl(p)
    } else if k == SyntaxKind::IfKw {
        expr_if(p)
    } else {
        proof {
            lemma_grows_refl(toks, st);
        }
        return Ok(ControlFlow::Break);
    };
    match done {
        Ok(()) => Ok(ControlFlow::Continue),
        Err(e) => Err(e),
    }
}

/// `ExprParen`: `(`, an expression, `)`.
fn expr_paren(p: &mut Parser) -> (r: Result<(), ParseError>)
    requires
        old(p).wf(),
        old(p).state().pos < old(p).toks().len(),
    ensures
        final(p).toks() == old(p).toks(),
        completes(old(p).toks(), old(p).state(), grammar::expr_paren(old(p).toks(), old(p).state()), final(p).state(), r),
    decreases rem(old(p).toks(), old(p).state().pos), 0nat,
{
    let ghost toks = p.toks();
    let ghost st = p.state();
    p.start_node(SyntaxKind::ExprParen);
    p.bump();
    match expr(p) {
        Err(e) => return Err(e),
        Ok(()) => {},
    }
    p.expect(SyntaxKind::ParenClose);
    proof {
        lemma_node_grows(toks, st, SyntaxKind::ExprParen, p.state());
    }
    p.finish_node();
    Ok(())
}

/// `ExprEnum`: `enum {`, variants separated by commas, `}`.
fn expr_enum(p: &mut Parser) -> (r: Result<(), ParseError>)
    requires
        old(p).wf(),
        old(p).state().pos < old(p).toks().len(),
    ensures
        final(p).toks() == old(p).toks(),
        completes(old(p).toks(), old(p).state(), grammar::expr_enum(old(p).toks(), old(p).state()), final(p).state(), r),
    decreases rem(old(p).toks(), old(p).state().pos), 0nat,
{
    let ghost toks = p.toks();
    let ghost st = p.state();
    p.start_node(SyntaxKind::ExprEnum);
    p.bump();
    p.expect(SyntaxKind::BraceOpen);
    match exprs(p) {
        Err(e) => return Err(e),
        Ok(()) => {},
    }
    p.expect(SyntaxKind::BraceClose);
    proof {
        lemma_node_grows(toks, st, SyntaxKind::ExprEnum, p.state());
    }
    p.finish_node();
    Ok(())
}

/// `ExprStruct`: `struct {`, fields separated by commas, `}`.
fn expr_struct(p: &mut Parser) -> (r: Result<(), ParseError>)
    requires
        old(p).wf(),
        old(p).state().pos < old(p).toks().len(),
    ensures
        final(p).toks() == old(p).toks(),
        completes(old(p).toks(), old(p).state(), grammar::expr_struct(old(p).toks(), old(p).state()), final(p).state(), r),
    decreases rem(old(p).toks(), old(p).state().pos), 0nat,
{
    let ghost toks = p.toks();
    let ghost st = p.state();
    p.start_node(SyntaxKind::ExprStruct);
    p.bump();
    p.expect(SyntaxKind::BraceOpen);
    match struct_fields(p) {
        Err(e) => return Err(e),
        Ok(()) => {},
    }
    p.expect(SyntaxKind::BraceClose);
    proof {
        lemma_node_grows(toks, st, SyntaxKind::ExprStruct, p.state());
    }
    p.finish_node();
    Ok(())
}

/// `ExprTrait`: `trait {`, items, `}`.
fn expr_trait(p: &mut Parser) -> (r: Result<(), ParseError>)
    requires
        old(p).wf(),
        old(p).state().pos < old(p).toks().len(),
    ensures
        final(p).toks() == old(p).toks(),
        completes(old(p).toks(), old(p).state(), grammar::expr_trait(old(p).toks(), old(p).state()), final(p).state(), r),
    decreases rem(old(p).toks(), old(p).state().pos), 0nat,
{
    let ghost toks = p.toks();
    let ghost st = p.state();
    p.start_node(SyntaxKind::ExprTrait);
    p.bump();
    p.expect(SyntaxKind::BraceOpen);
    match items(p, SyntaxKind::BraceClose) {
        Err(e) => return Err(e),
        Ok(()) => {},
    }
    p.expect(SyntaxKind::BraceClose);
    proof {
        lemma_node_grows(toks, st, SyntaxKind::ExprTrait, p.state());
    }
    p.finish_node();
    Ok(())
}

/// `ExprImpl`: `impl`, an expression, `{`, items, `}`.
fn expr_impl(p: &mut Parser) -> (r: Result<(), ParseError>)
    requires
        old(p).wf(),
        old(p).state().pos < old(p).toks().len(),
    ensures
        final(p).toks() == old(p).toks(),
        completes(old(p).toks(), old(p).state(), grammar::expr_impl(old(p).toks(), old(p).state()), final(p).state(), r),
    decreases rem(old(p).toks(), old(p).state().pos), 0nat,
{
    let ghost toks = p.toks();
    let ghost st = p.state();
    p.start_node(SyntaxKind::ExprImpl);
    p.bump();
    match expr(p) {
        Err(e) => return Err(e),
        Ok(()) => {},
    }
    p.expect(SyntaxKind::BraceOpen);
    match items(p, SyntaxKind::BraceClose) {
        Err(e) => return Err(e),
        Ok(()) => {},
    }
    p.expect(SyntaxKind::BraceClose);
    proof {
        lemma_node_grows(toks, st, SyntaxKind::ExprImpl, p.state());
    }
    p.finish_node();
    Ok(())
}

/// `ExprIf`: `if`, a condition, and a block.
fn expr_if(p: &mut Parser) -> (r: Result<(), ParseError>)
    requires
        old(p).wf(),
        old(p).state().pos < old(p).toks().len(),
    ensures
        final(p).toks() == old(p).toks(),
        completes(old(p).toks(), old(p).state(), grammar::expr_if(old(p).toks(), old(p).state()), final(p).state(), r),
    decreases rem(old(p).toks(), old(p).state().pos), 0nat,
{
    let ghost toks = p.toks();
    let ghost st = p.state();
    p.start_node(SyntaxKind::ExprIf);
    p.bump();
    match expr(p) {
        Err(e) => return Err(e),
        Ok(()) => {},
    }
    match expr_block(p) {
        Err(e) => return Err(e),
        Ok(()) => {},
    }
    proof {
        lemma_node_grows(toks, st, SyntaxKind::ExprIf, p.state());
    }
    p.finish_node();
    Ok(())
}

/// `ArgList`: arguments separated by commas.
fn arg_list(p: &mut Parser, allow_closures: bool) -> (r: Result<(), ParseError>)
    requires
        old(p).wf(),
    ensures
        final(p).toks() == old(p).toks(),
        completes(old(p).toks(), old(p).state(), grammar::arg_list(old(p).toks(), old(p).state(), allow_closures), final(p).state(), r),
    decreases rem(old(p).toks(), old(p).state().pos), 4nat,
{
    let ghost toks = p.toks();
    let ghost st = p.state();
    p.start_node(SyntaxKind::ArgList);
    match args(p, allow_closures) {
        Err(e) => return Err(e),
        Ok(()) => {},
    }
    proof {
        lemma_node_grows(toks, st, SyntaxKind::ArgList, p.state());
    }
    p.finish_node();
    Ok(())
}

/// `ExprBlock`: `{`, statements, `}`.
fn expr_block(p: &mut Parser) -> (r: Result<(), ParseError>)
    requires
        old(p).wf(),
    ensures
        final(p).toks() == old(p).toks(),
        completes(old(p).toks(), old(p).state(), grammar::expr_block(old(p).toks(), old(p).state()), final(p).state(), r),
    decreases rem(old(p).toks(), old(p).state().pos), if peek(old(p).toks(), old(p).state().pos) == SyntaxKind::BraceOpen { 0nat } else { 5nat },
{
    let ghost toks = p.toks();
    let ghost st = p.state();
    p.start_node(SyntaxKind::ExprBlock);
    p.expect(SyntaxKind::BraceOpen);
    match statements(p) {
        Err(e) => return Err(e),
        Ok(()) => {},
    }
    p.expect(SyntaxKind::BraceClose);
    proof {
        lemma_node_grows(toks, st, SyntaxKind::ExprBlock, p.state());
    }
    p.finish_node();
    Ok(())
}

/// A node of kind `kind`: the next token, then an expression.
fn prefix_then_expr(p: &mut Parser, kind: SyntaxKind) -> (r: Result<(), ParseError>)
    requires
        old(p).wf(),
        old(p).state().pos < old(p).toks().len(),
    ensures
        final(p).toks() == old(p).toks(),
        completes(old(p).toks(), old(p).state(), grammar::prefix_then_expr(old(p).toks(), old(p).state(), kind), final(p).state(), r),
    decreases rem(old(p).toks(), old(p).state().pos), 0nat,
{
    let ghost toks = p.toks();
    let ghost st = p.state();
    p.start_node(kind);
    p.bump();
    match expr(p) {
        Err(e) => return Err(e),
        Ok(()) => {},
    }
    proof {
        lemma_node_grows(toks, st, kind, p.state());
    }
    p.finish_node();
    Ok(())
}

/// `ExprClosure`: `|`, arguments, `|`, and a body: `-> type { .. }` or an expression.
#[verifier::spinoff_prover]
fn expr_closure(p: &mut Parser) -> (r: Result<(), ParseError>)
    requires
        old(p).wf(),
        old(p).state().pos < old(p).toks().len(),
    ensures
        final(p).toks() == old(p).toks(),
        completes(old(p).toks(), old(p).state(), grammar::expr_closure(old(p).toks(), old(p).state()), final(p).state(), r),
    decreases rem(old(p).toks(), old(p).state().pos), 0nat,
{
    let ghost toks = p.toks();
    let ghost st = p.state();
    p.start_node(SyntaxKind::ExprClosure);
    p.bump();
    match arg_list(p, false) {
        Err(e) => return Err(e),
        Ok(()) => {},
    }
    p.expect(SyntaxKind::Pipe);
    if p.expect_optional(SyntaxKind::Arrow) == ControlFlow::Continue {
        match expr(p) {
            Err(e) => return Err(e),
            Ok(()) => {},
        }
        if p.at(SyntaxKind::BraceOpen) {
            match expr(p) {
                Err(e) => return Err(e),
                Ok(()) => {},
            }
        }
    } else {
        match expr(p) {
            Err(e) => return Err(e),
            Ok(()) => {},
        }
    }
    proof {
        lemma_node_grows(toks, st, SyntaxKind::ExprClosure, p.state());
    }
    p.finish_node();
    Ok(())
}

/// `Arg`: an optional `const`, an expression head, and an optional `: type`.
#[verifier::spinoff_prover]
#[verifier::rlimit(30)]
fn arg(p: &mut Parser, allow_closures: bool) -> (r: Result<(), ParseError>)
    requires
        old(p).wf(),
    ensures
        final(p).toks() == old(p).toks(),
        completes(old(p).toks(), old(p).state(), grammar::arg(old(p).toks(), old(p).state(), allow_closures), final(p).state(), r),
    decreases rem(old(p).toks(), old(p).state().pos), 2nat,
{
    let ghost toks = p.toks();
    let ghost st = p.state();
    p.start_node(SyntaxKind::Arg);
    p.expect_optional(SyntaxKind::ConstKw);
    match expr_prefix(p, allow_closures) {
        Err(e) => return Err(e),
        Ok(_) => {},
    }
    if p.expect_optional(SyntaxKind::Colon) == ControlFlow::Continue {
        match expr(p) {
            Err(e) => return Err(e),
            Ok(()) => {},
        }
    }
    proof {
        lemma_node_grows(toks, st, SyntaxKind::Arg, p.state());
    }
    p.finish_node();
    Ok(())
}

/// Arguments separated by commas, as long as a comma follows.
#[verifier::spinoff_prover]
#[verifier::rlimit(30)]
fn args(p: &mut Parser, allow_closures: bool) -> (r: Result<(), ParseError>)
    requires
        old(p).wf(),
    ensures
        final(p).toks() == old(p).toks(),
        completes(old(p).toks(), old(p).state(), grammar::args(old(p).toks(), old(p).state(), allow_closures), final(p).state(), r),
    decreases rem(old(p).toks(), old(p).state().pos), 3nat,
{
    let ghost toks = p.toks();
    let ghost st0 = p.state();
    proof {
        lemma_grows_refl(toks, st0);
    }
    loop
        invariant
            p.wf(),
            p.toks() == toks,
            toks == old(p).toks(),
            st0 == old(p).state(),
            grows(toks, st0, p.state()),
            grammar::args(toks, st0, allow_closures) == chain(st0, p.state(), grammar::args(toks, p.state(), allow_closures)),
        decreases rem(toks, p.state().pos),
    {
        let ghost st = p.state();
        let start = p.position();
        match arg(p, allow_closures) {
            Err(e) => return Err(e),
            Ok(()) => {},
        }
        if p.expect_optional(SyntaxKind::Comma) == ControlFlow::Break {
            return Ok(());
        }
        if p.position() <= start {
            return Err(ParseError::NoProgress);
        }
        proof {
            lemma_chain_chain(st0, st, p.state(), grammar::args(toks, p.state(), allow_closures));
        }
    }
}

/// A field of a `struct`: a name, `:`, and a type.
fn struct_field(p: &mut Parser) -> (r: Result<(), ParseError>)
    requires
        old(p).wf(),
    ensures
        final(p).toks() == old(p).toks(),
        completes(old(p).toks(), old(p).state(), grammar::struct_field(old(p).toks(), old(p).state()), final(p).state(), r),
    decreases rem(old(p).toks(), old(p).state().pos), 4nat,
{
    name(p);
    p.expect(SyntaxKind::Colon);
    expr(p)
}

/// Fields separated by commas, as long as a comma follows.
fn struct_fields(p: &mut Parser) -> (r: Result<(), ParseError>)
    requires
        old(p).wf(),
    ensures
        final(p).toks() == old(p).toks(),
        completes(old(p).toks(), old(p).state(), grammar::struct_fields(old(p).toks(), old(p).state()), final(p).state(), r),
    decreases rem(old(p).toks(), old(p).state().pos), 5nat,
{
    let ghost toks = p.toks();
    let ghost st0 = p.state();
    proof {
        lemma_grows_refl(toks, st0);
    }
    loop
        invariant
            p.wf(),
            p.toks() == toks,
            toks == old(p).toks(),
            st0 == old(p).state(),
            grows(toks, st0, p.state()),
            grammar::struct_fields(toks, st0) == chain(st0, p.state(), grammar::struct_fields(toks, p.state())),
        decreases rem(toks, p.state().pos),
    {
        let ghost st = p.state();
        let start = p.position();
        match struct_field(p) {
            Err(e) => return Err(e),
            Ok(()) => {},
        }
        if p.expect_optional(SyntaxKind::Comma) == ControlFlow::Break {
            return Ok(());
        }
        if p.position() <= start {
            return Err(ParseError::NoProgress);
        }
        proof {
            lemma_chain_chain(st0, st, p.state(), grammar::struct_fields(toks, p.state()));
        }
    }
}

/// A statement: `let pattern = value;`, or an expression; `Break` when no
/// expression starts here.
#[verifier::spinoff_prover]
fn statement(p: &mut Parser) -> (r: Result<ControlFlow, ParseError>)
    requires
        old(p).wf(),
    ensures
        final(p).toks() == old(p).toks(),
        runs(old(p).toks(), old(p).state(), grammar::statement(old(p).toks(), old(p).state()), final(p).state(), r),
    decreases rem(old(p).toks(), old(p).state().pos), 3nat,
{
    let ghost toks = p.toks();
    let ghost st = p.state();
    if p.at(SyntaxKind::LetKw) {
        p.start_node(SyntaxKind::StmtLocal);
        p.bump();
        match pattern(p) {
            Err(e) => return Err(e),
            Ok(()) => {},
        }
        if p.expect_optional(SyntaxKind::Eq) == ControlFlow::Continue {
            match expr(p) {
                Err(e) => return Err(e),
                Ok(()) => {},
            }
        }
        p.expect(SyntaxKind::Semi);
        proof {
            lemma_node_grows(toks, st, SyntaxKind::StmtLocal, p.state());
        }
        p.finish_node();
        Ok(ControlFlow::Continue)
    } else {
        let checkpoint = p.checkpoint();
        match expr_inner(p, SyntaxKind::Eof) {
            Err(e) => return Err(e),
            Ok(flow) => {
                if flow == ControlFlow::Break {
                    return Ok(ControlFlow::Break);
                }
            },
        }
        let ghost s1 = p.state();
        let ghost o = steps::open_at(s1, st.b.children.len(), SyntaxKind::StmtExpr);
        proof {
            lemma_node_at_grows(toks, st, s1, SyntaxKind::StmtExpr, o);
            lemma_grows_refl(toks, o);
        }
        p.start_node_at(checkpoint, SyntaxKind::StmtExpr);
        p.finish_node();
        Ok(ControlFlow::Continue)
    }
}

/// Statements until one stops.
#[verifier::spinoff_prover]
fn statements(p: &mut Parser) -> (r: Result<(), ParseError>)
    requires
        old(p).wf(),
    ensures
        final(p).toks() == old(p).toks(),
        completes(old(p).toks(), old(p).state(), grammar::statements(old(p).toks(), old(p).state()), final(p).state(), r),
    decreases rem(old(p).toks(), old(p).state().pos), 4nat,
{
    let ghost toks = p.toks();
    let ghost st0 = p.state();
    proof {
        lemma_grows_refl(toks, st0);
    }
    loop
        invariant
            p.wf(),
            p.toks() == toks,
            toks == old(p).toks(),
            st0 == old(p).state(),
            grows(toks, st0, p.state()),
            grammar::statements(toks, st0) == chain(st0, p.state(), grammar::statements(toks, p.state())),
        decreases rem(toks, p.state().pos),
    {
        let ghost st = p.state();
        let start = p.position();
        match statement(p) {
            Err(e) => return Err(e),
            Ok(flow) => {
                if flow == ControlFlow::Break {
                    return Ok(());
                }
            },
        }
        if p.position() <= start {
            return Err(ParseError::NoProgress);
        }
        proof {
            lemma_chain_chain(st0, st, p.state(), grammar::statements(toks, p.state()));
        }
    }
}

/// A source file: trivia, then items up to the end.
fn file(p: &mut Parser) -> (r: Result<(), ParseError>)
    requires
        old(p).wf(),
    ensures
        final(p).toks() == old(p).toks(),
        completes(old(p).toks(), old(p).state(), grammar::file(old(p).toks(), old(p).state()), final(p).state(), r),
{
    let ghost toks = p.toks();
    let ghost st = p.state();
    p.start_node(SyntaxKind::File);
    trivia(p);
    match items(p, SyntaxKind::Eof) {
        Err(e) => return Err(e),
        Ok(()) => {},
    }
    proof {
        lemma_node_grows(toks, st, SyntaxKind::File, p.state());
    }
    p.finish_node();
    Ok(())
}

/// Lowers fin source text into a concrete syntax tree, or tells why it cannot.
///
/// The tree is the one [`grammar::syntax_tree`] describes; its root is a
/// `File` node and its text is the source text itself. A source that the
/// grammar has no tree for gets no tree: the error says why (see
/// [`ParseError`]), and [`lower`] is not to be called on it.
pub fn try_lower(src: &str) -> (r: Result<GreenNode, ParseError>)
    requires
        byte_len(src@) <= usize::MAX,
    ensures
        match grammar::parse_source(src@) {
            Ok(_) => r matches Ok(n) && n@ == grammar::syntax_tree(src@),
            Err(e) => r == Err::<GreenNode, ParseError>(e),
        },
        r matches Ok(n) ==> n@.kind() == SyntaxKind::File && tree_text(n@) == src@,
{
    let mut parser = Parser::new(src);
    match file(&mut parser) {
        Err(e) => Err(e),
        Ok(()) => {
            proof {
                lemma_syntax_tree(src@);
            }
            Ok(parser.finish())
        },
    }
}

/// Lowers fin source text into a concrete syntax tree.
///
/// The tree is the one [`grammar::syntax_tree`] describes; its root is a
/// `File` node and its text is the source text itself.
pub fn lower(src: &str) -> (n: GreenNode)
    requires
        byte_len(src@) <= usize::MAX,
        grammar::parses(src@),
    ensures
        n@ == grammar::syntax_tree(src@),
        n@.kind() == SyntaxKind::File,
        tree_text(n@) == src@,
{
    match try_lower(src) {
        Ok(tree) => tree,
        Err(_) => unreached(),
    }
}

} // verus!
