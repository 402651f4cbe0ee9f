//! The grammar of fin as functions on token sequences.
//!
//! Each function here describes one parsing routine: from a position in the
//! token sequence and what the tree builder holds, it gives how many tokens
//! the routine takes, what the builder then holds, and whether it went on
//! (`Continue`) or stopped (`Break`); or the failure it ends in. Parsing
//! never looks behind its position, and a failure ends the whole parse.
//!
//! A loop that goes round without taking a token would go round forever:
//! it fails with `NoProgress`.

use vstd::prelude::*;

use crate::cstgen::lexer::{lex_spec, Lexeme};
use crate::green::{BuilderModel, Tree};
use crate::cstgen::steps::{
    after, binds_tighter, bump, close, closed_at, chain, done, expect, expect_optional, name, open,
    open_at, pattern, peek, rem, trivia, ControlFlow, Done, Outcome, PState, ParseError,
};
use crate::cstgen::syntax::SyntaxKind;

verus! {

broadcast use crate::cstgen::steps::group_steps_forward;

/// A source file: trivia, then items up to the end.
pub open spec fn file(toks: Seq<Lexeme>, st: PState) -> Outcome {
    let s1 = trivia(toks, open(st, SyntaxKind::File));
    match items(toks, s1, SyntaxKind::Eof) {
        Ok(d) => Ok(done(st, close(after(s1, d)), ControlFlow::Continue)),
        Err(e) => Err(e),
    }
}

/// Items until the next token is `stop`. Each item must take a token.
pub open spec fn items(toks: Seq<Lexeme>, st: PState, stop: SyntaxKind) -> Outcome
    decreases rem(toks, st.pos), 7nat,
{
    if peek(toks, st.pos) == stop {
        Ok(done(st, st, ControlFlow::Continue))
    } else {
        match item(toks, st) {
            Ok(d) => {
                let s1 = after(st, d);
                if rem(toks, s1.pos) < rem(toks, st.pos) {
                    chain(st, s1, items(toks, s1, stop))
                } else {
                    Err(ParseError::NoProgress)
                }
            },
            Err(e) => Err(e),
        }
    }
}

/// An item: a `const` item, or an expression item.
pub open spec fn item(toks: Seq<Lexeme>, st: PState) -> Outcome
    decreases rem(toks, st.pos), 6nat,
{
    let k = peek(toks, st.pos);
    if k == SyntaxKind::PubKw || k == SyntaxKind::ConstKw {
        item_const(toks, st)
    } else {
        let s1 = open(st, SyntaxKind::ItemExpr);
        match expr(toks, s1) {
            Ok(d) => {
                let s2 = after(s1, d);
                Ok(done(st, close(expect_optional(toks, s2, SyntaxKind::Semi).0), ControlFlow::Continue))
            },
            Err(e) => Err(e),
        }
    }
}

/// `ItemConst`: an optional `pub`, `const`, a pattern, an optional
/// `: type`, an optional `= value`, and `;`.
pub open spec fn item_const(toks: Seq<Lexeme>, st: PState) -> Outcome
    decreases rem(toks, st.pos), 5nat,
{
    let s1 = open(st, SyntaxKind::ItemConst);
    let s2 = expect_optional(toks, s1, SyntaxKind::PubKw).0;
    let s3 = expect(toks, s2, SyntaxKind::ConstKw);
    match pattern(toks, s3) {
        Err(e) => Err(e),
        Ok(s4) => {
            let r5: Result<PState, ParseError> = if peek(toks, s4.pos) == SyntaxKind::Colon {
                let t1 = bump(toks, open(s4, SyntaxKind::Type));
                match expr(toks, t1) {
                    Ok(d) => Ok(close(after(t1, d))),
                    Err(e) => Err(e),
                }
            } else {
                Ok(s4)
            };
            match r5 {
                Err(e) => Err(e),
                Ok(s5) => {
                    let (s6, flow) = expect_optional(toks, s5, SyntaxKind::Eq);
                    let r7: Result<PState, ParseError> = if flow == ControlFlow::Continue {
                        match expr(toks, s6) {
                            Ok(d) => Ok(after(s6, d)),
                            Err(e) => Err(e),
                        }
                    } else {
                        Ok(s6)
                    };
                    match r7 {
                        Err(e) => Err(e),
                        Ok(s7) => Ok(done(st, close(expect(toks, s7, SyntaxKind::Semi)), ControlFlow::Continue)),
                    }
                },
            }
        },
    }
}

/// `Arg`: an optional `const`, an expression head, and an optional `: type`.
pub open spec fn arg(toks: Seq<Lexeme>, st: PState, allow_closures: bool) -> Outcome
    decreases rem(toks, st.pos), 2nat,
{
    let s1 = open(st, SyntaxKind::Arg);
    let s2 = expect_optional(toks, s1, SyntaxKind::ConstKw).0;
    match expr_prefix(toks, s2, allow_closures) {
        Err(e) => Err(e),
        Ok(d) => {
            let s3 = after(s2, d);
            let (s4, flow) = expect_optional(toks, s3, SyntaxKind::Colon);
            if flow == ControlFlow::Continue {
                closed_at(st, expr(toks, s4), s4)
            } else {
                Ok(done(st, close(s4), ControlFlow::Continue))
            }
        },
    }
}

/// Arguments separated by commas, as long as a comma follows.
pub open spec fn args(toks: Seq<Lexeme>, st: PState, allow_closures: bool) -> Outcome
    decreases rem(toks, st.pos), 3nat,
{
    match arg(toks, st, allow_closures) {
        Err(e) => Err(e),
        Ok(d) => {
            let (s1, flow) = expect_optional(toks, after(st, d), SyntaxKind::Comma);
            if flow == ControlFlow::Continue {
                if rem(toks, s1.pos) < rem(toks, st.pos) {
                    chain(st, s1, args(toks, s1, allow_closures))
                } else {
                    Err(ParseError::NoProgress)
                }
            } else {
                Ok(done(st, s1, ControlFlow::Continue))
            }
        },
    }
}

/// `ArgList`: a node around [`args`].
pub open spec fn arg_list(toks: Seq<Lexeme>, st: PState, allow_closures: bool) -> Outcome
    decreases rem(toks, st.pos), 4nat,
{
    let s1 = open(st, SyntaxKind::ArgList);
    closed_at(st, args(toks, s1, allow_closures), s1)
}

/// A field of a `struct`: a name, `:`, and a type.
pub open spec fn struct_field(toks: Seq<Lexeme>, st: PState) -> Outcome
    decreases rem(toks, st.pos), 4nat,
{
    let s1 = expect(toks, name(toks, st), SyntaxKind::Colon);
    chain(st, s1, expr(toks, s1))
}

/// Fields separated by commas, as long as a comma follows.
pub open spec fn struct_fields(toks: Seq<Lexeme>, st: PState) -> Outcome
    decreases rem(toks, st.pos), 5nat,
{
    match struct_field(toks, st) {
        Err(e) => Err(e),
        Ok(d) => {
            let (s1, flow) = expect_optional(toks, after(st, d), SyntaxKind::Comma);
            if flow == ControlFlow::Continue {
                if rem(toks, s1.pos) < rem(toks, st.pos) {
                    chain(st, s1, struct_fields(toks, s1))
                } else {
                    Err(ParseError::NoProgress)
                }
            } else {
                Ok(done(st, s1, ControlFlow::Continue))
            }
        },
    }
}

/// Expressions separated by commas, as long as a comma follows.
pub open spec fn exprs(toks: Seq<Lexeme>, st: PState) -> Outcome
    decreases rem(toks, st.pos), 4nat,
{
    match expr(toks, st) {
        Err(e) => Err(e),
        Ok(d) => {
            let (s1, flow) = expect_optional(toks, after(st, d), SyntaxKind::Comma);
            if flow == ControlFlow::Continue {
                if rem(toks, s1.pos) < rem(toks, st.pos) {
                    chain(st, s1, exprs(toks, s1))
                } else {
                    Err(ParseError::NoProgress)
                }
            } else {
                Ok(done(st, s1, ControlFlow::Continue))
            }
        },
    }
}

/// A statement: a `let` statement, or an expression statement; `Break`
/// when no expression starts here.
pub open spec fn statement(toks: Seq<Lexeme>, st: PState) -> Outcome
    decreases rem(toks, st.pos), 3nat,
{
    if peek(toks, st.pos) == SyntaxKind::LetKw {
        let s1 = bump(toks, open(st, SyntaxKind::StmtLocal));
        match pattern(toks, s1) {
            Err(e) => Err(e),
            Ok(s2) => {
                let (s3, flow) = expect_optional(toks, s2, SyntaxKind::Eq);
                let r4: Result<PState, ParseError> = if flow == ControlFlow::Continue {
                    match expr(toks, s3) {
                        Ok(d) => Ok(after(s3, d)),
                        Err(e) => Err(e),
                    }
                } else {
                    Ok(s3)
                };
                match r4 {
                    Err(e) => Err(e),
                    Ok(s4) => Ok(done(st, close(expect(toks, s4, SyntaxKind::Semi)), ControlFlow::Continue)),
                }
            },
        }
    } else {
        match expr_inner(toks, st, SyntaxKind::Eof) {
            Err(e) => Err(e),
            Ok(d) => {
                if d.flow == ControlFlow::Break {
                    Ok(done(st, after(st, d), ControlFlow::Break))
                } else {
                    let s1 = after(st, d);
                    let s2 = close(open_at(s1, st.b.children.len(), SyntaxKind::StmtExpr));
                    Ok(done(st, s2, ControlFlow::Continue))
                }
            },
        }
    }
}

/// Statements until one stops.
pub open spec fn statements(toks: Seq<Lexeme>, st: PState) -> Outcome
    decreases rem(toks, st.pos), 4nat,
{
    match statement(toks, st) {
        Err(e) => Err(e),
        Ok(d) => {
            let s1 = after(st, d);
            if d.flow == ControlFlow::Continue {
                if rem(toks, s1.pos) < rem(toks, st.pos) {
                    chain(st, s1, statements(toks, s1))
                } else {
                    Err(ParseError::NoProgress)
                }
            } else {
                Ok(done(st, s1, ControlFlow::Continue))
            }
        },
    }
}

/// `ExprBlock`: `{`, statements, `}`.
pub open spec fn expr_block(toks: Seq<Lexeme>, st: PState) -> Outcome
    decreases rem(toks, st.pos), if peek(toks, st.pos) == SyntaxKind::BraceOpen { 0nat } else { 5nat },
{
    let s1 = expect(toks, open(st, SyntaxKind::ExprBlock), SyntaxKind::BraceOpen);
    match statements(toks, s1) {
        Err(e) => Err(e),
        Ok(d) => Ok(done(st, close(expect(toks, after(s1, d), SyntaxKind::BraceClose)), ControlFlow::Continue)),
    }
}

/// An expression: [`expr_inner`] after nothing.
pub open spec fn expr(toks: Seq<Lexeme>, st: PState) -> Outcome
    decreases rem(toks, st.pos), 3nat,
{
    match expr_inner(toks, st, SyntaxKind::Eof) {
        Ok(d) => Ok(Done { flow: ControlFlow::Continue, ..d }),
        Err(e) => Err(e),
    }
}

/// An expression head and the postfix operators that bind tighter than
/// `left`; `Break` when no expression head starts here.
pub open spec fn expr_inner(toks: Seq<Lexeme>, st: PState, left: SyntaxKind) -> Outcome
    decreases rem(toks, st.pos), 2nat,
{
    match expr_prefix(toks, st, true) {
        Err(e) => Err(e),
        Ok(d) => {
            if d.flow == ControlFlow::Break {
                Ok(done(st, after(st, d), ControlFlow::Break))
            } else {
                let s1 = after(st, d);
                chain(st, s1, postfix(toks, s1, left, st.b.children.len()))
            }
        },
    }
}

/// Postfix operators (calls, field accesses) applied to the expression
/// whose nodes start at child index `cp`.
pub open spec fn postfix(toks: Seq<Lexeme>, st: PState, left: SyntaxKind, cp: nat) -> Outcome
    decreases rem(toks, st.pos), 1nat,
{
    let right = peek(toks, st.pos);
    if !binds_tighter(left, right) {
        Ok(done(st, st, ControlFlow::Continue))
    } else if right == SyntaxKind::ParenOpen {
        let s1 = open(bump(toks, open_at(st, cp, SyntaxKind::ExprCall)), SyntaxKind::CallArgs);
        match exprs(toks, s1) {
            Err(e) => Err(e),
            Ok(d) => {
                let s2 = close(expect(toks, close(after(s1, d)), SyntaxKind::ParenClose));
                if rem(toks, s2.pos) < rem(toks, st.pos) {
                    chain(st, s2, postfix(toks, s2, left, cp))
                } else {
                    Err(ParseError::NoProgress)
                }
            },
        }
    } else if right == SyntaxKind::Dot {
        let s1 = bump(toks, open_at(st, cp, SyntaxKind::ExprField));
        match expr(toks, s1) {
            Err(e) => Err(e),
            Ok(d) => {
                let s2 = close(after(s1, d));
                if rem(toks, s2.pos) < rem(toks, st.pos) {
                    chain(st, s2, postfix(toks, s2, left, cp))
                } else {
                    Err(ParseError::NoProgress)
                }
            },
        }
    } else {
        Err(ParseError::UnexpectedOperator(right))
    }
}

/// A node of kind `kind`: the next token, then an expression.
pub open spec fn prefix_then_expr(toks: Seq<Lexeme>, st: PState, kind: SyntaxKind) -> Outcome
    decreases rem(toks, st.pos), 0nat,
{
    let s1 = bump(toks, open(st, kind));
    if rem(toks, s1.pos) < rem(toks, st.pos) {
        closed_at(st, expr(toks, s1), s1)
    } else {
        Err(ParseError::NoProgress)
    }
}

/// The head of an expression; `Break` (taking nothing) when none starts here.
pub open spec fn expr_prefix(toks: Seq<Lexeme>, st: PState, allow_closures: bool) -> Outcome
    decreases rem(toks, st.pos), 1nat,
{
    let k = peek(toks, st.pos);
    if k == SyntaxKind::Ampersand {
        prefix_then_expr(toks, st, SyntaxKind::ExprRef)
    } else if k == SyntaxKind::Asterisk {
        prefix_then_expr(toks, st, SyntaxKind::ExprPtr)
    } else if k == SyntaxKind::Ident {
        Ok(done(st, close(bump(toks, open(st, SyntaxKind::ExprIdent))), ControlFlow::Continue))
    } else if k == SyntaxKind::BraceOpen {
        expr_block(toks, st)
    } else if k == SyntaxKind::ParenOpen {
        expr_paren(toks, st)
    } else if k == SyntaxKind::Pipe && allow_closures {
        expr_closure(toks, st)
    } else if k == SyntaxKind::EnumKw {
        expr_enum(toks, st)
    } else if k == SyntaxKind::StructKw {
        expr_struct(toks, st)
    } else if k == SyntaxKind::TraitKw {
        expr_trait(toks, st)
    } else if k == SyntaxKind::ImplKw {
        expr_impl(toks, st)
    } else if k == SyntaxKind::IfKw {
        expr_if(toks, st)
    } else {
        Ok(done(st, st, ControlFlow::Break))
    }
}

/// `ExprParen`: `(`, an expression, `)`.
pub open spec fn expr_paren(toks: Seq<Lexeme>, st: PState) -> Outcome
    decreases rem(toks, st.pos), 0nat,
{
    let s1 = bump(toks, open(st, SyntaxKind::ExprParen));
    if rem(toks, s1.pos) < rem(toks, st.pos) {
        match expr(toks, s1) {
            Err(e) => Err(e),
            Ok(d) => Ok(done(st, close(expect(toks, after(s1, d), SyntaxKind::ParenClose)), ControlFlow::Continue)),
        }
    } else {
        Err(ParseError::NoProgress)
    }
}

/// `ExprEnum`: `enum {`, variants separated by commas, `}`.
pub open spec fn expr_enum(toks: Seq<Lexeme>, st: PState) -> Outcome
    decreases rem(toks, st.pos), 0nat,
{
    let s1 = expect(toks, bump(toks, open(st, SyntaxKind::ExprEnum)), SyntaxKind::BraceOpen);
    if rem(toks, s1.pos) < rem(toks, st.pos) {
        match exprs(toks, s1) {
            Err(e) => Err(e),
            Ok(d) => Ok(done(st, close(expect(toks, after(s1, d), SyntaxKind::BraceClose)), ControlFlow::Continue)),
        }
    } else {
        Err(ParseError::NoProgress)
    }
}

/// `ExprStruct`: `struct {`, fields separated by commas, `}`.
pub open spec fn expr_struct(toks: Seq<Lexeme>, st: PState) -> Outcome
    decreases rem(toks, st.pos), 0nat,
{
    let s1 = expect(toks, bump(toks, open(st, SyntaxKind::ExprStruct)), SyntaxKind::BraceOpen);
    if rem(toks, s1.pos) < rem(toks, st.pos) {
        match struct_fields(toks, s1) {
            Err(e) => Err(e),
            Ok(d) => Ok(done(st, close(expect(toks, after(s1, d), SyntaxKind::BraceClose)), ControlFlow::Continue)),
        }
    } else {
        Err(ParseError::NoProgress)
    }
}

/// `ExprTrait`: `trait {`, items, `}`.
pub open spec fn expr_trait(toks: Seq<Lexeme>, st: PState) -> Outcome
    decreases rem(toks, st.pos), 0nat,
{
    let s1 = expect(toks, bump(toks, open(st, SyntaxKind::ExprTrait)), SyntaxKind::BraceOpen);
    if rem(toks, s1.pos) < rem(toks, st.pos) {
        match items(toks, s1, SyntaxKind::BraceClose) {
            Err(e) => Err(e),
            Ok(d) => Ok(done(st, close(expect(toks, after(s1, d), SyntaxKind::BraceClose)), ControlFlow::Continue)),
        }
    } else {
        Err(ParseError::NoProgress)
    }
}

/// `ExprImpl`: `impl`, an expression, `{`, items, `}`.
pub open spec fn expr_impl(toks: Seq<Lexeme>, st: PState) -> Outcome
    decreases rem(toks, st.pos), 0nat,
{
    let s1 = bump(toks, open(st, SyntaxKind::ExprImpl));
    if rem(toks, s1.pos) < rem(toks, st.pos) {
        match expr(toks, s1) {
            Err(e) => Err(e),
            Ok(d) => {
                let s2 = expect(toks, after(s1, d), SyntaxKind::BraceOpen);
                match items(toks, s2, SyntaxKind::BraceClose) {
                    Err(e) => Err(e),
                    Ok(d2) => Ok(done(st, close(expect(toks, after(s2, d2), SyntaxKind::BraceClose)), ControlFlow::Continue)),
                }
            },
        }
    } else {
        Err(ParseError::NoProgress)
    }
}

/// `ExprIf`: `if`, a condition, and a block.
pub open spec fn expr_if(toks: Seq<Lexeme>, st: PState) -> Outcome
    decreases rem(toks, st.pos), 0nat,
{
    let s1 = bump(toks, open(st, SyntaxKind::ExprIf));
    if rem(toks, s1.pos) < rem(toks, st.pos) {
        match expr(toks, s1) {
            Err(e) => Err(e),
            Ok(d) => {
                let s2 = after(s1, d);
                closed_at(st, expr_block(toks, s2), s2)
            },
        }
    } else {
        Err(ParseError::NoProgress)
    }
}

/// `ExprClosure`: `|`, arguments, `|`, and a body (`-> type { .. }` or an expression).
pub open spec fn expr_closure(toks: Seq<Lexeme>, st: PState) -> Outcome
    decreases rem(toks, st.pos), 0nat,
{
    let s1 = bump(toks, open(st, SyntaxKind::ExprClosure));
    if rem(toks, s1.pos) < rem(toks, st.pos) {
        match arg_list(toks, s1, false) {
            Err(e) => Err(e),
            Ok(d) => {
                let s2 = expect(toks, after(s1, d), SyntaxKind::Pipe);
                let (s3, flow) = expect_optional(toks, s2, SyntaxKind::Arrow);
                if flow == ControlFlow::Continue {
                    match expr(toks, s3) {
                        Err(e) => Err(e),
                        Ok(d2) => {
                            let s4 = after(s3, d2);
                            if peek(toks, s4.pos) == SyntaxKind::BraceOpen {
                                closed_at(st, expr(toks, s4), s4)
                            } else {
                                Ok(done(st, close(s4), ControlFlow::Continue))
                            }
                        },
                    }
                } else {
                    closed_at(st, expr(toks, s3), s3)
                }
            },
        }
    } else {
        Err(ParseError::NoProgress)
    }
}

/// Where parsing starts: the first token, an empty builder.
pub open spec fn initial() -> PState {
    PState { pos: 0, b: BuilderModel::empty() }
}

/// The parse of the source text `src`.
pub open spec fn parse_source(src: Seq<char>) -> Outcome {
    file(lex_spec(src), initial())
}

/// Whether `src` parses: its parse neither fails on a pattern or an
/// operator nor loops without taking tokens.
pub open spec fn parses(src: Seq<char>) -> bool {
    parse_source(src) is Ok
}

/// The syntax tree of `src` (meaningful when it [`parses`]).
pub open spec fn syntax_tree(src: Seq<char>) -> Tree {
    parse_source(src)->Ok_0.b.children[0]
}

/// A run of items ends where the next token is `stop`.
pub proof fn lemma_items_stop(toks: Seq<Lexeme>, st: PState, stop: SyntaxKind)
    ensures
        items(toks, st, stop) matches Ok(d) ==> peek(toks, st.pos + d.used) == stop,
    decreases rem(toks, st.pos),
{
    if peek(toks, st.pos) != stop {
        if let Ok(d) = item(toks, st) {
            let s1 = after(st, d);
            if rem(toks, s1.pos) < rem(toks, st.pos) {
                lemma_items_stop(toks, s1, stop);
            }
        }
    }
}

} // verus!
