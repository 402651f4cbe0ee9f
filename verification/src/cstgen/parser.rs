//! The cursor over the tokens and the parser that feeds the tree builder.

use vstd::prelude::*;

use crate::cstgen::trivia;
use crate::cstgen::lexer::{
    byte_len, lemma_lex_lossless, lex, lex_spec, lexemes, lexemes_well_formed, texts, Lexeme,
    Span, Token,
};
use crate::cstgen::steps::{
    self, close, expect_optional, lemma_node_grows, lemma_steps_grow, open, open_at, peek,
    rem, state_wf, grows, ControlFlow, PState,
};
use crate::cstgen::syntax::SyntaxKind;
use crate::green::{lemma_builder_ops, BuilderModel, Checkpoint, GreenNode, GreenNodeBuilder};

verus! {

broadcast use crate::cstgen::steps::lemma_grows_basics;

/// A position in the tokens of a source text.
pub struct Cursor {
    tokens: Vec<Token>,
    pos: usize,
}

impl Cursor {
    /// The tokens, as the grammar sees them.
    pub closed spec fn toks(&self) -> Seq<Lexeme> {
        lexemes(self.tokens@)
    }

    /// The index of the next token.
    pub closed spec fn pos(&self) -> nat {
        self.pos as nat
    }

    /// The span of token `i`.
    pub closed spec fn span_at(&self, i: int) -> Span {
        self.tokens@[i].span
    }

    /// The tokens are well formed (none of them of kind `Eof`) and the
    /// position lies within them.
    pub open spec fn wf(&self) -> bool {
        &&& lexemes_well_formed(self.toks())
        &&& self.pos() <= self.toks().len()
    }

    /// A cursor at the first token of `src`.
    pub fn new(src: &str) -> (c: Cursor)
        requires
            byte_len(src@) <= usize::MAX,
        ensures
            c.wf(),
            c.toks() == lex_spec(src@),
            c.pos() == 0,
            forall|j: int|
                0 <= j < c.toks().len() ==> {
                    &&& #[trigger] c.span_at(j).start == byte_len(texts(c.toks().take(j)))
                    &&& c.span_at(j).end == byte_len(texts(c.toks().take(j + 1)))
                },
    {
        let tokens = lex(src);
        let c = Cursor { tokens, pos: 0 };
        proof {
            lemma_lex_lossless(src@);
            assert forall|j: int| 0 <= j < c.toks().len() implies {
                &&& #[trigger] c.span_at(j).start == byte_len(texts(c.toks().take(j)))
                &&& c.span_at(j).end == byte_len(texts(c.toks().take(j + 1)))
            } by {
                assert(c.tokens@[j].span.start == byte_len(texts(lex_spec(src@).take(j))));
            }
        }
        c
    }

    /// The kind of the next token; `Eof` at the end.
    pub fn peek(&self) -> (k: SyntaxKind)
        requires
            self.wf(),
        ensures
            k == peek(self.toks(), self.pos()),
    {
        if self.pos < self.tokens.len() {
            self.tokens[self.pos].kind
        } else {
            SyntaxKind::Eof
        }
    }

    /// Whether the next token is of kind `kind`.
    pub fn at(&self, kind: SyntaxKind) -> (b: bool)
        requires
            self.wf(),
        ensures
            b == (peek(self.toks(), self.pos()) == kind),
    {
        self.peek() == kind
    }

    /// Moves past the next token and gives its span; `None` at the end.
    pub fn advance(&mut self) -> (s: Option<Span>)
        requires
            old(self).wf(),
        ensures
            final(self).wf(),
            final(self).toks() == old(self).toks(),
            old(self).pos() < old(self).toks().len() ==> s == Some(old(self).span_at(old(self).pos() as int))
                && final(self).pos() == old(self).pos() + 1,
            old(self).pos() >= old(self).toks().len() ==> s is None && final(self).pos() == old(self).pos(),
    {
        if self.pos < self.tokens.len() {
            let span = self.tokens[self.pos].span;
            self.pos = self.pos + 1;
            Some(span)
        } else {
            None
        }
    }

    /// Moves past the next token if it is of kind `kind`, giving its span.
    pub fn eat(&mut self, kind: SyntaxKind) -> (s: Option<Span>)
        requires
            old(self).wf(),
        ensures
            final(self).wf(),
            final(self).toks() == old(self).toks(),
            ({
                let p = old(self).pos();
                if peek(old(self).toks(), p) == kind && p < old(self).toks().len() {
                    s == Some(old(self).span_at(p as int)) && final(self).pos() == p + 1
                } else {
                    s is None && final(self).pos() == p
                }
            }),
    {
        if self.at(kind) {
            self.advance()
        } else {
            None
        }
    }

    /// The text of the token just before the position.
    fn prev_text(&self) -> (s: String)
        requires
            self.wf(),
            0 < self.pos(),
        ensures
            s@ == self.toks()[self.pos() - 1].text,
    {
        self.tokens[self.pos - 1].text.clone()
    }
}

/// Builds a syntax tree from the tokens of a source text.
pub struct Parser {
    builder: GreenNodeBuilder,
    cursor: Cursor,
}

impl Parser {
    /// The tokens, as the grammar sees them.
    pub closed spec fn toks(&self) -> Seq<Lexeme> {
        self.cursor.toks()
    }

    /// The position and what the builder holds.
    pub closed spec fn state(&self) -> PState {
        PState { pos: self.cursor.pos(), b: self.builder@ }
    }

    /// The tokens are well formed (none of them of kind `Eof`), the
    /// position lies within them and the builder is well formed.
    pub open spec fn wf(&self) -> bool {
        &&& lexemes_well_formed(self.toks())
        &&& state_wf(self.toks(), self.state())
    }

    /// A parser at the first token of `src`, with an empty builder.
    pub fn new(src: &str) -> (p: Parser)
        requires
            byte_len(src@) <= usize::MAX,
        ensures
            p.wf(),
            p.toks() == lex_spec(src@),
            p.state() == (PState { pos: 0, b: BuilderModel::empty() }),
    {
        let p = Parser { builder: GreenNodeBuilder::new(), cursor: Cursor::new(src) };
        proof {
            lemma_lex_lossless(src@);
        }
        p
    }

    /// Opens a node of kind `kind`.
    pub fn start_node(&mut self, kind: SyntaxKind)
        requires
            old(self).wf(),
        ensures
            final(self).wf(),
            final(self).toks() == old(self).toks(),
            final(self).state() == open(old(self).state(), kind),
    {
        proof {
            lemma_node_grows(old(self).toks(), old(self).state(), kind, old(self).state());
            steps::lemma_node_ops(old(self).state(), kind, 0);
        }
        self.builder.start_node(kind);
    }

    /// Opens a node of kind `kind` that adopts the children finished since `checkpoint`.
    pub fn start_node_at(&mut self, checkpoint: Checkpoint, kind: SyntaxKind)
        requires
            old(self).wf(),
            old(self).state().b.can_start_at(checkpoint.spec_index()),
        ensures
            final(self).wf(),
            final(self).toks() == old(self).toks(),
            final(self).state() == open_at(old(self).state(), checkpoint.spec_index(), kind),
    {
        proof {
            lemma_builder_ops(old(self).state().b, kind, Seq::empty(), checkpoint.spec_index());
            steps::lemma_node_ops(old(self).state(), kind, checkpoint.spec_index());
        }
        self.builder.start_node_at(checkpoint, kind);
    }

    /// Closes the last opened node.
    pub fn finish_node(&mut self)
        requires
            old(self).wf(),
            old(self).state().b.parents.len() > 0,
        ensures
            final(self).wf(),
            final(self).toks() == old(self).toks(),
            final(self).state() == close(old(self).state()),
    {
        proof {
            lemma_builder_ops(old(self).state().b, SyntaxKind::Unknown, Seq::empty(), 0);
            steps::lemma_node_ops(old(self).state(), SyntaxKind::Unknown, 0);
        }
        self.builder.finish_node();
    }

    /// Takes the next token into the tree if it is of kind `kind`, then the trivia after it.
    pub fn expect(&mut self, kind: SyntaxKind)
        requires
            old(self).wf(),
        ensures
            final(self).wf(),
            final(self).toks() == old(self).toks(),
            final(self).state() == steps::expect(old(self).toks(), old(self).state(), kind),
            grows(old(self).toks(), old(self).state(), final(self).state()),
            peek(old(self).toks(), old(self).state().pos) == kind && old(self).state().pos < old(self).toks().len()
                ==> final(self).state().pos > old(self).state().pos,
    {
        proof {
            reveal(steps::expect);
            lemma_steps_grow(old(self).toks(), old(self).state(), kind);
        }
        match self.eat(kind) {
            Some(_span) => {
                let text = self.cursor.prev_text();
                proof {
                    lemma_builder_ops(self.state().b, kind, text@, 0);
                }
                self.builder.token(kind, text);
                trivia(self);
            },
            None => {
                self.eat(kind);
            },
        }
    }

    /// Takes the next token into the tree (if there is one), then the trivia after it.
    pub fn bump(&mut self)
        requires
            old(self).wf(),
        ensures
            final(self).wf(),
            final(self).toks() == old(self).toks(),
            final(self).state() == steps::bump(old(self).toks(), old(self).state()),
            grows(old(self).toks(), old(self).state(), final(self).state()),
            old(self).state().pos < old(self).toks().len() ==> final(self).state().pos > old(self).state().pos,
        decreases rem(old(self).toks(), old(self).state().pos), 0nat,
    {
        proof {
            reveal(steps::bump);
            lemma_steps_grow(old(self).toks(), old(self).state(), SyntaxKind::Eof);
        }
        let kind = self.cursor.peek();
        let Some(_span) = self.eat(kind) else { return };
        let text = self.cursor.prev_text();
        proof {
            lemma_builder_ops(self.state().b, kind, text@, 0);
        }
        self.builder.token(kind, text);
        trivia(self);
    }

    /// Like [`Parser::expect`], and says whether the next token was of kind `kind`.
    pub fn expect_optional(&mut self, kind: SyntaxKind) -> (flow: ControlFlow)
        requires
            old(self).wf(),
        ensures
            final(self).wf(),
            final(self).toks() == old(self).toks(),
            (final(self).state(), flow) == expect_optional(old(self).toks(), old(self).state(), kind),
            grows(old(self).toks(), old(self).state(), final(self).state()),
    {
        proof {
            reveal(steps::expect_optional);
            lemma_steps_grow(old(self).toks(), old(self).state(), kind);
        }
        if self.cursor.at(kind) {
            self.expect(kind);
            ControlFlow::Continue
        } else {
            ControlFlow::Break
        }
    }

    /// Whether the next token is of kind `kind`.
    pub fn at(&self, kind: SyntaxKind) -> (b: bool)
        requires
            self.wf(),
        ensures
            b == (peek(self.toks(), self.state().pos) == kind),
    {
        self.cursor.at(kind)
    }

    /// The kind of the next token; `Eof` at the end.
    pub fn peek(&self) -> (k: SyntaxKind)
        requires
            self.wf(),
        ensures
            k == peek(self.toks(), self.state().pos),
    {
        self.cursor.peek()
    }

    /// The index of the next token.
    pub fn position(&self) -> (i: usize)
        ensures
            i == self.state().pos,
    {
        self.cursor.pos
    }

    /// A checkpoint at the children finished so far.
    pub fn checkpoint(&self) -> (c: Checkpoint)
        ensures
            c.spec_index() == self.state().b.children.len(),
    {
        self.builder.checkpoint()
    }

    /// The finished tree: the one node left when everything is closed.
    pub fn finish(self) -> (n: GreenNode)
        requires
            self.state().b.parents.len() == 0,
            self.state().b.children.len() == 1,
            self.state().b.children[0] is Node,
        ensures
            n@ == self.state().b.children[0],
    {
        self.builder.finish()
    }

    /// Moves past the next token if it is of kind `kind`.
    fn eat(&mut self, kind: SyntaxKind) -> (s: Option<Span>)
        requires
            old(self).wf(),
        ensures
            final(self).toks() == old(self).toks(),
            final(self).state().b == old(self).state().b,
            ({
                let p = old(self).state().pos;
                if peek(old(self).toks(), p) == kind && p < old(self).toks().len() {
                    s is Some && final(self).state().pos == p + 1
                } else {
                    s is None && final(self).state().pos == p
                }
            }),
    {
        self.cursor.eat(kind)
    }
}

} // verus!
