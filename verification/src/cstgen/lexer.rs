//! The token grammar of fin: a longest-match lexer.
//!
//! At each position the lexer takes the longest of the candidate matches:
//! a fixed string (punctuation or keyword), a line comment, an identifier or
//! a run of white space. On equal length a fixed string wins, then a comment,
//! then an identifier. A character where nothing matches becomes a one-character
//! `Unknown` token.

use vstd::prelude::*;
use vstd::utf8::*;

use crate::cstgen::syntax::SyntaxKind;
use crate::text::{str_chars, string_from_chars};
use crate::unicode::{id_continue, id_start, is_white_space, is_xid_continue, is_xid_start, white_space};

verus! {

/// The text of a kind that is written as a fixed string (empty for the other kinds).
pub open spec fn literal_text(kind: SyntaxKind) -> Seq<char> {
    match kind {
        SyntaxKind::Eq => seq!['='],
        SyntaxKind::Semi => seq![';'],
        SyntaxKind::Dot => seq!['.'],
        SyntaxKind::Colon => seq![':'],
        SyntaxKind::Comma => seq![','],
        SyntaxKind::Bang => seq!['!'],
        SyntaxKind::Question => seq!['?'],
        SyntaxKind::Pound => seq!['#'],
        SyntaxKind::Ampersand => seq!['&'],
        SyntaxKind::AmpersandBang => seq!['&', '!'],
        SyntaxKind::Asterisk => seq!['*'],
        SyntaxKind::EqGt => seq!['=', '>'],
        SyntaxKind::Pipe => seq!['|'],
        SyntaxKind::Slash => seq!['/'],
        SyntaxKind::Lt => seq!['<'],
        SyntaxKind::Gt => seq!['>'],
        SyntaxKind::Minus => seq!['-'],
        SyntaxKind::Arrow => seq!['-', '>'],
        SyntaxKind::LetKw => seq!['l', 'e', 't'],
        SyntaxKind::PubKw => seq!['p', 'u', 'b'],
        SyntaxKind::FnKw => seq!['f', 'n'],
        SyntaxKind::ConstKw => seq!['c', 'o', 'n', 's', 't'],
        SyntaxKind::EnumKw => seq!['e', 'n', 'u', 'm'],
        SyntaxKind::TraitKw => seq!['t', 'r', 'a', 'i', 't'],
        SyntaxKind::ImplKw => seq!['i', 'm', 'p', 'l'],
        SyntaxKind::StructKw => seq!['s', 't', 'r', 'u', 'c', 't'],
        SyntaxKind::MatchKw => seq!['m', 'a', 't', 'c', 'h'],
        SyntaxKind::DeferKw => seq!['d', 'e', 'f', 'e', 'r'],
        SyntaxKind::MutKw => seq!['m', 'u', 't'],
        SyntaxKind::ForKw => seq!['f', 'o', 'r'],
        SyntaxKind::IfKw => seq!['i', 'f'],
        SyntaxKind::ElseKw => seq!['e', 'l', 's', 'e'],
        SyntaxKind::ParenOpen => seq!['('],
        SyntaxKind::ParenClose => seq![')'],
        SyntaxKind::BraceOpen => seq!['{'],
        SyntaxKind::BraceClose => seq!['}'],
        SyntaxKind::BracketOpen => seq!['['],
        SyntaxKind::BracketClose => seq![']'],
        _ => Seq::empty(),
    }
}

/// The kinds written as fixed strings, in the order of their declaration.
pub open spec fn literal_kinds() -> Seq<SyntaxKind> {
    seq![
        SyntaxKind::Eq,
        SyntaxKind::Semi,
        SyntaxKind::Dot,
        SyntaxKind::Colon,
        SyntaxKind::Comma,
        SyntaxKind::Bang,
        SyntaxKind::Question,
        SyntaxKind::Pound,
        SyntaxKind::Ampersand,
        SyntaxKind::AmpersandBang,
        SyntaxKind::Asterisk,
        SyntaxKind::EqGt,
        SyntaxKind::Pipe,
        SyntaxKind::Slash,
        SyntaxKind::Lt,
        SyntaxKind::Gt,
        SyntaxKind::Minus,
        SyntaxKind::Arrow,
        SyntaxKind::LetKw,
        SyntaxKind::PubKw,
        SyntaxKind::FnKw,
        SyntaxKind::ConstKw,
        SyntaxKind::EnumKw,
        SyntaxKind::TraitKw,
        SyntaxKind::ImplKw,
        SyntaxKind::StructKw,
        SyntaxKind::MatchKw,
        SyntaxKind::DeferKw,
        SyntaxKind::MutKw,
        SyntaxKind::ForKw,
        SyntaxKind::IfKw,
        SyntaxKind::ElseKw,
        SyntaxKind::ParenOpen,
        SyntaxKind::ParenClose,
        SyntaxKind::BraceOpen,
        SyntaxKind::BraceClose,
        SyntaxKind::BracketOpen,
        SyntaxKind::BracketClose,
    ]
}

/// Whether the non-empty string `lit` occurs in `s` at position `i`.
pub open spec fn occurs_at(s: Seq<char>, i: int, lit: Seq<char>) -> bool {
    &&& lit.len() > 0
    &&& 0 <= i
    &&& i + lit.len() <= s.len()
    &&& s.subrange(i, i + lit.len()) == lit
}

/// The longest fixed string among `kinds` that occurs at `i`, as its length
/// and kind; `(0, Unknown)` when none does.
pub open spec fn longest_literal(s: Seq<char>, i: int, kinds: Seq<SyntaxKind>) -> (nat, SyntaxKind)
    decreases kinds.len(),
{
    if kinds.len() == 0 {
        (0, SyntaxKind::Unknown)
    } else {
        let best = longest_literal(s, i, kinds.drop_last());
        let k = kinds.last();
        if occurs_at(s, i, literal_text(k)) && literal_text(k).len() > best.0 {
            (literal_text(k).len(), k)
        } else {
            best
        }
    }
}

/// Number of consecutive XID_Continue characters from `j`.
pub open spec fn xid_continue_run(s: Seq<char>, j: int) -> nat
    decreases s.len() - j,
{
    if 0 <= j < s.len() && id_continue(s[j]) {
        1 + xid_continue_run(s, j + 1)
    } else {
        0
    }
}

/// Number of consecutive White_Space characters from `j`.
pub open spec fn white_space_run(s: Seq<char>, j: int) -> nat
    decreases s.len() - j,
{
    if 0 <= j < s.len() && white_space(s[j]) {
        1 + white_space_run(s, j + 1)
    } else {
        0
    }
}

/// Number of consecutive characters from `j` that are neither `\r` nor `\n`.
pub open spec fn line_rest_run(s: Seq<char>, j: int) -> nat
    decreases s.len() - j,
{
    if 0 <= j < s.len() && s[j] != '\r' && s[j] != '\n' {
        1 + line_rest_run(s, j + 1)
    } else {
        0
    }
}

/// Length of the identifier at `i` (0 when none starts there).
pub open spec fn ident_len(s: Seq<char>, i: int) -> nat {
    if 0 <= i < s.len() && (id_start(s[i]) || s[i] == '_') {
        1 + xid_continue_run(s, i + 1)
    } else {
        0
    }
}

/// Length of the line comment at `i` (0 when none starts there).
pub open spec fn comment_len(s: Seq<char>, i: int) -> nat {
    if 0 <= i && i + 1 < s.len() && s[i] == '/' && s[i + 1] == '/' {
        2 + line_rest_run(s, i + 2)
    } else {
        0
    }
}

/// The token made from the candidate matches at a position: the longest
/// fixed string (`literal`, as length and kind), line comment, identifier
/// and run of white space, by length. The longest wins; on equal length a
/// fixed string wins, then a comment, then an identifier. When nothing
/// matches, one character makes an `Unknown` token.
pub open spec fn pick(literal: (nat, SyntaxKind), comment: nat, ident: nat, white: nat) -> (nat, SyntaxKind) {
    let (ll, lk) = literal;
    if ll == 0 && comment == 0 && ident == 0 && white == 0 {
        (1, SyntaxKind::Unknown)
    } else if ll >= comment && ll >= ident && ll >= white {
        (ll, lk)
    } else if comment >= ident && comment >= white {
        (comment, SyntaxKind::Comment)
    } else if ident >= white {
        (ident, SyntaxKind::Ident)
    } else {
        (white, SyntaxKind::Whitespace)
    }
}

/// The token that starts at `i`, as its length and kind.
pub open spec fn first_token(s: Seq<char>, i: int) -> (nat, SyntaxKind) {
    pick(longest_literal(s, i, literal_kinds()), comment_len(s, i), ident_len(s, i), white_space_run(s, i))
}

/// A token as the grammar sees it: its kind and its text.
pub struct Lexeme {
    pub kind: SyntaxKind,
    pub text: Seq<char>,
}

/// The tokens of `s` from position `i` on.
pub open spec fn lex_from(s: Seq<char>, i: int) -> Seq<Lexeme>
    decreases s.len() - i,
{
    if 0 <= i < s.len() {
        let (n, k) = first_token(s, i);
        if 1 <= n && i + n <= s.len() {
            seq![Lexeme { kind: k, text: s.subrange(i, i + n) }] + lex_from(s, i + n)
        } else {
            Seq::empty()
        }
    } else {
        Seq::empty()
    }
}

/// The tokens of `s`.
pub open spec fn lex_spec(s: Seq<char>) -> Seq<Lexeme> {
    lex_from(s, 0)
}

/// The texts of `ls`, one after the other.
pub open spec fn texts(ls: Seq<Lexeme>) -> Seq<char>
    decreases ls.len(),
{
    if ls.len() == 0 {
        Seq::empty()
    } else {
        ls[0].text + texts(ls.drop_first())
    }
}

/// Number of bytes of the UTF-8 encoding of `s`.
pub open spec fn byte_len(s: Seq<char>) -> nat {
    encode_utf8(s).len()
}

/// The characters of [`literal_text`] for `kind`.
fn literal_chars(kind: SyntaxKind) -> (r: Vec<char>)
    ensures
        r@ == literal_text(kind),
{
    match kind {
        SyntaxKind::Eq => vec!['='],
        SyntaxKind::Semi => vec![';'],
        SyntaxKind::Dot => vec!['.'],
        SyntaxKind::Colon => vec![':'],
        SyntaxKind::Comma => vec![','],
        SyntaxKind::Bang => vec!['!'],
        SyntaxKind::Question => vec!['?'],
        SyntaxKind::Pound => vec!['#'],
        SyntaxKind::Ampersand => vec!['&'],
        SyntaxKind::AmpersandBang => vec!['&', '!'],
        SyntaxKind::Asterisk => vec!['*'],
        SyntaxKind::EqGt => vec!['=', '>'],
        SyntaxKind::Pipe => vec!['|'],
        SyntaxKind::Slash => vec!['/'],
        SyntaxKind::Lt => vec!['<'],
        SyntaxKind::Gt => vec!['>'],
        SyntaxKind::Minus => vec!['-'],
        SyntaxKind::Arrow => vec!['-', '>'],
        SyntaxKind::LetKw => vec!['l', 'e', 't'],
        SyntaxKind::PubKw => vec!['p', 'u', 'b'],
        SyntaxKind::FnKw => vec!['f', 'n'],
        SyntaxKind::ConstKw => vec!['c', 'o', 'n', 's', 't'],
        SyntaxKind::EnumKw => vec!['e', 'n', 'u', 'm'],
        SyntaxKind::TraitKw => vec!['t', 'r', 'a', 'i', 't'],
        SyntaxKind::ImplKw => vec!['i', 'm', 'p', 'l'],
        SyntaxKind::StructKw => vec!['s', 't', 'r', 'u', 'c', 't'],
        SyntaxKind::MatchKw => vec!['m', 'a', 't', 'c', 'h'],
        SyntaxKind::DeferKw => vec!['d', 'e', 'f', 'e', 'r'],
        SyntaxKind::MutKw => vec!['m', 'u', 't'],
        SyntaxKind::ForKw => vec!['f', 'o', 'r'],
        SyntaxKind::IfKw => vec!['i', 'f'],
        SyntaxKind::ElseKw => vec!['e', 'l', 's', 'e'],
        SyntaxKind::ParenOpen => vec!['('],
        SyntaxKind::ParenClose => vec![')'],
        SyntaxKind::BraceOpen => vec!['{'],
        SyntaxKind::BraceClose => vec!['}'],
        SyntaxKind::BracketOpen => vec!['['],
        SyntaxKind::BracketClose => vec![']'],
        _ => Vec::new(),
    }
}

/// The kinds of [`literal_kinds`].
fn literal_kind_list() -> (r: Vec<SyntaxKind>)
    ensures
        r@ == literal_kinds(),
{
    vec![
        SyntaxKind::Eq,
        SyntaxKind::Semi,
        SyntaxKind::Dot,
        SyntaxKind::Colon,
        SyntaxKind::Comma,
        SyntaxKind::Bang,
        SyntaxKind::Question,
        SyntaxKind::Pound,
        SyntaxKind::Ampersand,
        SyntaxKind::AmpersandBang,
        SyntaxKind::Asterisk,
        SyntaxKind::EqGt,
        SyntaxKind::Pipe,
        SyntaxKind::Slash,
        SyntaxKind::Lt,
        SyntaxKind::Gt,
        SyntaxKind::Minus,
        SyntaxKind::Arrow,
        SyntaxKind::LetKw,
        SyntaxKind::PubKw,
        SyntaxKind::FnKw,
        SyntaxKind::ConstKw,
        SyntaxKind::EnumKw,
        SyntaxKind::TraitKw,
        SyntaxKind::ImplKw,
        SyntaxKind::StructKw,
        SyntaxKind::MatchKw,
        SyntaxKind::DeferKw,
        SyntaxKind::MutKw,
        SyntaxKind::ForKw,
        SyntaxKind::IfKw,
        SyntaxKind::ElseKw,
        SyntaxKind::ParenOpen,
        SyntaxKind::ParenClose,
        SyntaxKind::BraceOpen,
        SyntaxKind::BraceClose,
        SyntaxKind::BracketOpen,
        SyntaxKind::BracketClose,
    ]
}

/// Runs never pass the end of `s`.
proof fn lemma_runs_bounded(s: Seq<char>, j: int)
    requires
        0 <= j <= s.len(),
    ensures
        xid_continue_run(s, j) <= s.len() - j,
        white_space_run(s, j) <= s.len() - j,
        line_rest_run(s, j) <= s.len() - j,
    decreases s.len() - j,
{
    if j < s.len() {
        lemma_runs_bounded(s, j + 1);
    }
}

/// The longest fixed string found at `i` fits in `s`.
proof fn lemma_longest_literal_bounded(s: Seq<char>, i: int, kinds: Seq<SyntaxKind>)
    requires
        0 <= i < s.len(),
    ensures
        longest_literal(s, i, kinds).0 <= s.len() - i,
    decreases kinds.len(),
{
    if kinds.len() > 0 {
        lemma_longest_literal_bounded(s, i, kinds.drop_last());
    }
}

/// The token at `i` is at least one character long and ends within `s`.
pub proof fn lemma_first_token_bounded(s: Seq<char>, i: int)
    requires
        0 <= i < s.len(),
    ensures
        1 <= first_token(s, i).0 <= s.len() - i,
{
    lemma_runs_bounded(s, i);
    lemma_runs_bounded(s, i + 1);
    if i + 2 <= s.len() {
        lemma_runs_bounded(s, i + 2);
    }
    lemma_longest_literal_bounded(s, i, literal_kinds());
}

/// Whether `lit` (non-empty) occurs in `s` at `i`.
fn occurs(s: &Vec<char>, i: usize, lit: &Vec<char>) -> (r: bool)
    ensures
        r == occurs_at(s@, i as int, lit@),
{
    if lit.len() == 0 || lit.len() > s.len() || i > s.len() - lit.len() {
        return false;
    }
    let mut j: usize = 0;
    while j < lit.len()
        invariant
            0 < lit.len() <= s.len(),
            i + lit.len() <= s.len(),
            j <= lit.len(),
            forall|m: int| 0 <= m < j ==> s@[i + m] == lit@[m],
        decreases lit.len() - j,
    {
        if s[i + j] != lit[j] {
            assert(s@.subrange(i as int, i + lit.len())[j as int] != lit@[j as int]);
            return false;
        }
        j += 1;
    }
    assert(s@.subrange(i as int, i + lit.len()) =~= lit@);
    true
}

/// The longest fixed string at `i`.
fn literal_match(s: &Vec<char>, i: usize) -> (r: (usize, SyntaxKind))
    ensures
        r.0 as nat == longest_literal(s@, i as int, literal_kinds()).0,
        r.1 == longest_literal(s@, i as int, literal_kinds()).1,
{
    let kinds = literal_kind_list();
    let mut best: (usize, SyntaxKind) = (0, SyntaxKind::Unknown);
    let mut j: usize = 0;
    while j < kinds.len()
        invariant
            kinds@ == literal_kinds(),
            j <= kinds.len(),
            best.0 as nat == longest_literal(s@, i as int, kinds@.take(j as int)).0,
            best.1 == longest_literal(s@, i as int, kinds@.take(j as int)).1,
        decreases kinds.len() - j,
    {
        let k = kinds[j];
        let lit = literal_chars(k);
        assert(kinds@.take(j + 1).drop_last() =~= kinds@.take(j as int));
        if occurs(s, i, &lit) && lit.len() > best.0 {
            best = (lit.len(), k);
        }
        j += 1;
    }
    assert(kinds@.take(kinds.len() as int) =~= kinds@);
    best
}

/// Length of the identifier at `i`.
fn ident_length(s: &Vec<char>, i: usize) -> (r: usize)
    requires
        i < s.len(),
    ensures
        r as nat == ident_len(s@, i as int),
{
    let c = s[i];
    if !(is_xid_start(c) || c == '_') {
        return 0;
    }
    let mut j = i + 1;
    while j < s.len() && is_xid_continue(s[j])
        invariant
            i < j <= s.len(),
            xid_continue_run(s@, i + 1) == (j - (i + 1)) + xid_continue_run(s@, j as int),
        decreases s.len() - j,
    {
        j += 1;
    }
    j - i
}

/// Length of the run of white space at `i`.
fn white_space_length(s: &Vec<char>, i: usize) -> (r: usize)
    requires
        i <= s.len(),
    ensures
        r as nat == white_space_run(s@, i as int),
{
    let mut j = i;
    while j < s.len() && is_white_space(s[j])
        invariant
            i <= j <= s.len(),
            white_space_run(s@, i as int) == (j - i) + white_space_run(s@, j as int),
        decreases s.len() - j,
    {
        j += 1;
    }
    j - i
}

/// Length of the line comment at `i`.
fn comment_length(s: &Vec<char>, i: usize) -> (r: usize)
    requires
        i < s.len(),
    ensures
        r as nat == comment_len(s@, i as int),
{
    if !(i + 1 < s.len() && s[i] == '/' && s[i + 1] == '/') {
        return 0;
    }
    let mut j = i + 2;
    while j < s.len() && s[j] != '\r' && s[j] != '\n'
        invariant
            i + 2 <= j <= s.len(),
            line_rest_run(s@, i + 2) == (j - (i + 2)) + line_rest_run(s@, j as int),
        decreases s.len() - j,
    {
        j += 1;
    }
    j - i
}

/// The token that starts at `i`: its length and kind.
fn next_token(s: &Vec<char>, i: usize) -> (r: (usize, SyntaxKind))
    requires
        i < s.len(),
    ensures
        r.0 as nat == first_token(s@, i as int).0,
        r.1 == first_token(s@, i as int).1,
        1 <= r.0 <= s.len() - i,
{
    proof {
        lemma_first_token_bounded(s@, i as int);
    }
    let literal = literal_match(s, i);
    let cl = comment_length(s, i);
    let il = ident_length(s, i);
    let wl = white_space_length(s, i);
    pick_token(literal, cl, il, wl)
}

/// The token made from the candidate matches at a position, as [`pick`]
/// says: the length and kind of the longest fixed string, and the lengths
/// of the comment, identifier and run of white space found there.
pub fn pick_token(literal: (usize, SyntaxKind), comment: usize, ident: usize, white: usize) -> (r: (
    usize,
    SyntaxKind,
))
    ensures
        r.0 as nat == pick((literal.0 as nat, literal.1), comment as nat, ident as nat, white as nat).0,
        r.1 == pick((literal.0 as nat, literal.1), comment as nat, ident as nat, white as nat).1,
{
    let (ll, lk) = literal;
    if ll == 0 && comment == 0 && ident == 0 && white == 0 {
        (1, SyntaxKind::Unknown)
    } else if ll >= comment && ll >= ident && ll >= white {
        (ll, lk)
    } else if comment >= ident && comment >= white {
        (comment, SyntaxKind::Comment)
    } else if ident >= white {
        (ident, SyntaxKind::Ident)
    } else {
        (white, SyntaxKind::Whitespace)
    }
}

/// A region of the source, as byte offsets `start..end`.
#[derive(Debug, Clone, Copy, PartialEq, Eq)]
pub struct Span {
    pub start: usize,
    pub end: usize,
}

/// A token of the source: its kind, its text and where it stands.
#[derive(Debug)]
pub struct Token {
    pub kind: SyntaxKind,
    pub text: String,
    pub span: Span,
}

impl View for Token {
    type V = Lexeme;

    open spec fn view(&self) -> Lexeme {
        Lexeme { kind: self.kind, text: self.text@ }
    }
}

/// The grammar's view of a sequence of tokens.
pub open spec fn lexemes(ts: Seq<Token>) -> Seq<Lexeme> {
    ts.map_values(|t: Token| t@)
}

/// The UTF-8 encoding of a concatenation is the concatenation of the encodings.
pub proof fn lemma_encode_utf8_concat(a: Seq<char>, b: Seq<char>)
    ensures
        encode_utf8(a + b) == encode_utf8(a) + encode_utf8(b),
    decreases a.len(),
{
    if a.len() == 0 {
        assert(a + b =~= b);
        assert(encode_utf8(a) + encode_utf8(b) =~= encode_utf8(b));
    } else {
        lemma_encode_utf8_concat(a.drop_first(), b);
        assert((a + b).drop_first() =~= a.drop_first() + b);
        assert(encode_utf8(a + b) =~= encode_utf8(a) + encode_utf8(b));
    }
}

/// Appending a character adds the length of its encoding.
proof fn lemma_byte_len_push(a: Seq<char>, c: char)
    ensures
        byte_len(a.push(c)) == byte_len(a) + encode_scalar(c as u32).len(),
{
    lemma_encode_utf8_concat(a, seq![c]);
    assert(a.push(c) =~= a + seq![c]);
    let one = seq![c];
    assert(one.drop_first() =~= Seq::<char>::empty());
    assert(one[0] == c);
    assert(encode_utf8(one) == encode_scalar(one[0] as u32) + encode_utf8(one.drop_first()));
    assert(encode_utf8(one) =~= encode_scalar(c as u32));
}

/// A prefix encodes to no more bytes than the whole.
proof fn lemma_byte_len_prefix(a: Seq<char>, k: int)
    requires
        0 <= k <= a.len(),
    ensures
        byte_len(a.take(k)) <= byte_len(a),
{
    lemma_encode_utf8_concat(a.take(k), a.skip(k));
    assert(a.take(k) + a.skip(k) =~= a);
}

/// Number of bytes of the UTF-8 encoding of `c`.
fn utf8_width(c: char) -> (w: usize)
    ensures
        w == encode_scalar(c as u32).len(),
        1 <= w <= 4,
{
    proof {
        char_is_scalar(c);
    }
    let v = c as u32;
    if v <= 0x7F {
        1
    } else if v <= 0x7FF {
        2
    } else if v <= 0xFFFF {
        3
    } else {
        4
    }
}

/// Appending a token to a sequence appends its text.
proof fn lemma_texts_push(ls: Seq<Lexeme>, l: Lexeme)
    ensures
        texts(ls.push(l)) == texts(ls) + l.text,
    decreases ls.len(),
{
    assert(ls.push(l)[0] == if ls.len() == 0 { l } else { ls[0] });
    if ls.len() == 0 {
        let one = ls.push(l);
        assert(one.drop_first() =~= Seq::<Lexeme>::empty());
        assert(texts(one) == one[0].text + texts(one.drop_first()));
        assert(texts(one) =~= texts(ls) + l.text);
    } else {
        lemma_texts_push(ls.drop_first(), l);
        assert(ls.push(l).drop_first() =~= ls.drop_first().push(l));
        let head = ls[0].text;
        assert(texts(ls.push(l)) == head + texts(ls.drop_first().push(l)));
        assert(texts(ls.drop_first().push(l)) == texts(ls.drop_first()) + l.text);
        assert(texts(ls) == head + texts(ls.drop_first()));
        assert(head + (texts(ls.drop_first()) + l.text) =~= (head + texts(ls.drop_first())) + l.text);
    }
}

/// The texts of a concatenation of token sequences, one after the other.
pub proof fn lemma_texts_concat(a: Seq<Lexeme>, b: Seq<Lexeme>)
    ensures
        texts(a + b) == texts(a) + texts(b),
    decreases a.len(),
{
    if a.len() == 0 {
        assert(a + b =~= b);
        assert(texts(a) + texts(b) =~= texts(b));
    } else {
        lemma_texts_concat(a.drop_first(), b);
        assert((a + b).drop_first() =~= a.drop_first() + b);
        assert((a + b)[0] == a[0]);
        assert(texts(a + b) =~= texts(a) + texts(b));
    }
}

/// Splits `src` into tokens.
///
/// The tokens are those of [`lex_spec`], in order; each span gives the
/// token's place in the source as byte offsets.
pub fn lex(src: &str) -> (tokens: Vec<Token>)
    requires
        byte_len(src@) <= usize::MAX,
    ensures
        lexemes(tokens@) == lex_spec(src@),
        forall|j: int|
            0 <= j < tokens.len() ==> {
                &&& #[trigger] tokens@[j].span.start == byte_len(texts(lex_spec(src@).take(j)))
                &&& tokens@[j].span.end == byte_len(texts(lex_spec(src@).take(j + 1)))
            },
        tokens.len() > 0 ==> tokens@[0].span.start == 0,
        tokens.len() > 0 ==> tokens@[tokens.len() - 1].span.end == byte_len(src@),
        forall|j: int| 0 < j < tokens.len() ==> #[trigger] tokens@[j].span.start == tokens@[j - 1].span.end,
{
    let chars = str_chars(src);
    let ghost s = chars@;
    let mut tokens: Vec<Token> = Vec::new();
    let mut i: usize = 0;
    let mut byte: usize = 0;
    while i < chars.len()
        invariant
            s == chars@,
            s == src@,
            byte_len(s) <= usize::MAX,
            i <= chars.len(),
            byte == byte_len(s.take(i as int)),
            lexemes(tokens@) + lex_from(s, i as int) == lex_spec(s),
            texts(lexemes(tokens@)) == s.take(i as int),
            forall|j: int|
                0 <= j < tokens.len() ==> {
                    &&& #[trigger] tokens@[j].span.start == byte_len(texts(lexemes(tokens@).take(j)))
                    &&& tokens@[j].span.end == byte_len(texts(lexemes(tokens@).take(j + 1)))
                },
        decreases chars.len() - i,
    {
        let (n, kind) = next_token(&chars, i);
        let text = string_from_chars(&chars, i, i + n);
        let start = byte;
        let mut k = i;
        while k < i + n
            invariant
                s == chars@,
                byte_len(s) <= usize::MAX,
                i <= k <= i + n <= chars.len(),
                byte == byte_len(s.take(k as int)),
            decreases i + n - k,
        {
            proof {
                assert(s.take(k + 1) =~= s.take(k as int).push(s[k as int]));
                lemma_byte_len_push(s.take(k as int), s[k as int]);
                lemma_byte_len_prefix(s, k + 1);
            }
            let w = utf8_width(chars[k]);
            byte = byte + w;
            k += 1;
        }
        let ghost old_tokens = tokens@;
        let token = Token { kind, text, span: Span { start, end: byte } };
        proof {
            let l = Lexeme { kind, text: s.subrange(i as int, i + n) };
            assert(token@ == l);
            assert(lex_from(s, i as int) == seq![l] + lex_from(s, i + n));
            lemma_texts_push(lexemes(old_tokens), l);
            assert(s.take(i as int) + s.subrange(i as int, i + n) =~= s.take(i + n));
        }
        tokens.push(token);
        proof {
            let l = token@;
            assert(lexemes(tokens@) =~= lexemes(old_tokens).push(l));
            assert(lexemes(tokens@) + lex_from(s, i + n) =~= lexemes(old_tokens) + lex_from(s, i as int));
            assert forall|j: int| 0 <= j < tokens.len() implies {
                &&& #[trigger] tokens@[j].span.start == byte_len(texts(lexemes(tokens@).take(j)))
                &&& tokens@[j].span.end == byte_len(texts(lexemes(tokens@).take(j + 1)))
            } by {
                if j < old_tokens.len() {
                    assert(tokens@[j] == old_tokens[j]);
                    assert(lexemes(tokens@).take(j) =~= lexemes(old_tokens).take(j));
                    assert(lexemes(tokens@).take(j + 1) =~= lexemes(old_tokens).take(j + 1));
                    assert(old_tokens[j].span.start == byte_len(texts(lexemes(old_tokens).take(j))));
                    assert(old_tokens[j].span.end == byte_len(texts(lexemes(old_tokens).take(j + 1))));
                } else {
                    assert(j == old_tokens.len());
                    assert(tokens@[j] == token);
                    assert(lexemes(tokens@).take(j) =~= lexemes(old_tokens));
                    assert(lexemes(tokens@).take(j + 1) =~= lexemes(tokens@));
                    assert(texts(lexemes(tokens@)) == s.take(i + n));
                }
            }
        }
        i = i + n;
    }
    proof {
        assert(lexemes(tokens@) + lex_from(s, i as int) =~= lexemes(tokens@));
        assert(lexemes(tokens@) == lex_spec(src@));
        assert forall|j: int| 0 <= j < tokens.len() implies {
            &&& #[trigger] tokens@[j].span.start == byte_len(texts(lex_spec(src@).take(j)))
            &&& tokens@[j].span.end == byte_len(texts(lex_spec(src@).take(j + 1)))
        } by {
            assert(tokens@[j].span.start == byte_len(texts(lexemes(tokens@).take(j))));
        }
        lemma_lex_lossless(src@);
        let all = lex_spec(src@);
        assert(all.take(0) =~= Seq::<Lexeme>::empty());
        assert(all.take(all.len() as int) =~= all);
        assert(texts(Seq::<Lexeme>::empty()) =~= Seq::<char>::empty());
        if tokens.len() > 0 {
            let last = tokens.len() - 1;
            assert(tokens@[last].span.start == byte_len(texts(all.take(last))));
            assert(last + 1 == all.len());
        }
        assert forall|j: int| 0 < j < tokens.len() implies #[trigger] tokens@[j].span.start == tokens@[j - 1].span.end by {
            assert(tokens@[j - 1].span.start == byte_len(texts(all.take(j - 1))));
            assert(j - 1 + 1 == j);
        }
    }
    tokens
}

/// A token is non-empty, of a token kind other than `Eof`, and a token of a
/// fixed-string kind has that string as its text.
pub open spec fn lexeme_well_formed(l: Lexeme) -> bool {
    &&& l.text.len() >= 1
    &&& l.kind != SyntaxKind::Eof
    &&& crate::cstgen::syntax::is_token_kind(l.kind)
    &&& literal_text(l.kind).len() > 0 ==> l.text == literal_text(l.kind)
}

/// Every token of `ls` is well formed.
pub open spec fn lexemes_well_formed(ls: Seq<Lexeme>) -> bool {
    forall|j: int| 0 <= j < ls.len() ==> #[trigger] lexeme_well_formed(ls[j])
}

/// Concatenating a token in front of a sequence puts its text in front.
proof fn lemma_texts_cons(l: Lexeme, rest: Seq<Lexeme>)
    ensures
        texts(seq![l] + rest) == l.text + texts(rest),
{
    let all = seq![l] + rest;
    assert(all[0] == l);
    assert(all.drop_first() =~= rest);
}

/// The kinds that are written as fixed strings are token kinds other than `Eof`.
proof fn lemma_literal_kind_is_token(k: SyntaxKind)
    requires
        literal_text(k).len() > 0,
    ensures
        k != SyntaxKind::Eof,
        crate::cstgen::syntax::is_token_kind(k),
{
}

/// What the longest fixed string found at `i` is.
proof fn lemma_longest_literal_occurs(s: Seq<char>, i: int, kinds: Seq<SyntaxKind>)
    ensures
        longest_literal(s, i, kinds).0 > 0 ==> {
            let (n, k) = longest_literal(s, i, kinds);
            &&& occurs_at(s, i, literal_text(k))
            &&& literal_text(k).len() == n
        },
    decreases kinds.len(),
{
    if kinds.len() > 0 {
        lemma_longest_literal_occurs(s, i, kinds.drop_last());
    }
}

/// The token at `i` is well formed.
proof fn lemma_first_token_well_formed(s: Seq<char>, i: int)
    requires
        0 <= i < s.len(),
    ensures
        ({
            let (n, k) = first_token(s, i);
            lexeme_well_formed(Lexeme { kind: k, text: s.subrange(i, i + n) })
        }),
{
    lemma_first_token_bounded(s, i);
    lemma_longest_literal_occurs(s, i, literal_kinds());
    let (ll, lk) = longest_literal(s, i, literal_kinds());
    if ll > 0 {
        lemma_literal_kind_is_token(lk);
    }
}

/// Lexing from `i` covers exactly the rest of `s`, in well-formed tokens.
proof fn lemma_lex_from(s: Seq<char>, i: int)
    requires
        0 <= i <= s.len(),
    ensures
        texts(lex_from(s, i)) == s.subrange(i, s.len() as int),
        forall|j: int| 0 <= j < lex_from(s, i).len() ==> lexeme_well_formed(#[trigger] lex_from(s, i)[j]),
    decreases s.len() - i,
{
    if i < s.len() {
        lemma_first_token_bounded(s, i);
        lemma_first_token_well_formed(s, i);
        let (n, k) = first_token(s, i);
        let l = Lexeme { kind: k, text: s.subrange(i, i + n) };
        lemma_lex_from(s, i + n);
        lemma_texts_cons(l, lex_from(s, i + n));
        assert(s.subrange(i, i + n) + s.subrange(i + n, s.len() as int) =~= s.subrange(i, s.len() as int));
        let all = lex_from(s, i);
        assert(all == seq![l] + lex_from(s, i + n));
        assert forall|j: int| 0 <= j < all.len() implies lexeme_well_formed(#[trigger] all[j]) by {
            if j > 0 {
                assert(all[j] == lex_from(s, i + n)[j - 1]);
            }
        }
    } else {
        assert(s.subrange(i, s.len() as int) =~= Seq::<char>::empty());
    }
}

/// Lexing loses nothing: the texts of the tokens of `s`, one after the
/// other, are `s`; and every token is well formed.
pub proof fn lemma_lex_lossless(s: Seq<char>)
    ensures
        texts(lex_spec(s)) == s,
        forall|j: int| 0 <= j < lex_spec(s).len() ==> lexeme_well_formed(#[trigger] lex_spec(s)[j]),
{
    lemma_lex_from(s, 0);
    assert(s.subrange(0, s.len() as int) =~= s);
}

/// A run of XID_Continue characters stops at a character that is not one.
proof fn lemma_continue_run_stops(s: Seq<char>, j: int)
    requires
        0 <= j <= s.len(),
    ensures
        j + xid_continue_run(s, j) <= s.len(),
        j + xid_continue_run(s, j) < s.len() ==> !id_continue(s[j + xid_continue_run(s, j)]),
    decreases s.len() - j,
{
    if j < s.len() && id_continue(s[j]) {
        lemma_continue_run_stops(s, j + 1);
    }
}

/// The longest fixed string found is a fixed string, or nothing.
proof fn lemma_longest_literal_kind(s: Seq<char>, i: int, kinds: Seq<SyntaxKind>)
    ensures
        longest_literal(s, i, kinds).0 == 0 ==> longest_literal(s, i, kinds).1 == SyntaxKind::Unknown,
        longest_literal(s, i, kinds).0 > 0 ==> literal_text(longest_literal(s, i, kinds).1).len() > 0,
    decreases kinds.len(),
{
    if kinds.len() > 0 {
        lemma_longest_literal_kind(s, i, kinds.drop_last());
    }
}

/// An identifier token is exactly as long as the identifier found there.
proof fn lemma_ident_token_len(s: Seq<char>, i: int)
    ensures
        first_token(s, i).1 == SyntaxKind::Ident ==> first_token(s, i).0 == ident_len(s, i),
{
    lemma_longest_literal_kind(s, i, literal_kinds());
}

/// The tokens from `i` on: an identifier token is never followed by a
/// token that starts with an XID_Continue character.
#[verifier::spinoff_prover]
proof fn lemma_lex_from_idents_maximal(s: Seq<char>, i: int)
    requires
        0 <= i <= s.len(),
    ensures
        forall|k: int|
            0 <= k < lex_from(s, i).len() - 1 && (#[trigger] lex_from(s, i)[k]).kind == SyntaxKind::Ident
                ==> !id_continue(lex_from(s, i)[k + 1].text[0]),
    decreases s.len() - i,
{
    if i < s.len() {
        lemma_first_token_bounded(s, i);
        let (n, kind) = first_token(s, i);
        let l = Lexeme { kind, text: s.subrange(i, i + n) };
        let rest = lex_from(s, i + n);
        let all = lex_from(s, i);
        lemma_lex_from_idents_maximal(s, i + n);
        lemma_lex_from(s, i + n);
        assert(all == seq![l] + rest);
        assert forall|k: int|
            0 <= k < all.len() - 1 && (#[trigger] all[k]).kind == SyntaxKind::Ident implies !id_continue(
            all[k + 1].text[0],
        ) by {
            if k == 0 {
                // the identifier ran as far as XID_Continue characters go
                lemma_continue_run_stops(s, i + 1);
                lemma_ident_token_len(s, i);
                assert(n == ident_len(s, i));
                assert(rest.len() > 0);
                assert(i + n < s.len()) by {
                    if i + n >= s.len() {
                        assert(rest.len() == 0);
                    }
                }
                lemma_first_token_bounded(s, i + n);
                assert(all[1] == rest[0]);
                assert(rest[0].text == s.subrange(i + n, i + n + first_token(s, i + n).0));
                assert(rest[0].text[0] == s[i + n]);
            } else {
                assert(all[k] == rest[k - 1]);
                assert(all[k + 1] == rest[k]);
            }
        }
    }
}

/// Identifiers are as long as they can be: in the tokens of `s`, an
/// identifier token is never followed by a token whose first character is
/// XID_Continue (a letter, a digit, `_`, ...), which it would have taken.
pub proof fn lemma_idents_maximal(s: Seq<char>)
    ensures
        forall|k: int|
            0 <= k < lex_spec(s).len() - 1 && (#[trigger] lex_spec(s)[k]).kind == SyntaxKind::Ident
                ==> !id_continue(lex_spec(s)[k + 1].text[0]),
{
    lemma_lex_from_idents_maximal(s, 0);
}

} // verus!
