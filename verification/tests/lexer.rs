use fin::cstgen::lexer::{lex, pick_token};
use fin::unicode::is_white_space;
use fin::cstgen::parser::Cursor;
use fin::cstgen::SyntaxKind;
use fin::cstgen::SyntaxKind as K;

fn kinds(src: &str) -> Vec<SyntaxKind> {
    lex(src).iter().map(|t| t.kind).collect()
}

fn texts(src: &str) -> Vec<String> {
    lex(src).iter().map(|t| t.text.clone()).collect()
}

fn spans(src: &str) -> Vec<(usize, usize)> {
    lex(src).iter().map(|t| (t.span.start, t.span.end)).collect()
}

#[test]
fn lexes_a_let_statement() {
    assert_eq!(kinds("let x = y;"), vec![K::LetKw, K::Whitespace, K::Ident, K::Whitespace, K::Eq, K::Whitespace, K::Ident, K::Semi]);
    assert_eq!(texts("let x = y;"), vec!["let", " ", "x", " ", "=", " ", "y", ";"]);
    assert_eq!(
        spans("let x = y;"),
        vec![(0, 3), (3, 4), (4, 5), (5, 6), (6, 7), (7, 8), (8, 9), (9, 10)]
    );
}

#[test]
fn empty_source_has_no_tokens() {
    assert!(lex("").is_empty());
}

#[test]
fn longest_match_wins() {
    assert_eq!(kinds("=>"), vec![K::EqGt]);
    assert_eq!(kinds("->"), vec![K::Arrow]);
    assert_eq!(kinds("&!"), vec![K::AmpersandBang]);
    assert_eq!(kinds("&"), vec![K::Ampersand]);
    assert_eq!(kinds("= >"), vec![K::Eq, K::Whitespace, K::Gt]);
    assert_eq!(kinds("letx"), vec![K::Ident]);
    assert_eq!(kinds("iffy"), vec![K::Ident]);
    assert_eq!(kinds("- >"), vec![K::Minus, K::Whitespace, K::Gt]);
}

#[test]
fn keywords_beat_identifiers_of_equal_length() {
    assert_eq!(
        kinds("let pub fn const enum trait impl struct match defer mut for if else"),
        vec![
            K::LetKw, K::Whitespace, K::PubKw, K::Whitespace, K::FnKw, K::Whitespace, K::ConstKw, K::Whitespace, K::EnumKw, K::Whitespace,
            K::TraitKw, K::Whitespace, K::ImplKw, K::Whitespace, K::StructKw, K::Whitespace, K::MatchKw, K::Whitespace, K::DeferKw,
            K::Whitespace, K::MutKw, K::Whitespace, K::ForKw, K::Whitespace, K::IfKw, K::Whitespace, K::ElseKw
        ]
    );
}

#[test]
fn punctuation() {
    assert_eq!(
        kinds("=;.:,!?#&*|/<>-()[]{}"),
        vec![
            K::Eq, K::Semi, K::Dot, K::Colon, K::Comma, K::Bang, K::Question, K::Pound, K::Ampersand, K::Asterisk, K::Pipe, K::Slash, K::Lt, K::Gt,
            K::Minus, K::ParenOpen, K::ParenClose, K::BracketOpen, K::BracketClose, K::BraceOpen, K::BraceClose
        ]
    );
}

#[test]
fn comments_run_to_the_end_of_the_line() {
    assert_eq!(kinds("// hi there\nx"), vec![K::Comment, K::Whitespace, K::Ident]);
    assert_eq!(texts("// hi there\nx"), vec!["// hi there", "\n", "x"]);
    assert_eq!(texts("a//b\r\nc"), vec!["a", "//b", "\r\n", "c"]);
    assert_eq!(kinds("/ /"), vec![K::Slash, K::Whitespace, K::Slash]);
    assert_eq!(kinds("//"), vec![K::Comment]);
}

#[test]
fn white_space_runs_form_one_token() {
    assert_eq!(kinds(" \t\n\r x"), vec![K::Whitespace, K::Ident]);
    assert_eq!(texts(" \t\n\r x"), vec![" \t\n\r ", "x"]);
    // U+00A0 and U+3000 are white space too
    assert_eq!(texts("a\u{a0}\u{3000}b"), vec!["a", "\u{a0}\u{3000}", "b"]);
}

#[test]
fn identifiers_follow_unicode_xid() {
    assert_eq!(kinds("_x1 é αβ"), vec![K::Ident, K::Whitespace, K::Ident, K::Whitespace, K::Ident]);
    assert_eq!(texts("_x1 é αβ"), vec!["_x1", " ", "é", " ", "αβ"]);
    // a digit cannot start an identifier, but may continue one
    assert_eq!(kinds("1a"), vec![K::Unknown, K::Ident]);
    assert_eq!(kinds("a1"), vec![K::Ident]);
    // U+0301 (a combining accent) continues but does not start an identifier
    assert_eq!(texts("e\u{301}"), vec!["e\u{301}"]);
    assert_eq!(kinds("\u{301}e"), vec![K::Unknown, K::Ident]);
}

#[test]
fn unknown_characters_become_one_char_tokens() {
    assert_eq!(kinds("@@"), vec![K::Unknown, K::Unknown]);
    assert_eq!(texts("x@y"), vec!["x", "@", "y"]);
    assert_eq!(kinds("\"s\""), vec![K::Unknown, K::Ident, K::Unknown]);
}

#[test]
fn spans_are_byte_offsets() {
    assert_eq!(spans("αβ γ"), vec![(0, 4), (4, 5), (5, 7)]);
    assert_eq!(spans("é=x"), vec![(0, 2), (2, 3), (3, 4)]);
}

#[test]
fn tokens_cover_the_source() {
    for src in ["let x = y;", "  // c\n\tfoo(bar, &baz) @ é", "", "|a: b| -> c { d }"] {
        let tokens = lex(src);
        let joined: String = tokens.iter().map(|t| t.text.as_str()).collect();
        assert_eq!(joined, src);
        let mut at = 0;
        for t in &tokens {
            assert_eq!(t.span.start, at);
            assert_eq!(&src[t.span.start..t.span.end], t.text);
            assert!(!t.text.is_empty());
            at = t.span.end;
        }
        assert_eq!(at, src.len());
    }
}

#[test]
fn cursor_walks_the_tokens() {
    let mut c = Cursor::new("a b");
    assert_eq!(c.peek(), SyntaxKind::Ident);
    assert!(c.at(SyntaxKind::Ident));
    assert!(!c.at(SyntaxKind::Whitespace));
    let s = c.eat(SyntaxKind::Whitespace);
    assert!(s.is_none());
    let s = c.advance().unwrap();
    assert_eq!((s.start, s.end), (0, 1));
    assert_eq!(c.peek(), SyntaxKind::Whitespace);
    let s = c.eat(SyntaxKind::Whitespace).unwrap();
    assert_eq!((s.start, s.end), (1, 2));
    let s = c.eat(SyntaxKind::Ident).unwrap();
    assert_eq!((s.start, s.end), (2, 3));
    assert_eq!(c.peek(), SyntaxKind::Eof);
    assert!(c.advance().is_none());
    assert!(c.eat(SyntaxKind::Eof).is_none());
    assert_eq!(c.peek(), SyntaxKind::Eof);
}

#[test]
fn picking_the_token_among_candidates() {
    assert_eq!(pick_token((0, K::Unknown), 0, 0, 0), (1, K::Unknown));
    assert_eq!(pick_token((3, K::LetKw), 0, 3, 0), (3, K::LetKw));
    assert_eq!(pick_token((3, K::LetKw), 0, 4, 0), (4, K::Ident));
    assert_eq!(pick_token((1, K::Slash), 5, 0, 0), (5, K::Comment));
    assert_eq!(pick_token((0, K::Unknown), 0, 0, 2), (2, K::Whitespace));
    assert_eq!(pick_token((2, K::Arrow), 2, 2, 2), (2, K::Arrow));
    assert_eq!(pick_token((0, K::Unknown), 2, 2, 0), (2, K::Comment));
    assert_eq!(pick_token((0, K::Unknown), 0, 2, 2), (2, K::Ident));
}

#[test]
fn white_space_is_the_unicode_property() {
    for c in ['\t', '\n', '\u{b}', '\u{c}', '\r', ' ', '\u{85}', '\u{a0}', '\u{1680}', '\u{2000}', '\u{200a}', '\u{2028}', '\u{2029}', '\u{202f}', '\u{205f}', '\u{3000}'] {
        assert!(is_white_space(c));
        assert!(c.is_whitespace());
    }
    for c in ['a', '_', '\u{8}', '\u{e}', '\u{200b}', '\u{180e}', '\u{feff}', '\u{1f}'] {
        assert!(!is_white_space(c));
        assert_eq!(c.is_whitespace(), is_white_space(c));
    }
}
