use fin::cstgen::parser::Parser;
use fin::cstgen::steps::{ControlFlow, ParseError};
use fin::cstgen::SyntaxKind as K;
use fin::cstgen::{lower, right_binds_tighter, try_lower, SyntaxKind};
use fin::green::{GreenElement, GreenNode, GreenNodeBuilder, GreenToken};

fn show(n: &GreenNode) -> String {
    let mut s = format!("{:?}[", n.kind());
    let mut first = true;
    for c in n.children() {
        if !first {
            s.push(' ');
        }
        first = false;
        match c {
            GreenElement::Node(m) => s.push_str(&show(m)),
            GreenElement::Token(t) => s.push_str(&format!("{:?}{:?}", t.kind(), t.text())),
        }
    }
    s.push(']');
    s
}

fn text(n: &GreenNode) -> String {
    let mut s = String::new();
    for c in n.children() {
        match c {
            GreenElement::Node(m) => s.push_str(&text(m)),
            GreenElement::Token(t) => s.push_str(t.text()),
        }
    }
    s
}

fn tree(src: &str) -> String {
    show(&lower(src))
}

#[test]
fn an_identifier() {
    assert_eq!(tree("x"), r#"File[ItemExpr[ExprIdent[Ident"x"]]]"#);
}

#[test]
fn empty_and_trivia_only_files() {
    assert_eq!(tree(""), "File[]");
    assert_eq!(tree("// c\n"), r#"File[Comment"// c" Whitespace"\n"]"#);
}

#[test]
fn a_const_item() {
    assert_eq!(
        tree("const x = y;"),
        r#"File[ItemConst[ConstKw"const" Whitespace" " PatIdent[Name[Ident"x" Whitespace" "]] Eq"=" Whitespace" " ExprIdent[Ident"y"] Semi";"]]"#
    );
}

#[test]
fn a_pub_const_item_with_a_type() {
    assert_eq!(
        tree("pub const x: T = y;"),
        r#"File[ItemConst[PubKw"pub" Whitespace" " ConstKw"const" Whitespace" " PatIdent[Name[Ident"x"]] Type[Colon":" Whitespace" " ExprIdent[Ident"T" Whitespace" "]] Eq"=" Whitespace" " ExprIdent[Ident"y"] Semi";"]]"#
    );
}

#[test]
fn a_call() {
    assert_eq!(
        tree("f(a, b)"),
        r#"File[ItemExpr[ExprCall[ExprIdent[Ident"f"] ParenOpen"(" CallArgs[ExprIdent[Ident"a"] Comma"," Whitespace" " ExprIdent[Ident"b"]] ParenClose")"]]]"#
    );
    assert_eq!(
        tree("f()"),
        r#"File[ItemExpr[ExprCall[ExprIdent[Ident"f"] ParenOpen"(" CallArgs[] ParenClose")"]]]"#
    );
}

#[test]
fn calls_chain_on_the_same_callee() {
    assert_eq!(
        tree("f(a)(b)"),
        r#"File[ItemExpr[ExprCall[ExprCall[ExprIdent[Ident"f"] ParenOpen"(" CallArgs[ExprIdent[Ident"a"]] ParenClose")"] ParenOpen"(" CallArgs[ExprIdent[Ident"b"]] ParenClose")"]]]"#
    );
}

#[test]
fn field_access_nests_to_the_right() {
    assert_eq!(
        tree("a.b.c"),
        r#"File[ItemExpr[ExprField[ExprIdent[Ident"a"] Dot"." ExprField[ExprIdent[Ident"b"] Dot"." ExprIdent[Ident"c"]]]]]"#
    );
}

#[test]
fn a_block_with_statements() {
    assert_eq!(
        tree("{ let x = y; z }"),
        r#"File[ItemExpr[ExprBlock[BraceOpen"{" Whitespace" " StmtLocal[LetKw"let" Whitespace" " PatIdent[Name[Ident"x" Whitespace" "]] Eq"=" Whitespace" " ExprIdent[Ident"y"] Semi";" Whitespace" "] StmtExpr[ExprIdent[Ident"z" Whitespace" "]] BraceClose"}"]]]"#
    );
}

#[test]
fn a_closure() {
    assert_eq!(
        tree("|a| b"),
        r#"File[ItemExpr[ExprClosure[Pipe"|" ArgList[Arg[ExprIdent[Ident"a"]]] Pipe"|" Whitespace" " ExprIdent[Ident"b"]]]]"#
    );
    assert_eq!(
        tree("|const a: t| -> r { b }"),
        r#"File[ItemExpr[ExprClosure[Pipe"|" ArgList[Arg[ConstKw"const" Whitespace" " ExprIdent[Ident"a"] Colon":" Whitespace" " ExprIdent[Ident"t"]]] Pipe"|" Whitespace" " Arrow"->" Whitespace" " ExprIdent[Ident"r" Whitespace" "] ExprBlock[BraceOpen"{" Whitespace" " StmtExpr[ExprIdent[Ident"b" Whitespace" "]] BraceClose"}"]]]]"#
    );
}

#[test]
fn an_if() {
    assert_eq!(
        tree("if a { b }"),
        r#"File[ItemExpr[ExprIf[IfKw"if" Whitespace" " ExprIdent[Ident"a" Whitespace" "] ExprBlock[BraceOpen"{" Whitespace" " StmtExpr[ExprIdent[Ident"b" Whitespace" "]] BraceClose"}"]]]]"#
    );
}

#[test]
fn struct_and_enum() {
    assert_eq!(
        tree("struct { a: b, c: d }"),
        r#"File[ItemExpr[ExprStruct[StructKw"struct" Whitespace" " BraceOpen"{" Whitespace" " Name[Ident"a"] Colon":" Whitespace" " ExprIdent[Ident"b"] Comma"," Whitespace" " Name[Ident"c"] Colon":" Whitespace" " ExprIdent[Ident"d" Whitespace" "] BraceClose"}"]]]"#
    );
    assert_eq!(
        tree("enum { a, b }"),
        r#"File[ItemExpr[ExprEnum[EnumKw"enum" Whitespace" " BraceOpen"{" Whitespace" " ExprIdent[Ident"a"] Comma"," Whitespace" " ExprIdent[Ident"b" Whitespace" "] BraceClose"}"]]]"#
    );
}

#[test]
fn trait_and_impl() {
    assert_eq!(
        tree("trait { const x; }"),
        r#"File[ItemExpr[ExprTrait[TraitKw"trait" Whitespace" " BraceOpen"{" Whitespace" " ItemConst[ConstKw"const" Whitespace" " PatIdent[Name[Ident"x"]] Semi";" Whitespace" "] BraceClose"}"]]]"#
    );
    assert_eq!(
        tree("impl a { }"),
        r#"File[ItemExpr[ExprImpl[ImplKw"impl" Whitespace" " ExprIdent[Ident"a" Whitespace" "] BraceOpen"{" Whitespace" " BraceClose"}"]]]"#
    );
}

#[test]
fn references_pointers_and_parentheses() {
    assert_eq!(tree("&a"), r#"File[ItemExpr[ExprRef[Ampersand"&" ExprIdent[Ident"a"]]]]"#);
    assert_eq!(tree("*a"), r#"File[ItemExpr[ExprPtr[Asterisk"*" ExprIdent[Ident"a"]]]]"#);
    assert_eq!(
        tree("(a);"),
        r#"File[ItemExpr[ExprParen[ParenOpen"(" ExprIdent[Ident"a"] ParenClose")"] Semi";"]]"#
    );
}

#[test]
fn several_items() {
    assert_eq!(
        tree("a; b"),
        r#"File[ItemExpr[ExprIdent[Ident"a"] Semi";" Whitespace" "] ItemExpr[ExprIdent[Ident"b"]]]"#
    );
}

#[test]
fn a_pattern_must_start_with_an_identifier() {
    assert_eq!(try_lower("const = x;").unwrap_err(), ParseError::UnexpectedTokenInPattern);
    assert_eq!(try_lower("{ let (a) = b; }").unwrap_err(), ParseError::UnexpectedTokenInPattern);
}

#[test]
fn a_bang_after_an_expression_is_refused() {
    assert_eq!(try_lower("a!").unwrap_err(), ParseError::UnexpectedOperator(SyntaxKind::Bang));
}

#[test]
fn an_item_that_takes_nothing_is_refused() {
    assert_eq!(try_lower(")").unwrap_err(), ParseError::NoProgress);
    assert_eq!(try_lower("x @").unwrap_err(), ParseError::NoProgress);
    assert_eq!(try_lower("trait { ").unwrap_err(), ParseError::NoProgress);
}

#[test]
fn try_lower_agrees_with_lower() {
    for src in ["x", "const x = y;", "f(a, b).c", "{ let a; }", ""] {
        assert_eq!(show(&try_lower(src).unwrap()), tree(src));
        assert_eq!(try_lower(src).unwrap(), lower(src));
    }
}

#[test]
fn lowering_keeps_all_the_text() {
    for src in [
        "",
        "  // lead\nconst x = y; // trail\n",
        "pub const f: T = |a, b: c| -> r { let z = a(b).c; z };",
        "trait { const x; } impl t { const y = z; }",
        "struct { a: b, } enum { c, d, }",
        "if a { b } (c) &d *e é",
    ] {
        let n = lower(src);
        assert_eq!(n.kind(), SyntaxKind::File);
        assert_eq!(text(&n), src);
    }
}

#[test]
fn binding_power() {
    assert!(right_binds_tighter(K::Eof, K::Dot));
    assert!(right_binds_tighter(K::Eof, K::ParenOpen));
    assert!(right_binds_tighter(K::Dot, K::ParenOpen));
    assert!(right_binds_tighter(K::Dot, K::Bang));
    assert!(!right_binds_tighter(K::ParenOpen, K::Dot));
    assert!(!right_binds_tighter(K::Dot, K::Dot));
    assert!(!right_binds_tighter(K::Eof, K::Ident));
    assert!(!right_binds_tighter(K::Eof, K::Eof));
}

#[test]
fn the_parser_drives_the_builder() {
    let mut p = Parser::new("pub x");
    p.start_node(SyntaxKind::File);
    assert_eq!(p.expect_optional(SyntaxKind::ConstKw), ControlFlow::Break);
    assert_eq!(p.expect_optional(SyntaxKind::PubKw), ControlFlow::Continue);
    assert_eq!(p.position(), 2);
    let cp = p.checkpoint();
    p.bump();
    p.start_node_at(cp, SyntaxKind::Name);
    p.finish_node();
    p.expect(SyntaxKind::Semi);
    assert!(p.at(SyntaxKind::Eof));
    assert_eq!(p.peek(), SyntaxKind::Eof);
    p.finish_node();
    let n = p.finish();
    assert_eq!(show(&n), r#"File[PubKw"pub" Whitespace" " Name[Ident"x"]]"#);
}

#[test]
fn the_builder_nests_nodes() {
    let mut b = GreenNodeBuilder::new();
    b.start_node(SyntaxKind::File);
    let cp = b.checkpoint();
    b.token(SyntaxKind::Ident, "a".to_string());
    b.start_node_at(cp, SyntaxKind::ExprIdent);
    b.finish_node();
    b.token(SyntaxKind::Semi, ";".to_string());
    b.finish_node();
    let n = b.finish();
    assert_eq!(show(&n), r#"File[ExprIdent[Ident"a"] Semi";"]"#);
    let copy = n.clone();
    assert_eq!(show(&copy), show(&n));
    let leaf = GreenToken::new(SyntaxKind::Ident, "q".to_string());
    assert_eq!(leaf.clone().text(), "q");
    let node = GreenNode::new(SyntaxKind::Name, vec![GreenElement::Token(leaf)]);
    assert_eq!(show(&node), r#"Name[Ident"q"]"#);
}
