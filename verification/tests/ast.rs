use fin::astgen::ast::{Expr, ExprBinary, ExprBlock, ExprCall, ExprIf, ExprParen, File, Item, Pat, Stmt, SyntaxNode, Visibility};
use fin::astgen::traits::{HasExpr, HasName};
use fin::astgen::{lower, AstNode};
use fin::cstgen::SyntaxKind;
use fin::green::{GreenElement, GreenNode, GreenToken};

fn file(src: &str) -> File {
    lower(fin::cstgen::lower(src)).unwrap()
}

fn ident_node(name: &str) -> GreenNode {
    GreenNode::new(
        SyntaxKind::ExprIdent,
        vec![GreenElement::Token(GreenToken::new(SyntaxKind::Ident, name.to_string()))],
    )
}

fn ident_text(e: &Expr) -> String {
    match e {
        Expr::Ident(i) => {
            let tok = i.syntax().green().children()[0].as_token().unwrap().text().to_string();
            tok
        },
        _ => panic!("not an identifier expression"),
    }
}

#[test]
fn a_file_lists_its_items() {
    let f = file("const x = y; z");
    let items = f.items();
    assert_eq!(items.len(), 2);
    assert!(matches!(items[0], Item::Const(_)));
    assert!(matches!(items[1], Item::Expr(_)));
    assert_eq!(f.syntax().kind(), SyntaxKind::File);
}

#[test]
fn a_const_item_has_a_pattern_a_name_and_a_value() {
    let f = file("const x = y;");
    let items = f.items();
    let Item::Const(c) = &items[0] else { panic!("not a const item") };
    let Some(Pat::Ident(p)) = c.pat() else { panic!("no pattern") };
    let name = p.name().unwrap();
    let tok = name.ident_token().unwrap();
    assert_eq!(tok.kind(), SyntaxKind::Ident);
    assert_eq!(tok.text(), "x");
    assert_eq!(ident_text(&c.expr().unwrap()), "y");
}

#[test]
fn a_typed_const_item_skips_the_type_for_its_value() {
    // the type sits in a `Type` node, so the first expression child is the value
    let f = file("const x: T = y;");
    let Item::Const(c) = &f.items()[0] else { panic!("not a const item") };
    assert_eq!(ident_text(&c.expr().unwrap()), "y");
}

#[test]
fn an_expression_item_has_its_expression() {
    let f = file("a;");
    let Item::Expr(e) = &f.items()[0] else { panic!("not an expression item") };
    assert_eq!(ident_text(&e.expr().unwrap()), "a");
}

#[test]
fn a_call_has_a_callee_and_arguments() {
    let f = file("f(a, b)");
    let Item::Expr(e) = &f.items()[0] else { panic!("not an expression item") };
    let Some(Expr::Call(call)) = e.expr() else { panic!("not a call") };
    assert_eq!(ident_text(&call.callee().unwrap()), "f");
    let args = call.args().unwrap();
    assert_eq!(args.len(), 2);
    assert_eq!(ident_text(&args[0]), "a");
    assert_eq!(ident_text(&args[1]), "b");
}

#[test]
fn a_call_without_call_args_has_no_arguments() {
    let node = GreenNode::new(SyntaxKind::ExprCall, vec![GreenElement::Node(ident_node("f"))]);
    let call = ExprCall::cast(SyntaxNode::new_root(node)).unwrap();
    assert!(call.args().is_none());
    assert_eq!(ident_text(&call.callee().unwrap()), "f");
}

#[test]
fn an_if_has_a_condition_and_blocks() {
    let f = file("if a { b }");
    let Item::Expr(e) = &f.items()[0] else { panic!("not an expression item") };
    let Some(Expr::If(i)) = e.expr() else { panic!("not an if") };
    assert_eq!(ident_text(&i.condition().unwrap()), "a");
    let then_block = i.then_block().unwrap();
    assert_eq!(then_block.stmts().len(), 1);
    assert!(i.else_block().is_none());
}

#[test]
fn an_if_node_with_two_blocks_has_an_else_block() {
    let block = |name: &str| {
        GreenNode::new(
            SyntaxKind::ExprBlock,
            vec![GreenElement::Node(GreenNode::new(SyntaxKind::StmtExpr, vec![GreenElement::Node(ident_node(name))]))],
        )
    };
    let node = GreenNode::new(
        SyntaxKind::ExprIf,
        vec![
            GreenElement::Node(ident_node("c")),
            GreenElement::Node(block("t")),
            GreenElement::Node(block("e")),
        ],
    );
    let i = ExprIf::cast(SyntaxNode::new_root(node)).unwrap();
    assert_eq!(ident_text(&i.condition().unwrap()), "c");
    let then_stmts = i.then_block().unwrap().stmts();
    let else_stmts = i.else_block().unwrap().stmts();
    assert_eq!(then_stmts.len(), 1);
    assert_eq!(else_stmts.len(), 1);
    let Stmt::Expr(s) = &else_stmts[0] else { panic!("not an expression statement") };
    assert_eq!(s.syntax().children().len(), 1);
}

#[test]
fn a_block_lists_its_statements() {
    let f = file("{ let x = y; z }");
    let Item::Expr(e) = &f.items()[0] else { panic!("not an expression item") };
    let Some(Expr::Block(b)) = e.expr() else { panic!("not a block") };
    let stmts = b.stmts();
    assert_eq!(stmts.len(), 2);
    assert!(matches!(stmts[0], Stmt::Local(_)));
    assert!(matches!(stmts[1], Stmt::Expr(_)));
}

#[test]
fn a_paren_has_a_body() {
    let f = file("(a)");
    let Item::Expr(e) = &f.items()[0] else { panic!("not an expression item") };
    let Some(Expr::Paren(p)) = e.expr() else { panic!("not a parenthesized expression") };
    assert_eq!(ident_text(&p.body().unwrap()), "a");
    let empty = ExprParen::cast(SyntaxNode::new_root(GreenNode::new(SyntaxKind::ExprParen, vec![]))).unwrap();
    assert!(empty.body().is_none());
}

#[test]
fn a_binary_expression_has_two_operands() {
    let node = GreenNode::new(
        SyntaxKind::ExprBinary,
        vec![
            GreenElement::Node(ident_node("l")),
            GreenElement::Token(GreenToken::new(SyntaxKind::Minus, "-".to_string())),
            GreenElement::Node(ident_node("r")),
        ],
    );
    let b = ExprBinary::cast(SyntaxNode::new_root(node)).unwrap();
    assert_eq!(ident_text(&b.lhs().unwrap()), "l");
    assert_eq!(ident_text(&b.rhs().unwrap()), "r");
    let one = ExprBinary::cast(SyntaxNode::new_root(GreenNode::new(
        SyntaxKind::ExprBinary,
        vec![GreenElement::Node(ident_node("l"))],
    )))
    .unwrap();
    assert!(one.lhs().is_some());
    assert!(one.rhs().is_none());
}

#[test]
fn casting_checks_the_kind() {
    assert!(ExprBlock::can_cast(SyntaxKind::ExprBlock));
    assert!(!ExprBlock::can_cast(SyntaxKind::ExprIf));
    assert!(Expr::can_cast(SyntaxKind::ExprIf));
    assert!(Expr::can_cast(SyntaxKind::ExprMacro));
    assert!(!Expr::can_cast(SyntaxKind::ExprRef));
    assert!(Item::can_cast(SyntaxKind::ItemConst));
    assert!(!Item::can_cast(SyntaxKind::File));
    assert!(Stmt::can_cast(SyntaxKind::StmtLocal));
    assert!(Pat::can_cast(SyntaxKind::PatIdent));
    assert!(ExprIf::cast(SyntaxNode::new_root(ident_node("x"))).is_none());
    let e = Expr::cast(SyntaxNode::new_root(ident_node("x"))).unwrap();
    assert_eq!(e.syntax().kind(), SyntaxKind::ExprIdent);
    assert_eq!(ident_text(&e.clone()), "x");
}

#[test]
fn only_a_file_root_lowers() {
    assert!(lower(ident_node("x")).is_none());
    assert!(lower(GreenNode::new(SyntaxKind::File, vec![])).unwrap().items().is_empty());
}

#[test]
fn visibility_values() {
    assert_eq!(Visibility::Public.clone(), Visibility::Public);
    assert_ne!(Visibility::Default, Visibility::Public);
}

fn expr_item(src: &str) -> Expr {
    let f = file(src);
    let items = f.items();
    let Item::Expr(e) = &items[0] else { panic!("not an expression item") };
    e.expr().unwrap()
}

#[test]
fn has_expr_skips_the_type_node() {
    let f = file("const x: T = y;");
    let Item::Const(c) = &f.items()[0] else { panic!("not a const item") };
    let e = c.expr().unwrap();
    assert!(matches!(e, Expr::Ident(_)));
    assert_eq!(e.syntax().text(), "y");
}

#[test]
fn block_statements_in_order() {
    let Expr::Block(b) = expr_item("{ let x = y; x }") else { panic!("not a block") };
    let stmts = b.stmts();
    assert_eq!(stmts.len(), 2);
    assert!(matches!(stmts[0], Stmt::Local(_)));
    assert!(matches!(stmts[1], Stmt::Expr(_)));
    assert_eq!(stmts[0].syntax().text(), "let x = y; ");
    assert_eq!(stmts[1].syntax().text(), "x ");
}

#[test]
fn callee_of_a_chained_call_is_the_inner_call() {
    let Expr::Call(c) = expr_item("f(a)(b)") else { panic!("not a call") };
    let callee = c.callee().unwrap();
    assert!(matches!(callee, Expr::Call(_)));
    assert_eq!(callee.syntax().text(), "f(a)");
    let args = c.args().unwrap();
    assert_eq!(args.len(), 1);
    assert_eq!(args[0].syntax().text(), "b");
}

#[test]
fn condition_keeps_its_trailing_trivia() {
    let Expr::If(i) = expr_item("if c {}") else { panic!("not an if") };
    let cond = i.condition().unwrap();
    assert!(matches!(cond, Expr::Ident(_)));
    assert_eq!(cond.syntax().text(), "c ");
    assert_eq!(i.then_block().unwrap().syntax().text(), "{}");
}

#[test]
fn paren_body_skips_kinds_outside_expr() {
    let Expr::Paren(p) = expr_item("(&x)") else { panic!("not a parenthesized expression") };
    assert!(p.body().is_none());
    let Expr::Paren(p) = expr_item("(a)") else { panic!("not a parenthesized expression") };
    assert_eq!(p.body().unwrap().syntax().text(), "a");
}

#[test]
fn file_items_skip_leading_trivia() {
    let f = file("  const x; y");
    let items = f.items();
    assert_eq!(items.len(), 2);
    assert!(matches!(items[0], Item::Const(_)));
    assert!(matches!(items[1], Item::Expr(_)));
    assert_eq!(items[0].syntax().text(), "const x; ");
    assert_eq!(items[1].syntax().text(), "y");
    assert_eq!(f.syntax().text(), "  const x; y");
}

#[test]
fn casts_pick_the_variant_of_the_kind() {
    let node = |kind: SyntaxKind| SyntaxNode::new_root(GreenNode::new(kind, vec![]));
    assert!(matches!(Expr::cast(node(SyntaxKind::ExprBinary)), Some(Expr::Binary(_))));
    assert!(matches!(Expr::cast(node(SyntaxKind::ExprBlock)), Some(Expr::Block(_))));
    assert!(matches!(Expr::cast(node(SyntaxKind::ExprCall)), Some(Expr::Call(_))));
    assert!(matches!(Expr::cast(node(SyntaxKind::ExprClosure)), Some(Expr::Closure(_))));
    assert!(matches!(Expr::cast(node(SyntaxKind::ExprEnum)), Some(Expr::Enum(_))));
    assert!(matches!(Expr::cast(node(SyntaxKind::ExprField)), Some(Expr::Field(_))));
    assert!(matches!(Expr::cast(node(SyntaxKind::ExprIdent)), Some(Expr::Ident(_))));
    assert!(matches!(Expr::cast(node(SyntaxKind::ExprIf)), Some(Expr::If(_))));
    assert!(matches!(Expr::cast(node(SyntaxKind::ExprMacro)), Some(Expr::Macro(_))));
    assert!(matches!(Expr::cast(node(SyntaxKind::ExprParen)), Some(Expr::Paren(_))));
    assert!(matches!(Expr::cast(node(SyntaxKind::ExprStruct)), Some(Expr::Struct(_))));
    assert!(matches!(Expr::cast(node(SyntaxKind::ExprTrait)), Some(Expr::Trait(_))));
    assert!(Expr::cast(node(SyntaxKind::ExprImpl)).is_none());
    assert!(matches!(Stmt::cast(node(SyntaxKind::StmtLocal)), Some(Stmt::Local(_))));
    assert!(matches!(Stmt::cast(node(SyntaxKind::StmtExpr)), Some(Stmt::Expr(_))));
    assert!(matches!(Item::cast(node(SyntaxKind::ItemConst)), Some(Item::Const(_))));
    assert!(matches!(Item::cast(node(SyntaxKind::ItemExpr)), Some(Item::Expr(_))));
    assert!(matches!(Pat::cast(node(SyntaxKind::PatIdent)), Some(Pat::Ident(_))));
}
