//! The AST types: one per kind of node that the AST looks at, and one
//! enum per family of such kinds.

use vstd::prelude::*;

use crate::astgen::traits::{HasExpr, HasName};
use crate::astgen::{
    agrees, all_agree,
    cast_children, child_nodes, children_as, find_child, find_node, find_token, first, is_node,
    lemma_filter_take, nth_child, nth_child_as, of_kind, token_of_kind, tree_of, trees, AstNode,
};
use crate::cstgen::syntax::SyntaxKind;
use crate::green::{tree_text, GreenNode, GreenToken, Tree};

verus! {

/// A node of the syntax tree.
#[derive(Debug)]
pub struct SyntaxNode {
    green: GreenNode,
}

impl View for SyntaxNode {
    type V = Tree;

    closed spec fn view(&self) -> Tree {
        self.green@
    }
}

impl Clone for SyntaxNode {
    fn clone(&self) -> (n: Self)
        ensures
            n@ == self@,
    {
        SyntaxNode { green: self.green.clone() }
    }
}

impl SyntaxNode {
    /// The root of the tree `green`.
    pub fn new_root(green: GreenNode) -> (n: SyntaxNode)
        ensures
            n@ == green@,
    {
        SyntaxNode { green }
    }

    /// The kind of the node.
    pub fn kind(&self) -> (k: SyntaxKind)
        ensures
            k == self@.kind(),
    {
        self.green.kind()
    }

    /// The text of the node: the texts of its tokens, in order.
    pub fn text(&self) -> (s: String)
        ensures
            s@ == tree_text(self@),
    {
        self.green.text()
    }

    /// The tree under the node.
    pub fn green(&self) -> (g: &GreenNode)
        ensures
            g@ == self@,
    {
        &self.green
    }

    /// The children of the node that are nodes, in order.
    pub fn children(&self) -> (cs: Vec<SyntaxNode>)
        ensures
            cs@.len() == child_nodes(self@).len(),
            forall|j: int| 0 <= j < cs@.len() ==> #[trigger] cs@[j]@ == child_nodes(self@)[j],
    {
        let elems = self.green.children();
        let ghost s = self@.children();
        let mut cs: Vec<SyntaxNode> = Vec::new();
        let mut i: usize = 0;
        while i < elems.len()
            invariant
                i <= elems.len(),
                s.len() == elems.len(),
                forall|j: int| 0 <= j < elems.len() ==> #[trigger] elems@[j]@ == s[j],
                cs@.len() == s.take(i as int).filter(is_node()).len(),
                forall|j: int| 0 <= j < cs@.len() ==> #[trigger] cs@[j]@ == s.take(i as int).filter(is_node())[j],
            decreases elems.len() - i,
        {
            proof {
                lemma_filter_take(s, is_node(), i as int);
            }
            match elems[i].as_node() {
                Some(node) => {
                    cs.push(SyntaxNode { green: node.clone() });
                },
                None => {},
            }
            i += 1;
        }
        proof {
            assert(s.take(elems.len() as int) =~= s);
        }
        cs
    }
}

/// A token of the syntax tree.
#[derive(Debug)]
pub struct SyntaxToken {
    green: GreenToken,
}

impl View for SyntaxToken {
    type V = Tree;

    closed spec fn view(&self) -> Tree {
        self.green@
    }
}

impl Clone for SyntaxToken {
    fn clone(&self) -> (t: Self)
        ensures
            t@ == self@,
    {
        SyntaxToken { green: self.green.clone() }
    }
}

impl SyntaxToken {
    /// The token `green`.
    pub fn new(green: GreenToken) -> (t: SyntaxToken)
        ensures
            t@ == green@,
    {
        SyntaxToken { green }
    }

    /// The kind of the token.
    pub fn kind(&self) -> (k: SyntaxKind)
        ensures
            k == self@.kind(),
    {
        self.green.kind()
    }

    /// The text of the token.
    pub fn text(&self) -> (s: &str)
        ensures
            s@ == tree_text(self@),
    {
        self.green.text()
    }
}

/// Whether an item is visible outside its namespace.
#[derive(Clone, Copy, Debug, PartialEq, Eq, Structural)]
pub enum Visibility {
    Default,
    Public,
}

/// A name.
#[derive(Debug)]
pub struct Name {
    syntax: SyntaxNode,
}

impl AstNode for Name {
    open spec fn kind_fits(kind: SyntaxKind) -> bool {
        kind == SyntaxKind::Name
    }

    closed spec fn tree(&self) -> Tree {
        self.syntax@
    }

    open spec fn kind_agrees(&self) -> bool {
        self.tree().kind() == SyntaxKind::Name
    }

    fn can_cast(kind: SyntaxKind) -> (b: bool) {
        kind == SyntaxKind::Name
    }

    fn cast(syntax: SyntaxNode) -> (r: Option<Self>) {
        if Self::can_cast(syntax.kind()) {
            Some(Name { syntax })
        } else {
            None
        }
    }

    fn syntax(&self) -> (s: &SyntaxNode) {
        &self.syntax
    }
}

impl Clone for Name {
    fn clone(&self) -> (c: Self)
        ensures
            c.tree() == self.tree(),
            c.kind_agrees() == self.kind_agrees(),
    {
        Name { syntax: self.syntax.clone() }
    }
}

impl Name {
    /// The identifier token of the name, if there is one.
    pub fn ident_token(&self) -> (t: Option<SyntaxToken>)
        ensures
            match first(self.tree().children().filter(token_of_kind(SyntaxKind::Ident))) {
                Some(leaf) => t matches Some(tok) && tok@ == leaf,
                None => t is None,
            },
    {
        find_token(&self.syntax, SyntaxKind::Ident)
    }
}

/// An ident pattern.
#[derive(Debug)]
pub struct PatIdent {
    syntax: SyntaxNode,
}

impl AstNode for PatIdent {
    open spec fn kind_fits(kind: SyntaxKind) -> bool {
        kind == SyntaxKind::PatIdent
    }

    closed spec fn tree(&self) -> Tree {
        self.syntax@
    }

    open spec fn kind_agrees(&self) -> bool {
        self.tree().kind() == SyntaxKind::PatIdent
    }

    fn can_cast(kind: SyntaxKind) -> (b: bool) {
        kind == SyntaxKind::PatIdent
    }

    fn cast(syntax: SyntaxNode) -> (r: Option<Self>) {
        if Self::can_cast(syntax.kind()) {
            Some(PatIdent { syntax })
        } else {
            None
        }
    }

    fn syntax(&self) -> (s: &SyntaxNode) {
        &self.syntax
    }
}

impl Clone for PatIdent {
    fn clone(&self) -> (c: Self)
        ensures
            c.tree() == self.tree(),
            c.kind_agrees() == self.kind_agrees(),
    {
        PatIdent { syntax: self.syntax.clone() }
    }
}

impl HasName for PatIdent {}

/// A pattern.
#[derive(Debug)]
pub enum Pat {
    Ident(PatIdent),
}

impl AstNode for Pat {
    open spec fn kind_fits(kind: SyntaxKind) -> bool {
        kind == SyntaxKind::PatIdent
    }

    open spec fn tree(&self) -> Tree {
        match self {
            Pat::Ident(n) => n.tree(),
        }
    }

    open spec fn kind_agrees(&self) -> bool {
        match self {
            Pat::Ident(n) => n.tree().kind() == SyntaxKind::PatIdent,
        }
    }

    fn can_cast(kind: SyntaxKind) -> (b: bool) {
        match kind {
            SyntaxKind::PatIdent => true,
            _ => false,
        }
    }

    fn cast(syntax: SyntaxNode) -> (r: Option<Self>)
        ensures
            r matches Some(Pat::Ident(_)) <==> syntax@.kind() == SyntaxKind::PatIdent,
    {
        match syntax.kind() {
            SyntaxKind::PatIdent => match PatIdent::cast(syntax) {
                Some(n) => Some(Pat::Ident(n)),
                None => None,
            },
            _ => None,
        }
    }

    fn syntax(&self) -> (s: &SyntaxNode) {
        match self {
            Pat::Ident(n) => n.syntax(),
        }
    }
}

impl Clone for Pat {
    fn clone(&self) -> (c: Self)
        ensures
            c.tree() == self.tree(),
            c.kind_agrees() == self.kind_agrees(),
            c is Ident <==> self is Ident,
    {
        match self {
            Pat::Ident(n) => Pat::Ident(n.clone()),
        }
    }
}

/// A `let` statement.
#[derive(Debug)]
pub struct StmtLocal {
    syntax: SyntaxNode,
}

impl AstNode for StmtLocal {
    open spec fn kind_fits(kind: SyntaxKind) -> bool {
        kind == SyntaxKind::StmtLocal
    }

    closed spec fn tree(&self) -> Tree {
        self.syntax@
    }

    open spec fn kind_agrees(&self) -> bool {
        self.tree().kind() == SyntaxKind::StmtLocal
    }

    fn can_cast(kind: SyntaxKind) -> (b: bool) {
        kind == SyntaxKind::StmtLocal
    }

    fn cast(syntax: SyntaxNode) -> (r: Option<Self>) {
        if Self::can_cast(syntax.kind()) {
            Some(StmtLocal { syntax })
        } else {
            None
        }
    }

    fn syntax(&self) -> (s: &SyntaxNode) {
        &self.syntax
    }
}

impl Clone for StmtLocal {
    fn clone(&self) -> (c: Self)
        ensures
            c.tree() == self.tree(),
            c.kind_agrees() == self.kind_agrees(),
    {
        StmtLocal { syntax: self.syntax.clone() }
    }
}

/// An expression statement.
#[derive(Debug)]
pub struct StmtExpr {
    syntax: SyntaxNode,
}

impl AstNode for StmtExpr {
    open spec fn kind_fits(kind: SyntaxKind) -> bool {
        kind == SyntaxKind::StmtExpr
    }

    closed spec fn tree(&self) -> Tree {
        self.syntax@
    }

    open spec fn kind_agrees(&self) -> bool {
        self.tree().kind() == SyntaxKind::StmtExpr
    }

    fn can_cast(kind: SyntaxKind) -> (b: bool) {
        kind == SyntaxKind::StmtExpr
    }

    fn cast(syntax: SyntaxNode) -> (r: Option<Self>) {
        if Self::can_cast(syntax.kind()) {
            Some(StmtExpr { syntax })
        } else {
            None
        }
    }

    fn syntax(&self) -> (s: &SyntaxNode) {
        &self.syntax
    }
}

impl Clone for StmtExpr {
    fn clone(&self) -> (c: Self)
        ensures
            c.tree() == self.tree(),
            c.kind_agrees() == self.kind_agrees(),
    {
        StmtExpr { syntax: self.syntax.clone() }
    }
}

/// A code statement.
#[derive(Debug)]
pub enum Stmt {
    Local(StmtLocal),
    Expr(StmtExpr),
}

impl AstNode for Stmt {
    open spec fn kind_fits(kind: SyntaxKind) -> bool {
        kind == SyntaxKind::StmtLocal
        || kind == SyntaxKind::StmtExpr
    }

    open spec fn tree(&self) -> Tree {
        match self {
            Stmt::Local(n) => n.tree(),
            Stmt::Expr(n) => n.tree(),
        }
    }

    open spec fn kind_agrees(&self) -> bool {
        match self {
            Stmt::Local(n) => n.tree().kind() == SyntaxKind::StmtLocal,
            Stmt::Expr(n) => n.tree().kind() == SyntaxKind::StmtExpr,
        }
    }

    fn can_cast(kind: SyntaxKind) -> (b: bool) {
        match kind {
            SyntaxKind::StmtLocal => true,
            SyntaxKind::StmtExpr => true,
            _ => false,
        }
    }

    fn cast(syntax: SyntaxNode) -> (r: Option<Self>)
        ensures
            r matches Some(Stmt::Local(_)) <==> syntax@.kind() == SyntaxKind::StmtLocal,
            r matches Some(Stmt::Expr(_)) <==> syntax@.kind() == SyntaxKind::StmtExpr,
    {
        match syntax.kind() {
            SyntaxKind::StmtLocal => match StmtLocal::cast(syntax) {
                Some(n) => Some(Stmt::Local(n)),
                None => None,
            },
            SyntaxKind::StmtExpr => match StmtExpr::cast(syntax) {
                Some(n) => Some(Stmt::Expr(n)),
                None => None,
            },
            _ => None,
        }
    }

    fn syntax(&self) -> (s: &SyntaxNode) {
        match self {
            Stmt::Local(n) => n.syntax(),
            Stmt::Expr(n) => n.syntax(),
        }
    }
}

impl Clone for Stmt {
    fn clone(&self) -> (c: Self)
        ensures
            c.tree() == self.tree(),
            c.kind_agrees() == self.kind_agrees(),
            c is Local <==> self is Local,
            c is Expr <==> self is Expr,
    {
        match self {
            Stmt::Local(n) => Stmt::Local(n.clone()),
            Stmt::Expr(n) => Stmt::Expr(n.clone()),
        }
    }
}

/// A binary expression.
#[derive(Debug)]
pub struct ExprBinary {
    syntax: SyntaxNode,
}

impl AstNode for ExprBinary {
    open spec fn kind_fits(kind: SyntaxKind) -> bool {
        kind == SyntaxKind::ExprBinary
    }

    closed spec fn tree(&self) -> Tree {
        self.syntax@
    }

    open spec fn kind_agrees(&self) -> bool {
        self.tree().kind() == SyntaxKind::ExprBinary
    }

    fn can_cast(kind: SyntaxKind) -> (b: bool) {
        kind == SyntaxKind::ExprBinary
    }

    fn cast(syntax: SyntaxNode) -> (r: Option<Self>) {
        if Self::can_cast(syntax.kind()) {
            Some(ExprBinary { syntax })
        } else {
            None
        }
    }

    fn syntax(&self) -> (s: &SyntaxNode) {
        &self.syntax
    }
}

impl Clone for ExprBinary {
    fn clone(&self) -> (c: Self)
        ensures
            c.tree() == self.tree(),
            c.kind_agrees() == self.kind_agrees(),
    {
        ExprBinary { syntax: self.syntax.clone() }
    }
}

impl ExprBinary {
    /// The left operand: the first child expression.
    pub fn lhs(&self) -> (e: Option<Expr>)
        ensures
            tree_of(e) == nth_child_as::<Expr>(self.tree(), 0),
            agrees(e),
    {
        nth_child(&self.syntax, 0)
    }

    /// The right operand: the second child expression.
    pub fn rhs(&self) -> (e: Option<Expr>)
        ensures
            tree_of(e) == nth_child_as::<Expr>(self.tree(), 1),
            agrees(e),
    {
        nth_child(&self.syntax, 1)
    }
}

/// A block expression.
#[derive(Debug)]
pub struct ExprBlock {
    syntax: SyntaxNode,
}

impl AstNode for ExprBlock {
    open spec fn kind_fits(kind: SyntaxKind) -> bool {
        kind == SyntaxKind::ExprBlock
    }

    closed spec fn tree(&self) -> Tree {
        self.syntax@
    }

    open spec fn kind_agrees(&self) -> bool {
        self.tree().kind() == SyntaxKind::ExprBlock
    }

    fn can_cast(kind: SyntaxKind) -> (b: bool) {
        kind == SyntaxKind::ExprBlock
    }

    fn cast(syntax: SyntaxNode) -> (r: Option<Self>) {
        if Self::can_cast(syntax.kind()) {
            Some(ExprBlock { syntax })
        } else {
            None
        }
    }

    fn syntax(&self) -> (s: &SyntaxNode) {
        &self.syntax
    }
}

impl Clone for ExprBlock {
    fn clone(&self) -> (c: Self)
        ensures
            c.tree() == self.tree(),
            c.kind_agrees() == self.kind_agrees(),
    {
        ExprBlock { syntax: self.syntax.clone() }
    }
}

impl ExprBlock {
    /// The statements of the block, in order.
    pub fn stmts(&self) -> (s: Vec<Stmt>)
        ensures
            trees(s@) == children_as::<Stmt>(self.tree()),
            all_agree(s@),
    {
        cast_children(&self.syntax)
    }
}

/// A call expression.
#[derive(Debug)]
pub struct ExprCall {
    syntax: SyntaxNode,
}

impl AstNode for ExprCall {
    open spec fn kind_fits(kind: SyntaxKind) -> bool {
        kind == SyntaxKind::ExprCall
    }

    closed spec fn tree(&self) -> Tree {
        self.syntax@
    }

    open spec fn kind_agrees(&self) -> bool {
        self.tree().kind() == SyntaxKind::ExprCall
    }

    fn can_cast(kind: SyntaxKind) -> (b: bool) {
        kind == SyntaxKind::ExprCall
    }

    fn cast(syntax: SyntaxNode) -> (r: Option<Self>) {
        if Self::can_cast(syntax.kind()) {
            Some(ExprCall { syntax })
        } else {
            None
        }
    }

    fn syntax(&self) -> (s: &SyntaxNode) {
        &self.syntax
    }
}

impl Clone for ExprCall {
    fn clone(&self) -> (c: Self)
        ensures
            c.tree() == self.tree(),
            c.kind_agrees() == self.kind_agrees(),
    {
        ExprCall { syntax: self.syntax.clone() }
    }
}

impl ExprCall {
    /// The expression called: the first child expression.
    pub fn callee(&self) -> (e: Option<Expr>)
        ensures
            tree_of(e) == first(children_as::<Expr>(self.tree())),
            agrees(e),
    {
        find_child(&self.syntax)
    }

    /// The arguments: the expressions in the first `CallArgs` child, if there is one.
    pub fn args(&self) -> (a: Option<Vec<Expr>>)
        ensures
            match first(child_nodes(self.tree()).filter(of_kind(SyntaxKind::CallArgs))) {
                Some(call_args) => a matches Some(v) && trees(v@) == children_as::<Expr>(call_args) && all_agree(v@),
                None => a is None,
            },
    {
        match find_node(&self.syntax, SyntaxKind::CallArgs) {
            Some(node) => Some(cast_children(&node)),
            None => None,
        }
    }
}

/// A closure expression.
#[derive(Debug)]
pub struct ExprClosure {
    syntax: SyntaxNode,
}

impl AstNode for ExprClosure {
    open spec fn kind_fits(kind: SyntaxKind) -> bool {
        kind == SyntaxKind::ExprClosure
    }

    closed spec fn tree(&self) -> Tree {
        self.syntax@
    }

    open spec fn kind_agrees(&self) -> bool {
        self.tree().kind() == SyntaxKind::ExprClosure
    }

    fn can_cast(kind: SyntaxKind) -> (b: bool) {
        kind == SyntaxKind::ExprClosure
    }

    fn cast(syntax: SyntaxNode) -> (r: Option<Self>) {
        if Self::can_cast(syntax.kind()) {
            Some(ExprClosure { syntax })
        } else {
            None
        }
    }

    fn syntax(&self) -> (s: &SyntaxNode) {
        &self.syntax
    }
}

impl Clone for ExprClosure {
    fn clone(&self) -> (c: Self)
        ensures
            c.tree() == self.tree(),
            c.kind_agrees() == self.kind_agrees(),
    {
        ExprClosure { syntax: self.syntax.clone() }
    }
}

/// An `enum` expression.
#[derive(Debug)]
pub struct ExprEnum {
    syntax: SyntaxNode,
}

impl AstNode for ExprEnum {
    open spec fn kind_fits(kind: SyntaxKind) -> bool {
        kind == SyntaxKind::ExprEnum
    }

    closed spec fn tree(&self) -> Tree {
        self.syntax@
    }

    open spec fn kind_agrees(&self) -> bool {
        self.tree().kind() == SyntaxKind::ExprEnum
    }

    fn can_cast(kind: SyntaxKind) -> (b: bool) {
        kind == SyntaxKind::ExprEnum
    }

    fn cast(syntax: SyntaxNode) -> (r: Option<Self>) {
        if Self::can_cast(syntax.kind()) {
            Some(ExprEnum { syntax })
        } else {
            None
        }
    }

    fn syntax(&self) -> (s: &SyntaxNode) {
        &self.syntax
    }
}

impl Clone for ExprEnum {
    fn clone(&self) -> (c: Self)
        ensures
            c.tree() == self.tree(),
            c.kind_agrees() == self.kind_agrees(),
    {
        ExprEnum { syntax: self.syntax.clone() }
    }
}

/// A field expression.
#[derive(Debug)]
pub struct ExprField {
    syntax: SyntaxNode,
}

impl AstNode for ExprField {
    open spec fn kind_fits(kind: SyntaxKind) -> bool {
        kind == SyntaxKind::ExprField
    }

    closed spec fn tree(&self) -> Tree {
        self.syntax@
    }

    open spec fn kind_agrees(&self) -> bool {
        self.tree().kind() == SyntaxKind::ExprField
    }

    fn can_cast(kind: SyntaxKind) -> (b: bool) {
        kind == SyntaxKind::ExprField
    }

    fn cast(syntax: SyntaxNode) -> (r: Option<Self>) {
        if Self::can_cast(syntax.kind()) {
            Some(ExprField { syntax })
        } else {
            None
        }
    }

    fn syntax(&self) -> (s: &SyntaxNode) {
        &self.syntax
    }
}

impl Clone for ExprField {
    fn clone(&self) -> (c: Self)
        ensures
            c.tree() == self.tree(),
            c.kind_agrees() == self.kind_agrees(),
    {
        ExprField { syntax: self.syntax.clone() }
    }
}

/// An ident expression.
#[derive(Debug)]
pub struct ExprIdent {
    syntax: SyntaxNode,
}

impl AstNode for ExprIdent {
    open spec fn kind_fits(kind: SyntaxKind) -> bool {
        kind == SyntaxKind::ExprIdent
    }

    closed spec fn tree(&self) -> Tree {
        self.syntax@
    }

    open spec fn kind_agrees(&self) -> bool {
        self.tree().kind() == SyntaxKind::ExprIdent
    }

    fn can_cast(kind: SyntaxKind) -> (b: bool) {
        kind == SyntaxKind::ExprIdent
    }

    fn cast(syntax: SyntaxNode) -> (r: Option<Self>) {
        if Self::can_cast(syntax.kind()) {
            Some(ExprIdent { syntax })
        } else {
            None
        }
    }

    fn syntax(&self) -> (s: &SyntaxNode) {
        &self.syntax
    }
}

impl Clone for ExprIdent {
    fn clone(&self) -> (c: Self)
        ensures
            c.tree() == self.tree(),
            c.kind_agrees() == self.kind_agrees(),
    {
        ExprIdent { syntax: self.syntax.clone() }
    }
}

/// An `if` expression.
#[derive(Debug)]
pub struct ExprIf {
    syntax: SyntaxNode,
}

impl AstNode for ExprIf {
    open spec fn kind_fits(kind: SyntaxKind) -> bool {
        kind == SyntaxKind::ExprIf
    }

    closed spec fn tree(&self) -> Tree {
        self.syntax@
    }

    open spec fn kind_agrees(&self) -> bool {
        self.tree().kind() == SyntaxKind::ExprIf
    }

    fn can_cast(kind: SyntaxKind) -> (b: bool) {
        kind == SyntaxKind::ExprIf
    }

    fn cast(syntax: SyntaxNode) -> (r: Option<Self>) {
        if Self::can_cast(syntax.kind()) {
            Some(ExprIf { syntax })
        } else {
            None
        }
    }

    fn syntax(&self) -> (s: &SyntaxNode) {
        &self.syntax
    }
}

impl Clone for ExprIf {
    fn clone(&self) -> (c: Self)
        ensures
            c.tree() == self.tree(),
            c.kind_agrees() == self.kind_agrees(),
    {
        ExprIf { syntax: self.syntax.clone() }
    }
}

impl ExprIf {
    /// The condition: the first child expression.
    pub fn condition(&self) -> (e: Option<Expr>)
        ensures
            tree_of(e) == first(children_as::<Expr>(self.tree())),
            agrees(e),
    {
        find_child(&self.syntax)
    }

    /// The block run when the condition holds: the first child block.
    pub fn then_block(&self) -> (b: Option<ExprBlock>)
        ensures
            tree_of(b) == nth_child_as::<ExprBlock>(self.tree(), 0),
            agrees(b),
    {
        nth_child(&self.syntax, 0)
    }

    /// The block run otherwise: the second child block.
    pub fn else_block(&self) -> (b: Option<ExprBlock>)
        ensures
            tree_of(b) == nth_child_as::<ExprBlock>(self.tree(), 1),
            agrees(b),
    {
        nth_child(&self.syntax, 1)
    }
}

/// A macro call expression.
#[derive(Debug)]
pub struct ExprMacro {
    syntax: SyntaxNode,
}

impl AstNode for ExprMacro {
    open spec fn kind_fits(kind: SyntaxKind) -> bool {
        kind == SyntaxKind::ExprMacro
    }

    closed spec fn tree(&self) -> Tree {
        self.syntax@
    }

    open spec fn kind_agrees(&self) -> bool {
        self.tree().kind() == SyntaxKind::ExprMacro
    }

    fn can_cast(kind: SyntaxKind) -> (b: bool) {
        kind == SyntaxKind::ExprMacro
    }

    fn cast(syntax: SyntaxNode) -> (r: Option<Self>) {
        if Self::can_cast(syntax.kind()) {
            Some(ExprMacro { syntax })
        } else {
            None
        }
    }

    fn syntax(&self) -> (s: &SyntaxNode) {
        &self.syntax
    }
}

impl Clone for ExprMacro {
    fn clone(&self) -> (c: Self)
        ensures
            c.tree() == self.tree(),
            c.kind_agrees() == self.kind_agrees(),
    {
        ExprMacro { syntax: self.syntax.clone() }
    }
}

/// A parenthesized expression.
#[derive(Debug)]
pub struct ExprParen {
    syntax: SyntaxNode,
}

impl AstNode for ExprParen {
    open spec fn kind_fits(kind: SyntaxKind) -> bool {
        kind == SyntaxKind::ExprParen
    }

    closed spec fn tree(&self) -> Tree {
        self.syntax@
    }

    open spec fn kind_agrees(&self) -> bool {
        self.tree().kind() == SyntaxKind::ExprParen
    }

    fn can_cast(kind: SyntaxKind) -> (b: bool) {
        kind == SyntaxKind::ExprParen
    }

    fn cast(syntax: SyntaxNode) -> (r: Option<Self>) {
        if Self::can_cast(syntax.kind()) {
            Some(ExprParen { syntax })
        } else {
            None
        }
    }

    fn syntax(&self) -> (s: &SyntaxNode) {
        &self.syntax
    }
}

impl Clone for ExprParen {
    fn clone(&self) -> (c: Self)
        ensures
            c.tree() == self.tree(),
            c.kind_agrees() == self.kind_agrees(),
    {
        ExprParen { syntax: self.syntax.clone() }
    }
}

impl ExprParen {
    /// The expression inside the parentheses: the first child expression.
    pub fn body(&self) -> (e: Option<Expr>)
        ensures
            tree_of(e) == first(children_as::<Expr>(self.tree())),
            agrees(e),
    {
        find_child(&self.syntax)
    }
}

/// A `struct` expression.
#[derive(Debug)]
pub struct ExprStruct {
    syntax: SyntaxNode,
}

impl AstNode for ExprStruct {
    open spec fn kind_fits(kind: SyntaxKind) -> bool {
        kind == SyntaxKind::ExprStruct
    }

    closed spec fn tree(&self) -> Tree {
        self.syntax@
    }

    open spec fn kind_agrees(&self) -> bool {
        self.tree().kind() == SyntaxKind::ExprStruct
    }

    fn can_cast(kind: SyntaxKind) -> (b: bool) {
        kind == SyntaxKind::ExprStruct
    }

    fn cast(syntax: SyntaxNode) -> (r: Option<Self>) {
        if Self::can_cast(syntax.kind()) {
            Some(ExprStruct { syntax })
        } else {
            None
        }
    }

    fn syntax(&self) -> (s: &SyntaxNode) {
        &self.syntax
    }
}

impl Clone for ExprStruct {
    fn clone(&self) -> (c: Self)
        ensures
            c.tree() == self.tree(),
            c.kind_agrees() == self.kind_agrees(),
    {
        ExprStruct { syntax: self.syntax.clone() }
    }
}

/// A `trait` expression.
#[derive(Debug)]
pub struct ExprTrait {
    syntax: SyntaxNode,
}

impl AstNode for ExprTrait {
    open spec fn kind_fits(kind: SyntaxKind) -> bool {
        kind == SyntaxKind::ExprTrait
    }

    closed spec fn tree(&self) -> Tree {
        self.syntax@
    }

    open spec fn kind_agrees(&self) -> bool {
        self.tree().kind() == SyntaxKind::ExprTrait
    }

    fn can_cast(kind: SyntaxKind) -> (b: bool) {
        kind == SyntaxKind::ExprTrait
    }

    fn cast(syntax: SyntaxNode) -> (r: Option<Self>) {
        if Self::can_cast(syntax.kind()) {
            Some(ExprTrait { syntax })
        } else {
            None
        }
    }

    fn syntax(&self) -> (s: &SyntaxNode) {
        &self.syntax
    }
}

impl Clone for ExprTrait {
    fn clone(&self) -> (c: Self)
        ensures
            c.tree() == self.tree(),
            c.kind_agrees() == self.kind_agrees(),
    {
        ExprTrait { syntax: self.syntax.clone() }
    }
}

/// A fin expression.
#[derive(Debug)]
pub enum Expr {
    Binary(ExprBinary),
    Block(ExprBlock),
    Call(ExprCall),
    Closure(ExprClosure),
    Enum(ExprEnum),
    Field(ExprField),
    Ident(ExprIdent),
    If(ExprIf),
    Macro(ExprMacro),
    Paren(ExprParen),
    Struct(ExprStruct),
    Trait(ExprTrait),
}

impl AstNode for Expr {
    open spec fn kind_fits(kind: SyntaxKind) -> bool {
        kind == SyntaxKind::ExprBinary
        || kind == SyntaxKind::ExprBlock
        || kind == SyntaxKind::ExprCall
        || kind == SyntaxKind::ExprClosure
        || kind == SyntaxKind::ExprEnum
        || kind == SyntaxKind::ExprField
        || kind == SyntaxKind::ExprIdent
        || kind == SyntaxKind::ExprIf
        || kind == SyntaxKind::ExprMacro
        || kind == SyntaxKind::ExprParen
        || kind == SyntaxKind::ExprStruct
        || kind == SyntaxKind::ExprTrait
    }

    open spec fn tree(&self) -> Tree {
        match self {
            Expr::Binary(n) => n.tree(),
            Expr::Block(n) => n.tree(),
            Expr::Call(n) => n.tree(),
            Expr::Closure(n) => n.tree(),
            Expr::Enum(n) => n.tree(),
            Expr::Field(n) => n.tree(),
            Expr::Ident(n) => n.tree(),
            Expr::If(n) => n.tree(),
            Expr::Macro(n) => n.tree(),
            Expr::Paren(n) => n.tree(),
            Expr::Struct(n) => n.tree(),
            Expr::Trait(n) => n.tree(),
        }
    }

    open spec fn kind_agrees(&self) -> bool {
        match self {
            Expr::Binary(n) => n.tree().kind() == SyntaxKind::ExprBinary,
            Expr::Block(n) => n.tree().kind() == SyntaxKind::ExprBlock,
            Expr::Call(n) => n.tree().kind() == SyntaxKind::ExprCall,
            Expr::Closure(n) => n.tree().kind() == SyntaxKind::ExprClosure,
            Expr::Enum(n) => n.tree().kind() == SyntaxKind::ExprEnum,
            Expr::Field(n) => n.tree().kind() == SyntaxKind::ExprField,
            Expr::Ident(n) => n.tree().kind() == SyntaxKind::ExprIdent,
            Expr::If(n) => n.tree().kind() == SyntaxKind::ExprIf,
            Expr::Macro(n) => n.tree().kind() == SyntaxKind::ExprMacro,
            Expr::Paren(n) => n.tree().kind() == SyntaxKind::ExprParen,
            Expr::Struct(n) => n.tree().kind() == SyntaxKind::ExprStruct,
            Expr::Trait(n) => n.tree().kind() == SyntaxKind::ExprTrait,
        }
    }

    fn can_cast(kind: SyntaxKind) -> (b: bool) {
        match kind {
            SyntaxKind::ExprBinary => true,
            SyntaxKind::ExprBlock => true,
            SyntaxKind::ExprCall => true,
            SyntaxKind::ExprClosure => true,
            SyntaxKind::ExprEnum => true,
            SyntaxKind::ExprField => true,
            SyntaxKind::ExprIdent => true,
            SyntaxKind::ExprIf => true,
            SyntaxKind::ExprMacro => true,
            SyntaxKind::ExprParen => true,
            SyntaxKind::ExprStruct => true,
            SyntaxKind::ExprTrait => true,
            _ => false,
        }
    }

    fn cast(syntax: SyntaxNode) -> (r: Option<Self>)
        ensures
            r matches Some(Expr::Binary(_)) <==> syntax@.kind() == SyntaxKind::ExprBinary,
            r matches Some(Expr::Block(_)) <==> syntax@.kind() == SyntaxKind::ExprBlock,
            r matches Some(Expr::Call(_)) <==> syntax@.kind() == SyntaxKind::ExprCall,
            r matches Some(Expr::Closure(_)) <==> syntax@.kind() == SyntaxKind::ExprClosure,
            r matches Some(Expr::Enum(_)) <==> syntax@.kind() == SyntaxKind::ExprEnum,
            r matches Some(Expr::Field(_)) <==> syntax@.kind() == SyntaxKind::ExprField,
            r matches Some(Expr::Ident(_)) <==> syntax@.kind() == SyntaxKind::ExprIdent,
            r matches Some(Expr::If(_)) <==> syntax@.kind() == SyntaxKind::ExprIf,
            r matches Some(Expr::Macro(_)) <==> syntax@.kind() == SyntaxKind::ExprMacro,
            r matches Some(Expr::Paren(_)) <==> syntax@.kind() == SyntaxKind::ExprParen,
            r matches Some(Expr::Struct(_)) <==> syntax@.kind() == SyntaxKind::ExprStruct,
            r matches Some(Expr::Trait(_)) <==> syntax@.kind() == SyntaxKind::ExprTrait,
    {
        match syntax.kind() {
            SyntaxKind::ExprBinary => match ExprBinary::cast(syntax) {
                Some(n) => Some(Expr::Binary(n)),
                None => None,
            },
            SyntaxKind::ExprBlock => match ExprBlock::cast(syntax) {
                Some(n) => Some(Expr::Block(n)),
                None => None,
            },
            SyntaxKind::ExprCall => match ExprCall::cast(syntax) {
                Some(n) => Some(Expr::Call(n)),
                None => None,
            },
            SyntaxKind::ExprClosure => match ExprClosure::cast(syntax) {
                Some(n) => Some(Expr::Closure(n)),
                None => None,
            },
            SyntaxKind::ExprEnum => match ExprEnum::cast(syntax) {
                Some(n) => Some(Expr::Enum(n)),
                None => None,
            },
            SyntaxKind::ExprField => match ExprField::cast(syntax) {
                Some(n) => Some(Expr::Field(n)),
                None => None,
            },
            SyntaxKind::ExprIdent => match ExprIdent::cast(syntax) {
                Some(n) => Some(Expr::Ident(n)),
                None => None,
            },
            SyntaxKind::ExprIf => match ExprIf::cast(syntax) {
                Some(n) => Some(Expr::If(n)),
                None => None,
            },
            SyntaxKind::ExprMacro => match ExprMacro::cast(syntax) {
                Some(n) => Some(Expr::Macro(n)),
                None => None,
            },
            SyntaxKind::ExprParen => match ExprParen::cast(syntax) {
                Some(n) => Some(Expr::Paren(n)),
                None => None,
            },
            SyntaxKind::ExprStruct => match ExprStruct::cast(syntax) {
                Some(n) => Some(Expr::Struct(n)),
                None => None,
            },
            SyntaxKind::ExprTrait => match ExprTrait::cast(syntax) {
                Some(n) => Some(Expr::Trait(n)),
                None => None,
            },
            _ => None,
        }
    }

    fn syntax(&self) -> (s: &SyntaxNode) {
        match self {
            Expr::Binary(n) => n.syntax(),
            Expr::Block(n) => n.syntax(),
            Expr::Call(n) => n.syntax(),
            Expr::Closure(n) => n.syntax(),
            Expr::Enum(n) => n.syntax(),
            Expr::Field(n) => n.syntax(),
            Expr::Ident(n) => n.syntax(),
            Expr::If(n) => n.syntax(),
            Expr::Macro(n) => n.syntax(),
            Expr::Paren(n) => n.syntax(),
            Expr::Struct(n) => n.syntax(),
            Expr::Trait(n) => n.syntax(),
        }
    }
}

impl Clone for Expr {
    fn clone(&self) -> (c: Self)
        ensures
            c.tree() == self.tree(),
            c.kind_agrees() == self.kind_agrees(),
            c is Binary <==> self is Binary,
            c is Block <==> self is Block,
            c is Call <==> self is Call,
            c is Closure <==> self is Closure,
            c is Enum <==> self is Enum,
            c is Field <==> self is Field,
            c is Ident <==> self is Ident,
            c is If <==> self is If,
            c is Macro <==> self is Macro,
            c is Paren <==> self is Paren,
            c is Struct <==> self is Struct,
            c is Trait <==> self is Trait,
    {
        match self {
            Expr::Binary(n) => Expr::Binary(n.clone()),
            Expr::Block(n) => Expr::Block(n.clone()),
            Expr::Call(n) => Expr::Call(n.clone()),
            Expr::Closure(n) => Expr::Closure(n.clone()),
            Expr::Enum(n) => Expr::Enum(n.clone()),
            Expr::Field(n) => Expr::Field(n.clone()),
            Expr::Ident(n) => Expr::Ident(n.clone()),
            Expr::If(n) => Expr::If(n.clone()),
            Expr::Macro(n) => Expr::Macro(n.clone()),
            Expr::Paren(n) => Expr::Paren(n.clone()),
            Expr::Struct(n) => Expr::Struct(n.clone()),
            Expr::Trait(n) => Expr::Trait(n.clone()),
        }
    }
}

/// A constant item.
#[derive(Debug)]
pub struct ItemConst {
    syntax: SyntaxNode,
}

impl AstNode for ItemConst {
    open spec fn kind_fits(kind: SyntaxKind) -> bool {
        kind == SyntaxKind::ItemConst
    }

    closed spec fn tree(&self) -> Tree {
        self.syntax@
    }

    open spec fn kind_agrees(&self) -> bool {
        self.tree().kind() == SyntaxKind::ItemConst
    }

    fn can_cast(kind: SyntaxKind) -> (b: bool) {
        kind == SyntaxKind::ItemConst
    }

    fn cast(syntax: SyntaxNode) -> (r: Option<Self>) {
        if Self::can_cast(syntax.kind()) {
            Some(ItemConst { syntax })
        } else {
            None
        }
    }

    fn syntax(&self) -> (s: &SyntaxNode) {
        &self.syntax
    }
}

impl Clone for ItemConst {
    fn clone(&self) -> (c: Self)
        ensures
            c.tree() == self.tree(),
            c.kind_agrees() == self.kind_agrees(),
    {
        ItemConst { syntax: self.syntax.clone() }
    }
}

impl ItemConst {
    /// The pattern bound: the first child pattern.
    pub fn pat(&self) -> (p: Option<Pat>)
        ensures
            tree_of(p) == first(children_as::<Pat>(self.tree())),
            agrees(p),
    {
        find_child(&self.syntax)
    }
}

impl HasExpr for ItemConst {}

/// An expression item.
#[derive(Debug)]
pub struct ItemExpr {
    syntax: SyntaxNode,
}

impl AstNode for ItemExpr {
    open spec fn kind_fits(kind: SyntaxKind) -> bool {
        kind == SyntaxKind::ItemExpr
    }

    closed spec fn tree(&self) -> Tree {
        self.syntax@
    }

    open spec fn kind_agrees(&self) -> bool {
        self.tree().kind() == SyntaxKind::ItemExpr
    }

    fn can_cast(kind: SyntaxKind) -> (b: bool) {
        kind == SyntaxKind::ItemExpr
    }

    fn cast(syntax: SyntaxNode) -> (r: Option<Self>) {
        if Self::can_cast(syntax.kind()) {
            Some(ItemExpr { syntax })
        } else {
            None
        }
    }

    fn syntax(&self) -> (s: &SyntaxNode) {
        &self.syntax
    }
}

impl Clone for ItemExpr {
    fn clone(&self) -> (c: Self)
        ensures
            c.tree() == self.tree(),
            c.kind_agrees() == self.kind_agrees(),
    {
        ItemExpr { syntax: self.syntax.clone() }
    }
}

impl HasExpr for ItemExpr {}

/// Items inside a namespace.
#[derive(Debug)]
pub enum Item {
    Const(ItemConst),
    Expr(ItemExpr),
}

impl AstNode for Item {
    open spec fn kind_fits(kind: SyntaxKind) -> bool {
        kind == SyntaxKind::ItemConst
        || kind == SyntaxKind::ItemExpr
    }

    open spec fn tree(&self) -> Tree {
        match self {
            Item::Const(n) => n.tree(),
            Item::Expr(n) => n.tree(),
        }
    }

    open spec fn kind_agrees(&self) -> bool {
        match self {
            Item::Const(n) => n.tree().kind() == SyntaxKind::ItemConst,
            Item::Expr(n) => n.tree().kind() == SyntaxKind::ItemExpr,
        }
    }

    fn can_cast(kind: SyntaxKind) -> (b: bool) {
        match kind {
            SyntaxKind::ItemConst => true,
            SyntaxKind::ItemExpr => true,
            _ => false,
        }
    }

    fn cast(syntax: SyntaxNode) -> (r: Option<Self>)
        ensures
            r matches Some(Item::Const(_)) <==> syntax@.kind() == SyntaxKind::ItemConst,
            r matches Some(Item::Expr(_)) <==> syntax@.kind() == SyntaxKind::ItemExpr,
    {
        match syntax.kind() {
            SyntaxKind::ItemConst => match ItemConst::cast(syntax) {
                Some(n) => Some(Item::Const(n)),
                None => None,
            },
            SyntaxKind::ItemExpr => match ItemExpr::cast(syntax) {
                Some(n) => Some(Item::Expr(n)),
                None => None,
            },
            _ => None,
        }
    }

    fn syntax(&self) -> (s: &SyntaxNode) {
        match self {
            Item::Const(n) => n.syntax(),
            Item::Expr(n) => n.syntax(),
        }
    }
}

impl Clone for Item {
    fn clone(&self) -> (c: Self)
        ensures
            c.tree() == self.tree(),
            c.kind_agrees() == self.kind_agrees(),
            c is Const <==> self is Const,
            c is Expr <==> self is Expr,
    {
        match self {
            Item::Const(n) => Item::Const(n.clone()),
            Item::Expr(n) => Item::Expr(n.clone()),
        }
    }
}

/// A fin source file.
#[derive(Debug)]
pub struct File {
    syntax: SyntaxNode,
}

impl AstNode for File {
    open spec fn kind_fits(kind: SyntaxKind) -> bool {
        kind == SyntaxKind::File
    }

    closed spec fn tree(&self) -> Tree {
        self.syntax@
    }

    open spec fn kind_agrees(&self) -> bool {
        self.tree().kind() == SyntaxKind::File
    }

    fn can_cast(kind: SyntaxKind) -> (b: bool) {
        kind == SyntaxKind::File
    }

    fn cast(syntax: SyntaxNode) -> (r: Option<Self>) {
        if Self::can_cast(syntax.kind()) {
            Some(File { syntax })
        } else {
            None
        }
    }

    fn syntax(&self) -> (s: &SyntaxNode) {
        &self.syntax
    }
}

impl Clone for File {
    fn clone(&self) -> (c: Self)
        ensures
            c.tree() == self.tree(),
            c.kind_agrees() == self.kind_agrees(),
    {
        File { syntax: self.syntax.clone() }
    }
}

impl File {
    /// The items of the file, in order.
    pub fn items(&self) -> (items: Vec<Item>)
        ensures
            trees(items@) == children_as::<Item>(self.tree()),
            all_agree(items@),
    {
        cast_children(&self.syntax)
    }
}

} // verus!
