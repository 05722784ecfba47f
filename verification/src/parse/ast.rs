//! The syntax tree that the parser builds, and facts about a tree: whether
//! it holds an error node, the ids of its nodes, and where its spans lie.
use crate::analysis::types::Type;
use crate::lex::token::{Token, TokenKind};
use crate::span::{Span, Spanned};
use vstd::prelude::*;

verus! {

/// The id of a node of the syntax tree.
#[derive(Debug, Clone, Copy, PartialEq, Eq, Structural, PartialOrd, Ord, Hash)]
pub struct NodeId(pub usize);

impl NodeId {
    /// Steps to the next id; the id stays at `usize::MAX` once it is there.
    pub fn increment(&mut self)
        ensures
            final(self).0 == if old(self).0 < usize::MAX { old(self).0 + 1 } else { old(self).0 as int },
    {
        if self.0 < usize::MAX {
            self.0 = self.0 + 1;
        }
    }
}

/// A literal.
#[derive(Debug, PartialEq, Clone)]
pub enum LitKind {
    Int(u128),
    Bool(bool),
}

#[derive(Debug, PartialEq, Clone, Copy, Eq, Structural)]
pub enum BinOpKind {
    Add,
    Sub,
    Mul,
    Div,
    EqEq,
    BangEq,
    LessThan,
    GreaterThan,
    LessEq,
    GreaterEq,
    And,
    Or,
}

#[derive(Debug, PartialEq, Clone, Copy, Eq, Structural)]
pub enum UnaryOpKind {
    Negate,
    /// `++i`
    PreIncrement,
    /// `i++`
    PostIncrement,
    /// `--i`
    PreDecrement,
    /// `i--`
    PostDecrement,
}

/// The binary operation that a token of kind `k` stands for, if any.
pub open spec fn binop_of(k: TokenKind) -> Option<BinOpKind> {
    match k {
        TokenKind::Plus => Some(BinOpKind::Add),
        TokenKind::Minus => Some(BinOpKind::Sub),
        TokenKind::Star => Some(BinOpKind::Mul),
        TokenKind::Slash => Some(BinOpKind::Div),
        TokenKind::EqualEqual => Some(BinOpKind::EqEq),
        TokenKind::BangEqual => Some(BinOpKind::BangEq),
        TokenKind::LessThan => Some(BinOpKind::LessThan),
        TokenKind::GreaterThan => Some(BinOpKind::GreaterThan),
        TokenKind::LessEq => Some(BinOpKind::LessEq),
        TokenKind::GreaterEq => Some(BinOpKind::GreaterEq),
        TokenKind::And => Some(BinOpKind::And),
        TokenKind::Or => Some(BinOpKind::Or),
        _ => None,
    }
}

/// How a binary operation is written.
pub open spec fn binop_symbol(op: BinOpKind) -> Seq<char> {
    match op {
        BinOpKind::Add => "+"@,
        BinOpKind::Sub => "-"@,
        BinOpKind::Mul => "*"@,
        BinOpKind::Div => "/"@,
        BinOpKind::EqEq => "=="@,
        BinOpKind::BangEq => "!="@,
        BinOpKind::LessThan => "<"@,
        BinOpKind::GreaterThan => ">"@,
        BinOpKind::LessEq => "<="@,
        BinOpKind::GreaterEq => ">="@,
        BinOpKind::And => "&&"@,
        BinOpKind::Or => "||"@,
    }
}

/// How a unary operation is written; negation is written `!`.
pub open spec fn unop_symbol(op: UnaryOpKind) -> Seq<char> {
    match op {
        UnaryOpKind::Negate => "!"@,
        UnaryOpKind::PostDecrement => "--"@,
        UnaryOpKind::PostIncrement => "++"@,
        UnaryOpKind::PreDecrement => "--"@,
        UnaryOpKind::PreIncrement => "++"@,
    }
}

impl BinOpKind {
    /// The binary operation that `token` stands for, which must be one.
    pub fn from_token(token: Token) -> (op: BinOpKind)
        requires
            binop_of(token.kind) is Some,
        ensures
            binop_of(token.kind) == Some(op),
    {
        match token.kind {
            TokenKind::Plus => BinOpKind::Add,
            TokenKind::Minus => BinOpKind::Sub,
            TokenKind::Star => BinOpKind::Mul,
            TokenKind::Slash => BinOpKind::Div,
            TokenKind::EqualEqual => BinOpKind::EqEq,
            TokenKind::BangEqual => BinOpKind::BangEq,
            TokenKind::LessThan => BinOpKind::LessThan,
            TokenKind::GreaterThan => BinOpKind::GreaterThan,
            TokenKind::LessEq => BinOpKind::LessEq,
            TokenKind::GreaterEq => BinOpKind::GreaterEq,
            TokenKind::And => BinOpKind::And,
            _ => BinOpKind::Or,
        }
    }

    /// How this operation is written.
    pub fn symbol(&self) -> (s: &'static str)
        ensures
            s@ == binop_symbol(*self),
    {
        let s = match self {
            BinOpKind::Add => "+",
            BinOpKind::Sub => "-",
            BinOpKind::Mul => "*",
            BinOpKind::Div => "/",
            BinOpKind::EqEq => "==",
            BinOpKind::BangEq => "!=",
            BinOpKind::LessThan => "<",
            BinOpKind::GreaterThan => ">",
            BinOpKind::LessEq => "<=",
            BinOpKind::GreaterEq => ">=",
            BinOpKind::And => "&&",
            BinOpKind::Or => "||",
        };
        s
    }
}

impl UnaryOpKind {
    /// How this operation is written.
    pub fn symbol(&self) -> (s: &'static str)
        ensures
            s@ == unop_symbol(*self),
    {
        match self {
            UnaryOpKind::Negate => "!",
            UnaryOpKind::PostDecrement => "--",
            UnaryOpKind::PostIncrement => "++",
            UnaryOpKind::PreDecrement => "--",
            UnaryOpKind::PreIncrement => "++",
        }
    }
}

pub type BinOp = Spanned<BinOpKind>;

pub type UnaryOp = Spanned<UnaryOpKind>;

/// The expressions of the language.
#[derive(Debug, PartialEq)]
pub enum ExprKind {
    /// A literal, e.g. `1`.
    Literal(LitKind),
    /// A binary operation like `1 + 2`.
    BinaryOp(BinOp, Box<Expr>, Box<Expr>),
    /// A unary operation like `-1`.
    UnaryOp(UnaryOp, Box<Expr>),
    /// The use of a variable, by name.
    Variable(Vec<u8>),
    /// An assignment `target = value`; it evaluates to the value assigned.
    VarAssign(Box<Expr>, Box<Expr>),
    /// A call of the first expression with the arguments.
    Call(Box<Expr>, Vec<Expr>),
    /// A node that stands for a recoverable parse error.
    Error,
}

/// An expression.
#[derive(Debug, PartialEq)]
pub struct Expr {
    pub id: NodeId,
    pub kind: ExprKind,
    pub span: Span,
}

impl Expr {
    pub fn new(id: NodeId, kind: ExprKind, span: Span) -> (e: Self)
        ensures
            e.id == id,
            e.kind == kind,
            e.span == span,
    {
        Self { id, kind, span }
    }
}

/// The initializer of a `for` loop.
#[derive(Debug, PartialEq)]
pub enum ForInit {
    Statement(Stmt),
    Expr(Expr),
}

/// The statements of the language.
#[derive(Debug, PartialEq)]
pub enum StmtKind {
    /// The builtin `print(expression);`.
    Print(Box<Expr>),
    /// An expression statement.
    ExprStmt(Box<Expr>),
    /// A variable declaration: name, optional type annotation, optional
    /// initializer.
    VarDecl(Vec<u8>, Option<Type>, Option<Expr>),
    /// A block `{ ... }`.
    Block(Vec<Stmt>),
    /// `if (condition) body else else_body`.
    If(Box<Expr>, Box<Stmt>, Option<Box<Stmt>>),
    /// `while (condition) body`.
    While(Box<Expr>, Box<Stmt>),
    Break,
    Continue,
    /// `for (init; condition; increment) body`.
    For(Option<Box<ForInit>>, Option<Expr>, Option<Expr>, Box<Stmt>),
    /// A node that stands for a recoverable parse error.
    Error,
}

#[derive(Debug, PartialEq)]
pub struct Stmt {
    pub id: NodeId,
    pub kind: StmtKind,
    pub span: Span,
}

impl Stmt {
    pub fn new(id: NodeId, kind: StmtKind, span: Span) -> (s: Self)
        ensures
            s.id == id,
            s.kind == kind,
            s.span == span,
    {
        Self { id, kind, span }
    }
}

/// A parameter of a function.
#[derive(Debug, PartialEq, Eq, Clone)]
pub struct Param {
    pub span: Span,
    pub id: NodeId,
    pub name: Vec<u8>,
    pub ty: Type,
}

impl Param {
    pub fn new(id: NodeId, name: Vec<u8>, ty: Type, span: Span) -> (p: Self)
        ensures
            p.id == id,
            p.name@ == name@,
            p.ty == ty,
            p.span == span,
    {
        Self { span, id, name, ty }
    }
}

/// A function definition.
#[derive(Debug, PartialEq)]
pub struct Function {
    pub id: NodeId,
    pub span: Span,
    pub name: Vec<u8>,
    pub params: Vec<Param>,
    pub return_type: Option<Type>,
    pub body: Vec<Stmt>,
}

/// A whole program: its functions and its top-level statements.
#[derive(Debug, PartialEq)]
pub struct Program {
    pub functions: Vec<Function>,
    pub body: Vec<Stmt>,
}

impl Program {
    pub fn new() -> (p: Self)
        ensures
            p.functions@.len() == 0,
            p.body@.len() == 0,
    {
        Self { functions: Vec::new(), body: Vec::new() }
    }

    /// Appends a top-level statement.
    pub fn add(&mut self, stmt: Stmt)
        ensures
            final(self).body@ == old(self).body@.push(stmt),
            final(self).functions@ == old(self).functions@,
    {
        self.body.push(stmt);
    }
}

// ---------------------------------------------------------------------
// Whether a tree holds an error node.

pub open spec fn expr_has_error(e: Expr) -> bool
    decreases e,
{
    match e.kind {
        ExprKind::Literal(_) => false,
        ExprKind::Variable(_) => false,
        ExprKind::Error => true,
        ExprKind::BinaryOp(_, l, r) => expr_has_error(*l) || expr_has_error(*r),
        ExprKind::UnaryOp(_, o) => expr_has_error(*o),
        ExprKind::VarAssign(t, v) => expr_has_error(*t) || expr_has_error(*v),
        ExprKind::Call(c, args) => expr_has_error(*c) || exprs_have_error(args@),
    }
}

pub open spec fn exprs_have_error(s: Seq<Expr>) -> bool
    decreases s,
{
    if s.len() == 0 {
        false
    } else {
        exprs_have_error(s.drop_last()) || expr_has_error(s.last())
    }
}

pub open spec fn opt_expr_has_error(e: Option<Expr>) -> bool {
    match e {
        Some(x) => expr_has_error(x),
        None => false,
    }
}

pub open spec fn stmt_has_error(s: Stmt) -> bool
    decreases s,
{
    match s.kind {
        StmtKind::Print(e) => expr_has_error(*e),
        StmtKind::ExprStmt(e) => expr_has_error(*e),
        StmtKind::VarDecl(_, _, init) => opt_expr_has_error(init),
        StmtKind::Block(body) => stmts_have_error(body@),
        StmtKind::If(c, b, e) => expr_has_error(*c) || stmt_has_error(*b) || (match e {
            Some(x) => stmt_has_error(*x),
            None => false,
        }),
        StmtKind::While(c, b) => expr_has_error(*c) || stmt_has_error(*b),
        StmtKind::Break => false,
        StmtKind::Continue => false,
        StmtKind::For(init, c, inc, b) => opt_init_has_error(init) || opt_expr_has_error(c) || opt_expr_has_error(inc) || stmt_has_error(*b),
        StmtKind::Error => true,
    }
}

pub open spec fn opt_init_has_error(init: Option<Box<ForInit>>) -> bool
    decreases init,
{
    match init {
        Some(i) => match *i {
            ForInit::Statement(st) => stmt_has_error(st),
            ForInit::Expr(x) => expr_has_error(x),
        },
        None => false,
    }
}

pub open spec fn stmts_have_error(s: Seq<Stmt>) -> bool
    decreases s,
{
    if s.len() == 0 {
        false
    } else {
        stmts_have_error(s.drop_last()) || stmt_has_error(s.last())
    }
}

// ---------------------------------------------------------------------
// The ids of a tree's nodes, children before their parent.

pub open spec fn expr_ids(e: Expr) -> Seq<usize>
    decreases e,
{
    match e.kind {
        ExprKind::BinaryOp(_, l, r) => expr_ids(*l) + expr_ids(*r) + seq![e.id.0],
        ExprKind::UnaryOp(_, o) => expr_ids(*o) + seq![e.id.0],
        ExprKind::VarAssign(t, v) => expr_ids(*t) + expr_ids(*v) + seq![e.id.0],
        ExprKind::Call(c, args) => expr_ids(*c) + exprs_ids(args@) + seq![e.id.0],
        _ => seq![e.id.0],
    }
}

pub open spec fn exprs_ids(s: Seq<Expr>) -> Seq<usize>
    decreases s,
{
    if s.len() == 0 {
        seq![]
    } else {
        exprs_ids(s.drop_last()) + expr_ids(s.last())
    }
}

pub open spec fn opt_expr_ids(e: Option<Expr>) -> Seq<usize> {
    match e {
        Some(x) => expr_ids(x),
        None => seq![],
    }
}

pub open spec fn stmt_ids(s: Stmt) -> Seq<usize>
    decreases s,
{
    let own = seq![s.id.0];
    match s.kind {
        StmtKind::Print(e) => expr_ids(*e) + own,
        StmtKind::ExprStmt(e) => expr_ids(*e) + own,
        StmtKind::VarDecl(_, _, init) => opt_expr_ids(init) + own,
        StmtKind::Block(body) => stmts_ids(body@) + own,
        StmtKind::If(c, b, e) => expr_ids(*c) + stmt_ids(*b) + (match e {
            Some(x) => stmt_ids(*x),
            None => seq![],
        }) + own,
        StmtKind::While(c, b) => expr_ids(*c) + stmt_ids(*b) + own,
        StmtKind::For(init, c, inc, b) => opt_init_ids(init) + opt_expr_ids(c) + opt_expr_ids(inc) + stmt_ids(*b) + own,
        _ => own,
    }
}

pub open spec fn opt_init_ids(init: Option<Box<ForInit>>) -> Seq<usize>
    decreases init,
{
    match init {
        Some(i) => match *i {
            ForInit::Statement(st) => stmt_ids(st),
            ForInit::Expr(x) => expr_ids(x),
        },
        None => seq![],
    }
}

pub open spec fn stmts_ids(s: Seq<Stmt>) -> Seq<usize>
    decreases s,
{
    if s.len() == 0 {
        seq![]
    } else {
        stmts_ids(s.drop_last()) + stmt_ids(s.last())
    }
}

/// The ids in `s` rise strictly and lie in `[lo, hi)`: so no two nodes
/// share an id.
pub open spec fn ascending_in(s: Seq<usize>, lo: int, hi: int) -> bool {
    &&& forall|i: int| 0 <= i < s.len() ==> lo <= #[trigger] s[i] < hi
    &&& forall|i: int, j: int| 0 <= i < j < s.len() ==> s[i] < s[j]
}

pub proof fn lemma_ascending_concat(a: Seq<usize>, b: Seq<usize>, lo: int, mid: int, hi: int)
    requires
        ascending_in(a, lo, mid),
        ascending_in(b, mid, hi),
        lo <= mid <= hi,
    ensures
        ascending_in(a + b, lo, hi),
{
    assert forall|i: int, j: int| 0 <= i < j < (a + b).len() implies (a + b)[i] < (a + b)[j] by {
        if j < a.len() {
        } else if i >= a.len() {
            assert((a + b)[i] == b[i - a.len()]);
            assert((a + b)[j] == b[j - a.len()]);
        } else {
            assert((a + b)[i] == a[i]);
            assert((a + b)[j] == b[j - a.len()]);
        }
    }
    assert forall|i: int| 0 <= i < (a + b).len() implies lo <= #[trigger] (a + b)[i] < hi by {
        if i < a.len() {
            assert((a + b)[i] == a[i]);
        } else {
            assert((a + b)[i] == b[i - a.len()]);
        }
    }
}

/// One id in `[lo, hi)` is ascending there.
pub proof fn lemma_ids_leaf_in(id: usize, lo: int, hi: int)
    requires
        lo <= id < hi,
    ensures
        ascending_in(seq![id], lo, hi),
{
}

pub proof fn lemma_ascending_widen(a: Seq<usize>, lo: int, hi: int, lo2: int, hi2: int)
    requires
        ascending_in(a, lo, hi),
        lo2 <= lo,
        hi <= hi2,
    ensures
        ascending_in(a, lo2, hi2),
{
}

// ---------------------------------------------------------------------
// Spans of a tree that lie within a source of length `n`.

pub open spec fn span_within(s: Span, n: int) -> bool {
    s.end_spec() <= n
}

pub open spec fn expr_within(e: Expr, n: int) -> bool
    decreases e,
{
    span_within(e.span, n) && (match e.kind {
        ExprKind::BinaryOp(op, l, r) => span_within(op.span, n) && expr_within(*l, n) && expr_within(*r, n),
        ExprKind::UnaryOp(op, o) => span_within(op.span, n) && expr_within(*o, n),
        ExprKind::VarAssign(t, v) => expr_within(*t, n) && expr_within(*v, n),
        ExprKind::Call(c, args) => expr_within(*c, n) && exprs_within(args@, n),
        _ => true,
    })
}

pub open spec fn exprs_within(s: Seq<Expr>, n: int) -> bool
    decreases s,
{
    if s.len() == 0 {
        true
    } else {
        exprs_within(s.drop_last(), n) && expr_within(s.last(), n)
    }
}

pub open spec fn opt_expr_within(e: Option<Expr>, n: int) -> bool {
    match e {
        Some(x) => expr_within(x, n),
        None => true,
    }
}

pub open spec fn stmt_within(s: Stmt, n: int) -> bool
    decreases s,
{
    span_within(s.span, n) && (match s.kind {
        StmtKind::Print(e) => expr_within(*e, n),
        StmtKind::ExprStmt(e) => expr_within(*e, n),
        StmtKind::VarDecl(_, _, init) => opt_expr_within(init, n),
        StmtKind::Block(body) => stmts_within(body@, n),
        StmtKind::If(c, b, e) => expr_within(*c, n) && stmt_within(*b, n) && (match e {
            Some(x) => stmt_within(*x, n),
            None => true,
        }),
        StmtKind::While(c, b) => expr_within(*c, n) && stmt_within(*b, n),
        StmtKind::For(init, c, inc, b) => opt_init_within(init, n) && opt_expr_within(c, n) && opt_expr_within(inc, n) && stmt_within(*b, n),
        _ => true,
    })
}

pub open spec fn opt_init_within(init: Option<Box<ForInit>>, n: int) -> bool
    decreases init,
{
    match init {
        Some(i) => match *i {
            ForInit::Statement(st) => stmt_within(st, n),
            ForInit::Expr(x) => expr_within(x, n),
        },
        None => true,
    }
}

pub open spec fn stmts_within(s: Seq<Stmt>, n: int) -> bool
    decreases s,
{
    if s.len() == 0 {
        true
    } else {
        stmts_within(s.drop_last(), n) && stmt_within(s.last(), n)
    }
}


// ---------------------------------------------------------------------
// Trees as values: each name as its bytes, each id as a number.

/// What an expression node holds.
pub enum ExprShape {
    Literal(LitKind),
    BinaryOp(BinOp, Box<ExprView>, Box<ExprView>),
    UnaryOp(UnaryOp, Box<ExprView>),
    Variable(Seq<u8>),
    VarAssign(Box<ExprView>, Box<ExprView>),
    Call(Box<ExprView>, Seq<ExprView>),
    Error,
}

/// An expression as a value.
pub struct ExprView {
    pub id: nat,
    pub kind: ExprShape,
    pub span: Span,
}

/// What a statement node holds.
pub enum StmtShape {
    Print(ExprView),
    ExprStmt(ExprView),
    VarDecl(Seq<u8>, Option<Type>, Option<ExprView>),
    Block(Seq<StmtView>),
    If(ExprView, Box<StmtView>, Option<Box<StmtView>>),
    While(ExprView, Box<StmtView>),
    Break,
    Continue,
    For(Option<Box<InitView>>, Option<ExprView>, Option<ExprView>, Box<StmtView>),
    Error,
}

/// The initializer of a `for` loop as a value.
pub enum InitView {
    Statement(StmtView),
    Expr(ExprView),
}

/// A statement as a value.
pub struct StmtView {
    pub id: nat,
    pub kind: StmtShape,
    pub span: Span,
}

pub open spec fn expr_view(e: Expr) -> ExprView
    decreases e,
{
    ExprView {
        id: e.id.0 as nat,
        kind: match e.kind {
            ExprKind::Literal(l) => ExprShape::Literal(l),
            ExprKind::BinaryOp(op, l, r) => ExprShape::BinaryOp(op, Box::new(expr_view(*l)), Box::new(expr_view(*r))),
            ExprKind::UnaryOp(op, o) => ExprShape::UnaryOp(op, Box::new(expr_view(*o))),
            ExprKind::Variable(name) => ExprShape::Variable(name@),
            ExprKind::VarAssign(t, v) => ExprShape::VarAssign(Box::new(expr_view(*t)), Box::new(expr_view(*v))),
            ExprKind::Call(c, args) => ExprShape::Call(Box::new(expr_view(*c)), exprs_view(args@)),
            ExprKind::Error => ExprShape::Error,
        },
        span: e.span,
    }
}

pub open spec fn exprs_view(s: Seq<Expr>) -> Seq<ExprView>
    decreases s,
{
    if s.len() == 0 {
        seq![]
    } else {
        exprs_view(s.drop_last()).push(expr_view(s.last()))
    }
}

pub open spec fn opt_expr_view(e: Option<Expr>) -> Option<ExprView> {
    match e {
        Some(x) => Some(expr_view(x)),
        None => None,
    }
}

pub open spec fn stmt_view(s: Stmt) -> StmtView
    decreases s,
{
    StmtView {
        id: s.id.0 as nat,
        kind: match s.kind {
            StmtKind::Print(e) => StmtShape::Print(expr_view(*e)),
            StmtKind::ExprStmt(e) => StmtShape::ExprStmt(expr_view(*e)),
            StmtKind::VarDecl(name, ty, init) => StmtShape::VarDecl(name@, ty, opt_expr_view(init)),
            StmtKind::Block(body) => StmtShape::Block(stmts_view(body@)),
            StmtKind::If(c, b, e) => StmtShape::If(expr_view(*c), Box::new(stmt_view(*b)), match e {
                Some(x) => Some(Box::new(stmt_view(*x))),
                None => None,
            }),
            StmtKind::While(c, b) => StmtShape::While(expr_view(*c), Box::new(stmt_view(*b))),
            StmtKind::Break => StmtShape::Break,
            StmtKind::Continue => StmtShape::Continue,
            StmtKind::For(init, c, inc, b) => StmtShape::For(opt_init_view(init), opt_expr_view(c), opt_expr_view(inc), Box::new(stmt_view(*b))),
            StmtKind::Error => StmtShape::Error,
        },
        span: s.span,
    }
}

pub open spec fn opt_init_view(init: Option<Box<ForInit>>) -> Option<Box<InitView>>
    decreases init,
{
    match init {
        Some(i) => match *i {
            ForInit::Statement(st) => Some(Box::new(InitView::Statement(stmt_view(st)))),
            ForInit::Expr(x) => Some(Box::new(InitView::Expr(expr_view(x)))),
        },
        None => None,
    }
}

pub open spec fn stmts_view(s: Seq<Stmt>) -> Seq<StmtView>
    decreases s,
{
    if s.len() == 0 {
        seq![]
    } else {
        stmts_view(s.drop_last()).push(stmt_view(s.last()))
    }
}

} // verus!
