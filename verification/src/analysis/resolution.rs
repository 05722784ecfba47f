//! Name resolution: which declaration each variable refers to.
//!
//! Scopes nest: a block and a `for` loop open one, and a name is looked up
//! from the innermost scope out, then among the globals. The state that
//! resolution threads through a program is modelled by `RState`.
use crate::analysis::AnalysisCtx;
use crate::analysis::types::{diags_grew, err, lemma_diags_push, reports_of, Report};
use crate::diagnostics::{owned, utf8_lossy, utf8_lossy_text, Diagnostic, Severity};
use crate::parse::ast::{stmt_has_error, stmts_have_error, opt_init_has_error, opt_expr_has_error, Expr, ExprKind, ForInit, Stmt, StmtKind};
use crate::span::Span;
use vstd::prelude::*;

verus! {

broadcast use vstd::std_specs::hash::group_hash_axioms;

/// The id given to a declaration that clashes with an earlier one.
pub const ERROR_VAR: usize = usize::MAX;

/// One scope of local variables: each name with the id of its variable.
pub struct Scope {
    vars: Vec<(Vec<u8>, usize)>,
}

/// The global variables: each name with the id of its variable.
pub struct GlobalScope {
    pub globals: Vec<(Vec<u8>, usize)>,
}

/// A scope as names and ids, in the order of declaration.
pub type ScopeModel = Seq<(Seq<u8>, usize)>;

/// The id that scope `s` gives `name`, if it declares it.
pub open spec fn scope_find(s: ScopeModel, name: Seq<u8>) -> Option<usize>
    decreases s.len(),
{
    if s.len() == 0 {
        None
    } else if s.last().0 == name {
        Some(s.last().1)
    } else {
        scope_find(s.drop_last(), name)
    }
}

/// The id that the innermost of `ss` to declare `name` gives it.
pub open spec fn scopes_find(ss: Seq<ScopeModel>, name: Seq<u8>) -> Option<usize>
    decreases ss.len(),
{
    if ss.len() == 0 {
        None
    } else {
        match scope_find(ss.last(), name) {
            Some(v) => Some(v),
            None => scopes_find(ss.drop_last(), name),
        }
    }
}

impl Scope {
    /// The scope's names and ids.
    pub closed spec fn model(&self) -> ScopeModel {
        self.vars@.map_values(|p: (Vec<u8>, usize)| (p.0@, p.1))
    }

    /// A scope that declares nothing.
    pub fn new() -> (s: Self)
        ensures
            s.model() == Seq::<(Seq<u8>, usize)>::empty(),
    {
        let s = Scope { vars: Vec::new() };
        assert(s.model() =~= Seq::<(Seq<u8>, usize)>::empty());
        s
    }

    /// The id this scope gives `name`, if it declares it.
    pub fn find(&self, name: &[u8]) -> (r: Option<usize>)
        ensures
            r == scope_find(self.model(), name@),
    {
        let mut i = self.vars.len();
        assert(self.model().take(i as int) =~= self.model());
        while i > 0
            invariant
                i <= self.vars@.len(),
                scope_find(self.model(), name@) == scope_find(self.model().take(i as int), name@),
            decreases i,
        {
            let ghost m = self.model().take(i as int);
            proof {
                assert(m.drop_last() =~= self.model().take(i - 1));
                assert(m.last() == (self.vars@[i - 1].0@, self.vars@[i - 1].1));
            }
            if crate::text::bytes_eq(&self.vars[i - 1].0, name) {
                return Some(self.vars[i - 1].1);
            }
            i = i - 1;
        }
        None
    }

    /// Declares `name` with id `id`.
    pub fn declare(&mut self, name: &[u8], id: usize)
        ensures
            final(self).model() == old(self).model().push((name@, id)),
    {
        let v = vstd::slice::slice_to_vec(name);
        self.vars.push((v, id));
        assert(self.model() =~= old(self).model().push((name@, id)));
    }
}

impl GlobalScope {
    /// No globals.
    pub fn new() -> (g: Self)
        ensures
            g.globals@.len() == 0,
    {
        GlobalScope { globals: Vec::new() }
    }

    /// The globals' names and ids.
    pub open spec fn model(&self) -> ScopeModel {
        self.globals@.map_values(|p: (Vec<u8>, usize)| (p.0@, p.1))
    }

    /// The id of the global `name`, if there is one.
    pub fn find(&self, name: &[u8]) -> (r: Option<usize>)
        ensures
            r == scope_find(self.model(), name@),
    {
        let mut i = self.globals.len();
        assert(self.model().take(i as int) =~= self.model());
        while i > 0
            invariant
                i <= self.globals@.len(),
                scope_find(self.model(), name@) == scope_find(self.model().take(i as int), name@),
            decreases i,
        {
            let ghost m = self.model().take(i as int);
            proof {
                assert(m.drop_last() =~= self.model().take(i - 1));
                assert(m.last() == (self.globals@[i - 1].0@, self.globals@[i - 1].1));
            }
            if crate::text::bytes_eq(&self.globals[i - 1].0, name) {
                return Some(self.globals[i - 1].1);
            }
            i = i - 1;
        }
        None
    }
}

/// The scopes of `ctx`, innermost last.
pub open spec fn scopes_of(ctx: &AnalysisCtx) -> Seq<ScopeModel> {
    ctx.scopes@.map_values(|s: Scope| s.model())
}

/// The state that resolution threads: the scopes, the next variable id,
/// how many loops enclose, what each node refers to, and the reports given
/// so far.
pub type RState = (Seq<ScopeModel>, int, int, Map<usize, usize>, Seq<Report>);

/// The report for a use of `name` that nothing declares.
pub open spec fn undeclared_text(name: Seq<u8>) -> Seq<char> {
    "use of undeclared identifer: '"@ + utf8_lossy_text(name) + "'"@
}

/// The report for a second declaration of `name` in one scope.
pub open spec fn redeclared_text(name: Seq<u8>) -> Seq<char> {
    "redeclaration of identifer '"@ + utf8_lossy_text(name) + "'"@
}

/// Resolving expression `e` in scopes `ss` with globals `g`: the nodes'
/// variables and the reports, from `vars` and `nd`.
pub open spec fn resolve_expr_spec(e: Expr, ss: Seq<ScopeModel>, g: ScopeModel, vars: Map<usize, usize>, nd: Seq<Report>)
    -> (Map<usize, usize>, Seq<Report>)
    decreases e,
{
    match e.kind {
        ExprKind::VarAssign(target, value) => {
            let (v1, n1) = resolve_expr_spec(*value, ss, g, vars, nd);
            resolve_expr_spec(*target, ss, g, v1, n1)
        },
        ExprKind::Variable(name) => match scopes_find(ss, name@) {
            Some(id) => (vars.insert(e.id.0, id), nd),
            None => if scope_find(g, name@) is Some {
                (vars, nd)
            } else {
                (vars, nd + err(undeclared_text(name@), e.span))
            },
        },
        ExprKind::BinaryOp(_, l, r) => {
            let (v1, n1) = resolve_expr_spec(*l, ss, g, vars, nd);
            resolve_expr_spec(*r, ss, g, v1, n1)
        },
        ExprKind::UnaryOp(_, r) => resolve_expr_spec(*r, ss, g, vars, nd),
        ExprKind::Call(c, args) => {
            let (v1, n1) = resolve_expr_spec(*c, ss, g, vars, nd);
            resolve_exprs_spec(args@, ss, g, v1, n1)
        },
        _ => (vars, nd),
    }
}

pub open spec fn resolve_exprs_spec(es: Seq<Expr>, ss: Seq<ScopeModel>, g: ScopeModel, vars: Map<usize, usize>, nd: Seq<Report>)
    -> (Map<usize, usize>, Seq<Report>)
    decreases es,
{
    if es.len() == 0 {
        (vars, nd)
    } else {
        let (v1, n1) = resolve_exprs_spec(es.drop_last(), ss, g, vars, nd);
        resolve_expr_spec(es.last(), ss, g, v1, n1)
    }
}


/// Resolving statement `s` from state `st`, with globals `g`.
pub open spec fn resolve_stmt_spec(s: Stmt, st: RState, g: ScopeModel) -> RState
    decreases s,
{
    let (ss, next, depth, vars, nd) = st;
    match s.kind {
        StmtKind::VarDecl(name, _, init) => {
            let (v1, n1) = match init {
                Some(x) => resolve_expr_spec(x, ss, g, vars, nd),
                None => (vars, nd),
            };
            if scope_find(ss.last(), name@) is Some {
                (ss, next, depth, v1.insert(s.id.0, ERROR_VAR), n1 + err(redeclared_text(name@), s.span))
            } else {
                (ss.drop_last().push(ss.last().push((name@, next as usize))), next + 1, depth,
                    v1.insert(s.id.0, next as usize), n1)
            }
        },
        StmtKind::Block(body) => {
            let r = resolve_stmts_spec(body@, (ss.push(Seq::empty()), next, depth, vars, nd), g);
            (r.0.drop_last(), r.1, r.2, r.3, r.4)
        },
        StmtKind::ExprStmt(e) => {
            let (v1, n1) = resolve_expr_spec(*e, ss, g, vars, nd);
            (ss, next, depth, v1, n1)
        },
        StmtKind::Print(e) => {
            let (v1, n1) = resolve_expr_spec(*e, ss, g, vars, nd);
            (ss, next, depth, v1, n1)
        },
        StmtKind::If(c, b, e) => {
            let (v1, n1) = resolve_expr_spec(*c, ss, g, vars, nd);
            let r = resolve_stmt_spec(*b, (ss, next, depth, v1, n1), g);
            match e {
                Some(x) => resolve_stmt_spec(*x, r, g),
                None => r,
            }
        },
        StmtKind::While(c, b) => {
            let (v1, n1) = resolve_expr_spec(*c, ss, g, vars, nd);
            let r = resolve_stmt_spec(*b, (ss, next, depth + 1, v1, n1), g);
            (r.0, r.1, r.2 - 1, r.3, r.4)
        },
        StmtKind::For(init, c, inc, b) => {
            let s1 = (ss.push(Seq::empty()), next, depth, vars, nd);
            let s2 = resolve_init_spec(init, s1, g);
            let (v3, n3) = opt_resolve_expr_spec(c, s2.0, g, s2.3, s2.4);
            let (v4, n4) = opt_resolve_expr_spec(inc, s2.0, g, v3, n3);
            let r = resolve_stmt_spec(*b, (s2.0, s2.1, s2.2 + 1, v4, n4), g);
            (r.0.drop_last(), r.1, r.2 - 1, r.3, r.4)
        },
        StmtKind::Break => if depth == 0 {
            (ss, next, depth, vars, nd + err("use of 'break' statement outside loop"@, s.span))
        } else {
            st
        },
        StmtKind::Continue => if depth == 0 {
            (ss, next, depth, vars, nd + err("use of continue statement outside loop"@, s.span))
        } else {
            st
        },
        _ => st,
    }
}

/// Resolving an optional expression.
pub open spec fn opt_resolve_expr_spec(e: Option<Expr>, ss: Seq<ScopeModel>, g: ScopeModel, vars: Map<usize, usize>, nd: Seq<Report>)
    -> (Map<usize, usize>, Seq<Report>)
{
    match e {
        Some(x) => resolve_expr_spec(x, ss, g, vars, nd),
        None => (vars, nd),
    }
}

/// Resolving a `for` loop's initializer.
pub open spec fn resolve_init_spec(init: Option<Box<ForInit>>, st: RState, g: ScopeModel) -> RState
    decreases init,
{
    match init {
        Some(i) => match *i {
            ForInit::Expr(x) => {
                let (v1, n1) = resolve_expr_spec(x, st.0, g, st.3, st.4);
                (st.0, st.1, st.2, v1, n1)
            },
            ForInit::Statement(d) => resolve_stmt_spec(d, st, g),
        },
        None => st,
    }
}

pub open spec fn resolve_stmts_spec(ss: Seq<Stmt>, st: RState, g: ScopeModel) -> RState
    decreases ss,
{
    if ss.len() == 0 { st } else { resolve_stmt_spec(ss.last(), resolve_stmts_spec(ss.drop_last(), st, g), g) }
}

/// The number of declarations in `s`, at any depth.
pub open spec fn decl_count(s: Stmt) -> nat
    decreases s,
{
    match s.kind {
        StmtKind::VarDecl(..) => 1,
        StmtKind::Block(body) => decls_count(body@),
        StmtKind::If(_, b, e) => decl_count(*b) + match e {
            Some(x) => decl_count(*x),
            None => 0,
        },
        StmtKind::While(_, b) => decl_count(*b),
        StmtKind::For(init, _, _, b) => init_decl_count(init) + decl_count(*b),
        _ => 0,
    }
}

pub open spec fn init_decl_count(init: Option<Box<ForInit>>) -> nat
    decreases init,
{
    match init {
        Some(i) => match *i {
            ForInit::Statement(d) => decl_count(d),
            ForInit::Expr(_) => 0,
        },
        None => 0,
    }
}

pub open spec fn decls_count(ss: Seq<Stmt>) -> nat
    decreases ss,
{
    if ss.len() == 0 { 0 } else { decls_count(ss.drop_last()) + decl_count(ss.last()) }
}

/// How deeply loops nest in `s`.
pub open spec fn loop_nesting(s: Stmt) -> nat
    decreases s,
{
    match s.kind {
        StmtKind::Block(body) => loops_nesting(body@),
        StmtKind::If(_, b, e) => {
            let x = loop_nesting(*b);
            let y: nat = match e {
                Some(z) => loop_nesting(*z),
                None => 0,
            };
            if x >= y { x } else { y }
        },
        StmtKind::While(_, b) => 1 + loop_nesting(*b),
        StmtKind::For(init, _, _, b) => {
            let x = init_loop_nesting(init);
            let y = 1 + loop_nesting(*b);
            if x >= y { x } else { y }
        },
        _ => 0,
    }
}

pub open spec fn init_loop_nesting(init: Option<Box<ForInit>>) -> nat
    decreases init,
{
    match init {
        Some(i) => match *i {
            ForInit::Statement(d) => loop_nesting(d),
            ForInit::Expr(_) => 0,
        },
        None => 0,
    }
}

pub open spec fn loops_nesting(ss: Seq<Stmt>) -> nat
    decreases ss,
{
    if ss.len() == 0 {
        0
    } else {
        let x = loops_nesting(ss.drop_last());
        let y = loop_nesting(ss.last());
        if x >= y { x } else { y }
    }
}

/// Resolves names to variables.
pub struct Resolver {
    curr_var_id: usize,
    loop_depth: usize,
}

/// The state of resolution held by `r` and `ctx`.
pub open spec fn rstate(r: &Resolver, ctx: &AnalysisCtx) -> RState {
    (scopes_of(ctx), r.next_id() as int, r.depth() as int, ctx.variables@, reports_of(ctx.diagnostics@))
}

/// What else resolution keeps as it was in `ctx`.
pub open spec fn rest_kept(before: &AnalysisCtx, after: &AnalysisCtx) -> bool {
    &&& after.global_scope.model() == before.global_scope.model()
    &&& after.types@ == before.types@
    &&& after.var_types@ == before.var_types@
    &&& after.conversions@ == before.conversions@
    &&& after.diagnostics@.len() >= before.diagnostics@.len()
    &&& after.diagnostics@.subrange(0, before.diagnostics@.len() as int) == before.diagnostics@
}

impl Resolver {
    /// The id the next declared variable gets.
    pub closed spec fn next_id(&self) -> usize {
        self.curr_var_id
    }

    /// How many loops enclose what is being resolved.
    pub closed spec fn depth(&self) -> usize {
        self.loop_depth
    }

    /// A resolver that gives ids from 0, outside any loop.
    pub fn new() -> (r: Self)
        ensures
            r.next_id() == 0,
            r.depth() == 0,
    {
        Resolver { curr_var_id: 0, loop_depth: 0 }
    }

    /// Opens a scope.
    pub fn enter_scope(&self, ctx: &mut AnalysisCtx)
        ensures
            scopes_of(final(ctx)) == scopes_of(old(ctx)).push(Seq::empty()),
            final(ctx).scopes@.len() == old(ctx).scopes@.len() + 1,
            final(ctx).variables@ == old(ctx).variables@,
            final(ctx).diagnostics@ == old(ctx).diagnostics@,
            rest_kept(old(ctx), final(ctx)),
    {
        ctx.scopes.push(Scope::new());
        proof {
            assert(scopes_of(ctx) =~= scopes_of(old(ctx)).push(Seq::empty()));
            assert(ctx.diagnostics@.subrange(0, ctx.diagnostics@.len() as int) =~= ctx.diagnostics@);
        }
    }

    /// Closes the innermost scope.
    pub fn exit_scope(&self, ctx: &mut AnalysisCtx)
        requires
            old(ctx).scopes@.len() > 0,
        ensures
            scopes_of(final(ctx)) == scopes_of(old(ctx)).drop_last(),
            final(ctx).scopes@.len() == old(ctx).scopes@.len() - 1,
            final(ctx).variables@ == old(ctx).variables@,
            final(ctx).diagnostics@ == old(ctx).diagnostics@,
            rest_kept(old(ctx), final(ctx)),
    {
        ctx.scopes.pop();
        proof {
            assert(scopes_of(ctx) =~= scopes_of(old(ctx)).drop_last());
            assert(ctx.diagnostics@.subrange(0, ctx.diagnostics@.len() as int) =~= ctx.diagnostics@);
        }
    }
}

/// What a name refers to: a local variable or a global one.
#[derive(Debug, Clone, Copy, PartialEq, Eq, Structural)]
pub enum VariableId {
    Local(usize),
    Global(usize),
}

/// Reports `message` about `span`.
fn report_msg(ctx: &mut AnalysisCtx, message: String, span: Span)
    ensures
        diags_grew(old(ctx).diagnostics@, final(ctx).diagnostics@, err(message@, span)),
        final(ctx).scopes@ == old(ctx).scopes@,
        scopes_of(final(ctx)) == scopes_of(old(ctx)),
        final(ctx).variables@ == old(ctx).variables@,
        rest_kept(old(ctx), final(ctx)),
{
    let ghost before = ctx.diagnostics@;
    let d = Diagnostic::new(message, span, Severity::Error);
    ctx.diagnostics.push(d);
    proof {
        lemma_diags_push(before, d);
        assert(scopes_of(ctx) =~= scopes_of(old(ctx)));
    }
}

impl Resolver {
    /// What `name` refers to: the innermost local that declares it, or else
    /// a global.
    pub fn lookup_var(&self, name: &[u8], ctx: &AnalysisCtx) -> (r: Option<VariableId>)
        ensures
            r == match scopes_find(scopes_of(ctx), name@) {
                Some(v) => Some(VariableId::Local(v)),
                None => match scope_find(ctx.global_scope.model(), name@) {
                    Some(x) => Some(VariableId::Global(x)),
                    None => None,
                },
            },
    {
        let ghost ss = scopes_of(ctx);
        let mut i = ctx.scopes.len();
        proof { assert(ss.take(i as int) =~= ss); }
        while i > 0
            invariant
                i <= ctx.scopes@.len(),
                ss == scopes_of(ctx),
                scopes_find(ss, name@) == scopes_find(ss.take(i as int), name@),
            decreases i,
        {
            proof {
                assert(ss.take(i as int).drop_last() =~= ss.take(i - 1));
                assert(ss.take(i as int).last() == ctx.scopes@[i - 1].model());
            }
            match ctx.scopes[i - 1].find(name) {
                Some(v) => {
                    return Some(VariableId::Local(v));
                },
                None => {},
            }
            i = i - 1;
        }
        match ctx.global_scope.find(name) {
            Some(x) => Some(VariableId::Global(x)),
            None => None,
        }
    }

    /// Declares `name` in the innermost scope and gives its id; a name that
    /// scope already declares is reported and gets `ERROR_VAR`.
    pub fn declare_var(&mut self, name: &[u8], ctx: &mut AnalysisCtx, span: Span) -> (id: usize)
        requires
            old(ctx).scopes@.len() > 0,
            old(self).next_id() < usize::MAX,
        ensures
            ({
                let ss = scopes_of(old(ctx));
                if scope_find(ss.last(), name@) is Some {
                    &&& id == ERROR_VAR
                    &&& scopes_of(final(ctx)) == ss
                    &&& final(self).next_id() == old(self).next_id()
                    &&& diags_grew(old(ctx).diagnostics@, final(ctx).diagnostics@, err(redeclared_text(name@), span))
                } else {
                    &&& id == old(self).next_id()
                    &&& scopes_of(final(ctx)) == ss.drop_last().push(ss.last().push((name@, id)))
                    &&& final(self).next_id() == old(self).next_id() + 1
                    &&& final(ctx).diagnostics@ == old(ctx).diagnostics@
                }
            }),
            final(self).depth() == old(self).depth(),
            final(ctx).variables@ == old(ctx).variables@,
            rest_kept(old(ctx), final(ctx)),
    {
        let n = ctx.scopes.len();
        if ctx.scopes[n - 1].find(name).is_some() {
            let lossy = utf8_lossy(name);
            let msg = String::from_str("redeclaration of identifer '").concat(lossy.as_str()).concat("'");
            report_msg(ctx, msg, span);
            return ERROR_VAR;
        }
        let id = self.curr_var_id;
        let mut top = ctx.scopes.pop().unwrap();
        top.declare(name, id);
        ctx.scopes.push(top);
        self.curr_var_id = self.curr_var_id + 1;
        proof {
            let ss = scopes_of(old(ctx));
            assert(scopes_of(ctx) =~= ss.drop_last().push(ss.last().push((name@, id))));
            assert(ctx.diagnostics@.subrange(0, ctx.diagnostics@.len() as int) =~= ctx.diagnostics@);
        }
        id
    }

    /// Records what each variable node of `expr` refers to, as
    /// `resolve_expr_spec` says, and reports names that nothing declares.
    pub fn resolve_expr(&mut self, expr: &Expr, ctx: &mut AnalysisCtx)
        ensures
            ({
                let (v, n) = resolve_expr_spec(*expr, scopes_of(old(ctx)), old(ctx).global_scope.model(),
                    old(ctx).variables@, reports_of(old(ctx).diagnostics@));
                &&& final(ctx).variables@ == v
                &&& reports_of(final(ctx).diagnostics@) == n
            }),
            scopes_of(final(ctx)) == scopes_of(old(ctx)),
            *final(self) == *old(self),
            rest_kept(old(ctx), final(ctx)),
        decreases *expr,
    {
        proof {
            assert(ctx.diagnostics@.subrange(0, ctx.diagnostics@.len() as int) =~= ctx.diagnostics@);
        }
        match &expr.kind {
            ExprKind::VarAssign(target, value) => {
                self.resolve_expr(value, ctx);
                let ghost c1 = *ctx;
                self.resolve_expr(target, ctx);
                proof { lemma_rest_kept_trans(old(ctx), &c1, ctx); }
            },
            ExprKind::Variable(name) => match self.lookup_var(name, ctx) {
                Some(VariableId::Local(id)) => {
                    ctx.variables.insert(expr.id.0, id);
                    proof {
                        assert(scopes_of(ctx) =~= scopes_of(old(ctx)));
                    }
                },
                Some(VariableId::Global(_)) => {},
                None => {
                    let lossy = utf8_lossy(name);
                    let msg = String::from_str("use of undeclared identifer: '").concat(lossy.as_str()).concat("'");
                    report_msg(ctx, msg, expr.span);
                },
            },
            ExprKind::BinaryOp(_, left, right) => {
                self.resolve_expr(left, ctx);
                let ghost c1 = *ctx;
                self.resolve_expr(right, ctx);
                proof { lemma_rest_kept_trans(old(ctx), &c1, ctx); }
            },
            ExprKind::UnaryOp(_, right) => {
                self.resolve_expr(right, ctx);
            },
            ExprKind::Call(callee, args) => {
                self.resolve_expr(callee, ctx);
                let ghost c1 = *ctx;
                let ghost ss = scopes_of(ctx);
                let ghost g = ctx.global_scope.model();
                let ghost st1 = (ctx.variables@, reports_of(ctx.diagnostics@));
                proof {
                    assert(args@.take(0) =~= Seq::<Expr>::empty());
                    assert(ctx.diagnostics@.subrange(0, ctx.diagnostics@.len() as int) =~= ctx.diagnostics@);
                }
                let mut i: usize = 0;
                while i < args.len()
                    invariant
                        0 <= i <= args@.len(),
                        expr.kind == ExprKind::Call(*callee, *args),
                        scopes_of(ctx) == ss,
                        ctx.global_scope.model() == g,
                        *self == *old(self),
                        rest_kept(&c1, ctx),
                        (ctx.variables@, reports_of(ctx.diagnostics@)) == resolve_exprs_spec(args@.take(i as int), ss, g, st1.0, st1.1),
                    decreases args@.len() - i,
                {
                    proof {
                        assert(args@.take(i + 1).drop_last() =~= args@.take(i as int));
                        assert(decreases_to!(*expr => expr.kind));
                        assert(decreases_to!(expr.kind => expr.kind->Call_1));
                        assert(decreases_to!(expr.kind->Call_1 => expr.kind->Call_1@));
                        assert(decreases_to!(expr.kind->Call_1@ => expr.kind->Call_1@[i as int]));
                    }
                    let ghost c2 = *ctx;
                    self.resolve_expr(&args[i], ctx);
                    proof { lemma_rest_kept_trans(&c1, &c2, ctx); }
                    i = i + 1;
                }
                proof {
                    assert(args@.take(args@.len() as int) =~= args@);
                    lemma_rest_kept_trans(old(ctx), &c1, ctx);
                }
            },
            _ => {},
        }
    }
}

/// `rest_kept` composes.
pub proof fn lemma_rest_kept_trans(a: &AnalysisCtx, b: &AnalysisCtx, c: &AnalysisCtx)
    requires
        rest_kept(a, b),
        rest_kept(b, c),
    ensures
        rest_kept(a, c),
{
    assert(c.diagnostics@.subrange(0, a.diagnostics@.len() as int)
        =~= c.diagnostics@.subrange(0, b.diagnostics@.len() as int).subrange(0, a.diagnostics@.len() as int));
}

/// Facts about the statements before `n` and the one at `n`: counts add up
/// and are bounded by those of all of `ss`.
pub proof fn lemma_prefix_counts(ss: Seq<Stmt>, n: int)
    requires
        0 <= n < ss.len(),
    ensures
        decls_count(ss.take(n + 1)) == decls_count(ss.take(n)) + decl_count(ss[n]),
        decls_count(ss.take(n + 1)) <= decls_count(ss),
        loop_nesting(ss[n]) <= loops_nesting(ss),
        !stmts_have_error(ss) ==> !stmt_has_error(ss[n]),
    decreases ss.len(),
{
    assert(ss.take(n + 1).drop_last() =~= ss.take(n));
    if n + 1 < ss.len() {
        lemma_prefix_counts(ss.drop_last(), n);
        assert(ss.drop_last().take(n + 1) =~= ss.take(n + 1));
        assert(ss.drop_last()[n] == ss[n]);
    } else {
        assert(ss.take(n + 1) =~= ss);
    }
}

/// `st` with a new innermost scope.
pub open spec fn open_scope(st: RState) -> RState {
    (st.0.push(Seq::empty()), st.1, st.2, st.3, st.4)
}

/// What resolving `s` from `before` must keep in bounds.
pub open spec fn can_resolve(r: &Resolver, ctx: &AnalysisCtx, s: Stmt) -> bool {
    &&& ctx.scopes@.len() > 0
    &&& r.next_id() + decl_count(s) <= usize::MAX
    &&& r.depth() + loop_nesting(s) <= usize::MAX
    &&& !stmt_has_error(s)
}

/// `after` is `before` resolved through `s`, as `resolve_stmt_spec` says.
pub open spec fn resolved(r0: &Resolver, c0: &AnalysisCtx, r1: &Resolver, c1: &AnalysisCtx, s: Stmt) -> bool {
    &&& rstate(r1, c1) == resolve_stmt_spec(s, rstate(r0, c0), c0.global_scope.model())
    &&& rest_kept(c0, c1)
    &&& c1.scopes@.len() == c0.scopes@.len()
    &&& r1.depth() == r0.depth()
    &&& r0.next_id() <= r1.next_id() <= r0.next_id() + decl_count(s)
}

impl Resolver {
    /// Resolves `stmt`: declares its variables, records what its variable
    /// nodes refer to, and reports undeclared names, redeclarations, and
    /// `break` or `continue` outside a loop.
    #[verifier::spinoff_prover]
    pub fn resolve_stmt(&mut self, stmt: &Stmt, ctx: &mut AnalysisCtx)
        requires
            can_resolve(old(self), old(ctx), *stmt),
        ensures
            resolved(old(self), old(ctx), final(self), final(ctx), *stmt),
        decreases *stmt, 1nat,
    {
        match &stmt.kind {
            StmtKind::VarDecl(..) => self.resolve_vardecl(stmt, ctx),
            StmtKind::Block(body) => {
                proof {
                    assert(decreases_to!(*stmt => stmt.kind));
                    assert(decreases_to!(stmt.kind => stmt.kind->Block_0));
                    assert(decreases_to!(stmt.kind->Block_0 => stmt.kind->Block_0@));
                }
                self.resolve_block(body.as_slice(), ctx);
            },
            StmtKind::ExprStmt(e) | StmtKind::Print(e) => {
                self.resolve_expr(e, ctx);
            },
            StmtKind::If(..) => self.resolve_if(stmt, ctx),
            StmtKind::While(..) => self.resolve_while(stmt, ctx),
            StmtKind::For(..) => self.resolve_for(stmt, ctx),
            StmtKind::Break | StmtKind::Continue => {
                if self.loop_depth == 0 {
                    if let StmtKind::Break = stmt.kind {
                        report_msg(ctx, owned("use of 'break' statement outside loop"), stmt.span);
                    } else {
                        report_msg(ctx, owned("use of continue statement outside loop"), stmt.span);
                    }
                } else {
                    proof { assert(ctx.diagnostics@.subrange(0, ctx.diagnostics@.len() as int) =~= ctx.diagnostics@); }
                }
            },
            StmtKind::Error => {
                proof { assert(false); }
            },
        }
    }

    fn resolve_vardecl(&mut self, stmt: &Stmt, ctx: &mut AnalysisCtx)
        requires
            stmt.kind is VarDecl,
            can_resolve(old(self), old(ctx), *stmt),
        ensures
            resolved(old(self), old(ctx), final(self), final(ctx), *stmt),
    {
        if let StmtKind::VarDecl(name, _, init) = &stmt.kind {
            let ghost c0 = *ctx;
            if let Some(initializer) = init {
                self.resolve_expr(initializer, ctx);
            } else {
                proof { assert(ctx.diagnostics@.subrange(0, ctx.diagnostics@.len() as int) =~= ctx.diagnostics@); }
            }
            let ghost c1 = *ctx;
            let varid = self.declare_var(name, ctx, stmt.span);
            let ghost c2 = *ctx;
            ctx.variables.insert(stmt.id.0, varid);
            proof {
                assert(scopes_of(ctx) =~= scopes_of(&c2));
                assert(ctx.diagnostics@.subrange(0, c2.diagnostics@.len() as int) =~= c2.diagnostics@);
                lemma_rest_kept_trans(&c0, &c1, &c2);
                lemma_rest_kept_trans(&c0, &c2, ctx);
            }
        }
    }

    /// Resolves the statements of a block in a scope of their own.
    pub fn resolve_block(&mut self, body: &[Stmt], ctx: &mut AnalysisCtx)
        requires
            old(self).next_id() + decls_count(body@) <= usize::MAX,
            old(self).depth() + loops_nesting(body@) <= usize::MAX,
            !stmts_have_error(body@),
        ensures
            ({
                let r = resolve_stmts_spec(body@, open_scope(rstate(old(self), old(ctx))), old(ctx).global_scope.model());
                rstate(final(self), final(ctx)) == (r.0.drop_last(), r.1, r.2, r.3, r.4)
            }),
            rest_kept(old(ctx), final(ctx)),
            final(ctx).scopes@.len() == old(ctx).scopes@.len(),
            final(self).depth() == old(self).depth(),
            old(self).next_id() <= final(self).next_id() <= old(self).next_id() + decls_count(body@),
        decreases body@, 2nat,
    {
        let ghost g = ctx.global_scope.model();
        let ghost st0 = open_scope(rstate(self, ctx));
        let ghost n0 = self.next_id();
        self.enter_scope(ctx);
        let ghost c1 = *ctx;
        proof { assert(body@.take(0) =~= Seq::<Stmt>::empty()); }
        let mut i: usize = 0;
        while i < body.len()
            invariant
                0 <= i <= body@.len(),
                ctx.scopes@.len() == old(ctx).scopes@.len() + 1,
                ctx.global_scope.model() == g,
                rest_kept(&c1, ctx),
                self.depth() == old(self).depth(),
                n0 == old(self).next_id(),
                n0 + decls_count(body@) <= usize::MAX,
                old(self).depth() + loops_nesting(body@) <= usize::MAX,
                !stmts_have_error(body@),
                n0 <= self.next_id() <= n0 + decls_count(body@.take(i as int)),
                rstate(self, ctx) == resolve_stmts_spec(body@.take(i as int), st0, g),
            decreases body@.len() - i,
        {
            proof {
                lemma_prefix_counts(body@, i as int);
                assert(body@.take(i + 1).drop_last() =~= body@.take(i as int));
                assert(decreases_to!(body@ => body@[i as int]));
            }
            let ghost c2 = *ctx;
            self.resolve_stmt(&body[i], ctx);
            proof { lemma_rest_kept_trans(&c1, &c2, ctx); }
            i = i + 1;
        }
        proof { assert(body@.take(body@.len() as int) =~= body@); }
        let ghost c3 = *ctx;
        self.exit_scope(ctx);
        proof {
            lemma_rest_kept_trans(old(ctx), &c1, &c3);
            lemma_rest_kept_trans(old(ctx), &c3, ctx);
        }
    }
}

impl Resolver {
    fn resolve_if(&mut self, stmt: &Stmt, ctx: &mut AnalysisCtx)
        requires
            stmt.kind is If,
            can_resolve(old(self), old(ctx), *stmt),
        ensures
            resolved(old(self), old(ctx), final(self), final(ctx), *stmt),
        decreases *stmt, 0nat,
    {
        if let StmtKind::If(cond, body, else_body) = &stmt.kind {
            self.resolve_expr(cond, ctx);
            let ghost c1 = *ctx;
            let ghost r1 = *self;
            self.resolve_stmt(body, ctx);
            let ghost c2 = *ctx;
            proof { lemma_rest_kept_trans(old(ctx), &c1, &c2); }
            if let Some(e) = else_body {
                self.resolve_stmt(e, ctx);
                proof { lemma_rest_kept_trans(old(ctx), &c2, ctx); }
            }
        }
    }

    fn resolve_while(&mut self, stmt: &Stmt, ctx: &mut AnalysisCtx)
        requires
            stmt.kind is While,
            can_resolve(old(self), old(ctx), *stmt),
        ensures
            resolved(old(self), old(ctx), final(self), final(ctx), *stmt),
        decreases *stmt, 0nat,
    {
        if let StmtKind::While(cond, body) = &stmt.kind {
            self.resolve_expr(cond, ctx);
            let ghost c1 = *ctx;
            self.loop_depth = self.loop_depth + 1;
            self.resolve_stmt(body, ctx);
            self.loop_depth = self.loop_depth - 1;
            proof { lemma_rest_kept_trans(old(ctx), &c1, ctx); }
        }
    }

    fn resolve_for(&mut self, stmt: &Stmt, ctx: &mut AnalysisCtx)
        requires
            stmt.kind is For,
            can_resolve(old(self), old(ctx), *stmt),
        ensures
            resolved(old(self), old(ctx), final(self), final(ctx), *stmt),
        decreases *stmt, 0nat,
    {
        let ghost g = ctx.global_scope.model();
        let ghost s1 = open_scope(rstate(self, ctx));
        if let StmtKind::For(init, cond, incre, body) = &stmt.kind {
            self.enter_scope(ctx);
            let ghost c1 = *ctx;
            assert(rstate(self, ctx) == s1);
            match init {
                Some(first) => match &**first {
                    ForInit::Expr(expr) => {
                        self.resolve_expr(expr, ctx);
                    },
                    ForInit::Statement(decl) => {
                        proof {
                            assert(init_decl_count(*init) == decl_count(*decl));
                            assert(init_loop_nesting(*init) == loop_nesting(*decl));
                            assert(opt_init_has_error(*init) == stmt_has_error(*decl));
                        }
                        self.resolve_stmt(decl, ctx);
                    },
                },
                None => {
                    proof { assert(ctx.diagnostics@.subrange(0, ctx.diagnostics@.len() as int) =~= ctx.diagnostics@); }
                },
            }
            let ghost c2 = *ctx;
            let ghost s2 = resolve_init_spec(*init, s1, g);
            assert(rstate(self, ctx) == s2);
            proof { lemma_rest_kept_trans(old(ctx), &c1, &c2); }
            if let Some(c) = cond {
                self.resolve_expr(c, ctx);
            }
            let ghost c3 = *ctx;
            proof {
                if cond.is_none() {
                    assert(c3.diagnostics@.subrange(0, c2.diagnostics@.len() as int) =~= c2.diagnostics@);
                }
                lemma_rest_kept_trans(old(ctx), &c2, &c3);
            }
            if let Some(x) = incre {
                self.resolve_expr(x, ctx);
            }
            let ghost c4 = *ctx;
            let ghost e3 = opt_resolve_expr_spec(*cond, s2.0, g, s2.3, s2.4);
            let ghost e4 = opt_resolve_expr_spec(*incre, s2.0, g, e3.0, e3.1);
            assert(ctx.variables@ == e4.0 && reports_of(ctx.diagnostics@) == e4.1);
            proof {
                if incre.is_none() {
                    assert(c4.diagnostics@.subrange(0, c3.diagnostics@.len() as int) =~= c3.diagnostics@);
                }
                lemma_rest_kept_trans(old(ctx), &c3, &c4);
            }
            self.loop_depth = self.loop_depth + 1;
            self.resolve_stmt(body, ctx);
            self.loop_depth = self.loop_depth - 1;
            let ghost c5 = *ctx;
            self.exit_scope(ctx);
            proof {
                lemma_rest_kept_trans(old(ctx), &c4, &c5);
                lemma_rest_kept_trans(old(ctx), &c5, ctx);
            }
        }
    }
}

/// `decl_count(s)`, computed, or `None` where it passes `usize::MAX`.
pub fn decl_count_of(s: &Stmt) -> (r: Option<usize>)
    ensures
        match r {
            Some(n) => n == decl_count(*s),
            None => decl_count(*s) > usize::MAX,
        },
    decreases s,
{
    match &s.kind {
        StmtKind::VarDecl(..) => Some(1),
        StmtKind::Block(body) => {
            let ghost bs = body@;
            let mut n: usize = 0;
            let mut i: usize = 0;
            proof {
                assert(bs.take(0) =~= Seq::<Stmt>::empty());
            }
            while i < body.len()
                invariant
                    0 <= i <= bs.len(),
                    bs == body@,
                    s.kind == StmtKind::Block(*body),
                    n == decls_count(bs.take(i as int)),
                decreases bs.len() - i,
            {
                proof {
                    assert(bs.take(i + 1).drop_last() =~= bs.take(i as int));
                    assert(decreases_to!(*s => s.kind));
                    assert(decreases_to!(s.kind => s.kind->Block_0));
                    assert(decreases_to!(s.kind->Block_0 => s.kind->Block_0@));
                    assert(decreases_to!(s.kind->Block_0@ => s.kind->Block_0@[i as int]));
                }
                let c = match decl_count_of(&body[i]) {
                    Some(c) => c,
                    None => {
                        proof {
                            lemma_decls_count_prefix(bs, i + 1);
                        }
                        return None;
                    },
                };
                n = match n.checked_add(c) {
                    Some(x) => x,
                    None => {
                        proof {
                            lemma_decls_count_prefix(bs, i + 1);
                        }
                        return None;
                    },
                };
                i = i + 1;
            }
            proof {
                assert(bs.take(bs.len() as int) =~= bs);
            }
            Some(n)
        },
        StmtKind::If(_, b, e) => {
            let x = match decl_count_of(b) {
                Some(x) => x,
                None => {
                    return None;
                },
            };
            let y = match e {
                Some(z) => match decl_count_of(z) {
                    Some(y) => y,
                    None => {
                        return None;
                    },
                },
                None => 0,
            };
            x.checked_add(y)
        },
        StmtKind::While(_, b) => decl_count_of(b),
        StmtKind::For(init, _, _, b) => {
            let x: usize = match init {
                Some(i) => match &**i {
                    ForInit::Statement(d) => match decl_count_of(d) {
                        Some(x) => x,
                        None => {
                            assert(init_decl_count(*init) == decl_count(*d));
                            return None;
                        },
                    },
                    ForInit::Expr(_) => 0,
                },
                None => 0,
            };
            assert(x == init_decl_count(*init));
            let y = match decl_count_of(b) {
                Some(y) => y,
                None => {
                    return None;
                },
            };
            x.checked_add(y)
        },
        _ => Some(0),
    }
}

/// The count of a prefix of statements is at most that of all of them.
pub proof fn lemma_decls_count_prefix(ss: Seq<Stmt>, n: int)
    requires
        0 <= n <= ss.len(),
    ensures
        decls_count(ss.take(n)) <= decls_count(ss),
        loops_nesting(ss.take(n)) <= loops_nesting(ss),
    decreases ss.len(),
{
    if n < ss.len() {
        lemma_decls_count_prefix(ss.drop_last(), n);
        assert(ss.drop_last().take(n) =~= ss.take(n));
    } else {
        assert(ss.take(n) =~= ss);
    }
}

/// `decls_count(ss)`, computed, or `None` where it passes `usize::MAX`.
pub fn decls_count_of(ss: &Vec<Stmt>) -> (r: Option<usize>)
    ensures
        match r {
            Some(n) => n == decls_count(ss@),
            None => decls_count(ss@) > usize::MAX,
        },
{
    let mut n: usize = 0;
    let mut i: usize = 0;
    proof {
        assert(ss@.take(0) =~= Seq::<Stmt>::empty());
    }
    while i < ss.len()
        invariant
            0 <= i <= ss@.len(),
            n == decls_count(ss@.take(i as int)),
        decreases ss@.len() - i,
    {
        proof {
            assert(ss@.take(i + 1).drop_last() =~= ss@.take(i as int));
        }
        let c = match decl_count_of(&ss[i]) {
            Some(c) => c,
            None => {
                proof {
                    lemma_decls_count_prefix(ss@, i + 1);
                }
                return None;
            },
        };
        n = match n.checked_add(c) {
            Some(x) => x,
            None => {
                proof {
                    lemma_decls_count_prefix(ss@, i + 1);
                }
                return None;
            },
        };
        i = i + 1;
    }
    proof {
        assert(ss@.take(ss@.len() as int) =~= ss@);
    }
    Some(n)
}

/// `loop_nesting(s)`, computed, or `None` where it passes `usize::MAX`.
pub fn loop_nesting_of(s: &Stmt) -> (r: Option<usize>)
    ensures
        match r {
            Some(n) => n == loop_nesting(*s),
            None => loop_nesting(*s) > usize::MAX,
        },
    decreases s,
{
    match &s.kind {
        StmtKind::Block(body) => {
            let ghost bs = body@;
            let mut n: usize = 0;
            let mut i: usize = 0;
            proof {
                assert(bs.take(0) =~= Seq::<Stmt>::empty());
            }
            while i < body.len()
                invariant
                    0 <= i <= bs.len(),
                    bs == body@,
                    s.kind == StmtKind::Block(*body),
                    n == loops_nesting(bs.take(i as int)),
                decreases bs.len() - i,
            {
                proof {
                    assert(bs.take(i + 1).drop_last() =~= bs.take(i as int));
                    assert(decreases_to!(*s => s.kind));
                    assert(decreases_to!(s.kind => s.kind->Block_0));
                    assert(decreases_to!(s.kind->Block_0 => s.kind->Block_0@));
                    assert(decreases_to!(s.kind->Block_0@ => s.kind->Block_0@[i as int]));
                }
                let c = match loop_nesting_of(&body[i]) {
                    Some(c) => c,
                    None => {
                        proof {
                            lemma_decls_count_prefix(bs, i + 1);
                        }
                        return None;
                    },
                };
                if c > n {
                    n = c;
                }
                i = i + 1;
            }
            proof {
                assert(bs.take(bs.len() as int) =~= bs);
            }
            Some(n)
        },
        StmtKind::If(_, b, e) => {
            let x = match loop_nesting_of(b) {
                Some(x) => x,
                None => {
                    return None;
                },
            };
            let y = match e {
                Some(z) => match loop_nesting_of(z) {
                    Some(y) => y,
                    None => {
                        return None;
                    },
                },
                None => 0,
            };
            Some(if x >= y { x } else { y })
        },
        StmtKind::While(_, b) => match loop_nesting_of(b) {
            Some(x) => x.checked_add(1),
            None => None,
        },
        StmtKind::For(init, _, _, b) => {
            let x: usize = match init {
                Some(i) => match &**i {
                    ForInit::Statement(d) => match loop_nesting_of(d) {
                        Some(x) => x,
                        None => {
                            assert(init_loop_nesting(*init) == loop_nesting(*d));
                            return None;
                        },
                    },
                    ForInit::Expr(_) => 0,
                },
                None => 0,
            };
            assert(x == init_loop_nesting(*init));
            let y = match loop_nesting_of(b) {
                Some(y) => match y.checked_add(1) {
                    Some(y) => y,
                    None => {
                        return None;
                    },
                },
                None => {
                    return None;
                },
            };
            Some(if x >= y { x } else { y })
        },
        _ => Some(0),
    }
}

/// `loops_nesting(ss)`, computed, or `None` where it passes `usize::MAX`.
pub fn loops_nesting_of(ss: &Vec<Stmt>) -> (r: Option<usize>)
    ensures
        match r {
            Some(n) => n == loops_nesting(ss@),
            None => loops_nesting(ss@) > usize::MAX,
        },
{
    let mut n: usize = 0;
    let mut i: usize = 0;
    proof {
        assert(ss@.take(0) =~= Seq::<Stmt>::empty());
    }
    while i < ss.len()
        invariant
            0 <= i <= ss@.len(),
            n == loops_nesting(ss@.take(i as int)),
        decreases ss@.len() - i,
    {
        proof {
            assert(ss@.take(i + 1).drop_last() =~= ss@.take(i as int));
        }
        let c = match loop_nesting_of(&ss[i]) {
            Some(c) => c,
            None => {
                proof {
                    lemma_decls_count_prefix(ss@, i + 1);
                }
                return None;
            },
        };
        if c > n {
            n = c;
        }
        i = i + 1;
    }
    proof {
        assert(ss@.take(ss@.len() as int) =~= ss@);
    }
    Some(n)
}

/// A name just declared in a scope is found with its new id, which hides
/// any earlier declaration of it; other names are found as before.
pub proof fn lemma_find_after_declare(m: ScopeModel, name: Seq<u8>, id: usize, other: Seq<u8>)
    ensures
        scope_find(m.push((name, id)), name) == Some(id),
        other != name ==> scope_find(m.push((name, id)), other) == scope_find(m, other),
{
    assert(m.push((name, id)).drop_last() =~= m);
}

/// A name is looked up in the innermost scope that declares it: a
/// declaration in the innermost scope hides those of the scopes around it.
pub proof fn lemma_inner_scope_hides(ss: Seq<ScopeModel>, inner: ScopeModel, name: Seq<u8>)
    ensures
        scope_find(inner, name) is Some ==> scopes_find(ss.push(inner), name) == scope_find(inner, name),
        scope_find(inner, name) is None ==> scopes_find(ss.push(inner), name) == scopes_find(ss, name),
{
    assert(ss.push(inner).drop_last() =~= ss);
}

} // verus!
