//! Semantic analysis: name resolution and type checking, and what they
//! hand to the code generator.
pub mod hir;
pub mod ids;
pub mod resolution;
pub mod types;

use crate::analysis::resolution::{decls_count, loops_nesting, open_scope, resolve_stmts_spec, GlobalScope, Resolver, Scope};
use crate::analysis::types::{stmt_probe, stmts_checkable, stmts_diags, stmts_vt, stmts_tm, stmts_cv, lemma_stmts_checkable_prefix, Conversion, Type, TypeChecker};
use crate::analysis::types::{diags_grew, lemma_reports_append, reports_of, Report};
use crate::diagnostics::Diagnostic;
use crate::parse::ast::{stmts_have_error, Program, Stmt};
use std::collections::HashMap;
use vstd::prelude::*;

verus! {

/// What analysis found out about a program, keyed by node id and by
/// variable id.
pub struct AnalysisResult {
    /// The type of each expression node.
    pub types: HashMap<usize, Type>,
    /// The variable that each variable node and declaration refers to.
    pub variables: HashMap<usize, usize>,
    /// The type of each variable.
    pub var_types: HashMap<usize, Type>,
    /// The conversions applied to expression nodes.
    pub conversions: HashMap<usize, Conversion>,
}

impl AnalysisResult {
    /// A result that knows nothing yet.
    pub fn new() -> (r: Self)
        ensures
            r.types@ == Map::<usize, Type>::empty(),
            r.variables@ == Map::<usize, usize>::empty(),
            r.var_types@ == Map::<usize, Type>::empty(),
            r.conversions@ == Map::<usize, Conversion>::empty(),
    {
        AnalysisResult {
            types: HashMap::new(),
            variables: HashMap::new(),
            var_types: HashMap::new(),
            conversions: HashMap::new(),
        }
    }
}

/// What analysis gathers about a program as it goes, and where it reports.
pub struct AnalysisCtx<'diag> {
    /// The scopes of local variables, innermost last.
    pub scopes: Vec<Scope>,
    /// The global variables.
    pub global_scope: GlobalScope,
    /// The type of each expression node.
    pub types: HashMap<usize, Type>,
    /// The variable that each variable node and declaration refers to.
    pub variables: HashMap<usize, usize>,
    /// The type of each variable.
    pub var_types: HashMap<usize, Type>,
    /// The conversions applied to expression nodes.
    pub conversions: HashMap<usize, Conversion>,
    /// Where errors are reported.
    pub diagnostics: &'diag mut Vec<Diagnostic>,
}

impl<'diag> AnalysisCtx<'diag> {
    /// A context that knows nothing yet and reports to `diagnostics`.
    pub fn new(diagnostics: &'diag mut Vec<Diagnostic>) -> (c: Self)
        ensures
            c.types@ == Map::<usize, Type>::empty(),
            c.variables@ == Map::<usize, usize>::empty(),
            c.var_types@ == Map::<usize, Type>::empty(),
            c.conversions@ == Map::<usize, Conversion>::empty(),
            c.diagnostics@ == old(diagnostics)@,
            c.scopes@.len() == 0,
            c.global_scope.globals@.len() == 0,
    {
        AnalysisCtx {
            scopes: Vec::new(),
            global_scope: GlobalScope::new(),
            types: HashMap::new(),
            variables: HashMap::new(),
            var_types: HashMap::new(),
            conversions: HashMap::new(),
            diagnostics,
        }
    }

    /// The result of analysis, without the reports.
    pub fn into_result(self) -> (r: AnalysisResult)
        ensures
            r.types@ == self.types@,
            r.variables@ == self.variables@,
            r.var_types@ == self.var_types@,
            r.conversions@ == self.conversions@,
    {
        AnalysisResult {
            types: self.types,
            variables: self.variables,
            var_types: self.var_types,
            conversions: self.conversions,
        }
    }
}


/// The variables that resolving `body` at the top of a program finds, and
/// the reports it gives.
pub open spec fn resolution_of(body: Seq<Stmt>) -> (Map<usize, usize>, Seq<Report>) {
    let r = resolve_stmts_spec(body, open_scope((Seq::empty(), 0, 0, Map::empty(), Seq::empty())), Seq::empty());
    (r.3, r.4)
}

/// The reports that analysing `body` gives: those of name resolution, then,
/// when there are none and checking can run, those of type checking.
pub open spec fn analysis_reports(body: Seq<Stmt>) -> Seq<Report> {
    let (vars, found) = resolution_of(body);
    found + if found.len() == 0 && stmts_checkable(body, vars, Map::empty()) {
        stmts_diags(body, vars, Map::empty())
    } else {
        seq![]
    }
}

/// Whether each statement of `stmts` is checkable in turn from the types
/// in `vt`, which then holds the types after them.
pub fn stmts_probe(stmts: &Vec<Stmt>, vars: &HashMap<usize, usize>, vt: &mut HashMap<usize, Type>) -> (r: bool)
    ensures
        r == stmts_checkable(stmts@, vars@, old(vt)@),
        r ==> final(vt)@ == stmts_vt(stmts@, vars@, old(vt)@),
{
    let ghost vt0 = vt@;
    proof { assert(stmts@.take(0) =~= Seq::<Stmt>::empty()); }
    let mut i: usize = 0;
    while i < stmts.len()
        invariant
            0 <= i <= stmts@.len(),
            vt0 == old(vt)@,
            stmts_checkable(stmts@.take(i as int), vars@, vt0),
            vt@ == stmts_vt(stmts@.take(i as int), vars@, vt0),
        decreases stmts@.len() - i,
    {
        proof { assert(stmts@.take(i + 1).drop_last() =~= stmts@.take(i as int)); }
        if !crate::analysis::types::stmt_probe(&stmts[i], vars, vt) {
            proof {
                if stmts_checkable(stmts@, vars@, vt0) {
                    lemma_stmts_checkable_prefix(stmts@, vars@, vt0, i + 1);
                    let t = stmts@.take(i + 1);
                    assert(t.last() == stmts@[i as int]);
                    assert(false);
                }
            }
            return false;
        }
        i = i + 1;
    }
    proof { assert(stmts@.take(stmts@.len() as int) =~= stmts@); }
    true
}

/// Runs name resolution and type checking over a program.
pub struct SemanticAnalyzer<'diag> {
    diagnostics: &'diag mut Vec<Diagnostic>,
}

impl<'diag> SemanticAnalyzer<'diag> {
    /// The diagnostics the analyzer reports to.
    pub closed spec fn diags(&self) -> Seq<Diagnostic> {
        self.diagnostics@
    }

    /// An analyzer that reports to `diagnostics`.
    pub fn new(diagnostics: &'diag mut Vec<Diagnostic>) -> (a: Self)
        ensures
            a.diags() == old(diagnostics)@,
    {
        SemanticAnalyzer { diagnostics }
    }

    /// Hands over the diagnostics reported so far, leaving none behind.
    pub fn take_diagnostics(&mut self) -> (d: Vec<Diagnostic>)
        ensures
            d@ == old(self).diags(),
    {
        let mut d: Vec<Diagnostic> = Vec::new();
        std::mem::swap(&mut d, self.diagnostics);
        d
    }

    /// Resolves the names of `program` and, when that reports nothing,
    /// checks its types. The result comes back when neither reported an
    /// error and checking could run over the whole program; a program on
    /// which checking cannot run (a variable used without a known type, an
    /// integer literal past `i32::MAX`) gives `Err` with no report. The
    /// reports of resolution, then those of checking, are added to the
    /// analyzer's diagnostics.
    pub fn analyze(&mut self, program: &Program) -> (r: Result<AnalysisResult, ()>)
        requires
            !stmts_have_error(program.body@),
            decls_count(program.body@) <= usize::MAX,
            loops_nesting(program.body@) <= usize::MAX,
        ensures
            ({
                let (vars, found) = resolution_of(program.body@);
                let ok_names = found.len() == 0;
                let checkable = stmts_checkable(program.body@, vars, Map::empty());
                let type_reports = stmts_diags(program.body@, vars, Map::empty());
                let ok_types = type_reports.len() == 0;
                &&& r is Ok <==> ok_names && checkable && ok_types
                &&& r matches Ok(res) ==> res.variables@ == vars && res.var_types@ == stmts_vt(program.body@, vars, Map::empty())
                    && res.types@ == stmts_tm(program.body@, vars, Map::empty(), Map::empty())
                    && res.conversions@ == stmts_cv(program.body@, vars, Map::empty(), Map::empty())
                &&& diags_grew(old(self).diags(), final(self).diags(), analysis_reports(program.body@))
            }),
    {
        let mut reports: Vec<Diagnostic> = Vec::new();
        let mut ctx = AnalysisCtx::new(&mut reports);
        let mut resolver = Resolver::new();
        proof {
            assert(crate::analysis::resolution::scopes_of(&ctx) =~= Seq::empty());
            assert(ctx.global_scope.model() =~= Seq::<(Seq<u8>, usize)>::empty());
            assert(reports_of(ctx.diagnostics@) =~= Seq::empty());
        }
        resolver.resolve_block(program.body.as_slice(), &mut ctx);
        let ghost vars = resolution_of(program.body@).0;
        let ghost found = resolution_of(program.body@).1;
        let ghost d1 = ctx.diagnostics@;
        assert(reports_of(d1) == found);
        let names_ok = ctx.diagnostics.len() == 0;
        let mut checkable = false;
        let mut types_ok = false;
        if names_ok {
            let mut probe_types = ctx.var_types.clone();
            checkable = stmts_probe(&program.body, &ctx.variables, &mut probe_types);
            if checkable {
                let mut checker = TypeChecker::new();
                checker.check_stmts(&program.body, &mut ctx);
                types_ok = ctx.diagnostics.len() == 0;
            }
        }
        let ghost added = found + if names_ok && checkable { stmts_diags(program.body@, vars, Map::empty()) } else { seq![] };
        proof {
            if names_ok && checkable {
                assert(reports_of(ctx.diagnostics@) == found + stmts_diags(program.body@, vars, Map::empty()));
            } else {
                assert(found + seq![] =~= found);
            }
            assert(reports_of(ctx.diagnostics@) == added);
        }
        let AnalysisCtx { scopes: _, global_scope: _, types, variables, var_types, conversions, diagnostics } = ctx;
        let result = AnalysisResult { types, variables, var_types, conversions };
        let mut taken: Vec<Diagnostic> = Vec::new();
        std::mem::swap(&mut taken, diagnostics);
        assert(reports_of(taken@) == added);
        let ghost before = self.diagnostics@;
        let ghost moved = taken@;
        self.diagnostics.append(&mut taken);
        proof {
            lemma_reports_append(before, moved);
        }
        if !(names_ok && checkable && types_ok) {
            return Err(());
        }
        Ok(result)
    }
}
} // verus!
