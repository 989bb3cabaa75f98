//! The first lowering: a scope-checked, desugared tree and its diagnostics.
//!
//! The converter keeps one scope per function, a map from each declared name
//! to whether it may be assigned. Nothing it finds stops the lowering: a
//! redefinition, an assignment to an immutable or unknown name and the use of
//! an undeclared name each add one diagnostic, and the tree is built all the
//! same.
//!
//! A `for` loop becomes a declaration and a `while` loop, and its variable is
//! gone from the scope afterwards. A call of a name that the scope holds
//! becomes a call of the method `apply` of that name. A nested function
//! starts with a scope of its own that holds its parameters and nothing of
//! what is declared around it.
use vstd::prelude::*;
use vstd::hash_map::StringHashMap;
use vstd::string::*;
use crate::{Span, Diagnostic, SpecDiagnostic, diagnostics_view};
use crate::ast;
use crate::ast::{
    Ident, params_view, opt_ident_view, idents_view, copy_params, copy_opt_ident, copy_idents,
};

verus! {

/// An expression after the first lowering.
#[derive(Debug)]
pub enum Expression {
    Int(Span<i64>),
    String(Span<String>),
    Bool(bool),
    Name(Span<String>),
    Add(Box<Expression>, Box<Expression>),
    Sub(Box<Expression>, Box<Expression>),
    Mul(Box<Expression>, Box<Expression>),
    Div(Box<Expression>, Box<Expression>),
    Eq(Box<Expression>, Box<Expression>),
    Neq(Box<Expression>, Box<Expression>),
    Call(Span<String>, Vec<Expression>),
    /// receiver, method, arguments
    ObjCall(Span<String>, Span<String>, Vec<Expression>),
    If(Box<Expression>, Vec<Stmt>, Option<Vec<Stmt>>),
}

/// A function with its parameters, each with its type name.
#[derive(Debug)]
pub struct Func {
    pub name: Span<String>,
    pub params: Vec<(Span<String>, Span<String>)>,
    pub return_type: Option<Span<String>>,
    pub block: Vec<Stmt>,
}

/// A statement after the first lowering: no `for` loop is left, and `val`
/// and `var` are one.
#[derive(Debug)]
pub enum Stmt {
    Expr(Expression),
    Let(Span<String>, Expression),
    Assign(Span<String>, Expression),
    Return(Expression),
    While(Expression, Vec<Stmt>),
    Block(Vec<Stmt>),
    Func {
        name: Span<String>,
        params: Vec<(Span<String>, Span<String>)>,
        return_type: Option<Span<String>>,
        block: Vec<Stmt>,
    },
}

/// A class or object after the first lowering. An object has no arguments.
#[derive(Debug)]
pub struct Class {
    pub name: Span<String>,
    pub args: Vec<(Span<String>, Span<String>)>,
    pub extends: Option<Span<String>>,
    pub with: Vec<Span<String>>,
    pub block: Vec<Stmt>,
}

/// The mathematical value of an [`Expression`].
pub enum SpecExpression {
    Int(Span<i64>),
    String(Ident),
    Bool(bool),
    Name(Ident),
    Add(Box<SpecExpression>, Box<SpecExpression>),
    Sub(Box<SpecExpression>, Box<SpecExpression>),
    Mul(Box<SpecExpression>, Box<SpecExpression>),
    Div(Box<SpecExpression>, Box<SpecExpression>),
    Eq(Box<SpecExpression>, Box<SpecExpression>),
    Neq(Box<SpecExpression>, Box<SpecExpression>),
    Call(Ident, Seq<SpecExpression>),
    ObjCall(Ident, Ident, Seq<SpecExpression>),
    If(Box<SpecExpression>, Seq<SpecStmt>, Option<Seq<SpecStmt>>),
}

/// The mathematical value of a [`Func`].
pub struct SpecFunc {
    pub name: Ident,
    pub params: Seq<(Ident, Ident)>,
    pub return_type: Option<Ident>,
    pub block: Seq<SpecStmt>,
}

/// The mathematical value of a [`Stmt`].
pub enum SpecStmt {
    Expr(SpecExpression),
    Let(Ident, SpecExpression),
    Assign(Ident, SpecExpression),
    Return(SpecExpression),
    While(SpecExpression, Seq<SpecStmt>),
    Block(Seq<SpecStmt>),
    Func { name: Ident, params: Seq<(Ident, Ident)>, return_type: Option<Ident>, block: Seq<SpecStmt> },
}

/// The mathematical value of a [`Class`].
pub struct SpecClass {
    pub name: Ident,
    pub args: Seq<(Ident, Ident)>,
    pub extends: Option<Ident>,
    pub with: Seq<Ident>,
    pub block: Seq<SpecStmt>,
}

impl Expression {
    /// The mathematical value.
    pub open spec fn view(&self) -> SpecExpression
        decreases self,
    {
        match self {
            Expression::Int(x) => SpecExpression::Int(*x),
            Expression::String(s) => SpecExpression::String(s@),
            Expression::Bool(b) => SpecExpression::Bool(*b),
            Expression::Name(n) => SpecExpression::Name(n@),
            Expression::Add(a, b) => SpecExpression::Add(Box::new(a.view()), Box::new(b.view())),
            Expression::Sub(a, b) => SpecExpression::Sub(Box::new(a.view()), Box::new(b.view())),
            Expression::Mul(a, b) => SpecExpression::Mul(Box::new(a.view()), Box::new(b.view())),
            Expression::Div(a, b) => SpecExpression::Div(Box::new(a.view()), Box::new(b.view())),
            Expression::Eq(a, b) => SpecExpression::Eq(Box::new(a.view()), Box::new(b.view())),
            Expression::Neq(a, b) => SpecExpression::Neq(Box::new(a.view()), Box::new(b.view())),
            Expression::Call(f, args) => SpecExpression::Call(f@, exprs_view(*args)),
            Expression::ObjCall(a, f, args) => SpecExpression::ObjCall(a@, f@, exprs_view(*args)),
            Expression::If(c, t, e) => SpecExpression::If(
                Box::new(c.view()),
                stmts_view(*t),
                match e {
                    Some(b) => Some(stmts_view(*b)),
                    None => None,
                },
            ),
        }
    }
}

/// The views of a list of expressions, in order.
pub open spec fn exprs_view(v: Vec<Expression>) -> Seq<SpecExpression>
    decreases v,
{
    Seq::new(
        v.len() as nat,
        |i: int|
            if 0 <= i < v.len() {
                v[i].view()
            } else {
                arbitrary()
            },
    )
}

/// The views of a list of statements, in order.
pub open spec fn stmts_view(v: Vec<Stmt>) -> Seq<SpecStmt>
    decreases v,
{
    Seq::new(
        v.len() as nat,
        |i: int|
            if 0 <= i < v.len() {
                v[i].view()
            } else {
                arbitrary()
            },
    )
}

impl Stmt {
    /// The mathematical value.
    pub open spec fn view(&self) -> SpecStmt
        decreases self,
    {
        match self {
            Stmt::Expr(e) => SpecStmt::Expr(e.view()),
            Stmt::Let(a, e) => SpecStmt::Let(a@, e.view()),
            Stmt::Assign(a, e) => SpecStmt::Assign(a@, e.view()),
            Stmt::Return(e) => SpecStmt::Return(e.view()),
            Stmt::While(c, b) => SpecStmt::While(c.view(), stmts_view(*b)),
            Stmt::Block(b) => SpecStmt::Block(stmts_view(*b)),
            Stmt::Func { name, params, return_type, block } => SpecStmt::Func {
                name: name@,
                params: params_view(params@),
                return_type: opt_ident_view(*return_type),
                block: stmts_view(*block),
            },
        }
    }
}

impl Func {
    /// The mathematical value.
    pub open spec fn view(&self) -> SpecFunc {
        SpecFunc {
            name: self.name@,
            params: params_view(self.params@),
            return_type: opt_ident_view(self.return_type),
            block: stmts_view(self.block),
        }
    }
}

impl Class {
    /// The mathematical value.
    pub open spec fn view(&self) -> SpecClass {
        SpecClass {
            name: self.name@,
            args: params_view(self.args@),
            extends: opt_ident_view(self.extends),
            with: idents_view(self.with@),
            block: stmts_view(self.block),
        }
    }
}

/// The views of a list of classes, in order.
pub open spec fn classes_view(v: Seq<Class>) -> Seq<SpecClass> {
    Seq::new(v.len(), |i: int| v[i]@)
}


fn copy_expr(e: &Expression) -> (r: Expression)
    ensures
        r@ == e@,
    decreases e, 0nat,
{
    match e {
        Expression::Int(x) => Expression::Int(Span { data: x.data, range: x.range }),
        Expression::String(s) => Expression::String(s.duplicate()),
        Expression::Bool(b) => Expression::Bool(*b),
        Expression::Name(n) => Expression::Name(n.duplicate()),
        Expression::Add(a, b) => Expression::Add(Box::new(copy_expr(a)), Box::new(copy_expr(b))),
        Expression::Sub(a, b) => Expression::Sub(Box::new(copy_expr(a)), Box::new(copy_expr(b))),
        Expression::Mul(a, b) => Expression::Mul(Box::new(copy_expr(a)), Box::new(copy_expr(b))),
        Expression::Div(a, b) => Expression::Div(Box::new(copy_expr(a)), Box::new(copy_expr(b))),
        Expression::Eq(a, b) => Expression::Eq(Box::new(copy_expr(a)), Box::new(copy_expr(b))),
        Expression::Neq(a, b) => Expression::Neq(Box::new(copy_expr(a)), Box::new(copy_expr(b))),
        Expression::Call(f, args) => Expression::Call(f.duplicate(), copy_exprs(args)),
        Expression::ObjCall(a, f, args) => Expression::ObjCall(
            a.duplicate(),
            f.duplicate(),
            copy_exprs(args),
        ),
        Expression::If(c, t, e) => Expression::If(
            Box::new(copy_expr(c)),
            copy_stmts(t),
            match e {
                Some(b) => Some(copy_stmts(b)),
                None => None,
            },
        ),
    }
}

#[verifier::loop_isolation(false)]
fn copy_exprs(v: &Vec<Expression>) -> (r: Vec<Expression>)
    ensures
        exprs_view(r) == exprs_view(*v),
    decreases v, 1nat,
{
    let mut out: Vec<Expression> = Vec::new();
    let mut i: usize = 0;
    while i < v.len()
        invariant
            0 <= i <= v.len(),
            out.len() == i,
            forall|j: int| 0 <= j < i ==> out[j]@ == v[j]@,
        decreases v.len() - i,
    {
        out.push(copy_expr(&v[i]));
        i += 1;
    }
    assert(exprs_view(out) =~= exprs_view(*v));
    out
}

#[verifier::loop_isolation(false)]
fn copy_stmts(v: &Vec<Stmt>) -> (r: Vec<Stmt>)
    ensures
        stmts_view(r) == stmts_view(*v),
    decreases v, 1nat,
{
    let mut out: Vec<Stmt> = Vec::new();
    let mut i: usize = 0;
    while i < v.len()
        invariant
            0 <= i <= v.len(),
            out.len() == i,
            forall|j: int| 0 <= j < i ==> out[j]@ == v[j]@,
        decreases v.len() - i,
    {
        out.push(copy_stmt(&v[i]));
        i += 1;
    }
    assert(stmts_view(out) =~= stmts_view(*v));
    out
}

fn copy_stmt(s: &Stmt) -> (r: Stmt)
    ensures
        r@ == s@,
    decreases s, 0nat,
{
    match s {
        Stmt::Expr(e) => Stmt::Expr(copy_expr(e)),
        Stmt::Let(a, e) => Stmt::Let(a.duplicate(), copy_expr(e)),
        Stmt::Assign(a, e) => Stmt::Assign(a.duplicate(), copy_expr(e)),
        Stmt::Return(e) => Stmt::Return(copy_expr(e)),
        Stmt::While(c, b) => Stmt::While(copy_expr(c), copy_stmts(b)),
        Stmt::Block(b) => Stmt::Block(copy_stmts(b)),
        Stmt::Func { name, params, return_type, block } => Stmt::Func {
            name: name.duplicate(),
            params: copy_params(params),
            return_type: copy_opt_ident(return_type),
            block: copy_stmts(block),
        },
    }
}

impl Clone for Expression {
    fn clone(&self) -> (r: Self)
        ensures
            r@ == self@,
    {
        copy_expr(self)
    }
}

impl Clone for Stmt {
    fn clone(&self) -> (r: Self)
        ensures
            r@ == self@,
    {
        copy_stmt(self)
    }
}

impl Clone for Func {
    fn clone(&self) -> (r: Self)
        ensures
            r@ == self@,
    {
        Func {
            name: self.name.duplicate(),
            params: copy_params(&self.params),
            return_type: copy_opt_ident(&self.return_type),
            block: copy_stmts(&self.block),
        }
    }
}

impl Clone for Class {
    fn clone(&self) -> (r: Self)
        ensures
            r@ == self@,
    {
        Class {
            name: self.name.duplicate(),
            args: copy_params(&self.args),
            extends: copy_opt_ident(&self.extends),
            with: copy_idents(&self.with),
            block: copy_stmts(&self.block),
        }
    }
}

/// The names declared in the current function, each with whether it may be
/// assigned.
pub type Scope = Map<Seq<char>, bool>;

/// What lowering a piece of syntax gives: the lowered piece, the scope that
/// the following piece starts from, and the diagnostics that it added.
pub struct Lowered<T> {
    pub out: T,
    pub scope: Scope,
    pub diag: Seq<SpecDiagnostic>,
}

/// The diagnostic for a second declaration of `name` in one scope.
pub open spec fn redefine(name: Ident) -> SpecDiagnostic {
    SpecDiagnostic { msg: "redefine "@ + name.data, range: name.range }
}

/// The diagnostic for an assignment to a name declared with `val`.
pub open spec fn immutable(name: Ident) -> SpecDiagnostic {
    SpecDiagnostic { msg: "\""@ + name.data + "\" is immutable"@, range: name.range }
}

/// The diagnostic for an assignment to a name that the scope lacks.
pub open spec fn not_defined(name: Ident) -> SpecDiagnostic {
    SpecDiagnostic { msg: "\""@ + name.data + "\" not defined"@, range: name.range }
}

/// The diagnostic for reading a name that the scope lacks.
pub open spec fn undeclared(name: Ident) -> SpecDiagnostic {
    SpecDiagnostic { msg: "use of undeclared value "@ + name.data, range: name.range }
}

/// Declaring `name`: the new binding replaces an old one, which costs one
/// diagnostic.
pub open spec fn declare(scope: Scope, name: Ident, mutable: bool) -> Lowered<()> {
    Lowered {
        out: (),
        scope: scope.insert(name.data, mutable),
        diag: if scope.contains_key(name.data) {
            seq![redefine(name)]
        } else {
            Seq::empty()
        },
    }
}

/// Reading `name`: one diagnostic where the scope lacks it.
pub open spec fn check_use(scope: Scope, name: Ident) -> Seq<SpecDiagnostic> {
    if scope.contains_key(name.data) {
        Seq::empty()
    } else {
        seq![undeclared(name)]
    }
}

/// Assigning to `name`: one diagnostic where the scope lacks it or holds it
/// as immutable.
pub open spec fn check_assign(scope: Scope, name: Ident) -> Seq<SpecDiagnostic> {
    if !scope.contains_key(name.data) {
        seq![not_defined(name)]
    } else if !scope[name.data] {
        seq![immutable(name)]
    } else {
        Seq::empty()
    }
}

/// The scope of a class body: `scope` with every constructor argument bound
/// as immutable. No diagnostic is given for a repeated argument.
pub open spec fn with_params(scope: Scope, params: Seq<(Ident, Ident)>) -> Scope
    decreases params.len(),
{
    if params.len() == 0 {
        scope
    } else {
        with_params(scope, params.drop_last()).insert(params.last().0.data, false)
    }
}

/// The scope of a nested function: its parameters alone, bound as immutable
/// in their order, with one diagnostic for each repeated one.
pub open spec fn bind_params(params: Seq<(Ident, Ident)>) -> Lowered<()>
    decreases params.len(),
{
    if params.len() == 0 {
        Lowered { out: (), scope: Map::empty(), diag: Seq::empty() }
    } else {
        let init = bind_params(params.drop_last());
        let d = declare(init.scope, params.last().0, false);
        Lowered { out: (), scope: d.scope, diag: init.diag + d.diag }
    }
}

/// The method name that a call of a local value is directed to.
pub open spec fn apply_of(callee: Ident) -> Ident {
    Span { data: "apply"@, range: callee.range }
}

/// `for (n <- from until to) { body }` written with `while`: the loop
/// variable starts at `from`, the loop runs while it differs from `to`, and
/// each round ends by adding one to it.
pub open spec fn desugar_for(
    n: Ident,
    from: SpecExpression,
    to: SpecExpression,
    body: Seq<SpecStmt>,
) -> SpecStmt {
    SpecStmt::Block(
        seq![
            SpecStmt::Let(n, from),
            SpecStmt::While(
                SpecExpression::Neq(Box::new(SpecExpression::Name(n)), Box::new(to)),
                body.push(
                    SpecStmt::Assign(
                        n,
                        SpecExpression::Add(
                            Box::new(SpecExpression::Name(n)),
                            Box::new(SpecExpression::Int(Span { data: 1i64, range: n.range })),
                        ),
                    ),
                ),
            ),
        ],
    )
}

/// Lowering of an expression in `scope`.
pub open spec fn lower_expr(scope: Scope, e: ast::SpecExpression) -> Lowered<SpecExpression>
    decreases e,
{
    match e {
        ast::SpecExpression::Int(x) => Lowered {
            out: SpecExpression::Int(x),
            scope,
            diag: Seq::empty(),
        },
        ast::SpecExpression::String(x) => Lowered {
            out: SpecExpression::String(x),
            scope,
            diag: Seq::empty(),
        },
        ast::SpecExpression::Bool(x) => Lowered {
            out: SpecExpression::Bool(x),
            scope,
            diag: Seq::empty(),
        },
        ast::SpecExpression::Name(x) => Lowered {
            out: SpecExpression::Name(x),
            scope,
            diag: check_use(scope, x),
        },
        ast::SpecExpression::ObjVal(a, _) => Lowered {
            out: SpecExpression::Name(a),
            scope,
            diag: check_use(scope, a),
        },
        ast::SpecExpression::Add(a, b) => {
            let l = lower_expr(scope, *a);
            let r = lower_expr(l.scope, *b);
            Lowered {
                out: SpecExpression::Add(Box::new(l.out), Box::new(r.out)),
                scope: r.scope,
                diag: l.diag + r.diag,
            }
        },
        ast::SpecExpression::Sub(a, b) => {
            let l = lower_expr(scope, *a);
            let r = lower_expr(l.scope, *b);
            Lowered {
                out: SpecExpression::Sub(Box::new(l.out), Box::new(r.out)),
                scope: r.scope,
                diag: l.diag + r.diag,
            }
        },
        ast::SpecExpression::Mul(a, b) => {
            let l = lower_expr(scope, *a);
            let r = lower_expr(l.scope, *b);
            Lowered {
                out: SpecExpression::Mul(Box::new(l.out), Box::new(r.out)),
                scope: r.scope,
                diag: l.diag + r.diag,
            }
        },
        ast::SpecExpression::Div(a, b) => {
            let l = lower_expr(scope, *a);
            let r = lower_expr(l.scope, *b);
            Lowered {
                out: SpecExpression::Div(Box::new(l.out), Box::new(r.out)),
                scope: r.scope,
                diag: l.diag + r.diag,
            }
        },
        ast::SpecExpression::Eq(a, b) => {
            let l = lower_expr(scope, *a);
            let r = lower_expr(l.scope, *b);
            Lowered {
                out: SpecExpression::Eq(Box::new(l.out), Box::new(r.out)),
                scope: r.scope,
                diag: l.diag + r.diag,
            }
        },
        ast::SpecExpression::Neq(a, b) => {
            let l = lower_expr(scope, *a);
            let r = lower_expr(l.scope, *b);
            Lowered {
                out: SpecExpression::Neq(Box::new(l.out), Box::new(r.out)),
                scope: r.scope,
                diag: l.diag + r.diag,
            }
        },
        ast::SpecExpression::Call(f, args) => {
            let a = lower_exprs(scope, args);
            Lowered {
                out: if scope.contains_key(f.data) {
                    SpecExpression::ObjCall(f, apply_of(f), a.out)
                } else {
                    SpecExpression::Call(f, a.out)
                },
                scope: a.scope,
                diag: a.diag,
            }
        },
        ast::SpecExpression::ObjCall(recv, f, args) => {
            let a = lower_exprs(scope, args);
            Lowered { out: SpecExpression::ObjCall(recv, f, a.out), scope: a.scope, diag: a.diag }
        },
        ast::SpecExpression::If(c, t, e) => {
            let c1 = lower_expr(scope, *c);
            let t1 = lower_block(c1.scope, t);
            match e {
                Some(e) => {
                    let e1 = lower_block(t1.scope, e);
                    Lowered {
                        out: SpecExpression::If(Box::new(c1.out), t1.out, Some(e1.out)),
                        scope: e1.scope,
                        diag: c1.diag + t1.diag + e1.diag,
                    }
                },
                None => Lowered {
                    out: SpecExpression::If(Box::new(c1.out), t1.out, None),
                    scope: t1.scope,
                    diag: c1.diag + t1.diag,
                },
            }
        },
    }
}

/// Lowering of a list of expressions, from left to right.
pub open spec fn lower_exprs(scope: Scope, es: Seq<ast::SpecExpression>) -> Lowered<
    Seq<SpecExpression>,
>
    decreases es,
{
    if es.len() == 0 {
        Lowered { out: Seq::empty(), scope, diag: Seq::empty() }
    } else {
        let init = lower_exprs(scope, es.drop_last());
        let last = lower_expr(init.scope, es.last());
        Lowered { out: init.out.push(last.out), scope: last.scope, diag: init.diag + last.diag }
    }
}

/// Lowering of a statement in `scope`.
pub open spec fn lower_stmt(scope: Scope, s: ast::SpecStmt) -> Lowered<SpecStmt>
    decreases s,
{
    match s {
        ast::SpecStmt::Expr(e) => {
            let e1 = lower_expr(scope, e);
            Lowered { out: SpecStmt::Expr(e1.out), scope: e1.scope, diag: e1.diag }
        },
        ast::SpecStmt::Val(a, e) => {
            let d = declare(scope, a, false);
            let e1 = lower_expr(d.scope, e);
            Lowered { out: SpecStmt::Let(a, e1.out), scope: e1.scope, diag: d.diag + e1.diag }
        },
        ast::SpecStmt::Var(a, e) => {
            let d = declare(scope, a, true);
            let e1 = lower_expr(d.scope, e);
            Lowered { out: SpecStmt::Let(a, e1.out), scope: e1.scope, diag: d.diag + e1.diag }
        },
        ast::SpecStmt::Assign(a, e) => {
            let e1 = lower_expr(scope, e);
            Lowered {
                out: SpecStmt::Assign(a, e1.out),
                scope: e1.scope,
                diag: check_assign(scope, a) + e1.diag,
            }
        },
        ast::SpecStmt::Return(e) => {
            let e1 = lower_expr(scope, e);
            Lowered { out: SpecStmt::Return(e1.out), scope: e1.scope, diag: e1.diag }
        },
        ast::SpecStmt::While(c, body) => {
            let c1 = lower_expr(scope, c);
            let b1 = lower_block(c1.scope, body);
            Lowered {
                out: SpecStmt::While(c1.out, b1.out),
                scope: b1.scope,
                diag: c1.diag + b1.diag,
            }
        },
        ast::SpecStmt::For(n, from, to, body) => {
            let d = declare(scope, n, true);
            let f1 = lower_expr(d.scope, from);
            let t1 = lower_expr(f1.scope, to);
            let b1 = lower_block(t1.scope, body);
            Lowered {
                out: desugar_for(n, f1.out, t1.out, b1.out),
                scope: b1.scope.remove(n.data),
                diag: d.diag + f1.diag + t1.diag + b1.diag,
            }
        },
        ast::SpecStmt::Func(f) => {
            let p = bind_params(f.params);
            let b1 = lower_block(p.scope, f.block);
            Lowered {
                out: SpecStmt::Func {
                    name: f.name,
                    params: f.params,
                    return_type: f.return_type,
                    block: b1.out,
                },
                scope,
                diag: p.diag + b1.diag,
            }
        },
    }
}

/// Lowering of a list of statements, from first to last.
pub open spec fn lower_block(scope: Scope, ss: Seq<ast::SpecStmt>) -> Lowered<Seq<SpecStmt>>
    decreases ss,
{
    if ss.len() == 0 {
        Lowered { out: Seq::empty(), scope, diag: Seq::empty() }
    } else {
        let init = lower_block(scope, ss.drop_last());
        let last = lower_stmt(init.scope, ss.last());
        Lowered { out: init.out.push(last.out), scope: last.scope, diag: init.diag + last.diag }
    }
}


/// Lowers syntax trees one function scope at a time and collects what it
/// finds on the way.
pub struct HirConverter {
    values: StringHashMap<bool>,
    diag: Vec<Diagnostic>,
}

proof fn lemma_diagnostics_push(v: Seq<Diagnostic>, d: Diagnostic)
    ensures
        diagnostics_view(v.push(d)) == diagnostics_view(v).push(d@),
{
    assert(diagnostics_view(v.push(d)) =~= diagnostics_view(v).push(d@));
}

proof fn lemma_exprs_push(v: Vec<Expression>, w: Vec<Expression>, x: Expression)
    requires
        w@ == v@.push(x),
    ensures
        exprs_view(w) == exprs_view(v).push(x@),
{
    assert(exprs_view(w) =~= exprs_view(v).push(x@));
}

proof fn lemma_stmts_push(v: Vec<Stmt>, w: Vec<Stmt>, x: Stmt)
    requires
        w@ == v@.push(x),
    ensures
        stmts_view(w) == stmts_view(v).push(x@),
{
    assert(stmts_view(w) =~= stmts_view(v).push(x@));
}

impl HirConverter {
    /// The scope of the function that is being lowered.
    pub closed spec fn scope(&self) -> Scope {
        self.values@
    }

    /// The diagnostics collected so far, oldest first.
    pub closed spec fn diagnostics(&self) -> Seq<SpecDiagnostic> {
        diagnostics_view(self.diag@)
    }

    /// Whether `self` is `before` after a lowering step `l`: the scope is the
    /// step's, and the step's diagnostics follow the earlier ones.
    pub open spec fn follows<T>(&self, before: &Self, l: Lowered<T>) -> bool {
        &&& self.scope() == l.scope
        &&& self.diagnostics() == before.diagnostics() + l.diag
    }

    /// A converter with an empty scope and no diagnostics.
    pub fn new() -> (r: Self)
        ensures
            r.scope() == Map::<Seq<char>, bool>::empty(),
            r.diagnostics() == Seq::<SpecDiagnostic>::empty(),
    {
        let r = HirConverter { values: StringHashMap::new(), diag: Vec::new() };
        assert(r.diagnostics() =~= Seq::<SpecDiagnostic>::empty());
        r
    }

    /// Binds the constructor arguments of a class as immutable names.
    pub fn add_param(&mut self, param: &[(Span<String>, Span<String>)])
        ensures
            final(self).scope() == with_params(old(self).scope(), params_view(param@)),
            final(self).diagnostics() == old(self).diagnostics(),
    {
        let mut i: usize = 0;
        while i < param.len()
            invariant
                0 <= i <= param.len(),
                self.scope() == with_params(old(self).scope(), params_view(param@).take(i as int)),
                self.diagnostics() == old(self).diagnostics(),
            decreases param.len() - i,
        {
            self.values.insert(param[i].0.data.clone(), false);
            proof {
                let ps = params_view(param@);
                assert(ps.take(i + 1).drop_last() =~= ps.take(i as int));
                assert(ps.take(i + 1).last() == ps[i as int]);
            }
            i += 1;
        }
        proof {
            let ps = params_view(param@);
            assert(ps.take(param.len() as int) =~= ps);
        }
    }

    /// The diagnostics collected so far, oldest first.
    pub fn diag(&self) -> (r: &Vec<Diagnostic>)
        ensures
            diagnostics_view(r@) == self.diagnostics(),
    {
        &self.diag
    }

    /// Ends the lowering and hands out the diagnostics, oldest first.
    pub fn finish(self) -> (r: Vec<Diagnostic>)
        ensures
            diagnostics_view(r@) == self.diagnostics(),
    {
        self.diag
    }

    fn report(&mut self, d: Diagnostic)
        ensures
            final(self).scope() == old(self).scope(),
            final(self).diagnostics() == old(self).diagnostics().push(d@),
    {
        proof {
            lemma_diagnostics_push(self.diag@, d);
        }
        self.diag.push(d);
    }

    fn declare(&mut self, name: &Span<String>, mutable: bool)
        ensures
            final(self).follows(old(self), declare(old(self).scope(), name@, mutable)),
    {
        if self.values.contains_key(name.data.as_str()) {
            let mut msg = String::from_str("redefine ");
            msg.append(name.data.as_str());
            self.report(Diagnostic { msg, range: name.range });
        }
        self.values.insert(name.data.clone(), mutable);
        proof {
            let l = declare(old(self).scope(), name@, mutable);
            assert(self.diagnostics() =~= old(self).diagnostics() + l.diag);
        }
    }

    fn check_use(&mut self, name: &Span<String>)
        ensures
            final(self).scope() == old(self).scope(),
            final(self).diagnostics() == old(self).diagnostics() + check_use(
                old(self).scope(),
                name@,
            ),
    {
        if !self.values.contains_key(name.data.as_str()) {
            let mut msg = String::from_str("use of undeclared value ");
            msg.append(name.data.as_str());
            self.report(Diagnostic { msg, range: name.range });
        }
        proof {
            assert(self.diagnostics() =~= old(self).diagnostics() + check_use(
                old(self).scope(),
                name@,
            ));
        }
    }

    fn check_assign(&mut self, name: &Span<String>)
        ensures
            final(self).scope() == old(self).scope(),
            final(self).diagnostics() == old(self).diagnostics() + check_assign(
                old(self).scope(),
                name@,
            ),
    {
        match self.values.get(name.data.as_str()) {
            Some(mutable) => {
                if !*mutable {
                    let mut msg = String::from_str("\"");
                    msg.append(name.data.as_str());
                    msg.append("\" is immutable");
                    self.report(Diagnostic { msg, range: name.range });
                }
            },
            None => {
                let mut msg = String::from_str("\"");
                msg.append(name.data.as_str());
                msg.append("\" not defined");
                self.report(Diagnostic { msg, range: name.range });
            },
        }
        proof {
            assert(self.diagnostics() =~= old(self).diagnostics() + check_assign(
                old(self).scope(),
                name@,
            ));
        }
    }

    /// Lowers one expression and leaves the scope and the diagnostics as the
    /// model of the lowering says.
    #[verifier::loop_isolation(false)]
    pub fn convert_expr(&mut self, value: ast::Expression) -> (r: Expression)
        ensures
            r@ == lower_expr(old(self).scope(), value@).out,
            final(self).follows(old(self), lower_expr(old(self).scope(), value@)),
        decreases value,
    {
        let ghost scope0 = self.scope();
        let ghost diag0 = self.diagnostics();
        match value {
            ast::Expression::Int(x) => {
                assert(self.diagnostics() =~= diag0 + Seq::<SpecDiagnostic>::empty());
                Expression::Int(x)
            },
            ast::Expression::String(x) => {
                assert(self.diagnostics() =~= diag0 + Seq::<SpecDiagnostic>::empty());
                Expression::String(x)
            },
            ast::Expression::Bool(x) => {
                assert(self.diagnostics() =~= diag0 + Seq::<SpecDiagnostic>::empty());
                Expression::Bool(x)
            },
            ast::Expression::Name(x) => {
                self.check_use(&x);
                Expression::Name(x)
            },
            ast::Expression::ObjVal(a, _b) => {
                self.check_use(&a);
                Expression::Name(a)
            },
            ast::Expression::Add(a, b) => {
                let l = self.convert_expr(*a);
                let r = self.convert_expr(*b);
                proof {
                    let l1 = lower_expr(scope0, a@);
                    let r1 = lower_expr(l1.scope, b@);
                    assert(self.diagnostics() =~= diag0 + (l1.diag + r1.diag));
                }
                Expression::Add(Box::new(l), Box::new(r))
            },
            ast::Expression::Sub(a, b) => {
                let l = self.convert_expr(*a);
                let r = self.convert_expr(*b);
                proof {
                    let l1 = lower_expr(scope0, a@);
                    let r1 = lower_expr(l1.scope, b@);
                    assert(self.diagnostics() =~= diag0 + (l1.diag + r1.diag));
                }
                Expression::Sub(Box::new(l), Box::new(r))
            },
            ast::Expression::Mul(a, b) => {
                let l = self.convert_expr(*a);
                let r = self.convert_expr(*b);
                proof {
                    let l1 = lower_expr(scope0, a@);
                    let r1 = lower_expr(l1.scope, b@);
                    assert(self.diagnostics() =~= diag0 + (l1.diag + r1.diag));
                }
                Expression::Mul(Box::new(l), Box::new(r))
            },
            ast::Expression::Div(a, b) => {
                let l = self.convert_expr(*a);
                let r = self.convert_expr(*b);
                proof {
                    let l1 = lower_expr(scope0, a@);
                    let r1 = lower_expr(l1.scope, b@);
                    assert(self.diagnostics() =~= diag0 + (l1.diag + r1.diag));
                }
                Expression::Div(Box::new(l), Box::new(r))
            },
            ast::Expression::Eq(a, b) => {
                let l = self.convert_expr(*a);
                let r = self.convert_expr(*b);
                proof {
                    let l1 = lower_expr(scope0, a@);
                    let r1 = lower_expr(l1.scope, b@);
                    assert(self.diagnostics() =~= diag0 + (l1.diag + r1.diag));
                }
                Expression::Eq(Box::new(l), Box::new(r))
            },
            ast::Expression::Neq(a, b) => {
                let l = self.convert_expr(*a);
                let r = self.convert_expr(*b);
                proof {
                    let l1 = lower_expr(scope0, a@);
                    let r1 = lower_expr(l1.scope, b@);
                    assert(self.diagnostics() =~= diag0 + (l1.diag + r1.diag));
                }
                Expression::Neq(Box::new(l), Box::new(r))
            },
            ast::Expression::Call(f, args) => {
                let local = self.values.contains_key(f.data.as_str());
                let args = self.convert_exprs(args);
                if local {
                    let method = f.with(String::from_str("apply"));
                    Expression::ObjCall(f, method, args)
                } else {
                    Expression::Call(f, args)
                }
            },
            ast::Expression::ObjCall(recv, f, args) => {
                let args = self.convert_exprs(args);
                Expression::ObjCall(recv, f, args)
            },
            ast::Expression::If(c, t, e) => {
                let c1 = self.convert_expr(*c);
                let t1 = self.convert_block(t.0);
                match e {
                    Some(e) => {
                        let e1 = self.convert_block(e.0);
                        proof {
                            let lc = lower_expr(scope0, c@);
                            let lt = lower_block(lc.scope, t@);
                            let le = lower_block(lt.scope, e@);
                            assert(self.diagnostics() =~= diag0 + (lc.diag + lt.diag + le.diag));
                        }
                        Expression::If(Box::new(c1), t1, Some(e1))
                    },
                    None => {
                        proof {
                            let lc = lower_expr(scope0, c@);
                            let lt = lower_block(lc.scope, t@);
                            assert(self.diagnostics() =~= diag0 + (lc.diag + lt.diag));
                        }
                        Expression::If(Box::new(c1), t1, None)
                    },
                }
            },
        }
    }

    /// Lowers a list of expressions from left to right.
    #[verifier::loop_isolation(false)]
    fn convert_exprs(&mut self, values: Vec<ast::Expression>) -> (r: Vec<Expression>)
        ensures
            exprs_view(r) == lower_exprs(old(self).scope(), ast::exprs_view(values)).out,
            final(self).follows(
                old(self),
                lower_exprs(old(self).scope(), ast::exprs_view(values)),
            ),
        decreases values,
    {
        let ghost scope0 = self.scope();
        let ghost diag0 = self.diagnostics();
        let ghost all = ast::exprs_view(values);
        let mut out: Vec<Expression> = Vec::new();
        assert(exprs_view(out) =~= Seq::<SpecExpression>::empty());
        assert(self.diagnostics() =~= diag0 + Seq::<SpecDiagnostic>::empty());
        for e in it: values
            invariant
                it.seq() == values@,
                exprs_view(out) == lower_exprs(scope0, all.take(it.index() as int)).out,
                self.scope() == lower_exprs(scope0, all.take(it.index() as int)).scope,
                self.diagnostics() == diag0 + lower_exprs(
                    scope0,
                    all.take(it.index() as int),
                ).diag,
        {
            let ghost i = it.index() as int;
            let ghost before = out;
            let x = self.convert_expr(e);
            out.push(x);
            proof {
                lemma_exprs_push(before, out, x);
                assert(all.take(i + 1).drop_last() =~= all.take(i));
                assert(all.take(i + 1).last() == e@);
                let init = lower_exprs(scope0, all.take(i));
                let last = lower_expr(init.scope, e@);
                assert(self.diagnostics() =~= diag0 + (init.diag + last.diag));
            }
        }
        proof {
            assert(all.take(values.len() as int) =~= all);
        }
        out
    }

    /// Lowers one statement and leaves the scope and the diagnostics as the
    /// model of the lowering says.
    #[verifier::loop_isolation(false)]
    pub fn convert_stmt(&mut self, value: ast::Stmt) -> (r: Stmt)
        ensures
            r@ == lower_stmt(old(self).scope(), value@).out,
            final(self).follows(old(self), lower_stmt(old(self).scope(), value@)),
        decreases value,
    {
        let ghost scope0 = self.scope();
        let ghost diag0 = self.diagnostics();
        match value {
            ast::Stmt::Expr(e) => Stmt::Expr(self.convert_expr(e)),
            ast::Stmt::Val(a, b) => {
                self.declare(&a, false);
                let e = self.convert_expr(b);
                proof {
                    let d = declare(scope0, a@, false);
                    let e1 = lower_expr(d.scope, b@);
                    assert(self.diagnostics() =~= diag0 + (d.diag + e1.diag));
                }
                Stmt::Let(a, e)
            },
            ast::Stmt::Var(a, b) => {
                self.declare(&a, true);
                let e = self.convert_expr(b);
                proof {
                    let d = declare(scope0, a@, true);
                    let e1 = lower_expr(d.scope, b@);
                    assert(self.diagnostics() =~= diag0 + (d.diag + e1.diag));
                }
                Stmt::Let(a, e)
            },
            ast::Stmt::Assign(a, b) => {
                self.check_assign(&a);
                let e = self.convert_expr(b);
                proof {
                    let e1 = lower_expr(scope0, b@);
                    assert(self.diagnostics() =~= diag0 + (check_assign(scope0, a@) + e1.diag));
                }
                Stmt::Assign(a, e)
            },
            ast::Stmt::Return(e) => Stmt::Return(self.convert_expr(e)),
            ast::Stmt::While(e, v) => {
                let c = self.convert_expr(e);
                let body = self.convert_block(v.0);
                proof {
                    let c1 = lower_expr(scope0, e@);
                    let b1 = lower_block(c1.scope, v@);
                    assert(self.diagnostics() =~= diag0 + (c1.diag + b1.diag));
                }
                Stmt::While(c, body)
            },
            ast::Stmt::For(v, from, to, b) => {
                self.declare(&v, true);
                let first = self.convert_expr(from);
                let last = self.convert_expr(to);
                let mut body = self.convert_block(b.0);
                self.values.remove(v.data.as_str());
                let counter = Expression::Name(v.duplicate());
                let one = Expression::Int(v.with(1i64));
                let next = Expression::Add(Box::new(counter), Box::new(one));
                let step = Stmt::Assign(v.duplicate(), next);
                let ghost before = body;
                body.push(step);
                let bound = Expression::Name(v.duplicate());
                let cond = Expression::Neq(Box::new(bound), Box::new(last));
                let mut parts: Vec<Stmt> = Vec::new();
                parts.push(Stmt::Let(v, first));
                parts.push(Stmt::While(cond, body));
                proof {
                    assert(counter@ == SpecExpression::Name(v@));
                    assert(one@ == SpecExpression::Int(Span { data: 1i64, range: v.range }));
                    assert(next@ == SpecExpression::Add(Box::new(counter@), Box::new(one@)));
                    assert(bound@ == SpecExpression::Name(v@));
                    assert(cond@ == SpecExpression::Neq(Box::new(bound@), Box::new(last@)));
                    lemma_stmts_push(before, body, step);
                    let d = declare(scope0, v@, true);
                    let f1 = lower_expr(d.scope, from@);
                    let t1 = lower_expr(f1.scope, to@);
                    let b1 = lower_block(t1.scope, b@);
                    assert(self.diagnostics() =~= diag0 + (d.diag + f1.diag + t1.diag + b1.diag));
                    assert(stmts_view(parts) =~= seq![parts[0]@, parts[1]@]);
                }
                Stmt::Block(parts)
            },
            ast::Stmt::Func(f) => {
                let mut inner = HirConverter::new();
                let ghost ps = params_view(f.params@);
                let mut i: usize = 0;
                while i < f.params.len()
                    invariant
                        0 <= i <= f.params.len(),
                        inner.scope() == bind_params(ps.take(i as int)).scope,
                        inner.diagnostics() == bind_params(ps.take(i as int)).diag,
                    decreases f.params.len() - i,
                {
                    inner.declare(&f.params[i].0, false);
                    proof {
                        assert(ps.take(i + 1).drop_last() =~= ps.take(i as int));
                        assert(ps.take(i + 1).last() == ps[i as int]);
                    }
                    i += 1;
                }
                proof {
                    assert(ps.take(f.params.len() as int) =~= ps);
                }
                let block = inner.convert_block(f.block.0);
                let mut found = inner.finish();
                proof {
                    let p = bind_params(ps);
                    let b1 = lower_block(p.scope, f.block@);
                    assert(diagnostics_view(found@) == p.diag + b1.diag);
                    assert(diagnostics_view(self.diag@ + found@) =~= diag0 + (p.diag + b1.diag));
                }
                self.diag.append(&mut found);
                Stmt::Func { name: f.name, params: f.params, return_type: f.return_type, block }
            },
        }
    }

    /// Lowers a list of statements from first to last.
    #[verifier::loop_isolation(false)]
    fn convert_block(&mut self, values: Vec<ast::Stmt>) -> (r: Vec<Stmt>)
        ensures
            stmts_view(r) == lower_block(old(self).scope(), ast::stmts_view(values)).out,
            final(self).follows(
                old(self),
                lower_block(old(self).scope(), ast::stmts_view(values)),
            ),
        decreases values,
    {
        let ghost scope0 = self.scope();
        let ghost diag0 = self.diagnostics();
        let ghost all = ast::stmts_view(values);
        let mut out: Vec<Stmt> = Vec::new();
        assert(stmts_view(out) =~= Seq::<SpecStmt>::empty());
        assert(self.diagnostics() =~= diag0 + Seq::<SpecDiagnostic>::empty());
        for s in it: values
            invariant
                it.seq() == values@,
                stmts_view(out) == lower_block(scope0, all.take(it.index() as int)).out,
                self.scope() == lower_block(scope0, all.take(it.index() as int)).scope,
                self.diagnostics() == diag0 + lower_block(
                    scope0,
                    all.take(it.index() as int),
                ).diag,
        {
            let ghost i = it.index() as int;
            let ghost before = out;
            let x = self.convert_stmt(s);
            out.push(x);
            proof {
                lemma_stmts_push(before, out, x);
                assert(all.take(i + 1).drop_last() =~= all.take(i));
                assert(all.take(i + 1).last() == s@);
                let init = lower_block(scope0, all.take(i));
                let last = lower_stmt(init.scope, s@);
                assert(self.diagnostics() =~= diag0 + (init.diag + last.diag));
            }
        }
        proof {
            assert(all.take(values.len() as int) =~= all);
        }
        out
    }
}


/// Lowering of one top-level declaration: its body is lowered in a scope of
/// its own that holds the constructor arguments.
pub open spec fn lower_item(item: ast::SpecTopItem) -> Lowered<SpecClass> {
    let b = lower_block(with_params(Map::empty(), item.args), item.block);
    Lowered {
        out: SpecClass {
            name: item.name,
            args: item.args,
            extends: item.extends,
            with: item.with,
            block: b.out,
        },
        scope: b.scope,
        diag: b.diag,
    }
}

/// The classes that a list of declarations lowers to, in order.
pub open spec fn lower_items(items: Seq<ast::SpecTopItem>) -> Seq<SpecClass>
    decreases items.len(),
{
    if items.len() == 0 {
        Seq::empty()
    } else {
        lower_items(items.drop_last()).push(lower_item(items.last()).out)
    }
}

/// The diagnostics that lowering a list of declarations gives: those of the
/// first declaration, then those of the second, and so on.
pub open spec fn lower_items_diag(items: Seq<ast::SpecTopItem>) -> Seq<SpecDiagnostic>
    decreases items.len(),
{
    if items.len() == 0 {
        Seq::empty()
    } else {
        lower_items_diag(items.drop_last()) + lower_item(items.last()).diag
    }
}

/// Lowers every top-level declaration, each with a converter of its own, and
/// returns the classes with all the diagnostics found.
pub fn parse_to_hir(from: Vec<ast::TopItem>) -> (r: (Vec<Class>, Vec<Diagnostic>))
    ensures
        classes_view(r.0@) == lower_items(ast::items_view(from@)),
        diagnostics_view(r.1@) == lower_items_diag(ast::items_view(from@)),
{
    let ghost all = ast::items_view(from@);
    let mut classes: Vec<Class> = Vec::new();
    let mut diag: Vec<Diagnostic> = Vec::new();
    assert(classes_view(classes@) =~= Seq::<SpecClass>::empty());
    assert(diagnostics_view(diag@) =~= Seq::<SpecDiagnostic>::empty());
    for item in it: from
        invariant
            it.seq() == from@,
            all == ast::items_view(from@),
            classes_view(classes@) == lower_items(all.take(it.index() as int)),
            diagnostics_view(diag@) == lower_items_diag(all.take(it.index() as int)),
    {
        let ghost i = it.index() as int;
        let ghost seen = classes@;
        let mut converter = HirConverter::new();
        let class = match item {
            ast::TopItem::Class(c) => {
                converter.add_param(c.args.as_slice());
                let block = converter.convert_block(c.block.0);
                Class { name: c.name, args: c.args, extends: c.extends, with: c.with, block }
            },
            ast::TopItem::Object(o) => {
                assert(with_params(Map::empty(), Seq::<(Ident, Ident)>::empty()) == Map::<
                    Seq<char>,
                    bool,
                >::empty());
                let block = converter.convert_block(o.block.0);
                Class {
                    name: o.name,
                    args: Vec::new(),
                    extends: o.extends,
                    with: o.with,
                    block,
                }
            },
        };
        let mut found = converter.finish();
        proof {
            assert(all.take(i + 1).drop_last() =~= all.take(i));
            assert(all.take(i + 1).last() == item@);
            assert(class@.args =~= item@.args);
            assert(class@ == lower_item(item@).out);
            assert(diagnostics_view(found@) =~= lower_item(item@).diag);
            assert(classes_view(seen.push(class)) =~= classes_view(seen).push(class@));
            assert(diagnostics_view(diag@ + found@) =~= diagnostics_view(diag@) + diagnostics_view(
                found@,
            ));
        }
        classes.push(class);
        diag.append(&mut found);
    }
    proof {
        assert(all.take(from.len() as int) =~= all);
    }
    (classes, diag)
}

/// A `for` loop lowers to a block of two statements: the declaration of the
/// loop variable with the lowered start, and a `while` loop over the lowered
/// body that ends each round by adding one to the variable and runs until the
/// variable equals the lowered end. The loop variable is gone from the scope
/// that follows.
pub proof fn lemma_for_lowers_to_while(
    scope: Scope,
    n: Ident,
    from: ast::SpecExpression,
    to: ast::SpecExpression,
    body: Seq<ast::SpecStmt>,
)
    ensures
        ({
            let declared = scope.insert(n.data, true);
            let f1 = lower_expr(declared, from);
            let t1 = lower_expr(f1.scope, to);
            let b1 = lower_block(t1.scope, body);
            let l = lower_stmt(scope, ast::SpecStmt::For(n, from, to, body));
            &&& l.out == desugar_for(n, f1.out, t1.out, b1.out)
            &&& !l.scope.contains_key(n.data)
        }),
{
}

/// Declaring a name that the scope already holds gives exactly one
/// diagnostic for the declaration itself, in front of those of the
/// initializer, and the initializer is lowered under the new binding. Where
/// the initializer leaves the scope as it is, the statements that follow see
/// the new binding.
pub proof fn lemma_redeclaration(scope: Scope, a: Ident, mutable: bool, e: ast::SpecExpression)
    requires
        scope.contains_key(a.data),
    ensures
        ({
            let s = if mutable {
                ast::SpecStmt::Var(a, e)
            } else {
                ast::SpecStmt::Val(a, e)
            };
            let e1 = lower_expr(scope.insert(a.data, mutable), e);
            let l = lower_stmt(scope, s);
            &&& l.out == SpecStmt::Let(a, e1.out)
            &&& l.diag == seq![redefine(a)] + e1.diag
            &&& l.diag.len() == 1 + e1.diag.len()
            &&& e1.scope == scope.insert(a.data, mutable) ==> l.scope.contains_key(a.data)
                && l.scope[a.data] == mutable
        }),
{
}

/// Declaring a name that the scope lacks gives no diagnostic for the
/// declaration itself.
pub proof fn lemma_first_declaration(scope: Scope, a: Ident, mutable: bool, e: ast::SpecExpression)
    requires
        !scope.contains_key(a.data),
    ensures
        ({
            let s = if mutable {
                ast::SpecStmt::Var(a, e)
            } else {
                ast::SpecStmt::Val(a, e)
            };
            lower_stmt(scope, s).diag == lower_expr(scope.insert(a.data, mutable), e).diag
        }),
{
    let e1 = lower_expr(scope.insert(a.data, mutable), e);
    assert(Seq::<SpecDiagnostic>::empty() + e1.diag =~= e1.diag);
}

/// Assigning to a name that was declared with `val` gives exactly one
/// diagnostic for the assignment itself, the one that calls the name
/// immutable, and the assignment is lowered all the same.
pub proof fn lemma_assign_immutable(scope: Scope, a: Ident, e: ast::SpecExpression)
    requires
        scope.contains_key(a.data),
        !scope[a.data],
    ensures
        ({
            let e1 = lower_expr(scope, e);
            let l = lower_stmt(scope, ast::SpecStmt::Assign(a, e));
            &&& l.out == SpecStmt::Assign(a, e1.out)
            &&& l.diag == seq![immutable(a)] + e1.diag
            &&& l.diag.len() == 1 + e1.diag.len()
        }),
{
}

} // verus!
