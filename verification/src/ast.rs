//! The concrete syntax tree that the lowering consumes: top-level classes and
//! objects with their statements and expressions, as a parser hands them over.
use vstd::prelude::*;
use crate::Span;

verus! {

/// An expression as it is written.
#[derive(Debug)]
pub enum Expression {
    Int(Span<i64>),
    String(Span<String>),
    Bool(bool),
    Name(Span<String>),
    /// `a.b`
    ObjVal(Span<String>, Span<String>),
    Add(Box<Expression>, Box<Expression>),
    Sub(Box<Expression>, Box<Expression>),
    Mul(Box<Expression>, Box<Expression>),
    Div(Box<Expression>, Box<Expression>),
    Eq(Box<Expression>, Box<Expression>),
    Neq(Box<Expression>, Box<Expression>),
    /// `f(args)`
    Call(Span<String>, Vec<Expression>),
    /// `a.f(args)`
    ObjCall(Span<String>, Span<String>, Vec<Expression>),
    If(Box<Expression>, Block, Option<Block>),
}

/// A function declaration: `def name(params): type = { block }`.
#[derive(Debug)]
pub struct Func {
    pub name: Span<String>,
    pub params: Vec<(Span<String>, Span<String>)>,
    pub return_type: Option<Span<String>>,
    pub block: Block,
}

/// The statements between two curly brackets.
#[derive(Debug)]
pub struct Block(pub Vec<Stmt>);

/// `object name extends .. with .. { block }`
#[derive(Debug)]
pub struct Object {
    pub name: Span<String>,
    pub extends: Option<Span<String>>,
    pub with: Vec<Span<String>>,
    pub block: Block,
}

/// `class name(args) extends .. with .. { block }`
#[derive(Debug)]
pub struct Class {
    pub name: Span<String>,
    pub args: Vec<(Span<String>, Span<String>)>,
    pub extends: Option<Span<String>>,
    pub with: Vec<Span<String>>,
    pub block: Block,
}

/// A declaration at the top of a file.
#[derive(Debug)]
pub enum TopItem {
    Class(Class),
    Object(Object),
}

/// A statement as it is written.
#[derive(Debug)]
pub enum Stmt {
    Expr(Expression),
    /// `val a = b`
    Val(Span<String>, Expression),
    /// `var a = b`
    Var(Span<String>, Expression),
    Assign(Span<String>, Expression),
    Return(Expression),
    /// `for (n <- from until to) { body }`
    For(Span<String>, Expression, Expression, Block),
    While(Expression, Block),
    Func(Func),
}

/// A name with the source range of the token it came from.
pub type Ident = Span<Seq<char>>;

/// The mathematical value of an [`Expression`].
pub enum SpecExpression {
    Int(Span<i64>),
    String(Ident),
    Bool(bool),
    Name(Ident),
    ObjVal(Ident, Ident),
    Add(Box<SpecExpression>, Box<SpecExpression>),
    Sub(Box<SpecExpression>, Box<SpecExpression>),
    Mul(Box<SpecExpression>, Box<SpecExpression>),
    Div(Box<SpecExpression>, Box<SpecExpression>),
    Eq(Box<SpecExpression>, Box<SpecExpression>),
    Neq(Box<SpecExpression>, Box<SpecExpression>),
    Call(Ident, Seq<SpecExpression>),
    ObjCall(Ident, Ident, Seq<SpecExpression>),
    If(Box<SpecExpression>, Seq<SpecStmt>, Option<Seq<SpecStmt>>),
}

/// The mathematical value of a [`Func`].
pub struct SpecFunc {
    pub name: Ident,
    pub params: Seq<(Ident, Ident)>,
    pub return_type: Option<Ident>,
    pub block: Seq<SpecStmt>,
}

/// The mathematical value of a [`Stmt`].
pub enum SpecStmt {
    Expr(SpecExpression),
    Val(Ident, SpecExpression),
    Var(Ident, SpecExpression),
    Assign(Ident, SpecExpression),
    Return(SpecExpression),
    For(Ident, SpecExpression, SpecExpression, Seq<SpecStmt>),
    While(SpecExpression, Seq<SpecStmt>),
    Func(SpecFunc),
}

/// The mathematical value of a [`TopItem`]: an object is a class without
/// constructor arguments.
pub struct SpecTopItem {
    pub is_class: bool,
    pub name: Ident,
    pub args: Seq<(Ident, Ident)>,
    pub extends: Option<Ident>,
    pub with: Seq<Ident>,
    pub block: Seq<SpecStmt>,
}

/// The views of a list of names, in order.
pub open spec fn idents_view(v: Seq<Span<String>>) -> Seq<Ident> {
    Seq::new(v.len(), |i: int| v[i]@)
}

/// The views of a list of (name, type name) pairs, in order.
pub open spec fn params_view(v: Seq<(Span<String>, Span<String>)>) -> Seq<(Ident, Ident)> {
    Seq::new(v.len(), |i: int| (v[i].0@, v[i].1@))
}

/// The view of an optional name.
pub open spec fn opt_ident_view(o: Option<Span<String>>) -> Option<Ident> {
    match o {
        Some(s) => Some(s@),
        None => None,
    }
}

impl Expression {
    /// The mathematical value.
    pub open spec fn view(&self) -> SpecExpression
        decreases self,
    {
        match self {
            Expression::Int(x) => SpecExpression::Int(*x),
            Expression::String(s) => SpecExpression::String(s@),
            Expression::Bool(b) => SpecExpression::Bool(*b),
            Expression::Name(n) => SpecExpression::Name(n@),
            Expression::ObjVal(a, b) => SpecExpression::ObjVal(a@, b@),
            Expression::Add(a, b) => SpecExpression::Add(Box::new(a.view()), Box::new(b.view())),
            Expression::Sub(a, b) => SpecExpression::Sub(Box::new(a.view()), Box::new(b.view())),
            Expression::Mul(a, b) => SpecExpression::Mul(Box::new(a.view()), Box::new(b.view())),
            Expression::Div(a, b) => SpecExpression::Div(Box::new(a.view()), Box::new(b.view())),
            Expression::Eq(a, b) => SpecExpression::Eq(Box::new(a.view()), Box::new(b.view())),
            Expression::Neq(a, b) => SpecExpression::Neq(Box::new(a.view()), Box::new(b.view())),
            Expression::Call(f, args) => SpecExpression::Call(f@, exprs_view(*args)),
            Expression::ObjCall(a, f, args) => SpecExpression::ObjCall(a@, f@, exprs_view(*args)),
            Expression::If(c, t, e) => SpecExpression::If(
                Box::new(c.view()),
                t.view(),
                match e {
                    Some(b) => Some(b.view()),
                    None => None,
                },
            ),
        }
    }
}

/// The views of a list of expressions, in order.
pub open spec fn exprs_view(v: Vec<Expression>) -> Seq<SpecExpression>
    decreases v,
{
    Seq::new(
        v.len() as nat,
        |i: int|
            if 0 <= i < v.len() {
                v[i].view()
            } else {
                arbitrary()
            },
    )
}

/// The views of a list of statements, in order.
pub open spec fn stmts_view(v: Vec<Stmt>) -> Seq<SpecStmt>
    decreases v,
{
    Seq::new(
        v.len() as nat,
        |i: int|
            if 0 <= i < v.len() {
                v[i].view()
            } else {
                arbitrary()
            },
    )
}

impl Block {
    /// The mathematical value.
    pub open spec fn view(&self) -> Seq<SpecStmt>
        decreases self,
    {
        stmts_view(self.0)
    }
}

impl Func {
    /// The mathematical value.
    pub open spec fn view(&self) -> SpecFunc
        decreases self,
    {
        SpecFunc {
            name: self.name@,
            params: params_view(self.params@),
            return_type: opt_ident_view(self.return_type),
            block: self.block.view(),
        }
    }
}

impl Stmt {
    /// The mathematical value.
    pub open spec fn view(&self) -> SpecStmt
        decreases self,
    {
        match self {
            Stmt::Expr(e) => SpecStmt::Expr(e.view()),
            Stmt::Val(a, e) => SpecStmt::Val(a@, e.view()),
            Stmt::Var(a, e) => SpecStmt::Var(a@, e.view()),
            Stmt::Assign(a, e) => SpecStmt::Assign(a@, e.view()),
            Stmt::Return(e) => SpecStmt::Return(e.view()),
            Stmt::For(n, from, to, b) => SpecStmt::For(n@, from.view(), to.view(), b.view()),
            Stmt::While(c, b) => SpecStmt::While(c.view(), b.view()),
            Stmt::Func(f) => SpecStmt::Func(f.view()),
        }
    }
}

impl TopItem {
    /// The mathematical value.
    pub open spec fn view(&self) -> SpecTopItem {
        match self {
            TopItem::Class(c) => SpecTopItem {
                is_class: true,
                name: c.name@,
                args: params_view(c.args@),
                extends: opt_ident_view(c.extends),
                with: idents_view(c.with@),
                block: c.block@,
            },
            TopItem::Object(o) => SpecTopItem {
                is_class: false,
                name: o.name@,
                args: Seq::empty(),
                extends: opt_ident_view(o.extends),
                with: idents_view(o.with@),
                block: o.block@,
            },
        }
    }
}

/// The views of a list of top-level declarations, in order.
pub open spec fn items_view(v: Seq<TopItem>) -> Seq<SpecTopItem> {
    Seq::new(v.len(), |i: int| v[i]@)
}


/// A copy of a list of names.
pub fn copy_idents(v: &Vec<Span<String>>) -> (r: Vec<Span<String>>)
    ensures
        idents_view(r@) == idents_view(v@),
{
    let mut out: Vec<Span<String>> = Vec::new();
    let mut i: usize = 0;
    while i < v.len()
        invariant
            0 <= i <= v.len(),
            out.len() == i,
            forall|j: int| 0 <= j < i ==> out[j]@ == v[j]@,
        decreases v.len() - i,
    {
        out.push(v[i].duplicate());
        i += 1;
    }
    assert(idents_view(out@) =~= idents_view(v@));
    out
}

/// A copy of a list of (name, type name) pairs.
pub fn copy_params(v: &Vec<(Span<String>, Span<String>)>) -> (r: Vec<(Span<String>, Span<String>)>)
    ensures
        params_view(r@) == params_view(v@),
{
    let mut out: Vec<(Span<String>, Span<String>)> = Vec::new();
    let mut i: usize = 0;
    while i < v.len()
        invariant
            0 <= i <= v.len(),
            out.len() == i,
            forall|j: int| 0 <= j < i ==> out[j].0@ == v[j].0@ && out[j].1@ == v[j].1@,
        decreases v.len() - i,
    {
        out.push((v[i].0.duplicate(), v[i].1.duplicate()));
        i += 1;
    }
    assert(params_view(out@) =~= params_view(v@));
    out
}

/// A copy of an optional name.
pub fn copy_opt_ident(o: &Option<Span<String>>) -> (r: Option<Span<String>>)
    ensures
        opt_ident_view(r) == opt_ident_view(*o),
{
    match o {
        Some(s) => Some(s.duplicate()),
        None => None,
    }
}

fn copy_expr(e: &Expression) -> (r: Expression)
    ensures
        r@ == e@,
    decreases e, 0nat,
{
    match e {
        Expression::Int(x) => Expression::Int(Span { data: x.data, range: x.range }),
        Expression::String(s) => Expression::String(s.duplicate()),
        Expression::Bool(b) => Expression::Bool(*b),
        Expression::Name(n) => Expression::Name(n.duplicate()),
        Expression::ObjVal(a, b) => Expression::ObjVal(a.duplicate(), b.duplicate()),
        Expression::Add(a, b) => Expression::Add(Box::new(copy_expr(a)), Box::new(copy_expr(b))),
        Expression::Sub(a, b) => Expression::Sub(Box::new(copy_expr(a)), Box::new(copy_expr(b))),
        Expression::Mul(a, b) => Expression::Mul(Box::new(copy_expr(a)), Box::new(copy_expr(b))),
        Expression::Div(a, b) => Expression::Div(Box::new(copy_expr(a)), Box::new(copy_expr(b))),
        Expression::Eq(a, b) => Expression::Eq(Box::new(copy_expr(a)), Box::new(copy_expr(b))),
        Expression::Neq(a, b) => Expression::Neq(Box::new(copy_expr(a)), Box::new(copy_expr(b))),
        Expression::Call(f, args) => Expression::Call(f.duplicate(), copy_exprs(args)),
        Expression::ObjCall(a, f, args) => Expression::ObjCall(
            a.duplicate(),
            f.duplicate(),
            copy_exprs(args),
        ),
        Expression::If(c, t, e) => Expression::If(
            Box::new(copy_expr(c)),
            copy_block(t),
            match e {
                Some(b) => Some(copy_block(b)),
                None => None,
            },
        ),
    }
}

#[verifier::loop_isolation(false)]
fn copy_exprs(v: &Vec<Expression>) -> (r: Vec<Expression>)
    ensures
        exprs_view(r) == exprs_view(*v),
    decreases v, 1nat,
{
    let mut out: Vec<Expression> = Vec::new();
    let mut i: usize = 0;
    while i < v.len()
        invariant
            0 <= i <= v.len(),
            out.len() == i,
            forall|j: int| 0 <= j < i ==> out[j]@ == v[j]@,
        decreases v.len() - i,
    {
        out.push(copy_expr(&v[i]));
        i += 1;
    }
    assert(exprs_view(out) =~= exprs_view(*v));
    out
}

fn copy_block(b: &Block) -> (r: Block)
    ensures
        r@ == b@,
    decreases b, 2nat,
{
    Block(copy_stmts(&b.0))
}

#[verifier::loop_isolation(false)]
fn copy_stmts(v: &Vec<Stmt>) -> (r: Vec<Stmt>)
    ensures
        stmts_view(r) == stmts_view(*v),
    decreases v, 1nat,
{
    let mut out: Vec<Stmt> = Vec::new();
    let mut i: usize = 0;
    while i < v.len()
        invariant
            0 <= i <= v.len(),
            out.len() == i,
            forall|j: int| 0 <= j < i ==> out[j]@ == v[j]@,
        decreases v.len() - i,
    {
        out.push(copy_stmt(&v[i]));
        i += 1;
    }
    assert(stmts_view(out) =~= stmts_view(*v));
    out
}

fn copy_func(f: &Func) -> (r: Func)
    ensures
        r@ == f@,
    decreases f, 0nat,
{
    Func {
        name: f.name.duplicate(),
        params: copy_params(&f.params),
        return_type: copy_opt_ident(&f.return_type),
        block: copy_block(&f.block),
    }
}

fn copy_stmt(s: &Stmt) -> (r: Stmt)
    ensures
        r@ == s@,
    decreases s, 0nat,
{
    match s {
        Stmt::Expr(e) => Stmt::Expr(copy_expr(e)),
        Stmt::Val(a, e) => Stmt::Val(a.duplicate(), copy_expr(e)),
        Stmt::Var(a, e) => Stmt::Var(a.duplicate(), copy_expr(e)),
        Stmt::Assign(a, e) => Stmt::Assign(a.duplicate(), copy_expr(e)),
        Stmt::Return(e) => Stmt::Return(copy_expr(e)),
        Stmt::For(n, from, to, b) => Stmt::For(
            n.duplicate(),
            copy_expr(from),
            copy_expr(to),
            copy_block(b),
        ),
        Stmt::While(c, b) => Stmt::While(copy_expr(c), copy_block(b)),
        Stmt::Func(f) => Stmt::Func(copy_func(f)),
    }
}

impl Clone for Expression {
    fn clone(&self) -> (r: Self)
        ensures
            r@ == self@,
    {
        copy_expr(self)
    }
}

impl Clone for Block {
    fn clone(&self) -> (r: Self)
        ensures
            r@ == self@,
    {
        copy_block(self)
    }
}

impl Clone for Func {
    fn clone(&self) -> (r: Self)
        ensures
            r@ == self@,
    {
        copy_func(self)
    }
}

impl Clone for Stmt {
    fn clone(&self) -> (r: Self)
        ensures
            r@ == self@,
    {
        copy_stmt(self)
    }
}

impl Clone for Object {
    fn clone(&self) -> (r: Self)
        ensures
            r.name@ == self.name@,
            opt_ident_view(r.extends) == opt_ident_view(self.extends),
            idents_view(r.with@) == idents_view(self.with@),
            r.block@ == self.block@,
    {
        Object {
            name: self.name.duplicate(),
            extends: copy_opt_ident(&self.extends),
            with: copy_idents(&self.with),
            block: copy_block(&self.block),
        }
    }
}

impl Clone for Class {
    fn clone(&self) -> (r: Self)
        ensures
            r.name@ == self.name@,
            params_view(r.args@) == params_view(self.args@),
            opt_ident_view(r.extends) == opt_ident_view(self.extends),
            idents_view(r.with@) == idents_view(self.with@),
            r.block@ == self.block@,
    {
        Class {
            name: self.name.duplicate(),
            args: copy_params(&self.args),
            extends: copy_opt_ident(&self.extends),
            with: copy_idents(&self.with),
            block: copy_block(&self.block),
        }
    }
}

impl Clone for TopItem {
    fn clone(&self) -> (r: Self)
        ensures
            r@ == self@,
    {
        match self {
            TopItem::Class(c) => TopItem::Class(c.clone()),
            TopItem::Object(o) => TopItem::Object(o.clone()),
        }
    }
}

} // verus!
