//! The second lowering: every local name becomes a slot of its call frame and
//! every string literal gets a heap id, so that nothing is looked up by name
//! when the program runs.
//!
//! Slots are dense and counted from zero in each function, in the order of
//! the declarations; the parameters come first, and a declaration has its
//! slot before its initializer is lowered. Heap ids of string literals are
//! counted from zero once for all the classes that are lowered together. A
//! call of a method becomes a call of its receiver: the method is dropped.
//!
//! A name without a slot ends the lowering with an error.
use vstd::prelude::*;
use vstd::string::*;
use vstd::hash_map::StringHashMap;
use crate::Span;
use crate::ast::{
    Ident, opt_ident_view, idents_view, params_view, copy_opt_ident, copy_idents,
};
use crate::hir;

verus! {

/// An expression after the second lowering.
#[derive(Debug)]
pub enum Expression {
    Int(Span<i64>),
    /// heap id, text
    String(usize, Span<String>),
    Bool(bool),
    /// the slot of a local
    Name(Span<usize>),
    Add(Box<Expression>, Box<Expression>),
    Sub(Box<Expression>, Box<Expression>),
    Mul(Box<Expression>, Box<Expression>),
    Div(Box<Expression>, Box<Expression>),
    Eq(Box<Expression>, Box<Expression>),
    Neq(Box<Expression>, Box<Expression>),
    Call(Span<String>, Vec<Expression>),
    If(Box<Expression>, Vec<Stmt>, Option<Vec<Stmt>>),
}

/// A function with the slots of its parameters.
#[derive(Debug)]
pub struct Func {
    pub name: Span<String>,
    pub params: Vec<usize>,
    pub return_type: Option<Span<String>>,
    pub block: Vec<Stmt>,
}

/// A statement after the second lowering.
#[derive(Debug)]
pub enum Stmt {
    Expr(Expression),
    Let(Span<usize>, Expression),
    Assign(Span<usize>, Expression),
    Return(Expression),
    While(Expression, Vec<Stmt>),
    Block(Vec<Stmt>),
    Func { name: Span<String>, params: Vec<usize>, return_type: Option<Span<String>>, block: Vec<Stmt> },
}

/// A class or object after the second lowering.
#[derive(Debug)]
pub struct Class {
    pub name: Span<String>,
    /// slot and type name of each constructor argument
    pub args: Vec<(Span<usize>, Span<String>)>,
    pub extends: Option<Span<String>>,
    pub with: Vec<Span<String>>,
    pub block: Vec<Stmt>,
}

/// The mathematical value of an [`Expression`].
pub enum SpecExpression {
    Int(Span<i64>),
    String(usize, Ident),
    Bool(bool),
    Name(Span<usize>),
    Add(Box<SpecExpression>, Box<SpecExpression>),
    Sub(Box<SpecExpression>, Box<SpecExpression>),
    Mul(Box<SpecExpression>, Box<SpecExpression>),
    Div(Box<SpecExpression>, Box<SpecExpression>),
    Eq(Box<SpecExpression>, Box<SpecExpression>),
    Neq(Box<SpecExpression>, Box<SpecExpression>),
    Call(Ident, Seq<SpecExpression>),
    If(Box<SpecExpression>, Seq<SpecStmt>, Option<Seq<SpecStmt>>),
}

/// The mathematical value of a [`Func`].
pub struct SpecFunc {
    pub name: Ident,
    pub params: Seq<usize>,
    pub return_type: Option<Ident>,
    pub block: Seq<SpecStmt>,
}

/// The mathematical value of a [`Stmt`].
pub enum SpecStmt {
    Expr(SpecExpression),
    Let(Span<usize>, SpecExpression),
    Assign(Span<usize>, SpecExpression),
    Return(SpecExpression),
    While(SpecExpression, Seq<SpecStmt>),
    Block(Seq<SpecStmt>),
    Func { name: Ident, params: Seq<usize>, return_type: Option<Ident>, block: Seq<SpecStmt> },
}

/// The mathematical value of a [`Class`].
pub struct SpecClass {
    pub name: Ident,
    pub args: Seq<(Span<usize>, Ident)>,
    pub extends: Option<Ident>,
    pub with: Seq<Ident>,
    pub block: Seq<SpecStmt>,
}

impl Expression {
    /// The mathematical value.
    pub open spec fn view(&self) -> SpecExpression
        decreases self,
    {
        match self {
            Expression::Int(x) => SpecExpression::Int(*x),
            Expression::String(id, s) => SpecExpression::String(*id, s@),
            Expression::Bool(b) => SpecExpression::Bool(*b),
            Expression::Name(n) => SpecExpression::Name(*n),
            Expression::Add(a, b) => SpecExpression::Add(Box::new(a.view()), Box::new(b.view())),
            Expression::Sub(a, b) => SpecExpression::Sub(Box::new(a.view()), Box::new(b.view())),
            Expression::Mul(a, b) => SpecExpression::Mul(Box::new(a.view()), Box::new(b.view())),
            Expression::Div(a, b) => SpecExpression::Div(Box::new(a.view()), Box::new(b.view())),
            Expression::Eq(a, b) => SpecExpression::Eq(Box::new(a.view()), Box::new(b.view())),
            Expression::Neq(a, b) => SpecExpression::Neq(Box::new(a.view()), Box::new(b.view())),
            Expression::Call(f, args) => SpecExpression::Call(f@, exprs_view(*args)),
            Expression::If(c, t, e) => SpecExpression::If(
                Box::new(c.view()),
                stmts_view(*t),
                match e {
                    Some(b) => Some(stmts_view(*b)),
                    None => None,
                },
            ),
        }
    }
}

/// The views of a list of expressions, in order.
pub open spec fn exprs_view(v: Vec<Expression>) -> Seq<SpecExpression>
    decreases v,
{
    Seq::new(
        v.len() as nat,
        |i: int|
            if 0 <= i < v.len() {
                v[i].view()
            } else {
                arbitrary()
            },
    )
}

/// The views of a list of statements, in order.
pub open spec fn stmts_view(v: Vec<Stmt>) -> Seq<SpecStmt>
    decreases v,
{
    Seq::new(
        v.len() as nat,
        |i: int|
            if 0 <= i < v.len() {
                v[i].view()
            } else {
                arbitrary()
            },
    )
}

impl Stmt {
    /// The mathematical value.
    pub open spec fn view(&self) -> SpecStmt
        decreases self,
    {
        match self {
            Stmt::Expr(e) => SpecStmt::Expr(e.view()),
            Stmt::Let(a, e) => SpecStmt::Let(*a, e.view()),
            Stmt::Assign(a, e) => SpecStmt::Assign(*a, e.view()),
            Stmt::Return(e) => SpecStmt::Return(e.view()),
            Stmt::While(c, b) => SpecStmt::While(c.view(), stmts_view(*b)),
            Stmt::Block(b) => SpecStmt::Block(stmts_view(*b)),
            Stmt::Func { name, params, return_type, block } => SpecStmt::Func {
                name: name@,
                params: params@,
                return_type: opt_ident_view(*return_type),
                block: stmts_view(*block),
            },
        }
    }
}

impl Func {
    /// The mathematical value.
    pub open spec fn view(&self) -> SpecFunc {
        SpecFunc {
            name: self.name@,
            params: self.params@,
            return_type: opt_ident_view(self.return_type),
            block: stmts_view(self.block),
        }
    }
}

/// The views of a list of (slot, type name) pairs, in order.
pub open spec fn args_view(v: Seq<(Span<usize>, Span<String>)>) -> Seq<(Span<usize>, Ident)> {
    Seq::new(v.len(), |i: int| (v[i].0, v[i].1@))
}

impl Class {
    /// The mathematical value.
    pub open spec fn view(&self) -> SpecClass {
        SpecClass {
            name: self.name@,
            args: args_view(self.args@),
            extends: opt_ident_view(self.extends),
            with: idents_view(self.with@),
            block: stmts_view(self.block),
        }
    }
}

/// The views of a list of classes, in order.
pub open spec fn classes_view(v: Seq<Class>) -> Seq<SpecClass> {
    Seq::new(v.len(), |i: int| v[i]@)
}


fn copy_expr(e: &Expression) -> (r: Expression)
    ensures
        r@ == e@,
    decreases e, 0nat,
{
    match e {
        Expression::Int(x) => Expression::Int(Span { data: x.data, range: x.range }),
        Expression::String(id, s) => Expression::String(*id, s.duplicate()),
        Expression::Bool(b) => Expression::Bool(*b),
        Expression::Name(n) => Expression::Name(Span { data: n.data, range: n.range }),
        Expression::Add(a, b) => Expression::Add(Box::new(copy_expr(a)), Box::new(copy_expr(b))),
        Expression::Sub(a, b) => Expression::Sub(Box::new(copy_expr(a)), Box::new(copy_expr(b))),
        Expression::Mul(a, b) => Expression::Mul(Box::new(copy_expr(a)), Box::new(copy_expr(b))),
        Expression::Div(a, b) => Expression::Div(Box::new(copy_expr(a)), Box::new(copy_expr(b))),
        Expression::Eq(a, b) => Expression::Eq(Box::new(copy_expr(a)), Box::new(copy_expr(b))),
        Expression::Neq(a, b) => Expression::Neq(Box::new(copy_expr(a)), Box::new(copy_expr(b))),
        Expression::Call(f, args) => Expression::Call(f.duplicate(), copy_exprs(args)),
        Expression::If(c, t, e) => Expression::If(
            Box::new(copy_expr(c)),
            copy_stmts(t),
            match e {
                Some(b) => Some(copy_stmts(b)),
                None => None,
            },
        ),
    }
}

#[verifier::loop_isolation(false)]
fn copy_exprs(v: &Vec<Expression>) -> (r: Vec<Expression>)
    ensures
        exprs_view(r) == exprs_view(*v),
    decreases v, 1nat,
{
    let mut out: Vec<Expression> = Vec::new();
    let mut i: usize = 0;
    while i < v.len()
        invariant
            0 <= i <= v.len(),
            out.len() == i,
            forall|j: int| 0 <= j < i ==> out[j]@ == v[j]@,
        decreases v.len() - i,
    {
        out.push(copy_expr(&v[i]));
        i += 1;
    }
    assert(exprs_view(out) =~= exprs_view(*v));
    out
}

#[verifier::loop_isolation(false)]
fn copy_stmts(v: &Vec<Stmt>) -> (r: Vec<Stmt>)
    ensures
        stmts_view(r) == stmts_view(*v),
    decreases v, 1nat,
{
    let mut out: Vec<Stmt> = Vec::new();
    let mut i: usize = 0;
    while i < v.len()
        invariant
            0 <= i <= v.len(),
            out.len() == i,
            forall|j: int| 0 <= j < i ==> out[j]@ == v[j]@,
        decreases v.len() - i,
    {
        out.push(copy_stmt(&v[i]));
        i += 1;
    }
    assert(stmts_view(out) =~= stmts_view(*v));
    out
}

fn copy_slots(v: &Vec<usize>) -> (r: Vec<usize>)
    ensures
        r@ == v@,
{
    let mut out: Vec<usize> = Vec::new();
    let mut i: usize = 0;
    while i < v.len()
        invariant
            0 <= i <= v.len(),
            out@ == v@.take(i as int),
        decreases v.len() - i,
    {
        out.push(v[i]);
        assert(out@ =~= v@.take(i + 1));
        i += 1;
    }
    assert(v@.take(v.len() as int) =~= v@);
    out
}

fn copy_stmt(s: &Stmt) -> (r: Stmt)
    ensures
        r@ == s@,
    decreases s, 0nat,
{
    match s {
        Stmt::Expr(e) => Stmt::Expr(copy_expr(e)),
        Stmt::Let(a, e) => Stmt::Let(Span { data: a.data, range: a.range }, copy_expr(e)),
        Stmt::Assign(a, e) => Stmt::Assign(Span { data: a.data, range: a.range }, copy_expr(e)),
        Stmt::Return(e) => Stmt::Return(copy_expr(e)),
        Stmt::While(c, b) => Stmt::While(copy_expr(c), copy_stmts(b)),
        Stmt::Block(b) => Stmt::Block(copy_stmts(b)),
        Stmt::Func { name, params, return_type, block } => Stmt::Func {
            name: name.duplicate(),
            params: copy_slots(params),
            return_type: copy_opt_ident(return_type),
            block: copy_stmts(block),
        },
    }
}

impl Clone for Expression {
    fn clone(&self) -> (r: Self)
        ensures
            r@ == self@,
    {
        copy_expr(self)
    }
}

impl Clone for Stmt {
    fn clone(&self) -> (r: Self)
        ensures
            r@ == self@,
    {
        copy_stmt(self)
    }
}

impl Clone for Func {
    fn clone(&self) -> (r: Self)
        ensures
            r@ == self@,
    {
        Func {
            name: self.name.duplicate(),
            params: copy_slots(&self.params),
            return_type: copy_opt_ident(&self.return_type),
            block: copy_stmts(&self.block),
        }
    }
}

impl Clone for Class {
    fn clone(&self) -> (r: Self)
        ensures
            r@ == self@,
    {
        let mut args: Vec<(Span<usize>, Span<String>)> = Vec::new();
        let mut i: usize = 0;
        while i < self.args.len()
            invariant
                0 <= i <= self.args.len(),
                args.len() == i,
                forall|j: int| 0 <= j < i ==> args[j].0 == self.args[j].0 && args[j].1@ == self.args[j].1@,
            decreases self.args.len() - i,
        {
            let a = &self.args[i];
            args.push((Span { data: a.0.data, range: a.0.range }, a.1.duplicate()));
            i += 1;
        }
        assert(args_view(args@) =~= args_view(self.args@));
        Class {
            name: self.name.duplicate(),
            args,
            extends: copy_opt_ident(&self.extends),
            with: copy_idents(&self.with),
            block: copy_stmts(&self.block),
        }
    }
}

/// The id that follows `id`, or `id` itself where none follows.
pub open spec fn after(id: usize) -> usize {
    if id == usize::MAX {
        id
    } else {
        (id + 1) as usize
    }
}

/// The larger of two ids.
pub open spec fn later(a: usize, b: usize) -> usize {
    if a >= b {
        a
    } else {
        b
    }
}

/// The least id that lies above the heap id of every string literal in `e`,
/// as far as ids go.
pub open spec fn ids_expr(e: SpecExpression) -> usize
    decreases e, 0nat,
{
    match e {
        SpecExpression::Int(_) => 0,
        SpecExpression::String(id, _) => after(id),
        SpecExpression::Bool(_) => 0,
        SpecExpression::Name(_) => 0,
        SpecExpression::Add(l, r) => later(ids_expr(*l), ids_expr(*r)),
        SpecExpression::Sub(l, r) => later(ids_expr(*l), ids_expr(*r)),
        SpecExpression::Mul(l, r) => later(ids_expr(*l), ids_expr(*r)),
        SpecExpression::Div(l, r) => later(ids_expr(*l), ids_expr(*r)),
        SpecExpression::Eq(l, r) => later(ids_expr(*l), ids_expr(*r)),
        SpecExpression::Neq(l, r) => later(ids_expr(*l), ids_expr(*r)),
        SpecExpression::Call(_, args) => ids_exprs(args, 0),
        SpecExpression::If(c, t, e) => later(
            ids_expr(*c),
            later(
                ids_block(t, 0),
                match e {
                    Some(b) => ids_block(b, 0),
                    None => 0,
                },
            ),
        ),
    }
}

/// [`ids_expr`] over the expressions of a list from the expression `i` on.
pub open spec fn ids_exprs(es: Seq<SpecExpression>, i: nat) -> usize
    decreases es, es.len() - i,
{
    if i >= es.len() {
        0
    } else {
        later(ids_expr(es[i as int]), ids_exprs(es, i + 1))
    }
}

/// The least id that lies above the heap id of every string literal in `s`,
/// as far as ids go.
pub open spec fn ids_stmt(s: SpecStmt) -> usize
    decreases s, 0nat,
{
    match s {
        SpecStmt::Expr(e) => ids_expr(e),
        SpecStmt::Let(_, e) => ids_expr(e),
        SpecStmt::Assign(_, e) => ids_expr(e),
        SpecStmt::Return(e) => ids_expr(e),
        SpecStmt::While(c, b) => later(ids_expr(c), ids_block(b, 0)),
        SpecStmt::Block(b) => ids_block(b, 0),
        SpecStmt::Func { name, params, return_type, block } => ids_block(block, 0),
    }
}

/// [`ids_stmt`] over the statements of a list from the statement `i` on.
pub open spec fn ids_block(ss: Seq<SpecStmt>, i: nat) -> usize
    decreases ss, ss.len() - i,
{
    if i >= ss.len() {
        0
    } else {
        later(ids_stmt(ss[i as int]), ids_block(ss, i + 1))
    }
}

/// [`ids_block`] over the bodies of a list of classes from the class `i` on.
pub open spec fn ids_classes(cs: Seq<SpecClass>, i: nat) -> usize
    decreases cs.len() - i,
{
    if i >= cs.len() {
        0
    } else {
        later(ids_block(cs[i as int].block, 0), ids_classes(cs, i + 1))
    }
}

fn pick_later(a: usize, b: usize) -> (r: usize)
    ensures
        r == later(a, b),
{
    if a >= b {
        a
    } else {
        b
    }
}

#[verifier::loop_isolation(false)]
fn first_free_expr(e: &Expression) -> (r: usize)
    ensures
        r == ids_expr(e@),
    decreases e, 0nat,
{
    match e {
        Expression::Int(_) => 0,
        Expression::String(id, _) => if *id == usize::MAX {
            *id
        } else {
            *id + 1
        },
        Expression::Bool(_) => 0,
        Expression::Name(_) => 0,
        Expression::Add(l, r) => pick_later(first_free_expr(l), first_free_expr(r)),
        Expression::Sub(l, r) => pick_later(first_free_expr(l), first_free_expr(r)),
        Expression::Mul(l, r) => pick_later(first_free_expr(l), first_free_expr(r)),
        Expression::Div(l, r) => pick_later(first_free_expr(l), first_free_expr(r)),
        Expression::Eq(l, r) => pick_later(first_free_expr(l), first_free_expr(r)),
        Expression::Neq(l, r) => pick_later(first_free_expr(l), first_free_expr(r)),
        Expression::Call(_, args) => {
            let ghost all = exprs_view(*args);
            let mut found: usize = 0;
            let mut i: usize = 0;
            while i < args.len()
                invariant
                    0 <= i <= args.len(),
                    later(found, ids_exprs(all, i as nat)) == ids_exprs(all, 0),
                decreases args.len() - i,
            {
                found = pick_later(found, first_free_expr(&args[i]));
                i += 1;
            }
            found
        },
        Expression::If(c, t, e) => {
            let in_else = match e {
                Some(b) => first_free_block(b),
                None => 0,
            };
            pick_later(first_free_expr(c), pick_later(first_free_block(t), in_else))
        },
    }
}

#[verifier::loop_isolation(false)]
fn first_free_stmt(s: &Stmt) -> (r: usize)
    ensures
        r == ids_stmt(s@),
    decreases s, 0nat,
{
    match s {
        Stmt::Expr(e) => first_free_expr(e),
        Stmt::Let(_, e) => first_free_expr(e),
        Stmt::Assign(_, e) => first_free_expr(e),
        Stmt::Return(e) => first_free_expr(e),
        Stmt::While(c, b) => pick_later(first_free_expr(c), first_free_block(b)),
        Stmt::Block(b) => first_free_block(b),
        Stmt::Func { name, params, return_type, block } => first_free_block(block),
    }
}

#[verifier::loop_isolation(false)]
fn first_free_block(ss: &Vec<Stmt>) -> (r: usize)
    ensures
        r == ids_block(stmts_view(*ss), 0),
    decreases ss, 1nat,
{
    let ghost all = stmts_view(*ss);
    let mut found: usize = 0;
    let mut i: usize = 0;
    while i < ss.len()
        invariant
            0 <= i <= ss.len(),
            later(found, ids_block(all, i as nat)) == ids_block(all, 0),
        decreases ss.len() - i,
    {
        found = pick_later(found, first_free_stmt(&ss[i]));
        i += 1;
    }
    found
}

/// The least heap id that lies above the id of every string literal of the
/// classes: the ids from there on are free for what a run allocates.
pub fn first_free_id(classes: &Vec<Class>) -> (r: usize)
    ensures
        r == ids_classes(classes_view(classes@), 0),
{
    let ghost all = classes_view(classes@);
    let mut found: usize = 0;
    let mut i: usize = 0;
    while i < classes.len()
        invariant
            0 <= i <= classes.len(),
            all == classes_view(classes@),
            later(found, ids_classes(all, i as nat)) == ids_classes(all, 0),
        decreases classes.len() - i,
    {
        found = pick_later(found, first_free_block(&classes[i].block));
        i += 1;
    }
    found
}


/// Why a tree could not be lowered.
#[derive(Debug)]
pub enum MirError {
    /// A name is read or assigned that no declaration of its function has
    /// introduced.
    Unresolved(Span<String>),
    /// No slot or heap id is left.
    Exhausted,
}

/// The mathematical value of a [`MirError`].
pub enum SpecMirError {
    Unresolved(Ident),
    Exhausted,
}

impl MirError {
    /// The mathematical value.
    pub open spec fn view(&self) -> SpecMirError {
        match self {
            MirError::Unresolved(n) => SpecMirError::Unresolved(n@),
            MirError::Exhausted => SpecMirError::Exhausted,
        }
    }
}

impl SpecMirError {
    /// The error in words.
    pub open spec fn text(self) -> Seq<char> {
        match self {
            SpecMirError::Unresolved(n) => "unresolved name "@ + n.data,
            SpecMirError::Exhausted => "too many locals or string literals"@,
        }
    }
}

impl MirError {
    /// The error in words.
    pub fn message(&self) -> (r: String)
        ensures
            r@ == self@.text(),
    {
        match self {
            MirError::Unresolved(n) => {
                let mut r = String::from_str("unresolved name ");
                r.append(n.data.as_str());
                r
            },
            MirError::Exhausted => String::from_str("too many locals or string literals"),
        }
    }
}

/// What the lowering knows at one point of a function.
pub struct Resolver {
    /// The slot of every name declared so far.
    pub rename: Map<Seq<char>, usize>,
    /// The slot that the next declaration gets.
    pub next_slot: usize,
    /// The heap id that the next string literal gets.
    pub next_heap: usize,
}

/// What lowering a piece of a tree gives: the state that the following piece
/// starts from, and the lowered piece or the reason why there is none.
pub struct Resolved<T> {
    pub st: Resolver,
    pub r: Result<T, SpecMirError>,
}

impl<T> Resolved<T> {
    /// The piece of a successful lowering.
    pub open spec fn get(self) -> T {
        match self.r {
            Ok(x) => x,
            Err(_) => arbitrary(),
        }
    }

    /// The failure of a lowering, as the failure of a lowering of another
    /// kind of piece.
    pub open spec fn fails<U>(self) -> Resolved<U> {
        Resolved {
            st: self.st,
            r: match self.r {
                Ok(_) => Err(SpecMirError::Exhausted),
                Err(e) => Err(e),
            },
        }
    }
}

/// The result of two lowerings that run one after the other: the first
/// failure, or `out`.
pub open spec fn join(
    a: Resolved<SpecExpression>,
    b: Resolved<SpecExpression>,
    out: SpecExpression,
) -> Resolved<SpecExpression> {
    if a.r is Err {
        a
    } else if b.r is Err {
        b
    } else {
        Resolved { st: b.st, r: Ok(out) }
    }
}

/// The slot of a name, or the failure to find one.
pub open spec fn lookup(st: Resolver, name: Ident) -> Result<Span<usize>, SpecMirError> {
    if st.rename.contains_key(name.data) {
        Ok(Span { data: st.rename[name.data], range: name.range })
    } else {
        Err(SpecMirError::Unresolved(name))
    }
}

/// The slots of a list of parameters: each gets its position, and of two
/// parameters of one name the later one keeps the name.
pub open spec fn slots_of(params: Seq<(Ident, Ident)>) -> Map<Seq<char>, usize>
    decreases params.len(),
{
    if params.len() == 0 {
        Map::empty()
    } else {
        slots_of(params.drop_last()).insert(params.last().0.data, (params.len() - 1) as usize)
    }
}

/// The slots `0`, `1`, ... up to `n`, in order.
pub open spec fn first_slots(n: nat) -> Seq<usize> {
    Seq::new(n, |i: int| i as usize)
}

/// The constructor arguments of a class with their slots: each gets its
/// position.
pub open spec fn numbered(args: Seq<(Ident, Ident)>) -> Seq<(Span<usize>, Ident)> {
    Seq::new(args.len(), |i: int| (Span { data: i as usize, range: args[i].0.range }, args[i].1))
}

/// Lowering of an expression.
pub open spec fn resolve_expr(st: Resolver, e: hir::SpecExpression) -> Resolved<SpecExpression>
    decreases e, 0nat,
{
    match e {
        hir::SpecExpression::Int(x) => Resolved { st, r: Ok(SpecExpression::Int(x)) },
        hir::SpecExpression::String(x) => {
            if st.next_heap == usize::MAX {
                Resolved { st, r: Err(SpecMirError::Exhausted) }
            } else {
                Resolved {
                    st: Resolver { next_heap: (st.next_heap + 1) as usize, ..st },
                    r: Ok(SpecExpression::String(st.next_heap, x)),
                }
            }
        },
        hir::SpecExpression::Bool(x) => Resolved { st, r: Ok(SpecExpression::Bool(x)) },
        hir::SpecExpression::Name(x) => Resolved {
            st,
            r: match lookup(st, x) {
                Ok(slot) => Ok(SpecExpression::Name(slot)),
                Err(e) => Err(e),
            },
        },
        hir::SpecExpression::Add(l, r) => {
            let a = resolve_expr(st, *l);
            let b = resolve_expr(a.st, *r);
            join(a, b, SpecExpression::Add(Box::new(a.get()), Box::new(b.get())))
        },
        hir::SpecExpression::Sub(l, r) => {
            let a = resolve_expr(st, *l);
            let b = resolve_expr(a.st, *r);
            join(a, b, SpecExpression::Sub(Box::new(a.get()), Box::new(b.get())))
        },
        hir::SpecExpression::Mul(l, r) => {
            let a = resolve_expr(st, *l);
            let b = resolve_expr(a.st, *r);
            join(a, b, SpecExpression::Mul(Box::new(a.get()), Box::new(b.get())))
        },
        hir::SpecExpression::Div(l, r) => {
            let a = resolve_expr(st, *l);
            let b = resolve_expr(a.st, *r);
            join(a, b, SpecExpression::Div(Box::new(a.get()), Box::new(b.get())))
        },
        hir::SpecExpression::Eq(l, r) => {
            let a = resolve_expr(st, *l);
            let b = resolve_expr(a.st, *r);
            join(a, b, SpecExpression::Eq(Box::new(a.get()), Box::new(b.get())))
        },
        hir::SpecExpression::Neq(l, r) => {
            let a = resolve_expr(st, *l);
            let b = resolve_expr(a.st, *r);
            join(a, b, SpecExpression::Neq(Box::new(a.get()), Box::new(b.get())))
        },
        hir::SpecExpression::Call(f, args) => {
            let a = resolve_exprs(st, args, 0, Seq::empty());
            match a.r {
                Ok(args) => Resolved { st: a.st, r: Ok(SpecExpression::Call(f, args)) },
                Err(_) => a.fails(),
            }
        },
        hir::SpecExpression::ObjCall(recv, _, args) => {
            let a = resolve_exprs(st, args, 0, Seq::empty());
            match a.r {
                Ok(args) => Resolved { st: a.st, r: Ok(SpecExpression::Call(recv, args)) },
                Err(_) => a.fails(),
            }
        },
        hir::SpecExpression::If(c, t, e) => {
            let c1 = resolve_expr(st, *c);
            if c1.r is Err {
                c1
            } else {
                let t1 = resolve_block(c1.st, t, 0, Seq::empty());
                if t1.r is Err {
                    t1.fails()
                } else {
                    match e {
                        Some(e) => {
                            let e1 = resolve_block(t1.st, e, 0, Seq::empty());
                            if e1.r is Err {
                                e1.fails()
                            } else {
                                Resolved {
                                    st: e1.st,
                                    r: Ok(
                                        SpecExpression::If(
                                            Box::new(c1.get()),
                                            t1.get(),
                                            Some(e1.get()),
                                        ),
                                    ),
                                }
                            }
                        },
                        None => Resolved {
                            st: t1.st,
                            r: Ok(SpecExpression::If(Box::new(c1.get()), t1.get(), None)),
                        },
                    }
                }
            }
        },
    }
}

/// Lowering of the expressions of a list from the expression `i` on, from
/// left to right, after the earlier ones gave `seen`.
pub open spec fn resolve_exprs(
    st: Resolver,
    es: Seq<hir::SpecExpression>,
    i: nat,
    seen: Seq<SpecExpression>,
) -> Resolved<Seq<SpecExpression>>
    decreases es, es.len() - i,
{
    if i >= es.len() {
        Resolved { st, r: Ok(seen) }
    } else {
        let x = resolve_expr(st, es[i as int]);
        match x.r {
            Ok(e) => resolve_exprs(x.st, es, i + 1, seen.push(e)),
            Err(_) => x.fails(),
        }
    }
}

/// Lowering of a statement.
pub open spec fn resolve_stmt(st: Resolver, s: hir::SpecStmt) -> Resolved<SpecStmt>
    decreases s, 0nat,
{
    match s {
        hir::SpecStmt::Expr(e) => {
            let e1 = resolve_expr(st, e);
            match e1.r {
                Ok(e) => Resolved { st: e1.st, r: Ok(SpecStmt::Expr(e)) },
                Err(_) => e1.fails(),
            }
        },
        hir::SpecStmt::Let(a, e) => {
            if st.next_slot == usize::MAX {
                Resolved { st, r: Err(SpecMirError::Exhausted) }
            } else {
                let declared = Resolver {
                    rename: st.rename.insert(a.data, st.next_slot),
                    next_slot: (st.next_slot + 1) as usize,
                    ..st
                };
                let e1 = resolve_expr(declared, e);
                match e1.r {
                    Ok(e) => Resolved {
                        st: e1.st,
                        r: Ok(SpecStmt::Let(Span { data: st.next_slot, range: a.range }, e)),
                    },
                    Err(_) => e1.fails(),
                }
            }
        },
        hir::SpecStmt::Assign(a, e) => {
            match lookup(st, a) {
                Err(err) => Resolved { st, r: Err(err) },
                Ok(slot) => {
                    let e1 = resolve_expr(st, e);
                    match e1.r {
                        Ok(e) => Resolved { st: e1.st, r: Ok(SpecStmt::Assign(slot, e)) },
                        Err(_) => e1.fails(),
                    }
                },
            }
        },
        hir::SpecStmt::Return(e) => {
            let e1 = resolve_expr(st, e);
            match e1.r {
                Ok(e) => Resolved { st: e1.st, r: Ok(SpecStmt::Return(e)) },
                Err(_) => e1.fails(),
            }
        },
        hir::SpecStmt::While(c, body) => {
            let c1 = resolve_expr(st, c);
            if c1.r is Err {
                c1.fails()
            } else {
                let b1 = resolve_block(c1.st, body, 0, Seq::empty());
                match b1.r {
                    Ok(b) => Resolved { st: b1.st, r: Ok(SpecStmt::While(c1.get(), b)) },
                    Err(_) => b1.fails(),
                }
            }
        },
        hir::SpecStmt::Block(body) => {
            let b1 = resolve_block(st, body, 0, Seq::empty());
            match b1.r {
                Ok(b) => Resolved { st: b1.st, r: Ok(SpecStmt::Block(b)) },
                Err(_) => b1.fails(),
            }
        },
        hir::SpecStmt::Func { name, params, return_type, block } => {
            let inner = Resolver {
                rename: slots_of(params),
                next_slot: params.len() as usize,
                next_heap: st.next_heap,
            };
            let b1 = if params.len() <= usize::MAX {
                resolve_block(inner, block, 0, Seq::empty())
            } else {
                Resolved { st, r: Err(SpecMirError::Exhausted) }
            };
            match b1.r {
                Ok(b) => Resolved {
                    st: Resolver { next_heap: b1.st.next_heap, ..st },
                    r: Ok(
                        SpecStmt::Func {
                            name,
                            params: first_slots(params.len()),
                            return_type,
                            block: b,
                        },
                    ),
                },
                Err(_) => b1.fails(),
            }
        },
    }
}

/// Lowering of the statements of a list from the statement `i` on, from
/// first to last, after the earlier ones gave `seen`.
pub open spec fn resolve_block(
    st: Resolver,
    ss: Seq<hir::SpecStmt>,
    i: nat,
    seen: Seq<SpecStmt>,
) -> Resolved<Seq<SpecStmt>>
    decreases ss, ss.len() - i,
{
    if i >= ss.len() {
        Resolved { st, r: Ok(seen) }
    } else {
        let x = resolve_stmt(st, ss[i as int]);
        match x.r {
            Ok(s) => resolve_block(x.st, ss, i + 1, seen.push(s)),
            Err(_) => x.fails(),
        }
    }
}

/// Lowering of a class, with the heap ids from `next_heap` on: the
/// constructor arguments take the first slots, and the body follows.
pub open spec fn resolve_class(next_heap: usize, c: hir::SpecClass) -> Resolved<SpecClass> {
    let st = Resolver { rename: slots_of(c.args), next_slot: c.args.len() as usize, next_heap };
    let b1 = if c.args.len() <= usize::MAX {
        resolve_block(st, c.block, 0, Seq::empty())
    } else {
        Resolved { st, r: Err(SpecMirError::Exhausted) }
    };
    match b1.r {
        Ok(b) => Resolved {
            st: b1.st,
            r: Ok(
                SpecClass {
                    name: c.name,
                    args: numbered(c.args),
                    extends: c.extends,
                    with: c.with,
                    block: b,
                },
            ),
        },
        Err(_) => b1.fails(),
    }
}

/// Lowering of the classes of a list from the class `i` on, after the
/// earlier ones gave `seen`. The heap ids go on from one class to the next.
pub open spec fn resolve_classes(
    next_heap: usize,
    cs: Seq<hir::SpecClass>,
    i: nat,
    seen: Seq<SpecClass>,
) -> Result<Seq<SpecClass>, SpecMirError>
    decreases cs.len() - i,
{
    if i >= cs.len() {
        Ok(seen)
    } else {
        let x = resolve_class(next_heap, cs[i as int]);
        match x.r {
            Ok(c) => resolve_classes(x.st.next_heap, cs, i + 1, seen.push(c)),
            Err(e) => Err(e),
        }
    }
}


/// The view of the result of lowering an expression.
pub open spec fn expr_result(r: Result<Expression, MirError>) -> Result<
    SpecExpression,
    SpecMirError,
> {
    match r {
        Ok(e) => Ok(e@),
        Err(e) => Err(e@),
    }
}

/// The view of the result of lowering a statement.
pub open spec fn stmt_result(r: Result<Stmt, MirError>) -> Result<SpecStmt, SpecMirError> {
    match r {
        Ok(s) => Ok(s@),
        Err(e) => Err(e@),
    }
}

/// The view of the result of lowering a list of expressions.
pub open spec fn exprs_result(r: Result<Vec<Expression>, MirError>) -> Result<
    Seq<SpecExpression>,
    SpecMirError,
> {
    match r {
        Ok(v) => Ok(exprs_view(v)),
        Err(e) => Err(e@),
    }
}

/// The view of the result of lowering a list of statements.
pub open spec fn block_result(r: Result<Vec<Stmt>, MirError>) -> Result<
    Seq<SpecStmt>,
    SpecMirError,
> {
    match r {
        Ok(v) => Ok(stmts_view(v)),
        Err(e) => Err(e@),
    }
}

/// The view of the result of lowering a class.
pub open spec fn class_result(r: Result<Class, MirError>) -> Result<SpecClass, SpecMirError> {
    match r {
        Ok(c) => Ok(c@),
        Err(e) => Err(e@),
    }
}

/// The view of the result of lowering a list of classes.
pub open spec fn classes_result(r: Result<Vec<Class>, MirError>) -> Result<
    Seq<SpecClass>,
    SpecMirError,
> {
    match r {
        Ok(v) => Ok(classes_view(v@)),
        Err(e) => Err(e@),
    }
}

proof fn lemma_exprs_push(v: Vec<Expression>, w: Vec<Expression>, x: Expression)
    requires
        w@ == v@.push(x),
    ensures
        exprs_view(w) == exprs_view(v).push(x@),
{
    assert(exprs_view(w) =~= exprs_view(v).push(x@));
}

proof fn lemma_stmts_push(v: Vec<Stmt>, w: Vec<Stmt>, x: Stmt)
    requires
        w@ == v@.push(x),
    ensures
        stmts_view(w) == stmts_view(v).push(x@),
{
    assert(stmts_view(w) =~= stmts_view(v).push(x@));
}

/// Lowers scope-checked classes one function at a time.
pub struct MirConverter {
    rename: StringHashMap<usize>,
    rename_idx: usize,
    heap_idx: usize,
}

impl MirConverter {
    /// What the converter knows at this point.
    pub closed spec fn view(&self) -> Resolver {
        Resolver { rename: self.rename@, next_slot: self.rename_idx, next_heap: self.heap_idx }
    }

    /// A converter that knows no name and has given out no slot and no heap
    /// id.
    pub fn new() -> (r: Self)
        ensures
            r@ == (Resolver { rename: Map::empty(), next_slot: 0, next_heap: 0 }),
    {
        Self { rename: StringHashMap::new(), rename_idx: 0, heap_idx: 0 }
    }

    /// A converter for the body of a function or class with the given
    /// parameters, and the slots of the parameters.
    fn for_body(params: &Vec<(Span<String>, Span<String>)>, heap_idx: usize) -> (r: (
        Self,
        Vec<usize>,
    ))
        ensures
            r.0@ == (Resolver {
                rename: slots_of(params_view(params@)),
                next_slot: params.len(),
                next_heap: heap_idx,
            }),
            r.1@ == first_slots(params.len() as nat),
    {
        let ghost ps = params_view(params@);
        let mut rename: StringHashMap<usize> = StringHashMap::new();
        let mut slots: Vec<usize> = Vec::new();
        let mut i: usize = 0;
        while i < params.len()
            invariant
                0 <= i <= params.len(),
                ps == params_view(params@),
                rename@ == slots_of(ps.take(i as int)),
                slots@ == first_slots(i as nat),
            decreases params.len() - i,
        {
            proof {
                assert(ps.take(i + 1).drop_last() =~= ps.take(i as int));
                assert(ps.take(i + 1).last() == ps[i as int]);
                assert(first_slots((i + 1) as nat) =~= first_slots(i as nat).push(i));
            }
            rename.insert(params[i].0.data.clone(), i);
            slots.push(i);
            i += 1;
        }
        proof {
            assert(ps.take(params.len() as int) =~= ps);
        }
        (Self { rename, rename_idx: params.len(), heap_idx }, slots)
    }

    /// The slot of a name.
    fn lookup(&self, name: &Span<String>) -> (r: Result<Span<usize>, MirError>)
        ensures
            match r {
                Ok(slot) => lookup(self@, name@) == Ok::<Span<usize>, SpecMirError>(slot),
                Err(e) => lookup(self@, name@) == Err::<Span<usize>, SpecMirError>(e@),
            },
    {
        match self.rename.get(name.data.as_str()) {
            Some(idx) => Ok(name.with(*idx)),
            None => Err(MirError::Unresolved(name.duplicate())),
        }
    }

    /// Lowers a class. What the converter knew of names and slots is
    /// forgotten first; the heap ids go on.
    pub fn convert(&mut self, from: hir::Class) -> (r: Result<Class, MirError>)
        ensures
            class_result(r) == resolve_class(old(self)@.next_heap, from@).r,
            r is Ok ==> final(self)@ == resolve_class(old(self)@.next_heap, from@).st,
    {
        let (mut body, slots) = Self::for_body(&from.args, self.heap_idx);
        let ghost entry = body@;
        let block = match body.convert_block(from.block) {
            Ok(b) => b,
            Err(e) => {
                return Err(e);
            },
        };
        let mut args: Vec<(Span<usize>, Span<String>)> = Vec::new();
        let ghost all = from.args@;
        for arg in it: from.args
            invariant
                it.seq() == all,
                args.len() == it.index(),
                forall|j: int|
                    0 <= j < it.index() ==> args[j].0 == (Span::<usize> {
                        data: j as usize,
                        range: all[j].0.range,
                    }) && args[j].1 == all[j].1,
        {
            let slot = arg.0.with(args.len());
            args.push((slot, arg.1));
        }
        let r = Class { name: from.name, args, extends: from.extends, with: from.with, block };
        proof {
            assert(r@.args =~= numbered(from@.args));
        }
        *self = body;
        Ok(r)
    }

    /// Lowers one statement.
    #[verifier::loop_isolation(false)]
    pub fn convert_stmt(&mut self, x: hir::Stmt) -> (r: Result<Stmt, MirError>)
        ensures
            stmt_result(r) == resolve_stmt(old(self)@, x@).r,
            r is Ok ==> final(self)@ == resolve_stmt(old(self)@, x@).st,
        decreases x, 0nat,
    {
        match x {
            hir::Stmt::Expr(e) => match self.convert_expr(e) {
                Ok(e) => Ok(Stmt::Expr(e)),
                Err(e) => Err(e),
            },
            hir::Stmt::Let(a, b) => {
                if self.rename_idx == usize::MAX {
                    return Err(MirError::Exhausted);
                }
                let slot = self.rename_idx;
                self.rename.insert(a.data.clone(), slot);
                self.rename_idx = slot + 1;
                match self.convert_expr(b) {
                    Ok(e) => Ok(Stmt::Let(a.with(slot), e)),
                    Err(e) => Err(e),
                }
            },
            hir::Stmt::Assign(a, b) => {
                let slot = match self.lookup(&a) {
                    Ok(slot) => slot,
                    Err(e) => {
                        return Err(e);
                    },
                };
                match self.convert_expr(b) {
                    Ok(e) => Ok(Stmt::Assign(slot, e)),
                    Err(e) => Err(e),
                }
            },
            hir::Stmt::Return(e) => match self.convert_expr(e) {
                Ok(e) => Ok(Stmt::Return(e)),
                Err(e) => Err(e),
            },
            hir::Stmt::While(e, v) => {
                let c = match self.convert_expr(e) {
                    Ok(c) => c,
                    Err(e) => {
                        return Err(e);
                    },
                };
                match self.convert_block(v) {
                    Ok(b) => Ok(Stmt::While(c, b)),
                    Err(e) => Err(e),
                }
            },
            hir::Stmt::Block(b) => match self.convert_block(b) {
                Ok(b) => Ok(Stmt::Block(b)),
                Err(e) => Err(e),
            },
            hir::Stmt::Func { name, params, return_type, block } => {
                let (mut inner, slots) = Self::for_body(&params, self.heap_idx);
                match inner.convert_block(block) {
                    Ok(b) => {
                        self.heap_idx = inner.heap_idx;
                        Ok(Stmt::Func { name, params: slots, return_type, block: b })
                    },
                    Err(e) => Err(e),
                }
            },
        }
    }

    /// Lowers a list of statements from first to last.
    #[verifier::loop_isolation(false)]
    fn convert_block(&mut self, xs: Vec<hir::Stmt>) -> (r: Result<Vec<Stmt>, MirError>)
        ensures
            block_result(r) == resolve_block(
                old(self)@,
                hir::stmts_view(xs),
                0,
                Seq::empty(),
            ).r,
            r is Ok ==> final(self)@ == resolve_block(
                old(self)@,
                hir::stmts_view(xs),
                0,
                Seq::empty(),
            ).st,
        decreases xs, 1nat,
    {
        let ghost all = hir::stmts_view(xs);
        let mut out: Vec<Stmt> = Vec::new();
        assert(stmts_view(out) =~= Seq::<SpecStmt>::empty());
        for x in it: xs
            invariant
                it.seq() == xs@,
                resolve_block(old(self)@, all, 0, Seq::empty()) == resolve_block(
                    self@,
                    all,
                    it.index() as nat,
                    stmts_view(out),
                ),
        {
            let ghost before = out;
            match self.convert_stmt(x) {
                Ok(s) => {
                    out.push(s);
                    proof {
                        lemma_stmts_push(before, out, s);
                    }
                },
                Err(e) => {
                    return Err(e);
                },
            }
        }
        Ok(out)
    }

    /// Lowers one expression.
    #[verifier::loop_isolation(false)]
    pub fn convert_expr(&mut self, x: hir::Expression) -> (r: Result<Expression, MirError>)
        ensures
            expr_result(r) == resolve_expr(old(self)@, x@).r,
            r is Ok ==> final(self)@ == resolve_expr(old(self)@, x@).st,
        decreases x, 1nat,
    {
        match x {
            hir::Expression::Int(x) => Ok(Expression::Int(x)),
            hir::Expression::String(x) => {
                if self.heap_idx == usize::MAX {
                    return Err(MirError::Exhausted);
                }
                let id = self.heap_idx;
                self.heap_idx = id + 1;
                Ok(Expression::String(id, x))
            },
            hir::Expression::Bool(x) => Ok(Expression::Bool(x)),
            hir::Expression::Name(x) => match self.lookup(&x) {
                Ok(slot) => Ok(Expression::Name(slot)),
                Err(e) => Err(e),
            },
            hir::Expression::Add(a, b) => match self.convert_pair(*a, *b, Ghost(x)) {
                Ok((l, r)) => Ok(Expression::Add(Box::new(l), Box::new(r))),
                Err(e) => Err(e),
            },
            hir::Expression::Sub(a, b) => match self.convert_pair(*a, *b, Ghost(x)) {
                Ok((l, r)) => Ok(Expression::Sub(Box::new(l), Box::new(r))),
                Err(e) => Err(e),
            },
            hir::Expression::Mul(a, b) => match self.convert_pair(*a, *b, Ghost(x)) {
                Ok((l, r)) => Ok(Expression::Mul(Box::new(l), Box::new(r))),
                Err(e) => Err(e),
            },
            hir::Expression::Div(a, b) => match self.convert_pair(*a, *b, Ghost(x)) {
                Ok((l, r)) => Ok(Expression::Div(Box::new(l), Box::new(r))),
                Err(e) => Err(e),
            },
            hir::Expression::Eq(a, b) => match self.convert_pair(*a, *b, Ghost(x)) {
                Ok((l, r)) => Ok(Expression::Eq(Box::new(l), Box::new(r))),
                Err(e) => Err(e),
            },
            hir::Expression::Neq(a, b) => match self.convert_pair(*a, *b, Ghost(x)) {
                Ok((l, r)) => Ok(Expression::Neq(Box::new(l), Box::new(r))),
                Err(e) => Err(e),
            },
            hir::Expression::Call(a, b) => match self.convert_exprs(b) {
                Ok(args) => Ok(Expression::Call(a, args)),
                Err(e) => Err(e),
            },
            hir::Expression::ObjCall(a, _method, c) => match self.convert_exprs(c) {
                Ok(args) => Ok(Expression::Call(a, args)),
                Err(e) => Err(e),
            },
            hir::Expression::If(c, b, e) => {
                let c1 = match self.convert_expr(*c) {
                    Ok(c) => c,
                    Err(e) => {
                        return Err(e);
                    },
                };
                let t1 = match self.convert_block(b) {
                    Ok(b) => b,
                    Err(e) => {
                        return Err(e);
                    },
                };
                match e {
                    Some(e) => match self.convert_block(e) {
                        Ok(e1) => Ok(Expression::If(Box::new(c1), t1, Some(e1))),
                        Err(e) => Err(e),
                    },
                    None => Ok(Expression::If(Box::new(c1), t1, None)),
                }
            },
        }
    }

    /// Lowers the two operands of a binary operator, the left one first.
    fn convert_pair(
        &mut self,
        a: hir::Expression,
        b: hir::Expression,
        Ghost(parent): Ghost<hir::Expression>,
    ) -> (r: Result<(Expression, Expression), MirError>)
        requires
            decreases_to!(parent => a),
            decreases_to!(parent => b),
        ensures
            ({
                let l = resolve_expr(old(self)@, a@);
                let rr = resolve_expr(l.st, b@);
                match r {
                    Ok((x, y)) => l.r == Ok::<SpecExpression, SpecMirError>(x@) && rr.r == Ok::<
                        SpecExpression,
                        SpecMirError,
                    >(y@) && final(self)@ == rr.st,
                    Err(e) => if l.r is Err {
                        l.r == Err::<SpecExpression, SpecMirError>(e@)
                    } else {
                        rr.r == Err::<SpecExpression, SpecMirError>(e@)
                    },
                }
            }),
        decreases parent, 0nat,
    {
        let l = match self.convert_expr(a) {
            Ok(l) => l,
            Err(e) => {
                return Err(e);
            },
        };
        match self.convert_expr(b) {
            Ok(r) => Ok((l, r)),
            Err(e) => Err(e),
        }
    }

    /// Lowers a list of expressions from left to right.
    #[verifier::loop_isolation(false)]
    fn convert_exprs(&mut self, xs: Vec<hir::Expression>) -> (r: Result<
        Vec<Expression>,
        MirError,
    >)
        ensures
            exprs_result(r) == resolve_exprs(
                old(self)@,
                hir::exprs_view(xs),
                0,
                Seq::empty(),
            ).r,
            r is Ok ==> final(self)@ == resolve_exprs(
                old(self)@,
                hir::exprs_view(xs),
                0,
                Seq::empty(),
            ).st,
        decreases xs, 1nat,
    {
        let ghost all = hir::exprs_view(xs);
        let mut out: Vec<Expression> = Vec::new();
        assert(exprs_view(out) =~= Seq::<SpecExpression>::empty());
        for x in it: xs
            invariant
                it.seq() == xs@,
                resolve_exprs(old(self)@, all, 0, Seq::empty()) == resolve_exprs(
                    self@,
                    all,
                    it.index() as nat,
                    exprs_view(out),
                ),
        {
            let ghost before = out;
            match self.convert_expr(x) {
                Ok(e) => {
                    out.push(e);
                    proof {
                        lemma_exprs_push(before, out, e);
                    }
                },
                Err(e) => {
                    return Err(e);
                },
            }
        }
        Ok(out)
    }
}

/// Lowers every class. The slots start anew in each class and each
/// function; the heap ids of the string literals are counted through all of
/// them, from zero.
pub fn hir_to_mir(from: Vec<hir::Class>) -> (r: Result<Vec<Class>, MirError>)
    ensures
        classes_result(r) == resolve_classes(0, hir::classes_view(from@), 0, Seq::empty()),
{
    let ghost all = hir::classes_view(from@);
    let mut converter = MirConverter::new();
    let mut out: Vec<Class> = Vec::new();
    assert(classes_view(out@) =~= Seq::<SpecClass>::empty());
    for x in it: from
        invariant
            it.seq() == from@,
            all == hir::classes_view(from@),
            resolve_classes(0, all, 0, Seq::empty()) == resolve_classes(
                converter@.next_heap,
                all,
                it.index() as nat,
                classes_view(out@),
            ),
    {
        let ghost before = out@;
        match converter.convert(x) {
            Ok(c) => {
                proof {
                    assert(classes_view(before.push(c)) =~= classes_view(before).push(c@));
                }
                out.push(c);
            },
            Err(e) => {
                return Err(e);
            },
        }
    }
    Ok(out)
}

} // verus!
