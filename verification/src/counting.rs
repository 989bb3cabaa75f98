//! `for` loops from the syntax tree to the run: a loop between two whole
//! numbers whose body leaves its counter alone is lowered to a counting
//! loop, and runs as many rounds as the numbers are apart.
use vstd::prelude::*;
use crate::Span;
use crate::ast;
use crate::ast::Ident;
use crate::hir;
use crate::hir::{Scope, lower_expr, lower_exprs, lower_stmt, lower_block, declare};
use crate::mir::{
    SpecExpression, SpecStmt, SpecMirError, Resolver, Resolved, resolve_expr, resolve_exprs,
    resolve_stmt, resolve_block, join,
};
use crate::soundness::{lemma_count_expr, lemma_count_stmt};
use crate::agreement::{
    lemma_lower_exprs_len, lemma_lower_exprs_at, lemma_lower_block_len, lemma_lower_block_at,
    lemma_resolve_push,
};
use crate::laws::{
    assigns_expr, assigns_exprs, assigns_stmt, assigns_block, count_up, counting_loop,
    counted_for, while_rounds, framed, lemma_for_runs_to_minus_from,
};
use crate::vm::{Machine, Value, eval_stmt};

verus! {

/// An expression leaves the name `n` alone: it holds no declaration of `n`
/// and no assignment to it. The body of a function that is declared inside
/// does not count.
pub open spec fn spares_expr(e: ast::SpecExpression, n: Seq<char>) -> bool
    decreases e,
{
    match e {
        ast::SpecExpression::Int(_) => true,
        ast::SpecExpression::String(_) => true,
        ast::SpecExpression::Bool(_) => true,
        ast::SpecExpression::Name(_) => true,
        ast::SpecExpression::ObjVal(_, _) => true,
        ast::SpecExpression::Add(l, r) => spares_expr(*l, n) && spares_expr(*r, n),
        ast::SpecExpression::Sub(l, r) => spares_expr(*l, n) && spares_expr(*r, n),
        ast::SpecExpression::Mul(l, r) => spares_expr(*l, n) && spares_expr(*r, n),
        ast::SpecExpression::Div(l, r) => spares_expr(*l, n) && spares_expr(*r, n),
        ast::SpecExpression::Eq(l, r) => spares_expr(*l, n) && spares_expr(*r, n),
        ast::SpecExpression::Neq(l, r) => spares_expr(*l, n) && spares_expr(*r, n),
        ast::SpecExpression::Call(_, args) => spares_exprs(args, n),
        ast::SpecExpression::ObjCall(_, _, args) => spares_exprs(args, n),
        ast::SpecExpression::If(c, t, e) => spares_expr(*c, n) && spares_block(t, n) && match e {
            Some(b) => spares_block(b, n),
            None => true,
        },
    }
}

/// [`spares_expr`] for every expression of a list.
pub open spec fn spares_exprs(es: Seq<ast::SpecExpression>, n: Seq<char>) -> bool
    decreases es,
{
    forall|i: int| 0 <= i < es.len() ==> spares_expr(#[trigger] es[i], n)
}

/// A statement leaves the name `n` alone: it holds no declaration of `n`,
/// no loop over `n` and no assignment to `n`.
pub open spec fn spares_stmt(s: ast::SpecStmt, n: Seq<char>) -> bool
    decreases s,
{
    match s {
        ast::SpecStmt::Expr(e) => spares_expr(e, n),
        ast::SpecStmt::Val(a, e) => a.data != n && spares_expr(e, n),
        ast::SpecStmt::Var(a, e) => a.data != n && spares_expr(e, n),
        ast::SpecStmt::Assign(a, e) => a.data != n && spares_expr(e, n),
        ast::SpecStmt::Return(e) => spares_expr(e, n),
        ast::SpecStmt::For(a, from, to, b) => a.data != n && spares_expr(from, n) && spares_expr(
            to,
            n,
        ) && spares_block(b, n),
        ast::SpecStmt::While(c, b) => spares_expr(c, n) && spares_block(b, n),
        ast::SpecStmt::Func(_) => true,
    }
}

/// [`spares_stmt`] for every statement of a list.
pub open spec fn spares_block(ss: Seq<ast::SpecStmt>, n: Seq<char>) -> bool
    decreases ss,
{
    forall|i: int| 0 <= i < ss.len() ==> spares_stmt(#[trigger] ss[i], n)
}

/// The name `n` has the slot `k`, and no other name has it.
pub open spec fn owns(st: Resolver, n: Seq<char>, k: usize) -> bool {
    &&& st.rename.contains_key(n)
    &&& st.rename[n] == k
    &&& k < st.next_slot
    &&& forall|m: Seq<char>| m != n && st.rename.contains_key(m) ==> st.rename[m] != k
}

/// A list of expressions without an assignment to a slot, with one more
/// such expression at its end, is without an assignment to the slot.
pub proof fn lemma_assigns_exprs_push(es: Seq<SpecExpression>, x: SpecExpression, i: nat, k: usize)
    requires
        i <= es.len(),
        !assigns_exprs(es, i, k),
        !assigns_expr(x, k),
    ensures
        !assigns_exprs(es.push(x), i, k),
    decreases es.len() - i,
{
    let all = es.push(x);
    if i < es.len() {
        assert(all[i as int] == es[i as int]);
        lemma_assigns_exprs_push(es, x, i + 1, k);
    } else {
        assert(all[i as int] == x);
        assert(!assigns_exprs(all, i + 1, k));
    }
}

/// A list of statements without an assignment to a slot, with one more such
/// statement at its end, is without an assignment to the slot.
pub proof fn lemma_assigns_block_push(ss: Seq<SpecStmt>, x: SpecStmt, i: nat, k: usize)
    requires
        i <= ss.len(),
        !assigns_block(ss, i, k),
        !assigns_stmt(x, k),
    ensures
        !assigns_block(ss.push(x), i, k),
    decreases ss.len() - i,
{
    let all = ss.push(x);
    if i < ss.len() {
        assert(all[i as int] == ss[i as int]);
        lemma_assigns_block_push(ss, x, i + 1, k);
    } else {
        assert(all[i as int] == x);
        assert(!assigns_block(all, i + 1, k));
    }
}


/// The lowered parts of a `for` loop: what the start, the end and the body
/// are lowered to by both lowerings, each in the state that the part before
/// it leaves.
pub struct ForParts {
    /// The slot of the counter.
    pub slot: Span<usize>,
    pub from: Resolved<SpecExpression>,
    pub to: Resolved<SpecExpression>,
    pub body: Resolved<Seq<SpecStmt>>,
}

/// The state of the second lowering after the counter `n` is declared.
pub open spec fn with_counter(st: Resolver, n: Ident) -> Resolver {
    Resolver {
        rename: st.rename.insert(n.data, st.next_slot),
        next_slot: (st.next_slot + 1) as usize,
        ..st
    }
}

/// The lowered parts of the loop `for (n <- from until to) { body }`.
pub open spec fn for_parts(
    scope: Scope,
    n: Ident,
    from: ast::SpecExpression,
    to: ast::SpecExpression,
    body: Seq<ast::SpecStmt>,
    st: Resolver,
) -> ForParts {
    let d = declare(scope, n, true);
    let f1 = lower_expr(d.scope, from);
    let t1 = lower_expr(f1.scope, to);
    let b1 = lower_block(t1.scope, body);
    let rf = resolve_expr(with_counter(st, n), f1.out);
    let rt = resolve_expr(rf.st, t1.out);
    let rb = resolve_block(rt.st, b1.out, 0, Seq::empty());
    ForParts { slot: Span { data: st.next_slot, range: n.range }, from: rf, to: rt, body: rb }
}

/// What both lowerings make of a `for` loop, where the second does not
/// fail: a block of the declaration of the counter with the lowered start,
/// and of a loop that runs while the counter differs from the lowered end,
/// over the lowered body with the step of the counter at its end.
pub proof fn lemma_for_shape(
    scope: Scope,
    n: Ident,
    from: ast::SpecExpression,
    to: ast::SpecExpression,
    body: Seq<ast::SpecStmt>,
    st: Resolver,
)
    requires
        resolve_stmt(st, lower_stmt(scope, ast::SpecStmt::For(n, from, to, body)).out).r is Ok,
    ensures
        ({
            let p = for_parts(scope, n, from, to, body, st);
            let r = resolve_stmt(st, lower_stmt(scope, ast::SpecStmt::For(n, from, to, body)).out);
            &&& st.next_slot != usize::MAX
            &&& p.from.r is Ok && p.to.r is Ok && p.body.r is Ok
            &&& p.from.st.rename.contains_key(n.data)
            &&& p.body.st.rename.contains_key(n.data)
            &&& r.st == p.body.st
            &&& r.get() == SpecStmt::Block(
                seq![
                    SpecStmt::Let(p.slot, p.from.get()),
                    SpecStmt::While(
                        SpecExpression::Neq(
                            Box::new(
                                SpecExpression::Name(
                                    Span { data: p.from.st.rename[n.data], range: n.range },
                                ),
                            ),
                            Box::new(p.to.get()),
                        ),
                        p.body.get().push(
                            count_up(Span { data: p.body.st.rename[n.data], range: n.range }),
                        ),
                    ),
                ],
            )
        }),
{
    let d = declare(scope, n, true);
    let f1 = lower_expr(d.scope, from);
    let t1 = lower_expr(f1.scope, to);
    let b1 = lower_block(t1.scope, body);
    let l = lower_stmt(scope, ast::SpecStmt::For(n, from, to, body));
    let p = for_parts(scope, n, from, to, body, st);
    let counter = hir::SpecExpression::Name(n);
    let one = hir::SpecExpression::Int(Span { data: 1i64, range: n.range });
    let step = hir::SpecStmt::Assign(
        n,
        hir::SpecExpression::Add(Box::new(counter), Box::new(one)),
    );
    let cond = hir::SpecExpression::Neq(Box::new(counter), Box::new(t1.out));
    let first = hir::SpecStmt::Let(n, f1.out);
    let second = hir::SpecStmt::While(cond, b1.out.push(step));
    let two = seq![first, second];
    assert(l.out == hir::SpecStmt::Block(two));
    let r = resolve_stmt(st, l.out);
    let whole = resolve_block(st, two, 0, Seq::empty());
    assert(whole.r is Ok);
    assert(two[0] == first && two[1] == second);
    let x0 = resolve_stmt(st, first);
    assert(x0.r is Ok);
    let s1 = p.from.st;
    let done0 = Seq::<SpecStmt>::empty().push(x0.get());
    assert(whole == resolve_block(s1, two, 1, done0));
    let x1 = resolve_stmt(s1, second);
    assert(x1.r is Ok);
    let rc = resolve_expr(s1, counter);
    let c1 = resolve_expr(s1, cond);
    assert(c1 == join(rc, p.to, SpecExpression::Neq(Box::new(rc.get()), Box::new(p.to.get()))));
    assert(c1.r is Ok);
    let s2 = p.to.st;
    lemma_resolve_push(s2, b1.out, step, 0, Seq::empty());
    let s3 = p.body.st;
    let rs = resolve_stmt(s3, step);
    assert(rs.r is Ok);
    let rn = resolve_expr(s3, counter);
    let r1 = resolve_expr(s3, one);
    assert(r1 == Resolved { st: s3, r: Ok::<SpecExpression, SpecMirError>(SpecExpression::Int(Span { data: 1i64, range: n.range })) });
    let sum = resolve_expr(s3, hir::SpecExpression::Add(Box::new(counter), Box::new(one)));
    assert(sum == join(rn, r1, SpecExpression::Add(Box::new(rn.get()), Box::new(r1.get()))));
    assert(rs.st == s3);
    assert(rs.get() == count_up(Span { data: s3.rename[n.data], range: n.range }));
    let done1 = done0.push(x1.get());
    assert(resolve_block(s1, two, 1, done0) == resolve_block(s3, two, 2, done1));
    assert(done1 =~= seq![x0.get(), x1.get()]);
}

/// An expression that leaves the name `n` alone is lowered to one that
/// holds no assignment to the slot of `n`, and the slot stays with `n`.
pub proof fn lemma_spared_expr(
    scope: Scope,
    e: ast::SpecExpression,
    st: Resolver,
    n: Seq<char>,
    k: usize,
)
    requires
        st.wf(),
        owns(st, n, k),
        spares_expr(e, n),
        resolve_expr(st, lower_expr(scope, e).out).r is Ok,
    ensures
        ({
            let r = resolve_expr(st, lower_expr(scope, e).out);
            r.st.wf() && owns(r.st, n, k) && !assigns_expr(r.get(), k)
        }),
    decreases e, 1nat,
{
    let l = lower_expr(scope, e);
    lemma_count_expr(st, l.out);
    match e {
        ast::SpecExpression::Int(_) => {},
        ast::SpecExpression::String(_) => {},
        ast::SpecExpression::Bool(_) => {},
        ast::SpecExpression::Name(_) => {},
        ast::SpecExpression::ObjVal(_, _) => {},
        ast::SpecExpression::Add(a, b) => {
            lemma_spared_pair(scope, *a, *b, st, e, n, k);
        },
        ast::SpecExpression::Sub(a, b) => {
            lemma_spared_pair(scope, *a, *b, st, e, n, k);
        },
        ast::SpecExpression::Mul(a, b) => {
            lemma_spared_pair(scope, *a, *b, st, e, n, k);
        },
        ast::SpecExpression::Div(a, b) => {
            lemma_spared_pair(scope, *a, *b, st, e, n, k);
        },
        ast::SpecExpression::Eq(a, b) => {
            lemma_spared_pair(scope, *a, *b, st, e, n, k);
        },
        ast::SpecExpression::Neq(a, b) => {
            lemma_spared_pair(scope, *a, *b, st, e, n, k);
        },
        ast::SpecExpression::Call(_, args) => {
            lemma_spared_exprs(scope, args, st, 0, Seq::empty(), n, k);
        },
        ast::SpecExpression::ObjCall(_, _, args) => {
            lemma_spared_exprs(scope, args, st, 0, Seq::empty(), n, k);
        },
        ast::SpecExpression::If(c, t, e) => {
            let lc = lower_expr(scope, *c);
            let lt = lower_block(lc.scope, t);
            lemma_spared_expr(scope, *c, st, n, k);
            let c1 = resolve_expr(st, lc.out);
            lemma_spared_block(lc.scope, t, c1.st, 0, Seq::empty(), n, k);
            let t1 = resolve_block(c1.st, lt.out, 0, Seq::empty());
            match e {
                Some(e) => {
                    lemma_spared_block(lt.scope, e, t1.st, 0, Seq::empty(), n, k);
                },
                None => {},
            }
        },
    }
}

proof fn lemma_spared_pair(
    scope: Scope,
    a: ast::SpecExpression,
    b: ast::SpecExpression,
    st: Resolver,
    parent: ast::SpecExpression,
    n: Seq<char>,
    k: usize,
)
    requires
        st.wf(),
        owns(st, n, k),
        decreases_to!(parent => a),
        decreases_to!(parent => b),
        spares_expr(a, n),
        spares_expr(b, n),
        resolve_expr(st, lower_expr(scope, a).out).r is Ok,
        resolve_expr(
            resolve_expr(st, lower_expr(scope, a).out).st,
            lower_expr(lower_expr(scope, a).scope, b).out,
        ).r is Ok,
    ensures
        ({
            let la = lower_expr(scope, a);
            let lb = lower_expr(la.scope, b);
            let ra = resolve_expr(st, la.out);
            let rb = resolve_expr(ra.st, lb.out);
            rb.st.wf() && owns(rb.st, n, k) && !assigns_expr(ra.get(), k) && !assigns_expr(
                rb.get(),
                k,
            )
        }),
    decreases parent, 0nat,
{
    lemma_spared_expr(scope, a, st, n, k);
    let la = lower_expr(scope, a);
    let ra = resolve_expr(st, la.out);
    lemma_spared_expr(la.scope, b, ra.st, n, k);
}

/// [`lemma_spared_expr`] for the expressions of a list from the expression
/// `i` on.
pub proof fn lemma_spared_exprs(
    scope: Scope,
    es: Seq<ast::SpecExpression>,
    st: Resolver,
    i: nat,
    seen: Seq<SpecExpression>,
    n: Seq<char>,
    k: usize,
)
    requires
        st.wf(),
        owns(st, n, k),
        i <= es.len(),
        spares_exprs(es, n),
        !assigns_exprs(seen, 0, k),
        resolve_exprs(st, lower_exprs(scope, es).out, i, seen).r is Ok,
    ensures
        ({
            let r = resolve_exprs(st, lower_exprs(scope, es).out, i, seen);
            r.st.wf() && owns(r.st, n, k) && !assigns_exprs(r.get(), 0, k)
        }),
    decreases es, es.len() - i,
{
    lemma_lower_exprs_len(scope, es);
    let l = lower_exprs(scope, es);
    if i < es.len() {
        lemma_lower_exprs_at(scope, es, i as int);
        let before = lower_exprs(scope, es.take(i as int));
        assert(spares_expr(es[i as int], n));
        lemma_spared_expr(before.scope, es[i as int], st, n, k);
        let x = resolve_expr(st, l.out[i as int]);
        lemma_assigns_exprs_push(seen, x.get(), 0, k);
        lemma_spared_exprs(scope, es, x.st, i + 1, seen.push(x.get()), n, k);
    }
}

/// [`lemma_spared_stmt`] for the statements of a list from the statement
/// `i` on.
pub proof fn lemma_spared_block(
    scope: Scope,
    ss: Seq<ast::SpecStmt>,
    st: Resolver,
    i: nat,
    seen: Seq<SpecStmt>,
    n: Seq<char>,
    k: usize,
)
    requires
        st.wf(),
        owns(st, n, k),
        i <= ss.len(),
        spares_block(ss, n),
        !assigns_block(seen, 0, k),
        resolve_block(st, lower_block(scope, ss).out, i, seen).r is Ok,
    ensures
        ({
            let r = resolve_block(st, lower_block(scope, ss).out, i, seen);
            r.st.wf() && owns(r.st, n, k) && !assigns_block(r.get(), 0, k)
        }),
    decreases ss, ss.len() - i,
{
    lemma_lower_block_len(scope, ss);
    let l = lower_block(scope, ss);
    if i < ss.len() {
        lemma_lower_block_at(scope, ss, i as int);
        let before = lower_block(scope, ss.take(i as int));
        assert(spares_stmt(ss[i as int], n));
        lemma_spared_stmt(before.scope, ss[i as int], st, n, k);
        let x = resolve_stmt(st, l.out[i as int]);
        lemma_assigns_block_push(seen, x.get(), 0, k);
        lemma_spared_block(scope, ss, x.st, i + 1, seen.push(x.get()), n, k);
    }
}

/// Declaring a name other than `n` leaves the slot of `n` with `n`.
proof fn lemma_counter_keeps(st: Resolver, a: Ident, n: Seq<char>, k: usize)
    requires
        st.wf(),
        owns(st, n, k),
        a.data != n,
        st.next_slot != usize::MAX,
    ensures
        with_counter(st, a).wf(),
        owns(with_counter(st, a), n, k),
{
    let declared = with_counter(st, a);
    assert forall|m: Seq<char>| declared.rename.contains_key(m) implies declared.rename[m]
        < declared.next_slot by {
        if m != a.data {
            assert(st.rename.contains_key(m));
        }
    }
    assert forall|m: Seq<char>| m != n && declared.rename.contains_key(m) implies declared.rename[m]
        != k by {
        if m != a.data {
            assert(st.rename.contains_key(m));
        }
    }
}

/// A statement that leaves the name `n` alone is lowered to one that holds
/// no assignment to the slot of `n`, and the slot stays with `n`.
pub proof fn lemma_spared_stmt(scope: Scope, s: ast::SpecStmt, st: Resolver, n: Seq<char>, k: usize)
    requires
        st.wf(),
        owns(st, n, k),
        spares_stmt(s, n),
        resolve_stmt(st, lower_stmt(scope, s).out).r is Ok,
    ensures
        ({
            let r = resolve_stmt(st, lower_stmt(scope, s).out);
            r.st.wf() && owns(r.st, n, k) && !assigns_stmt(r.get(), k)
        }),
    decreases s, 2nat,
{
    let l = lower_stmt(scope, s);
    lemma_count_stmt(st, l.out);
    match s {
        ast::SpecStmt::Expr(e) => {
            lemma_spared_expr(scope, e, st, n, k);
        },
        ast::SpecStmt::Val(a, e) => {
            lemma_counter_keeps(st, a, n, k);
            lemma_spared_expr(declare(scope, a, false).scope, e, with_counter(st, a), n, k);
        },
        ast::SpecStmt::Var(a, e) => {
            lemma_counter_keeps(st, a, n, k);
            lemma_spared_expr(declare(scope, a, true).scope, e, with_counter(st, a), n, k);
        },
        ast::SpecStmt::Assign(a, e) => {
            lemma_spared_expr(scope, e, st, n, k);
        },
        ast::SpecStmt::Return(e) => {
            lemma_spared_expr(scope, e, st, n, k);
        },
        ast::SpecStmt::While(c, body) => {
            let lc = lower_expr(scope, c);
            lemma_spared_expr(scope, c, st, n, k);
            lemma_spared_block(
                lc.scope,
                body,
                resolve_expr(st, lc.out).st,
                0,
                Seq::empty(),
                n,
                k,
            );
        },
        ast::SpecStmt::For(a, from, to, body) => {
            lemma_spared_for(scope, a, from, to, body, st, s, n, k);
        },
        ast::SpecStmt::Func(_) => {},
    }
}

/// A `for` loop over another name that leaves the name `n` alone.
proof fn lemma_spared_for(
    scope: Scope,
    a: Ident,
    from: ast::SpecExpression,
    to: ast::SpecExpression,
    body: Seq<ast::SpecStmt>,
    st: Resolver,
    parent: ast::SpecStmt,
    n: Seq<char>,
    k: usize,
)
    requires
        st.wf(),
        owns(st, n, k),
        decreases_to!(parent => from),
        decreases_to!(parent => to),
        decreases_to!(parent => body),
        a.data != n,
        spares_expr(from, n),
        spares_expr(to, n),
        spares_block(body, n),
        resolve_stmt(st, lower_stmt(scope, ast::SpecStmt::For(a, from, to, body)).out).r is Ok,
    ensures
        ({
            let r = resolve_stmt(st, lower_stmt(scope, ast::SpecStmt::For(a, from, to, body)).out);
            r.st.wf() && owns(r.st, n, k) && !assigns_stmt(r.get(), k)
        }),
    decreases parent, 1nat,
{
    lemma_for_shape(scope, a, from, to, body, st);
    let d = declare(scope, a, true);
    let f1 = lower_expr(d.scope, from);
    let t1 = lower_expr(f1.scope, to);
    let p = for_parts(scope, a, from, to, body, st);
    lemma_counter_keeps(st, a, n, k);
    lemma_spared_expr(d.scope, from, with_counter(st, a), n, k);
    lemma_spared_expr(f1.scope, to, p.from.st, n, k);
    lemma_spared_block(t1.scope, body, p.to.st, 0, Seq::empty(), n, k);
    let own = Span { data: p.body.st.rename[a.data], range: a.range };
    let step = count_up(own);
    assert(own.data != k);
    assert(!assigns_expr(SpecExpression::Name(own), k));
    assert(!assigns_expr(SpecExpression::Int(Span { data: 1i64, range: own.range }), k));
    assert(!assigns_expr(
        SpecExpression::Add(
            Box::new(SpecExpression::Name(own)),
            Box::new(SpecExpression::Int(Span { data: 1i64, range: own.range })),
        ),
        k,
    ));
    assert(!assigns_stmt(step, k));
    lemma_assigns_block_push(p.body.get(), step, 0, k);
    let r = resolve_stmt(st, lower_stmt(scope, ast::SpecStmt::For(a, from, to, body)).out);
    let first = SpecStmt::Let(p.slot, p.from.get());
    let second = SpecStmt::While(
        SpecExpression::Neq(
            Box::new(
                SpecExpression::Name(Span { data: p.from.st.rename[a.data], range: a.range }),
            ),
            Box::new(p.to.get()),
        ),
        p.body.get().push(step),
    );
    let two = seq![first, second];
    assert(r.get() == SpecStmt::Block(two));
    assert(two[0] == first && two[1] == second);
    assert(!assigns_stmt(first, k));
    let read = SpecExpression::Name(Span { data: p.from.st.rename[a.data], range: a.range });
    assert(!assigns_expr(read, k));
    assert(!assigns_expr(SpecExpression::Neq(Box::new(read), Box::new(p.to.get())), k));
    assert(!assigns_stmt(second, k));
    assert(!assigns_block(two, 2, k));
    assert(!assigns_block(two, 1, k));
    assert(!assigns_block(two, 0, k));
}

/// A `for` loop between two whole numbers whose body leaves the counter
/// alone is lowered, where the second lowering does not fail, to the
/// declaration of the counter in the next slot and the counting loop over
/// the lowered body, and the lowered body holds no assignment to the
/// counter.
pub proof fn lemma_for_is_counted(
    scope: Scope,
    n: Ident,
    from: Span<i64>,
    to: Span<i64>,
    body: Seq<ast::SpecStmt>,
    st: Resolver,
)
    requires
        st.wf(),
        spares_block(body, n.data),
        resolve_stmt(
            st,
            lower_stmt(
                scope,
                ast::SpecStmt::For(
                    n,
                    ast::SpecExpression::Int(from),
                    ast::SpecExpression::Int(to),
                    body,
                ),
            ).out,
        ).r is Ok,
    ensures
        ({
            let s = ast::SpecStmt::For(
                n,
                ast::SpecExpression::Int(from),
                ast::SpecExpression::Int(to),
                body,
            );
            let p = for_parts(
                scope,
                n,
                ast::SpecExpression::Int(from),
                ast::SpecExpression::Int(to),
                body,
                st,
            );
            &&& p.body.r is Ok
            &&& resolve_stmt(st, lower_stmt(scope, s).out).get() == counted_for(
                p.slot,
                from,
                to,
                p.body.get(),
            )
            &&& !assigns_block(p.body.get(), 0, p.slot.data)
        }),
{
    let first = ast::SpecExpression::Int(from);
    let last = ast::SpecExpression::Int(to);
    lemma_for_shape(scope, n, first, last, body, st);
    let d = declare(scope, n, true);
    let f1 = lower_expr(d.scope, first);
    let t1 = lower_expr(f1.scope, last);
    let p = for_parts(scope, n, first, last, body, st);
    let declared = with_counter(st, n);
    let k = st.next_slot;
    assert(declared.wf()) by {
        assert forall|m: Seq<char>| declared.rename.contains_key(m) implies declared.rename[m]
            < declared.next_slot by {
            if m != n.data {
                assert(st.rename.contains_key(m));
            }
        }
    }
    assert(owns(declared, n.data, k)) by {
        assert forall|m: Seq<char>| m != n.data && declared.rename.contains_key(m) implies declared.rename[m]
            != k by {
            assert(st.rename.contains_key(m));
        }
    }
    assert(p.from.st == declared && p.to.st == declared);
    lemma_spared_block(t1.scope, body, declared, 0, Seq::empty(), n.data, k);
}

/// A `for` loop between the whole numbers `from` and `to`, with `from` no
/// larger than `to`, whose body leaves the counter alone: lowered twice and
/// run on a machine whose stack ends where the slot of the counter lies, it
/// runs exactly `to - from` rounds where it ends well, none where the two
/// are equal, and leaves the frame in place.
pub proof fn lemma_for_rounds(
    scope: Scope,
    n: Ident,
    from: Span<i64>,
    to: Span<i64>,
    body: Seq<ast::SpecStmt>,
    st: Resolver,
    fuel: nat,
    m: Machine,
)
    requires
        from.data <= to.data,
        st.wf(),
        spares_block(body, n.data),
        resolve_stmt(
            st,
            lower_stmt(
                scope,
                ast::SpecStmt::For(
                    n,
                    ast::SpecExpression::Int(from),
                    ast::SpecExpression::Int(to),
                    body,
                ),
            ).out,
        ).r is Ok,
        m.base <= m.stack.len(),
        m.index_of(st.next_slot) == m.stack.len(),
    ensures
        ({
            let s = ast::SpecStmt::For(
                n,
                ast::SpecExpression::Int(from),
                ast::SpecExpression::Int(to),
                body,
            );
            let p = for_parts(
                scope,
                n,
                ast::SpecExpression::Int(from),
                ast::SpecExpression::Int(to),
                body,
                st,
            );
            let lowered = resolve_stmt(st, lower_stmt(scope, s).out).get();
            let r = eval_stmt(fuel, m, lowered);
            r.r is Ok ==> {
                &&& while_rounds(
                    fuel,
                    m.with_stack(m.stack.push(Value::Int(from.data))),
                    counting_loop(p.slot, to, p.body.get()),
                ) == to.data - from.data
                &&& r.m.stack[m.index_of(st.next_slot)] == Value::Int(to.data)
                &&& framed(m, r.m)
            }
        }),
{
    lemma_for_is_counted(scope, n, from, to, body, st);
    let p = for_parts(
        scope,
        n,
        ast::SpecExpression::Int(from),
        ast::SpecExpression::Int(to),
        body,
        st,
    );
    lemma_for_runs_to_minus_from(fuel, m, p.slot, from, to, p.body.get());
}

} // verus!
