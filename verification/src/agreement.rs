//! The two lowerings agree on the names: where the first lowering has found
//! nothing to report, the second never meets a name without a slot.
use vstd::prelude::*;
use crate::{Span, SpecDiagnostic, SpecRunError, run_model};
use crate::ast;
use crate::ast::Ident;
use crate::hir;
use crate::hir::{
    Scope, lower_expr, lower_exprs, lower_stmt, lower_block, declare, bind_params, with_params,
    lower_item, lower_items, lower_items_diag,
};
use crate::mir::{
    SpecExpression, SpecStmt, SpecClass, SpecMirError, Resolver, Resolved, resolve_expr,
    resolve_exprs, resolve_stmt, resolve_block, resolve_class, resolve_classes, slots_of, join,
};
use crate::soundness::{lemma_count_expr, lemma_count_stmt, lemma_count_block, lemma_slots_of};

verus! {

/// Every name of the scope has a slot.
pub open spec fn covers(scope: Scope, st: Resolver) -> bool {
    forall|k: Seq<char>| scope.contains_key(k) ==> st.rename.contains_key(k)
}

/// Whether a lowering failed for a name without a slot.
pub open spec fn unresolved<T>(r: Result<T, SpecMirError>) -> bool {
    match r {
        Err(SpecMirError::Unresolved(_)) => true,
        _ => false,
    }
}

/// Nothing was reported.
pub open spec fn quiet(d: Seq<SpecDiagnostic>) -> bool {
    d.len() == 0
}

/// A list of expressions lowers to a list of the same length.
pub proof fn lemma_lower_exprs_len(scope: Scope, es: Seq<ast::SpecExpression>)
    ensures
        lower_exprs(scope, es).out.len() == es.len(),
    decreases es.len(),
{
    if es.len() > 0 {
        lemma_lower_exprs_len(scope, es.drop_last());
    }
}

/// The expression `i` of a list is lowered in the scope that the
/// expressions before it leave, and reports nothing where the list reports
/// nothing.
pub proof fn lemma_lower_exprs_at(scope: Scope, es: Seq<ast::SpecExpression>, i: int)
    requires
        0 <= i < es.len(),
    ensures
        ({
            let whole = lower_exprs(scope, es);
            let x = lower_expr(lower_exprs(scope, es.take(i)).scope, es[i]);
            &&& whole.out.len() == es.len()
            &&& whole.out[i] == x.out
            &&& quiet(whole.diag) ==> quiet(x.diag)
            &&& lower_exprs(scope, es.take(i + 1)).scope == x.scope
        }),
    decreases es.len(),
{
    lemma_lower_exprs_len(scope, es);
    lemma_lower_exprs_len(scope, es.drop_last());
    assert(es.take(i + 1).drop_last() =~= es.take(i));
    assert(es.take(i + 1).last() == es[i]);
    if i == es.len() - 1 {
        assert(es.take(i) =~= es.drop_last());
    } else {
        lemma_lower_exprs_at(scope, es.drop_last(), i);
        assert(es.drop_last().take(i) =~= es.take(i));
    }
}

/// A list of statements lowers to a list of the same length.
pub proof fn lemma_lower_block_len(scope: Scope, ss: Seq<ast::SpecStmt>)
    ensures
        lower_block(scope, ss).out.len() == ss.len(),
    decreases ss.len(),
{
    if ss.len() > 0 {
        lemma_lower_block_len(scope, ss.drop_last());
    }
}

/// The statement `i` of a list is lowered in the scope that the statements
/// before it leave, and reports nothing where the list reports nothing.
pub proof fn lemma_lower_block_at(scope: Scope, ss: Seq<ast::SpecStmt>, i: int)
    requires
        0 <= i < ss.len(),
    ensures
        ({
            let whole = lower_block(scope, ss);
            let x = lower_stmt(lower_block(scope, ss.take(i)).scope, ss[i]);
            &&& whole.out.len() == ss.len()
            &&& whole.out[i] == x.out
            &&& quiet(whole.diag) ==> quiet(x.diag)
            &&& lower_block(scope, ss.take(i + 1)).scope == x.scope
        }),
    decreases ss.len(),
{
    lemma_lower_block_len(scope, ss);
    lemma_lower_block_len(scope, ss.drop_last());
    assert(ss.take(i + 1).drop_last() =~= ss.take(i));
    assert(ss.take(i + 1).last() == ss[i]);
    if i == ss.len() - 1 {
        assert(ss.take(i) =~= ss.drop_last());
    } else {
        lemma_lower_block_at(scope, ss.drop_last(), i);
        assert(ss.drop_last().take(i) =~= ss.take(i));
    }
}

/// The parameters that the first lowering binds are those that the second
/// gives slots.
pub proof fn lemma_params_cover(params: Seq<(Ident, Ident)>, st: Resolver)
    requires
        st.rename == slots_of(params),
    ensures
        covers(bind_params(params).scope, st),
        covers(with_params(Map::empty(), params), st),
    decreases params.len(),
{
    if params.len() > 0 {
        let init = params.drop_last();
        let earlier = Resolver { rename: slots_of(init), ..st };
        lemma_params_cover(init, earlier);
        assert forall|k: Seq<char>| bind_params(params).scope.contains_key(k) implies st.rename.contains_key(
            k,
        ) by {
            if k != params.last().0.data {
                assert(bind_params(init).scope.contains_key(k));
            }
        }
        assert forall|k: Seq<char>|
            with_params(Map::empty(), params).contains_key(k) implies st.rename.contains_key(k) by {
            if k != params.last().0.data {
                assert(with_params(Map::empty(), init).contains_key(k));
            }
        }
    }
}

/// Lowering a list of statements with one more statement at its end is
/// lowering the list, and then the statement.
pub proof fn lemma_resolve_push(
    st: Resolver,
    hs: Seq<hir::SpecStmt>,
    x: hir::SpecStmt,
    i: nat,
    seen: Seq<SpecStmt>,
)
    requires
        i <= hs.len(),
    ensures
        ({
            let b = resolve_block(st, hs, i, seen);
            let y = resolve_stmt(b.st, x);
            resolve_block(st, hs.push(x), i, seen) == match b.r {
                Err(_) => b,
                Ok(v) => match y.r {
                    Ok(s) => Resolved { st: y.st, r: Ok(v.push(s)) },
                    Err(_) => y.fails(),
                },
            }
        }),
    decreases hs.len() - i,
{
    let all = hs.push(x);
    if i < hs.len() {
        assert(all[i as int] == hs[i as int]);
        let e = resolve_stmt(st, hs[i as int]);
        match e.r {
            Ok(s) => {
                lemma_resolve_push(e.st, hs, x, i + 1, seen.push(s));
            },
            Err(_) => {},
        }
    } else {
        assert(all[i as int] == x);
        let y = resolve_stmt(st, x);
        match y.r {
            Ok(s) => {
                assert(resolve_block(y.st, all, i + 1, seen.push(s)) == Resolved {
                    st: y.st,
                    r: Ok::<Seq<SpecStmt>, SpecMirError>(seen.push(s)),
                });
            },
            Err(_) => {},
        }
    }
}


/// An expression that the first lowering has nothing to report of, in a
/// scope whose names all have slots: the second lowering of what the first
/// gives does not fail for a name without a slot, and where it does not
/// fail at all, the names of the scope that the first lowering leaves all
/// have slots.
pub proof fn lemma_agree_expr(scope: Scope, e: ast::SpecExpression, st: Resolver)
    requires
        st.wf(),
        covers(scope, st),
        quiet(lower_expr(scope, e).diag),
    ensures
        ({
            let l = lower_expr(scope, e);
            let r = resolve_expr(st, l.out);
            &&& !unresolved(r.r)
            &&& r.r is Ok ==> r.st.wf() && covers(l.scope, r.st)
        }),
    decreases e, 1nat,
{
    let l = lower_expr(scope, e);
    let r = resolve_expr(st, l.out);
    if r.r is Ok {
        lemma_count_expr(st, l.out);
    }
    match e {
        ast::SpecExpression::Int(_) => {},
        ast::SpecExpression::String(_) => {},
        ast::SpecExpression::Bool(_) => {},
        ast::SpecExpression::Name(x) => {
            assert(scope.contains_key(x.data));
        },
        ast::SpecExpression::ObjVal(a, _) => {
            assert(scope.contains_key(a.data));
        },
        ast::SpecExpression::Add(a, b) => {
            lemma_agree_pair(scope, *a, *b, st, e);
        },
        ast::SpecExpression::Sub(a, b) => {
            lemma_agree_pair(scope, *a, *b, st, e);
        },
        ast::SpecExpression::Mul(a, b) => {
            lemma_agree_pair(scope, *a, *b, st, e);
        },
        ast::SpecExpression::Div(a, b) => {
            lemma_agree_pair(scope, *a, *b, st, e);
        },
        ast::SpecExpression::Eq(a, b) => {
            lemma_agree_pair(scope, *a, *b, st, e);
        },
        ast::SpecExpression::Neq(a, b) => {
            lemma_agree_pair(scope, *a, *b, st, e);
        },
        ast::SpecExpression::Call(f, args) => {
            assert(args.take(0) =~= Seq::<ast::SpecExpression>::empty());
            lemma_agree_exprs(scope, args, st, 0, Seq::empty());
        },
        ast::SpecExpression::ObjCall(_, _, args) => {
            assert(args.take(0) =~= Seq::<ast::SpecExpression>::empty());
            lemma_agree_exprs(scope, args, st, 0, Seq::empty());
        },
        ast::SpecExpression::If(c, t, e) => {
            let lc = lower_expr(scope, *c);
            let lt = lower_block(lc.scope, t);
            lemma_agree_expr(scope, *c, st);
            let c1 = resolve_expr(st, lc.out);
            if c1.r is Ok {
                assert(t.take(0) =~= Seq::<ast::SpecStmt>::empty());
                lemma_agree_block(lc.scope, t, c1.st, 0, Seq::empty());
                let t1 = resolve_block(c1.st, lt.out, 0, Seq::empty());
                if t1.r is Ok {
                    match e {
                        Some(e) => {
                            assert(e.take(0) =~= Seq::<ast::SpecStmt>::empty());
                            lemma_agree_block(lt.scope, e, t1.st, 0, Seq::empty());
                        },
                        None => {},
                    }
                }
            }
        },
    }
}

proof fn lemma_agree_pair(
    scope: Scope,
    a: ast::SpecExpression,
    b: ast::SpecExpression,
    st: Resolver,
    parent: ast::SpecExpression,
)
    requires
        st.wf(),
        covers(scope, st),
        decreases_to!(parent => a),
        decreases_to!(parent => b),
        quiet(lower_expr(scope, a).diag),
        quiet(lower_expr(lower_expr(scope, a).scope, b).diag),
    ensures
        ({
            let la = lower_expr(scope, a);
            let lb = lower_expr(la.scope, b);
            let ra = resolve_expr(st, la.out);
            let rb = resolve_expr(ra.st, lb.out);
            &&& !unresolved(ra.r)
            &&& ra.r is Ok ==> !unresolved(rb.r)
            &&& ra.r is Ok && rb.r is Ok ==> rb.st.wf() && covers(lb.scope, rb.st)
        }),
    decreases parent, 0nat,
{
    lemma_agree_expr(scope, a, st);
    let la = lower_expr(scope, a);
    let ra = resolve_expr(st, la.out);
    if ra.r is Ok {
        lemma_agree_expr(la.scope, b, ra.st);
    }
}

/// [`lemma_agree_expr`] for the expressions of a list from the expression
/// `i` on.
pub proof fn lemma_agree_exprs(
    scope: Scope,
    es: Seq<ast::SpecExpression>,
    st: Resolver,
    i: nat,
    seen: Seq<SpecExpression>,
)
    requires
        st.wf(),
        i <= es.len(),
        quiet(lower_exprs(scope, es).diag),
        covers(lower_exprs(scope, es.take(i as int)).scope, st),
    ensures
        ({
            let l = lower_exprs(scope, es);
            let r = resolve_exprs(st, l.out, i, seen);
            &&& !unresolved(r.r)
            &&& r.r is Ok ==> r.st.wf() && covers(l.scope, r.st)
        }),
    decreases es, es.len() - i,
{
    lemma_lower_exprs_len(scope, es);
    let l = lower_exprs(scope, es);
    if i < es.len() {
        lemma_lower_exprs_at(scope, es, i as int);
        let before = lower_exprs(scope, es.take(i as int));
        lemma_agree_expr(before.scope, es[i as int], st);
        let x = resolve_expr(st, l.out[i as int]);
        match x.r {
            Ok(v) => {
                lemma_agree_exprs(scope, es, x.st, i + 1, seen.push(v));
            },
            Err(_) => {},
        }
    } else {
        assert(es.take(i as int) =~= es);
    }
}

/// [`lemma_agree_stmt`] for the statements of a list from the statement `i`
/// on.
pub proof fn lemma_agree_block(
    scope: Scope,
    ss: Seq<ast::SpecStmt>,
    st: Resolver,
    i: nat,
    seen: Seq<SpecStmt>,
)
    requires
        st.wf(),
        i <= ss.len(),
        quiet(lower_block(scope, ss).diag),
        covers(lower_block(scope, ss.take(i as int)).scope, st),
    ensures
        ({
            let l = lower_block(scope, ss);
            let r = resolve_block(st, l.out, i, seen);
            &&& !unresolved(r.r)
            &&& r.r is Ok ==> r.st.wf() && covers(l.scope, r.st)
        }),
    decreases ss, ss.len() - i,
{
    lemma_lower_block_len(scope, ss);
    let l = lower_block(scope, ss);
    if i < ss.len() {
        lemma_lower_block_at(scope, ss, i as int);
        let before = lower_block(scope, ss.take(i as int));
        lemma_agree_stmt(before.scope, ss[i as int], st);
        let x = resolve_stmt(st, l.out[i as int]);
        match x.r {
            Ok(v) => {
                lemma_agree_block(scope, ss, x.st, i + 1, seen.push(v));
            },
            Err(_) => {},
        }
    } else {
        assert(ss.take(i as int) =~= ss);
    }
}

/// A statement that the first lowering has nothing to report of, in a scope
/// whose names all have slots: the second lowering of what the first gives
/// does not fail for a name without a slot, and where it does not fail at
/// all, the names of the scope that the first lowering leaves all have
/// slots.
pub proof fn lemma_agree_stmt(scope: Scope, s: ast::SpecStmt, st: Resolver)
    requires
        st.wf(),
        covers(scope, st),
        quiet(lower_stmt(scope, s).diag),
    ensures
        ({
            let l = lower_stmt(scope, s);
            let r = resolve_stmt(st, l.out);
            &&& !unresolved(r.r)
            &&& r.r is Ok ==> r.st.wf() && covers(l.scope, r.st)
        }),
    decreases s, 2nat,
{
    let l = lower_stmt(scope, s);
    let r = resolve_stmt(st, l.out);
    if r.r is Ok {
        lemma_count_stmt(st, l.out);
    }
    match s {
        ast::SpecStmt::Expr(e) => {
            lemma_agree_expr(scope, e, st);
        },
        ast::SpecStmt::Val(a, e) => {
            lemma_agree_declaration(scope, a, false, e, st, s);
        },
        ast::SpecStmt::Var(a, e) => {
            lemma_agree_declaration(scope, a, true, e, st, s);
        },
        ast::SpecStmt::Assign(a, e) => {
            assert(scope.contains_key(a.data));
            lemma_agree_expr(scope, e, st);
        },
        ast::SpecStmt::Return(e) => {
            lemma_agree_expr(scope, e, st);
        },
        ast::SpecStmt::While(c, body) => {
            let lc = lower_expr(scope, c);
            lemma_agree_expr(scope, c, st);
            let c1 = resolve_expr(st, lc.out);
            if c1.r is Ok {
                assert(body.take(0) =~= Seq::<ast::SpecStmt>::empty());
                lemma_agree_block(lc.scope, body, c1.st, 0, Seq::empty());
            }
        },
        ast::SpecStmt::For(n, from, to, body) => {
            lemma_agree_for(scope, n, from, to, body, st, s);
        },
        ast::SpecStmt::Func(f) => {
            let p = bind_params(f.params);
            if f.params.len() <= usize::MAX {
                let inner = Resolver {
                    rename: slots_of(f.params),
                    next_slot: f.params.len() as usize,
                    next_heap: st.next_heap,
                };
                lemma_slots_of(f.params);
                lemma_params_cover(f.params, inner);
                assert(f.block.take(0) =~= Seq::<ast::SpecStmt>::empty());
                lemma_agree_block(p.scope, f.block, inner, 0, Seq::empty());
            }
        },
    }
}

/// The declaration of a local.
proof fn lemma_agree_declaration(
    scope: Scope,
    a: Ident,
    mutable: bool,
    e: ast::SpecExpression,
    st: Resolver,
    parent: ast::SpecStmt,
)
    requires
        st.wf(),
        covers(scope, st),
        decreases_to!(parent => e),
        quiet(lower_expr(declare(scope, a, mutable).scope, e).diag),
    ensures
        ({
            let e1 = lower_expr(declare(scope, a, mutable).scope, e);
            let r = resolve_stmt(st, hir::SpecStmt::Let(a, e1.out));
            &&& !unresolved(r.r)
            &&& r.r is Ok ==> r.st.wf() && covers(e1.scope, r.st) && r.st.rename.contains_key(a.data)
        }),
    decreases parent, 0nat,
{
    let d = declare(scope, a, mutable);
    let e1 = lower_expr(d.scope, e);
    if st.next_slot != usize::MAX {
        let declared = Resolver {
            rename: st.rename.insert(a.data, st.next_slot),
            next_slot: (st.next_slot + 1) as usize,
            ..st
        };
        assert(declared.wf()) by {
            assert forall|k: Seq<char>| declared.rename.contains_key(k) implies declared.rename[k]
                < declared.next_slot by {
                if k != a.data {
                    assert(st.rename.contains_key(k));
                }
            }
        }
        assert(covers(d.scope, declared)) by {
            assert forall|k: Seq<char>| d.scope.contains_key(k) implies declared.rename.contains_key(
                k,
            ) by {
                if k != a.data {
                    assert(scope.contains_key(k));
                }
            }
        }
        lemma_agree_expr(d.scope, e, declared);
        let x = resolve_expr(declared, e1.out);
        if x.r is Ok {
            lemma_count_expr(declared, e1.out);
            assert(declared.rename.contains_key(a.data));
        }
    }
}

/// A `for` loop: its counter has a slot all through the loop that it
/// becomes.
proof fn lemma_agree_for(
    scope: Scope,
    n: Ident,
    from: ast::SpecExpression,
    to: ast::SpecExpression,
    body: Seq<ast::SpecStmt>,
    st: Resolver,
    parent: ast::SpecStmt,
)
    requires
        st.wf(),
        covers(scope, st),
        decreases_to!(parent => from),
        decreases_to!(parent => to),
        decreases_to!(parent => body),
        quiet(lower_stmt(scope, ast::SpecStmt::For(n, from, to, body)).diag),
    ensures
        ({
            let l = lower_stmt(scope, ast::SpecStmt::For(n, from, to, body));
            let r = resolve_stmt(st, l.out);
            &&& !unresolved(r.r)
            &&& r.r is Ok ==> r.st.wf() && covers(l.scope, r.st)
        }),
    decreases parent, 1nat,
{
    let d = declare(scope, n, true);
    let f1 = lower_expr(d.scope, from);
    let t1 = lower_expr(f1.scope, to);
    let b1 = lower_block(t1.scope, body);
    let l = lower_stmt(scope, ast::SpecStmt::For(n, from, to, body));
    assert(quiet(f1.diag) && quiet(t1.diag) && quiet(b1.diag));
    let counter = hir::SpecExpression::Name(n);
    let step = hir::SpecStmt::Assign(
        n,
        hir::SpecExpression::Add(
            Box::new(counter),
            Box::new(hir::SpecExpression::Int(Span { data: 1i64, range: n.range })),
        ),
    );
    let cond = hir::SpecExpression::Neq(Box::new(counter), Box::new(t1.out));
    let first = hir::SpecStmt::Let(n, f1.out);
    let second = hir::SpecStmt::While(cond, b1.out.push(step));
    let two = seq![first, second];
    assert(l.out == hir::SpecStmt::Block(two));
    let r = resolve_stmt(st, l.out);
    assert(r.r == match resolve_block(st, two, 0, Seq::empty()).r {
        Ok(b) => Ok::<SpecStmt, SpecMirError>(SpecStmt::Block(b)),
        Err(e) => Err(e),
    });
    // the declaration of the counter
    lemma_agree_declaration(scope, n, true, from, st, parent);
    let x0 = resolve_stmt(st, first);
    assert(two[0] == first);
    if let Ok(s0) = x0.r {
        let s1 = x0.st;
        assert(resolve_block(st, two, 0, Seq::empty()) == resolve_block(
            s1,
            two,
            1,
            Seq::<SpecStmt>::empty().push(s0),
        ));
        assert(two[1] == second);
        // the condition
        let rc = resolve_expr(s1, counter);
        assert(rc.r is Ok && rc.st == s1);
        lemma_agree_expr(f1.scope, to, s1);
        let rt = resolve_expr(s1, t1.out);
        let c1 = resolve_expr(s1, cond);
        assert(c1 == join(
            rc,
            rt,
            SpecExpression::Neq(Box::new(rc.get()), Box::new(rt.get())),
        ));
        if rt.r is Ok {
            let s2 = rt.st;
            lemma_count_expr(s1, t1.out);
            assert(s2.rename.contains_key(n.data));
            // the body and the step at its end
            assert(body.take(0) =~= Seq::<ast::SpecStmt>::empty());
            lemma_agree_block(t1.scope, body, s2, 0, Seq::empty());
            lemma_resolve_push(s2, b1.out, step, 0, Seq::empty());
            let rb = resolve_block(s2, b1.out, 0, Seq::empty());
            if rb.r is Ok {
                lemma_count_block(s2, b1.out, 0, Seq::empty());
                let s3 = rb.st;
                assert(s3.rename.contains_key(n.data));
                let rn = resolve_expr(s3, counter);
                assert(rn.r is Ok && rn.st == s3);
                let one = resolve_expr(
                    s3,
                    hir::SpecExpression::Int(Span { data: 1i64, range: n.range }),
                );
                assert(one.r is Ok && one.st == s3);
                let sum = resolve_expr(
                    s3,
                    hir::SpecExpression::Add(
                        Box::new(counter),
                        Box::new(hir::SpecExpression::Int(Span { data: 1i64, range: n.range })),
                    ),
                );
                assert(sum.r is Ok && sum.st == s3);
                let rs = resolve_stmt(s3, step);
                assert(rs.r is Ok && rs.st == s3);
                let w = resolve_block(s2, b1.out.push(step), 0, Seq::empty());
                assert(w.r is Ok && w.st == s3);
                let x1 = resolve_stmt(s1, second);
                assert(x1.r is Ok && x1.st == s3);
                assert(resolve_block(s1, two, 1, Seq::<SpecStmt>::empty().push(s0)) == resolve_block(
                    s3,
                    two,
                    2,
                    Seq::<SpecStmt>::empty().push(s0).push(x1.get()),
                ));
                assert(covers(l.scope, s3)) by {
                    assert forall|k: Seq<char>| l.scope.contains_key(k) implies s3.rename.contains_key(
                        k,
                    ) by {
                        assert(b1.scope.contains_key(k));
                    }
                }
            }
        }
    }
}


/// The declaration `i` of a list is lowered by itself, and reports nothing
/// where the list reports nothing.
pub proof fn lemma_lower_items_at(items: Seq<ast::SpecTopItem>, i: int)
    requires
        0 <= i < items.len(),
    ensures
        lower_items(items).len() == items.len(),
        lower_items(items)[i] == lower_item(items[i]).out,
        quiet(lower_items_diag(items)) ==> quiet(lower_item(items[i]).diag),
    decreases items.len(),
{
    lemma_lower_items_len(items);
    lemma_lower_items_len(items.drop_last());
    if i < items.len() - 1 {
        lemma_lower_items_at(items.drop_last(), i);
    }
}

/// A list of declarations lowers to a list of the same length.
pub proof fn lemma_lower_items_len(items: Seq<ast::SpecTopItem>)
    ensures
        lower_items(items).len() == items.len(),
    decreases items.len(),
{
    if items.len() > 0 {
        lemma_lower_items_len(items.drop_last());
    }
}

/// A declaration that the first lowering has nothing to report of is
/// lowered by the second without a failure for a name without a slot.
pub proof fn lemma_agree_item(item: ast::SpecTopItem, next_heap: usize)
    requires
        quiet(lower_item(item).diag),
    ensures
        !unresolved(resolve_class(next_heap, lower_item(item).out).r),
{
    if item.args.len() <= usize::MAX {
        let st = Resolver {
            rename: slots_of(item.args),
            next_slot: item.args.len() as usize,
            next_heap,
        };
        lemma_slots_of(item.args);
        lemma_params_cover(item.args, st);
        assert(item.block.take(0) =~= Seq::<ast::SpecStmt>::empty());
        lemma_agree_block(with_params(Map::empty(), item.args), item.block, st, 0, Seq::empty());
    }
}

/// [`lemma_agree_item`] for the declarations of a list from the
/// declaration `i` on.
pub proof fn lemma_agree_items(
    items: Seq<ast::SpecTopItem>,
    next_heap: usize,
    i: nat,
    seen: Seq<SpecClass>,
)
    requires
        i <= items.len(),
        quiet(lower_items_diag(items)),
    ensures
        !unresolved(resolve_classes(next_heap, lower_items(items), i, seen)),
    decreases items.len() - i,
{
    lemma_lower_items_len(items);
    if i < items.len() {
        lemma_lower_items_at(items, i as int);
        lemma_agree_item(items[i as int], next_heap);
        let x = resolve_class(next_heap, lower_items(items)[i as int]);
        match x.r {
            Ok(c) => {
                lemma_agree_items(items, x.st.next_heap, i + 1, seen.push(c));
            },
            Err(_) => {},
        }
    }
}

/// A program that the first lowering has nothing to report of never fails
/// in the second lowering for a name without a slot: such a failure is met
/// only where a diagnostic was given and not acted upon.
pub proof fn lemma_quiet_programs_resolve(
    items: Seq<ast::SpecTopItem>,
    top: Option<Seq<char>>,
    fuel: nat,
)
    requires
        quiet(run_model(items, top, fuel).diagnostics),
    ensures
        !(run_model(items, top, fuel).result matches Err(
            SpecRunError::Lowering(SpecMirError::Unresolved(_)),
        )),
{
    lemma_agree_items(items, 0, 0, Seq::empty());
}

} // verus!
