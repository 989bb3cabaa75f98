//! What the second lowering guarantees of the trees it gives: the slots are
//! counted through each function without a gap, in the order of the
//! declarations, and every local that is read or assigned has a slot of the
//! frame of its function.
use vstd::prelude::*;
use crate::Span;
use crate::ast::Ident;
use crate::hir;
use crate::mir::{
    SpecExpression, SpecStmt, SpecClass, Resolver, resolve_expr, resolve_exprs, resolve_stmt,
    resolve_block, resolve_class, slots_of, first_slots,
};

verus! {

/// The number of declarations of locals in an expression, those in the
/// bodies of functions declared inside not counted.
pub open spec fn lets_expr(e: SpecExpression) -> nat
    decreases e,
{
    match e {
        SpecExpression::Int(_) => 0,
        SpecExpression::String(_, _) => 0,
        SpecExpression::Bool(_) => 0,
        SpecExpression::Name(_) => 0,
        SpecExpression::Add(l, r) => lets_expr(*l) + lets_expr(*r),
        SpecExpression::Sub(l, r) => lets_expr(*l) + lets_expr(*r),
        SpecExpression::Mul(l, r) => lets_expr(*l) + lets_expr(*r),
        SpecExpression::Div(l, r) => lets_expr(*l) + lets_expr(*r),
        SpecExpression::Eq(l, r) => lets_expr(*l) + lets_expr(*r),
        SpecExpression::Neq(l, r) => lets_expr(*l) + lets_expr(*r),
        SpecExpression::Call(_, args) => lets_exprs(args),
        SpecExpression::If(c, t, e) => lets_expr(*c) + lets_block(t) + match e {
            Some(b) => lets_block(b),
            None => 0,
        },
    }
}

/// [`lets_expr`] summed over a list.
pub open spec fn lets_exprs(es: Seq<SpecExpression>) -> nat
    decreases es,
{
    if es.len() == 0 {
        0
    } else {
        lets_exprs(es.drop_last()) + lets_expr(es.last())
    }
}

/// The number of declarations of locals in a statement, those in the bodies
/// of functions declared inside not counted.
pub open spec fn lets_stmt(s: SpecStmt) -> nat
    decreases s,
{
    match s {
        SpecStmt::Expr(e) => lets_expr(e),
        SpecStmt::Let(_, e) => 1 + lets_expr(e),
        SpecStmt::Assign(_, e) => lets_expr(e),
        SpecStmt::Return(e) => lets_expr(e),
        SpecStmt::While(c, b) => lets_expr(c) + lets_block(b),
        SpecStmt::Block(b) => lets_block(b),
        SpecStmt::Func { .. } => 0,
    }
}

/// [`lets_stmt`] summed over a list.
pub open spec fn lets_block(ss: Seq<SpecStmt>) -> nat
    decreases ss,
{
    if ss.len() == 0 {
        0
    } else {
        lets_block(ss.drop_last()) + lets_stmt(ss.last())
    }
}

/// Every local that an expression reads, assigns or declares in its own
/// frame has a slot below `n`, and the locals of every function declared
/// inside have slots of the frame of that function.
pub open spec fn slots_expr(e: SpecExpression, n: nat) -> bool
    decreases e,
{
    match e {
        SpecExpression::Int(_) => true,
        SpecExpression::String(_, _) => true,
        SpecExpression::Bool(_) => true,
        SpecExpression::Name(s) => s.data < n,
        SpecExpression::Add(l, r) => slots_expr(*l, n) && slots_expr(*r, n),
        SpecExpression::Sub(l, r) => slots_expr(*l, n) && slots_expr(*r, n),
        SpecExpression::Mul(l, r) => slots_expr(*l, n) && slots_expr(*r, n),
        SpecExpression::Div(l, r) => slots_expr(*l, n) && slots_expr(*r, n),
        SpecExpression::Eq(l, r) => slots_expr(*l, n) && slots_expr(*r, n),
        SpecExpression::Neq(l, r) => slots_expr(*l, n) && slots_expr(*r, n),
        SpecExpression::Call(_, args) => slots_exprs(args, n),
        SpecExpression::If(c, t, e) => slots_expr(*c, n) && slots_block(t, n) && match e {
            Some(b) => slots_block(b, n),
            None => true,
        },
    }
}

/// [`slots_expr`] for every expression of a list.
pub open spec fn slots_exprs(es: Seq<SpecExpression>, n: nat) -> bool
    decreases es,
{
    if es.len() == 0 {
        true
    } else {
        slots_exprs(es.drop_last(), n) && slots_expr(es.last(), n)
    }
}

/// The size of the frame of a function: its parameters and the locals that
/// its body declares.
pub open spec fn frame_size(params: Seq<usize>, block: Seq<SpecStmt>) -> nat {
    params.len() + lets_block(block)
}

/// Every local that a statement reads, assigns or declares in its own frame
/// has a slot below `n`, and the locals of every function declared inside
/// have slots of the frame of that function.
pub open spec fn slots_stmt(s: SpecStmt, n: nat) -> bool
    decreases s,
{
    match s {
        SpecStmt::Expr(e) => slots_expr(e, n),
        SpecStmt::Let(a, e) => a.data < n && slots_expr(e, n),
        SpecStmt::Assign(a, e) => a.data < n && slots_expr(e, n),
        SpecStmt::Return(e) => slots_expr(e, n),
        SpecStmt::While(c, b) => slots_expr(c, n) && slots_block(b, n),
        SpecStmt::Block(b) => slots_block(b, n),
        SpecStmt::Func { name, params, return_type, block } => {
            &&& params == first_slots(params.len())
            &&& slots_block(block, frame_size(params, block))
        },
    }
}

/// [`slots_stmt`] for every statement of a list.
pub open spec fn slots_block(ss: Seq<SpecStmt>, n: nat) -> bool
    decreases ss,
{
    if ss.len() == 0 {
        true
    } else {
        slots_block(ss.drop_last(), n) && slots_stmt(ss.last(), n)
    }
}

impl Resolver {
    /// Every name has a slot that was given out.
    pub open spec fn wf(self) -> bool {
        forall|k: Seq<char>| self.rename.contains_key(k) ==> self.rename[k] < self.next_slot
    }

    /// Every name that `self` knows is known to `later` too.
    pub open spec fn known_to(self, later: Resolver) -> bool {
        forall|k: Seq<char>| self.rename.contains_key(k) ==> later.rename.contains_key(k)
    }
}

/// The parameters of a function have the slots below their number.
pub proof fn lemma_slots_of(params: Seq<(Ident, Ident)>)
    requires
        params.len() <= usize::MAX,
    ensures
        forall|k: Seq<char>| #[trigger]
            slots_of(params).contains_key(k) ==> slots_of(params)[k] < params.len(),
    decreases params.len(),
{
    if params.len() > 0 {
        let init = params.drop_last();
        lemma_slots_of(init);
        assert forall|k: Seq<char>| #[trigger]
            slots_of(params).contains_key(k) implies slots_of(params)[k] < params.len() by {
            if k != params.last().0.data {
                assert(slots_of(init).contains_key(k));
            }
        }
    }
}

/// The lowering of an expression gives out as many slots as the expression
/// declares locals, one after the other, and leaves every name with a slot
/// that was given out.
pub proof fn lemma_count_expr(st: Resolver, e: hir::SpecExpression)
    requires
        st.wf(),
        resolve_expr(st, e).r is Ok,
    ensures
        resolve_expr(st, e).st.wf(),
        st.known_to(resolve_expr(st, e).st),
        resolve_expr(st, e).st.next_slot == st.next_slot + lets_expr(resolve_expr(st, e).get()),
    decreases e, 1nat,
{
    match e {
        hir::SpecExpression::Int(_) => {},
        hir::SpecExpression::String(_) => {},
        hir::SpecExpression::Bool(_) => {},
        hir::SpecExpression::Name(_) => {},
        hir::SpecExpression::Add(l, r) => {
            lemma_count_pair(st, *l, *r, e);
        },
        hir::SpecExpression::Sub(l, r) => {
            lemma_count_pair(st, *l, *r, e);
        },
        hir::SpecExpression::Mul(l, r) => {
            lemma_count_pair(st, *l, *r, e);
        },
        hir::SpecExpression::Div(l, r) => {
            lemma_count_pair(st, *l, *r, e);
        },
        hir::SpecExpression::Eq(l, r) => {
            lemma_count_pair(st, *l, *r, e);
        },
        hir::SpecExpression::Neq(l, r) => {
            lemma_count_pair(st, *l, *r, e);
        },
        hir::SpecExpression::Call(_, args) => {
            lemma_count_exprs(st, args, 0, Seq::empty());
        },
        hir::SpecExpression::ObjCall(_, _, args) => {
            lemma_count_exprs(st, args, 0, Seq::empty());
        },
        hir::SpecExpression::If(c, t, e) => {
            lemma_count_expr(st, *c);
            let c1 = resolve_expr(st, *c);
            lemma_count_block(c1.st, t, 0, Seq::empty());
            let t1 = resolve_block(c1.st, t, 0, Seq::empty());
            match e {
                Some(e) => {
                    lemma_count_block(t1.st, e, 0, Seq::empty());
                },
                None => {},
            }
        },
    }
}

proof fn lemma_count_pair(
    st: Resolver,
    l: hir::SpecExpression,
    r: hir::SpecExpression,
    parent: hir::SpecExpression,
)
    requires
        st.wf(),
        decreases_to!(parent => l),
        decreases_to!(parent => r),
        resolve_expr(st, l).r is Ok,
        resolve_expr(resolve_expr(st, l).st, r).r is Ok,
    ensures
        ({
            let a = resolve_expr(st, l);
            let b = resolve_expr(a.st, r);
            b.st.wf() && st.known_to(b.st) && b.st.next_slot == st.next_slot + lets_expr(a.get())
                + lets_expr(b.get())
        }),
    decreases parent, 0nat,
{
    lemma_count_expr(st, l);
    lemma_count_expr(resolve_expr(st, l).st, r);
}

/// [`lemma_count_expr`] for a list of expressions.
pub proof fn lemma_count_exprs(
    st: Resolver,
    es: Seq<hir::SpecExpression>,
    i: nat,
    seen: Seq<SpecExpression>,
)
    requires
        st.wf(),
        resolve_exprs(st, es, i, seen).r is Ok,
    ensures
        resolve_exprs(st, es, i, seen).st.wf(),
        st.known_to(resolve_exprs(st, es, i, seen).st),
        st.next_slot <= resolve_exprs(st, es, i, seen).st.next_slot,
        resolve_exprs(st, es, i, seen).st.next_slot + lets_exprs(seen) == st.next_slot
            + lets_exprs(resolve_exprs(st, es, i, seen).get()),
    decreases es, es.len() - i,
{
    if i < es.len() {
        lemma_count_expr(st, es[i as int]);
        let x = resolve_expr(st, es[i as int]);
        assert(seen.push(x.get()).drop_last() =~= seen);
        lemma_count_exprs(x.st, es, i + 1, seen.push(x.get()));
    }
}

/// The lowering of a statement gives out as many slots as the statement
/// declares locals, one after the other, and leaves every name with a slot
/// that was given out.
pub proof fn lemma_count_stmt(st: Resolver, s: hir::SpecStmt)
    requires
        st.wf(),
        resolve_stmt(st, s).r is Ok,
    ensures
        resolve_stmt(st, s).st.wf(),
        st.known_to(resolve_stmt(st, s).st),
        resolve_stmt(st, s).st.next_slot == st.next_slot + lets_stmt(resolve_stmt(st, s).get()),
    decreases s, 0nat,
{
    match s {
        hir::SpecStmt::Expr(e) => {
            lemma_count_expr(st, e);
        },
        hir::SpecStmt::Let(a, e) => {
            let declared = Resolver {
                rename: st.rename.insert(a.data, st.next_slot),
                next_slot: (st.next_slot + 1) as usize,
                ..st
            };
            assert(declared.wf()) by {
                assert forall|k: Seq<char>| declared.rename.contains_key(k) implies declared.rename[k]
                    < declared.next_slot by {
                    if k != a.data {
                        assert(st.rename.contains_key(k));
                    }
                }
            }
            lemma_count_expr(declared, e);
        },
        hir::SpecStmt::Assign(_, e) => {
            lemma_count_expr(st, e);
        },
        hir::SpecStmt::Return(e) => {
            lemma_count_expr(st, e);
        },
        hir::SpecStmt::While(c, body) => {
            lemma_count_expr(st, c);
            lemma_count_block(resolve_expr(st, c).st, body, 0, Seq::empty());
        },
        hir::SpecStmt::Block(body) => {
            lemma_count_block(st, body, 0, Seq::empty());
        },
        hir::SpecStmt::Func { .. } => {},
    }
}

/// [`lemma_count_stmt`] for a list of statements.
pub proof fn lemma_count_block(st: Resolver, ss: Seq<hir::SpecStmt>, i: nat, seen: Seq<SpecStmt>)
    requires
        st.wf(),
        resolve_block(st, ss, i, seen).r is Ok,
    ensures
        resolve_block(st, ss, i, seen).st.wf(),
        st.known_to(resolve_block(st, ss, i, seen).st),
        st.next_slot <= resolve_block(st, ss, i, seen).st.next_slot,
        resolve_block(st, ss, i, seen).st.next_slot + lets_block(seen) == st.next_slot
            + lets_block(resolve_block(st, ss, i, seen).get()),
    decreases ss, ss.len() - i,
{
    if i < ss.len() {
        lemma_count_stmt(st, ss[i as int]);
        let x = resolve_stmt(st, ss[i as int]);
        assert(seen.push(x.get()).drop_last() =~= seen);
        lemma_count_block(x.st, ss, i + 1, seen.push(x.get()));
    }
}


/// The lowering of an expression gives every local that the expression
/// reads, assigns or declares a slot that was given out.
pub proof fn lemma_slots_expr(st: Resolver, e: hir::SpecExpression, bound: nat)
    requires
        st.wf(),
        resolve_expr(st, e).r is Ok,
        resolve_expr(st, e).st.next_slot <= bound,
    ensures
        slots_expr(resolve_expr(st, e).get(), bound),
    decreases e, 1nat,
{
    lemma_count_expr(st, e);
    match e {
        hir::SpecExpression::Int(_) => {},
        hir::SpecExpression::String(_) => {},
        hir::SpecExpression::Bool(_) => {},
        hir::SpecExpression::Name(_) => {},
        hir::SpecExpression::Add(l, r) => {
            lemma_slots_pair(st, *l, *r, e, bound);
        },
        hir::SpecExpression::Sub(l, r) => {
            lemma_slots_pair(st, *l, *r, e, bound);
        },
        hir::SpecExpression::Mul(l, r) => {
            lemma_slots_pair(st, *l, *r, e, bound);
        },
        hir::SpecExpression::Div(l, r) => {
            lemma_slots_pair(st, *l, *r, e, bound);
        },
        hir::SpecExpression::Eq(l, r) => {
            lemma_slots_pair(st, *l, *r, e, bound);
        },
        hir::SpecExpression::Neq(l, r) => {
            lemma_slots_pair(st, *l, *r, e, bound);
        },
        hir::SpecExpression::Call(_, args) => {
            lemma_slots_exprs(st, args, 0, Seq::empty(), bound);
        },
        hir::SpecExpression::ObjCall(_, _, args) => {
            lemma_slots_exprs(st, args, 0, Seq::empty(), bound);
        },
        hir::SpecExpression::If(c, t, e) => {
            lemma_count_expr(st, *c);
            let c1 = resolve_expr(st, *c);
            lemma_count_block(c1.st, t, 0, Seq::empty());
            let t1 = resolve_block(c1.st, t, 0, Seq::empty());
            match e {
                Some(e) => {
                    lemma_count_block(t1.st, e, 0, Seq::empty());
                    lemma_slots_block(t1.st, e, 0, Seq::empty(), bound);
                },
                None => {},
            }
            lemma_slots_block(c1.st, t, 0, Seq::empty(), bound);
            lemma_slots_expr(st, *c, bound);
        },
    }
}

proof fn lemma_slots_pair(
    st: Resolver,
    l: hir::SpecExpression,
    r: hir::SpecExpression,
    parent: hir::SpecExpression,
    bound: nat,
)
    requires
        st.wf(),
        decreases_to!(parent => l),
        decreases_to!(parent => r),
        resolve_expr(st, l).r is Ok,
        resolve_expr(resolve_expr(st, l).st, r).r is Ok,
        resolve_expr(resolve_expr(st, l).st, r).st.next_slot <= bound,
    ensures
        ({
            let a = resolve_expr(st, l);
            let b = resolve_expr(a.st, r);
            slots_expr(a.get(), bound) && slots_expr(b.get(), bound)
        }),
    decreases parent, 0nat,
{
    lemma_count_expr(st, l);
    let a = resolve_expr(st, l);
    lemma_count_expr(a.st, r);
    lemma_slots_expr(st, l, bound);
    lemma_slots_expr(a.st, r, bound);
}

/// [`lemma_slots_expr`] for a list of expressions.
pub proof fn lemma_slots_exprs(
    st: Resolver,
    es: Seq<hir::SpecExpression>,
    i: nat,
    seen: Seq<SpecExpression>,
    bound: nat,
)
    requires
        st.wf(),
        resolve_exprs(st, es, i, seen).r is Ok,
        resolve_exprs(st, es, i, seen).st.next_slot <= bound,
        slots_exprs(seen, bound),
    ensures
        slots_exprs(resolve_exprs(st, es, i, seen).get(), bound),
    decreases es, es.len() - i,
{
    if i < es.len() {
        lemma_count_expr(st, es[i as int]);
        let x = resolve_expr(st, es[i as int]);
        lemma_count_exprs(x.st, es, i + 1, seen.push(x.get()));
        lemma_slots_expr(st, es[i as int], bound);
        assert(seen.push(x.get()).drop_last() =~= seen);
        lemma_slots_exprs(x.st, es, i + 1, seen.push(x.get()), bound);
    }
}

/// The lowering of a statement gives every local that the statement reads,
/// assigns or declares a slot that was given out, and every local of a
/// function declared inside a slot of the frame of that function.
pub proof fn lemma_slots_stmt(st: Resolver, s: hir::SpecStmt, bound: nat)
    requires
        st.wf(),
        resolve_stmt(st, s).r is Ok,
        resolve_stmt(st, s).st.next_slot <= bound,
    ensures
        slots_stmt(resolve_stmt(st, s).get(), bound),
    decreases s, 0nat,
{
    lemma_count_stmt(st, s);
    match s {
        hir::SpecStmt::Expr(e) => {
            lemma_slots_expr(st, e, bound);
        },
        hir::SpecStmt::Let(a, e) => {
            let declared = Resolver {
                rename: st.rename.insert(a.data, st.next_slot),
                next_slot: (st.next_slot + 1) as usize,
                ..st
            };
            assert(declared.wf()) by {
                assert forall|k: Seq<char>| declared.rename.contains_key(k) implies declared.rename[k]
                    < declared.next_slot by {
                    if k != a.data {
                        assert(st.rename.contains_key(k));
                    }
                }
            }
            lemma_count_expr(declared, e);
            lemma_slots_expr(declared, e, bound);
        },
        hir::SpecStmt::Assign(_, e) => {
            lemma_count_expr(st, e);
            lemma_slots_expr(st, e, bound);
        },
        hir::SpecStmt::Return(e) => {
            lemma_slots_expr(st, e, bound);
        },
        hir::SpecStmt::While(c, body) => {
            lemma_count_expr(st, c);
            let c1 = resolve_expr(st, c);
            lemma_count_block(c1.st, body, 0, Seq::empty());
            lemma_slots_expr(st, c, bound);
            lemma_slots_block(c1.st, body, 0, Seq::empty(), bound);
        },
        hir::SpecStmt::Block(body) => {
            lemma_slots_block(st, body, 0, Seq::empty(), bound);
        },
        hir::SpecStmt::Func { name, params, return_type, block } => {
            lemma_frame_of(params, block, st.next_heap);
        },
    }
}

/// The body of a function or class, lowered with its parameters in the
/// first slots, holds only locals with slots of its own frame.
pub proof fn lemma_frame_of(params: Seq<(Ident, Ident)>, block: Seq<hir::SpecStmt>, next_heap: usize)
    requires
        params.len() <= usize::MAX,
        resolve_block(
            Resolver { rename: slots_of(params), next_slot: params.len() as usize, next_heap },
            block,
            0,
            Seq::empty(),
        ).r is Ok,
    ensures
        ({
            let inner = Resolver {
                rename: slots_of(params),
                next_slot: params.len() as usize,
                next_heap,
            };
            let b = resolve_block(inner, block, 0, Seq::empty());
            &&& b.st.next_slot == params.len() + lets_block(b.get())
            &&& slots_block(b.get(), params.len() + lets_block(b.get()))
        }),
    decreases block, block.len() + 1,
{
    let inner = Resolver { rename: slots_of(params), next_slot: params.len() as usize, next_heap };
    lemma_slots_of(params);
    lemma_count_block(inner, block, 0, Seq::empty());
    let b = resolve_block(inner, block, 0, Seq::empty());
    lemma_slots_block(inner, block, 0, Seq::empty(), b.st.next_slot as nat);
}

/// [`lemma_slots_stmt`] for a list of statements.
pub proof fn lemma_slots_block(
    st: Resolver,
    ss: Seq<hir::SpecStmt>,
    i: nat,
    seen: Seq<SpecStmt>,
    bound: nat,
)
    requires
        st.wf(),
        resolve_block(st, ss, i, seen).r is Ok,
        resolve_block(st, ss, i, seen).st.next_slot <= bound,
        slots_block(seen, bound),
    ensures
        slots_block(resolve_block(st, ss, i, seen).get(), bound),
    decreases ss, ss.len() - i,
{
    if i < ss.len() {
        lemma_count_stmt(st, ss[i as int]);
        let x = resolve_stmt(st, ss[i as int]);
        lemma_count_block(x.st, ss, i + 1, seen.push(x.get()));
        lemma_slots_stmt(st, ss[i as int], bound);
        assert(seen.push(x.get()).drop_last() =~= seen);
        lemma_slots_block(x.st, ss, i + 1, seen.push(x.get()), bound);
    }
}

/// A class that is lowered has its constructor arguments in the first slots
/// of its frame, in their order, and its body holds only locals with slots
/// of that frame: the arguments and the declarations of the body, counted
/// without a gap.
pub proof fn lemma_class_slots(next_heap: usize, c: hir::SpecClass)
    requires
        resolve_class(next_heap, c).r is Ok,
    ensures
        ({
            let out = resolve_class(next_heap, c).get();
            &&& out.args.len() == c.args.len()
            &&& forall|i: int| 0 <= i < out.args.len() ==> (#[trigger] out.args[i]).0.data == i
            &&& slots_block(out.block, out.args.len() + lets_block(out.block))
        }),
{
    lemma_frame_of(c.args, c.block, next_heap);
}


/// An assignment to a name that has a slot is lowered to an assignment to
/// that slot, whatever the first lowering has reported of it.
pub proof fn lemma_assign_keeps_its_slot(st: Resolver, a: Ident, e: hir::SpecExpression)
    requires
        st.rename.contains_key(a.data),
        resolve_expr(st, e).r is Ok,
    ensures
        resolve_stmt(st, hir::SpecStmt::Assign(a, e)).r == Ok::<SpecStmt, crate::mir::SpecMirError>(
            SpecStmt::Assign(
                Span { data: st.rename[a.data], range: a.range },
                resolve_expr(st, e).get(),
            ),
        ),
{
}

} // verus!
