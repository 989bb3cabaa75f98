//! What holds of every evaluation.
//!
//! * The frame of a call is its own: an evaluation that ends well leaves the
//!   frame base, takes nothing off the stack and changes nothing below the
//!   frame base, and a call leaves the whole stack of its caller as it was.
//! * What the heap holds stays, every array gets an id of its own, and what
//!   was printed stays printed.
//! * A local that nothing assigns to keeps its value, and a counting loop
//!   runs as many rounds as its counter is away from its end.
//! * The fuel does not show where it is not used up.
use vstd::prelude::*;
use crate::{Span, SpecRunError, run_model, run_source_model, entry_body};
use crate::ast;
use crate::grammar;
use crate::hir::lower_items;
use crate::mir::{
    SpecExpression, SpecStmt, SpecClass, resolve_classes, ids_expr, ids_exprs, ids_stmt, ids_block,
    ids_classes, after, later,
};
use crate::parser::{parse_model, ParseError};
use crate::vm::{
    Machine, Value, RuntimeError, SpecCallee, SpecHeapValue, SpecPrinted, eval_expr, eval_args,
    eval_stmt, eval_while, eval_block, print_from, allocate, built_ins, done, shown, initial,
    class_table,
};

verus! {

/// What an evaluation that started in `m` and ended well in `s` has left in
/// place: the frame base, the length of the stack at least, and every value
/// below the frame base.
pub open spec fn framed(m: Machine, s: Machine) -> bool {
    &&& s.base == m.base
    &&& m.stack.len() <= s.stack.len()
    &&& forall|j: int| 0 <= j < m.base ==> s.stack[j] == m.stack[j]
}

/// `print` leaves the stack and the frame base as they are.
pub proof fn lemma_print_keeps_stack(m: Machine, args: Seq<Value>, i: nat)
    ensures
        print_from(m, args, i).m.stack == m.stack,
        print_from(m, args, i).m.base == m.base,
    decreases args.len() - i,
{
    if i < args.len() {
        match args[i as int] {
            Value::HeapId(id) => {
                if m.heap.contains_key(id) {
                    lemma_print_keeps_stack(m.printing(shown(m.heap[id])), args, i + 1);
                }
            },
            v => {
                lemma_print_keeps_stack(m.printing(SpecPrinted::Scalar(v)), args, i + 1);
            },
        }
    }
}

/// An expression that is evaluated well leaves the frame base where it was,
/// takes nothing off the stack, and changes no value below the frame base.
pub proof fn lemma_frame_expr(fuel: nat, m: Machine, e: SpecExpression)
    requires
        m.base <= m.stack.len(),
    ensures
        eval_expr(fuel, m, e).r is Ok ==> framed(m, eval_expr(fuel, m, e).m),
    decreases fuel, e, 1nat,
{
    match e {
        SpecExpression::Int(_) => {},
        SpecExpression::String(_, _) => {},
        SpecExpression::Bool(_) => {},
        SpecExpression::Name(_) => {},
        SpecExpression::Add(l, r) => {
            lemma_frame_pair(fuel, m, *l, *r, e);
        },
        SpecExpression::Sub(l, r) => {
            lemma_frame_pair(fuel, m, *l, *r, e);
        },
        SpecExpression::Mul(l, r) => {
            lemma_frame_pair(fuel, m, *l, *r, e);
        },
        SpecExpression::Div(l, r) => {
            lemma_frame_pair(fuel, m, *l, *r, e);
        },
        SpecExpression::Eq(l, r) => {
            lemma_frame_pair(fuel, m, *l, *r, e);
        },
        SpecExpression::Neq(l, r) => {
            lemma_frame_pair(fuel, m, *l, *r, e);
        },
        SpecExpression::Call(name, args) => {
            lemma_frame_args(fuel, m, args, 0, Seq::empty());
            let a = eval_args(fuel, m, args, 0, Seq::empty());
            if let Ok(values) = a.r {
                if built_ins().contains_key(name.data) {
                    lemma_print_keeps_stack(a.m, values, 0);
                } else if a.m.funcs.contains_key(name.data) {
                    if fuel > 0 {
                        lemma_frame_call((fuel - 1) as nat, a.m, a.m.funcs[name.data], values);
                    }
                } else if a.m.classes.contains_key(name.data) {
                    if fuel > 0 {
                        lemma_frame_call((fuel - 1) as nat, a.m, a.m.classes[name.data], values);
                    }
                }
            }
        },
        SpecExpression::If(c, t, e) => {
            lemma_frame_expr(fuel, m, *c);
            let x = eval_expr(fuel, m, *c);
            if x.r is Ok {
                if x.value() == Value::Bool(true) {
                    lemma_frame_block(fuel, x.m, t, 0, Value::Unit);
                } else {
                    match e {
                        Some(b) => {
                            lemma_frame_block(fuel, x.m, b, 0, Value::Unit);
                        },
                        None => {},
                    }
                }
            }
        },
    }
}

/// The two operands of a binary operator, evaluated one after the other.
proof fn lemma_frame_pair(
    fuel: nat,
    m: Machine,
    l: SpecExpression,
    r: SpecExpression,
    parent: SpecExpression,
)
    requires
        m.base <= m.stack.len(),
        decreases_to!(parent => l),
        decreases_to!(parent => r),
    ensures
        ({
            let a = eval_expr(fuel, m, l);
            let b = eval_expr(fuel, a.m, r);
            a.r is Ok && b.r is Ok ==> framed(m, b.m)
        }),
    decreases fuel, parent, 0nat,
{
    lemma_frame_expr(fuel, m, l);
    let a = eval_expr(fuel, m, l);
    if a.r is Ok {
        lemma_frame_expr(fuel, a.m, r);
    }
}

/// A call whose body ends well leaves the whole stack of the caller as it
/// was, and the frame base too.
pub proof fn lemma_frame_call(fuel: nat, m: Machine, callee: SpecCallee, values: Seq<Value>)
    requires
        m.base <= m.stack.len(),
    ensures
        ({
            let b = eval_block(fuel, m.enter(callee, values), callee.block, 0, Value::Unit);
            b.r is Ok ==> m.leave(b.m).stack == m.stack && m.leave(b.m).base == m.base
        }),
    decreases fuel, callee.block, callee.block.len() + 1,
{
    let inner = m.enter(callee, values);
    lemma_frame_block(fuel, inner, callee.block, 0, Value::Unit);
    let b = eval_block(fuel, inner, callee.block, 0, Value::Unit);
    if b.r is Ok {
        assert(m.leave(b.m).stack =~= m.stack) by {
            assert forall|j: int| 0 <= j < m.stack.len() implies b.m.stack[j] == m.stack[j] by {
                assert(inner.stack[j] == m.stack[j]);
            }
        }
    }
}

/// The arguments of a call that are evaluated well leave the frame in place.
pub proof fn lemma_frame_args(
    fuel: nat,
    m: Machine,
    args: Seq<SpecExpression>,
    i: nat,
    seen: Seq<Value>,
)
    requires
        m.base <= m.stack.len(),
    ensures
        eval_args(fuel, m, args, i, seen).r is Ok ==> framed(m, eval_args(fuel, m, args, i, seen).m),
    decreases fuel, args, args.len() - i,
{
    if i < args.len() {
        lemma_frame_expr(fuel, m, args[i as int]);
        let x = eval_expr(fuel, m, args[i as int]);
        if let Ok(v) = x.r {
            lemma_frame_args(fuel, x.m, args, i + 1, seen.push(v));
        }
    }
}

/// A statement that is evaluated well leaves the frame in place.
pub proof fn lemma_frame_stmt(fuel: nat, m: Machine, s: SpecStmt)
    requires
        m.base <= m.stack.len(),
    ensures
        eval_stmt(fuel, m, s).r is Ok ==> framed(m, eval_stmt(fuel, m, s).m),
    decreases fuel, s, 1nat,
{
    match s {
        SpecStmt::Expr(e) => {
            lemma_frame_expr(fuel, m, e);
        },
        SpecStmt::Let(_, e) => {
            lemma_frame_expr(fuel, m, e);
        },
        SpecStmt::Assign(_, e) => {
            lemma_frame_expr(fuel, m, e);
        },
        SpecStmt::Return(e) => {
            lemma_frame_expr(fuel, m, e);
        },
        SpecStmt::While(_, _) => {
            lemma_frame_while(fuel, m, s, Value::Unit);
        },
        SpecStmt::Block(b) => {
            lemma_frame_block(fuel, m, b, 0, Value::Unit);
        },
        SpecStmt::Func { .. } => {},
    }
}

/// A loop that ends well leaves the frame in place.
pub proof fn lemma_frame_while(fuel: nat, m: Machine, s: SpecStmt, last: Value)
    requires
        m.base <= m.stack.len(),
    ensures
        eval_while(fuel, m, s, last).r is Ok ==> framed(m, eval_while(fuel, m, s, last).m),
    decreases fuel, s, 0nat,
{
    match s {
        SpecStmt::While(cond, body) => {
            lemma_frame_expr(fuel, m, cond);
            let c = eval_expr(fuel, m, cond);
            if c.r is Ok && c.value() == Value::Bool(true) && fuel > 0 {
                lemma_frame_block((fuel - 1) as nat, c.m, body, 0, Value::Unit);
                let b = eval_block((fuel - 1) as nat, c.m, body, 0, Value::Unit);
                if b.r is Ok {
                    lemma_frame_while((fuel - 1) as nat, b.m, s, b.value());
                }
            }
        },
        _ => {},
    }
}

/// A block that is evaluated well leaves the frame in place.
pub proof fn lemma_frame_block(fuel: nat, m: Machine, ss: Seq<SpecStmt>, i: nat, last: Value)
    requires
        m.base <= m.stack.len(),
    ensures
        eval_block(fuel, m, ss, i, last).r is Ok ==> framed(m, eval_block(fuel, m, ss, i, last).m),
    decreases fuel, ss, ss.len() - i,
{
    if i < ss.len() {
        lemma_frame_stmt(fuel, m, ss[i as int]);
        let x = eval_stmt(fuel, m, ss[i as int]);
        if x.r is Ok {
            lemma_frame_block(fuel, x.m, ss, i + 1, x.value());
        }
    }
}


/// What every evaluation that started in `m` and went as far as `s` has
/// kept, however it ended: the machine is in order, every heap id in use is
/// still in use, the next id has not gone back, the classes are the same,
/// every function declared is still declared, and what was printed is still
/// the beginning of what is printed.
pub open spec fn kept(m: Machine, s: Machine) -> bool {
    &&& m.wf() ==> s.wf()
    &&& forall|k: usize| m.heap.contains_key(k) ==> s.heap.contains_key(k)
    &&& m.next_id <= s.next_id
    &&& s.classes == m.classes
    &&& forall|n: Seq<char>| m.funcs.contains_key(n) ==> s.funcs.contains_key(n)
    &&& m.output.len() <= s.output.len()
    &&& forall|j: int| 0 <= j < m.output.len() ==> s.output[j] == m.output[j]
}

/// `print` keeps what [`kept`] lists, and changes nothing but the output.
pub proof fn lemma_print_keeps(m: Machine, args: Seq<Value>, i: nat)
    ensures
        kept(m, print_from(m, args, i).m),
        print_from(m, args, i).m.heap == m.heap,
        print_from(m, args, i).m.next_id == m.next_id,
        print_from(m, args, i).m.funcs == m.funcs,
    decreases args.len() - i,
{
    if i < args.len() {
        match args[i as int] {
            Value::HeapId(id) => {
                if m.heap.contains_key(id) {
                    lemma_print_keeps(m.printing(shown(m.heap[id])), args, i + 1);
                }
            },
            v => {
                lemma_print_keeps(m.printing(SpecPrinted::Scalar(v)), args, i + 1);
            },
        }
    }
}

/// Storing under an id below the last one keeps what [`kept`] lists.
pub proof fn lemma_storing_keeps(m: Machine, id: usize, h: SpecHeapValue)
    requires
        id < usize::MAX,
    ensures
        kept(m, m.storing(id, h)),
{
    let s = m.storing(id, h);
    if m.wf() {
        assert forall|k: usize| s.heap.contains_key(k) implies k < s.next_id by {
            if k != id {
                assert(m.heap.contains_key(k));
            }
        }
    }
}

/// The evaluation of an expression keeps what [`kept`] lists.
pub proof fn lemma_kept_expr(fuel: nat, m: Machine, e: SpecExpression)
    ensures
        kept(m, eval_expr(fuel, m, e).m),
    decreases fuel, e, 1nat,
{
    match e {
        SpecExpression::Int(_) => {},
        SpecExpression::String(id, s) => {
            if id != usize::MAX {
                lemma_storing_keeps(m, id, SpecHeapValue::String(s.data));
            }
        },
        SpecExpression::Bool(_) => {},
        SpecExpression::Name(_) => {},
        SpecExpression::Add(l, r) => {
            lemma_kept_pair(fuel, m, *l, *r, e);
        },
        SpecExpression::Sub(l, r) => {
            lemma_kept_pair(fuel, m, *l, *r, e);
        },
        SpecExpression::Mul(l, r) => {
            lemma_kept_pair(fuel, m, *l, *r, e);
        },
        SpecExpression::Div(l, r) => {
            lemma_kept_pair(fuel, m, *l, *r, e);
        },
        SpecExpression::Eq(l, r) => {
            lemma_kept_pair(fuel, m, *l, *r, e);
        },
        SpecExpression::Neq(l, r) => {
            lemma_kept_pair(fuel, m, *l, *r, e);
        },
        SpecExpression::Call(name, args) => {
            lemma_kept_args(fuel, m, args, 0, Seq::empty());
            let a = eval_args(fuel, m, args, 0, Seq::empty());
            if let Ok(values) = a.r {
                if built_ins().contains_key(name.data) {
                    lemma_print_keeps(a.m, values, 0);
                    if a.m.next_id != usize::MAX {
                        lemma_storing_keeps(a.m, a.m.next_id, SpecHeapValue::Vec(values));
                    }
                } else if a.m.funcs.contains_key(name.data) {
                    if fuel > 0 {
                        lemma_kept_call((fuel - 1) as nat, a.m, a.m.funcs[name.data], values);
                    }
                } else if a.m.classes.contains_key(name.data) {
                    if fuel > 0 {
                        lemma_kept_call((fuel - 1) as nat, a.m, a.m.classes[name.data], values);
                    }
                }
            }
        },
        SpecExpression::If(c, t, e) => {
            lemma_kept_expr(fuel, m, *c);
            let x = eval_expr(fuel, m, *c);
            if x.r is Ok {
                if x.value() == Value::Bool(true) {
                    lemma_kept_block(fuel, x.m, t, 0, Value::Unit);
                } else {
                    match e {
                        Some(b) => {
                            lemma_kept_block(fuel, x.m, b, 0, Value::Unit);
                        },
                        None => {},
                    }
                }
            }
        },
    }
}

proof fn lemma_kept_pair(
    fuel: nat,
    m: Machine,
    l: SpecExpression,
    r: SpecExpression,
    parent: SpecExpression,
)
    requires
        decreases_to!(parent => l),
        decreases_to!(parent => r),
    ensures
        kept(m, eval_expr(fuel, m, l).m),
        kept(m, eval_expr(fuel, eval_expr(fuel, m, l).m, r).m),
    decreases fuel, parent, 0nat,
{
    lemma_kept_expr(fuel, m, l);
    lemma_kept_expr(fuel, eval_expr(fuel, m, l).m, r);
}

/// A call keeps what [`kept`] lists, whether its body ends well or not.
pub proof fn lemma_kept_call(fuel: nat, m: Machine, callee: SpecCallee, values: Seq<Value>)
    ensures
        ({
            let b = eval_block(fuel, m.enter(callee, values), callee.block, 0, Value::Unit);
            kept(m, b.m) && kept(m, m.leave(b.m))
        }),
    decreases fuel, callee.block, callee.block.len() + 1,
{
    lemma_kept_block(fuel, m.enter(callee, values), callee.block, 0, Value::Unit);
}

/// The evaluation of the arguments of a call keeps what [`kept`] lists.
pub proof fn lemma_kept_args(
    fuel: nat,
    m: Machine,
    args: Seq<SpecExpression>,
    i: nat,
    seen: Seq<Value>,
)
    ensures
        kept(m, eval_args(fuel, m, args, i, seen).m),
    decreases fuel, args, args.len() - i,
{
    if i < args.len() {
        lemma_kept_expr(fuel, m, args[i as int]);
        let x = eval_expr(fuel, m, args[i as int]);
        if let Ok(v) = x.r {
            lemma_kept_args(fuel, x.m, args, i + 1, seen.push(v));
        }
    }
}

/// The evaluation of a statement keeps what [`kept`] lists.
pub proof fn lemma_kept_stmt(fuel: nat, m: Machine, s: SpecStmt)
    ensures
        kept(m, eval_stmt(fuel, m, s).m),
    decreases fuel, s, 1nat,
{
    match s {
        SpecStmt::Expr(e) => {
            lemma_kept_expr(fuel, m, e);
        },
        SpecStmt::Let(_, e) => {
            lemma_kept_expr(fuel, m, e);
        },
        SpecStmt::Assign(_, e) => {
            lemma_kept_expr(fuel, m, e);
        },
        SpecStmt::Return(e) => {
            lemma_kept_expr(fuel, m, e);
        },
        SpecStmt::While(_, _) => {
            lemma_kept_while(fuel, m, s, Value::Unit);
        },
        SpecStmt::Block(b) => {
            lemma_kept_block(fuel, m, b, 0, Value::Unit);
        },
        SpecStmt::Func { .. } => {},
    }
}

/// The evaluation of a loop keeps what [`kept`] lists.
pub proof fn lemma_kept_while(fuel: nat, m: Machine, s: SpecStmt, last: Value)
    ensures
        kept(m, eval_while(fuel, m, s, last).m),
    decreases fuel, s, 0nat,
{
    match s {
        SpecStmt::While(cond, body) => {
            lemma_kept_expr(fuel, m, cond);
            let c = eval_expr(fuel, m, cond);
            if c.r is Ok && c.value() == Value::Bool(true) && fuel > 0 {
                lemma_kept_block((fuel - 1) as nat, c.m, body, 0, Value::Unit);
                let b = eval_block((fuel - 1) as nat, c.m, body, 0, Value::Unit);
                if b.r is Ok {
                    lemma_kept_while((fuel - 1) as nat, b.m, s, b.value());
                }
            }
        },
        _ => {},
    }
}

/// The evaluation of a block keeps what [`kept`] lists.
pub proof fn lemma_kept_block(fuel: nat, m: Machine, ss: Seq<SpecStmt>, i: nat, last: Value)
    ensures
        kept(m, eval_block(fuel, m, ss, i, last).m),
    decreases fuel, ss, ss.len() - i,
{
    if i < ss.len() {
        lemma_kept_stmt(fuel, m, ss[i as int]);
        let x = eval_stmt(fuel, m, ss[i as int]);
        if x.r is Ok {
            lemma_kept_block(fuel, x.m, ss, i + 1, x.value());
        }
    }
}

/// The built-in `Array` stores its arguments, in their order, under an id
/// that was not in use before, and leaves what the heap held as it was.
pub proof fn lemma_array_is_fresh(m: Machine, items: Seq<Value>)
    requires
        m.wf(),
    ensures
        match allocate(m, items).r {
            Ok(v) => {
                &&& v == Value::HeapId(m.next_id)
                &&& !m.heap.contains_key(m.next_id)
                &&& allocate(m, items).m.heap == m.heap.insert(
                    m.next_id,
                    SpecHeapValue::Vec(items),
                )
                &&& allocate(m, items).m.wf()
            },
            Err(e) => e == RuntimeError::HeapFull && m.next_id == usize::MAX,
        },
{
    if m.next_id != usize::MAX {
        lemma_storing_keeps(m, m.next_id, SpecHeapValue::Vec(items));
    }
}

/// Printing a reference to an array shows the items of the array in their
/// order, and nothing else.
pub proof fn lemma_print_shows_array(m: Machine, id: usize, items: Seq<Value>)
    requires
        m.heap.contains_key(id),
        m.heap[id] == SpecHeapValue::Vec(items),
    ensures
        print_from(m, seq![Value::HeapId(id)], 0) == done(
            m.printing(SpecPrinted::Array(items)),
            Value::Unit,
        ),
{
    let args = seq![Value::HeapId(id)];
    assert(args[0] == Value::HeapId(id));
    let m1 = m.printing(SpecPrinted::Array(items));
    assert(print_from(m1, args, 1) == done(m1, Value::Unit));
}

/// An assignment whose right side is evaluated well stores the value in the
/// slot of the name, where the stack reaches that far.
pub proof fn lemma_assign_stores(fuel: nat, m: Machine, slot: Span<usize>, e: SpecExpression)
    ensures
        ({
            let x = eval_expr(fuel, m, e);
            let r = eval_stmt(fuel, m, SpecStmt::Assign(slot, e));
            x.r is Ok && x.m.index_of(slot.data) < x.m.stack.len() ==> {
                &&& r.r == Ok::<Value, RuntimeError>(Value::Unit)
                &&& r.m.stack == x.m.stack.update(x.m.index_of(slot.data), x.value())
                &&& r.m.stack[r.m.index_of(slot.data)] == x.value()
            }
        }),
{
}


/// Whether an expression holds an assignment to the local `slot` of the
/// frame that it is evaluated in. The body of a function that is declared
/// inside does not count: it runs in a frame of its own.
pub open spec fn assigns_expr(e: SpecExpression, slot: usize) -> bool
    decreases e, 0nat,
{
    match e {
        SpecExpression::Int(_) => false,
        SpecExpression::String(_, _) => false,
        SpecExpression::Bool(_) => false,
        SpecExpression::Name(_) => false,
        SpecExpression::Add(l, r) => assigns_expr(*l, slot) || assigns_expr(*r, slot),
        SpecExpression::Sub(l, r) => assigns_expr(*l, slot) || assigns_expr(*r, slot),
        SpecExpression::Mul(l, r) => assigns_expr(*l, slot) || assigns_expr(*r, slot),
        SpecExpression::Div(l, r) => assigns_expr(*l, slot) || assigns_expr(*r, slot),
        SpecExpression::Eq(l, r) => assigns_expr(*l, slot) || assigns_expr(*r, slot),
        SpecExpression::Neq(l, r) => assigns_expr(*l, slot) || assigns_expr(*r, slot),
        SpecExpression::Call(_, args) => assigns_exprs(args, 0, slot),
        SpecExpression::If(c, t, e) => assigns_expr(*c, slot) || assigns_block(t, 0, slot) || match e {
            Some(b) => assigns_block(b, 0, slot),
            None => false,
        },
    }
}

/// [`assigns_expr`] for one of the expressions of a list from the expression
/// `i` on.
pub open spec fn assigns_exprs(es: Seq<SpecExpression>, i: nat, slot: usize) -> bool
    decreases es, es.len() - i,
{
    if i >= es.len() {
        false
    } else {
        assigns_expr(es[i as int], slot) || assigns_exprs(es, i + 1, slot)
    }
}

/// Whether a statement holds an assignment to the local `slot` of the frame
/// that it is evaluated in.
pub open spec fn assigns_stmt(s: SpecStmt, slot: usize) -> bool
    decreases s, 0nat,
{
    match s {
        SpecStmt::Expr(e) => assigns_expr(e, slot),
        SpecStmt::Let(_, e) => assigns_expr(e, slot),
        SpecStmt::Assign(a, e) => a.data == slot || assigns_expr(e, slot),
        SpecStmt::Return(e) => assigns_expr(e, slot),
        SpecStmt::While(c, b) => assigns_expr(c, slot) || assigns_block(b, 0, slot),
        SpecStmt::Block(b) => assigns_block(b, 0, slot),
        SpecStmt::Func { .. } => false,
    }
}

/// [`assigns_stmt`] for one of the statements of a list from the statement
/// `i` on.
pub open spec fn assigns_block(ss: Seq<SpecStmt>, i: nat, slot: usize) -> bool
    decreases ss, ss.len() - i,
{
    if i >= ss.len() {
        false
    } else {
        assigns_stmt(ss[i as int], slot) || assigns_block(ss, i + 1, slot)
    }
}

/// What an evaluation that started in `m` and ended well in `s` has left of
/// the local `slot`: the frame is in place and the local has its value.
pub open spec fn untouched(m: Machine, s: Machine, slot: usize) -> bool {
    &&& framed(m, s)
    &&& s.stack[m.index_of(slot)] == m.stack[m.index_of(slot)]
}

/// An expression that holds no assignment to a local leaves the local as it
/// is: neither a call nor a declaration reaches it.
pub proof fn lemma_untouched_expr(fuel: nat, m: Machine, e: SpecExpression, slot: usize)
    requires
        m.base <= m.stack.len(),
        m.index_of(slot) < m.stack.len(),
        !assigns_expr(e, slot),
    ensures
        eval_expr(fuel, m, e).r is Ok ==> untouched(m, eval_expr(fuel, m, e).m, slot),
    decreases fuel, e, 1nat,
{
    lemma_frame_expr(fuel, m, e);
    match e {
        SpecExpression::Int(_) => {},
        SpecExpression::String(_, _) => {},
        SpecExpression::Bool(_) => {},
        SpecExpression::Name(_) => {},
        SpecExpression::Add(l, r) => {
            lemma_untouched_pair(fuel, m, *l, *r, e, slot);
        },
        SpecExpression::Sub(l, r) => {
            lemma_untouched_pair(fuel, m, *l, *r, e, slot);
        },
        SpecExpression::Mul(l, r) => {
            lemma_untouched_pair(fuel, m, *l, *r, e, slot);
        },
        SpecExpression::Div(l, r) => {
            lemma_untouched_pair(fuel, m, *l, *r, e, slot);
        },
        SpecExpression::Eq(l, r) => {
            lemma_untouched_pair(fuel, m, *l, *r, e, slot);
        },
        SpecExpression::Neq(l, r) => {
            lemma_untouched_pair(fuel, m, *l, *r, e, slot);
        },
        SpecExpression::Call(name, args) => {
            lemma_untouched_args(fuel, m, args, 0, Seq::empty(), slot);
            let a = eval_args(fuel, m, args, 0, Seq::empty());
            if let Ok(values) = a.r {
                if built_ins().contains_key(name.data) {
                    lemma_print_keeps_stack(a.m, values, 0);
                } else if a.m.funcs.contains_key(name.data) {
                    if fuel > 0 {
                        lemma_frame_call((fuel - 1) as nat, a.m, a.m.funcs[name.data], values);
                    }
                } else if a.m.classes.contains_key(name.data) {
                    if fuel > 0 {
                        lemma_frame_call((fuel - 1) as nat, a.m, a.m.classes[name.data], values);
                    }
                }
            }
        },
        SpecExpression::If(c, t, e) => {
            lemma_untouched_expr(fuel, m, *c, slot);
            let x = eval_expr(fuel, m, *c);
            if x.r is Ok {
                if x.value() == Value::Bool(true) {
                    lemma_untouched_block(fuel, x.m, t, 0, Value::Unit, slot);
                } else {
                    match e {
                        Some(b) => {
                            lemma_untouched_block(fuel, x.m, b, 0, Value::Unit, slot);
                        },
                        None => {},
                    }
                }
            }
        },
    }
}

proof fn lemma_untouched_pair(
    fuel: nat,
    m: Machine,
    l: SpecExpression,
    r: SpecExpression,
    parent: SpecExpression,
    slot: usize,
)
    requires
        m.base <= m.stack.len(),
        m.index_of(slot) < m.stack.len(),
        !assigns_expr(l, slot),
        !assigns_expr(r, slot),
        decreases_to!(parent => l),
        decreases_to!(parent => r),
    ensures
        ({
            let a = eval_expr(fuel, m, l);
            let b = eval_expr(fuel, a.m, r);
            a.r is Ok && b.r is Ok ==> untouched(m, b.m, slot)
        }),
    decreases fuel, parent, 0nat,
{
    lemma_untouched_expr(fuel, m, l, slot);
    let a = eval_expr(fuel, m, l);
    if a.r is Ok {
        lemma_untouched_expr(fuel, a.m, r, slot);
    }
}

/// The arguments of a call that hold no assignment to a local leave the
/// local as it is.
pub proof fn lemma_untouched_args(
    fuel: nat,
    m: Machine,
    args: Seq<SpecExpression>,
    i: nat,
    seen: Seq<Value>,
    slot: usize,
)
    requires
        m.base <= m.stack.len(),
        m.index_of(slot) < m.stack.len(),
        !assigns_exprs(args, i, slot),
    ensures
        eval_args(fuel, m, args, i, seen).r is Ok ==> untouched(
            m,
            eval_args(fuel, m, args, i, seen).m,
            slot,
        ),
    decreases fuel, args, args.len() - i,
{
    if i < args.len() {
        lemma_untouched_expr(fuel, m, args[i as int], slot);
        let x = eval_expr(fuel, m, args[i as int]);
        if let Ok(v) = x.r {
            lemma_untouched_args(fuel, x.m, args, i + 1, seen.push(v), slot);
        }
    }
}

/// A statement that holds no assignment to a local leaves the local as it
/// is.
pub proof fn lemma_untouched_stmt(fuel: nat, m: Machine, s: SpecStmt, slot: usize)
    requires
        m.base <= m.stack.len(),
        m.index_of(slot) < m.stack.len(),
        !assigns_stmt(s, slot),
    ensures
        eval_stmt(fuel, m, s).r is Ok ==> untouched(m, eval_stmt(fuel, m, s).m, slot),
    decreases fuel, s, 1nat,
{
    match s {
        SpecStmt::Expr(e) => {
            lemma_untouched_expr(fuel, m, e, slot);
        },
        SpecStmt::Let(_, e) => {
            lemma_untouched_expr(fuel, m, e, slot);
        },
        SpecStmt::Assign(_, e) => {
            lemma_untouched_expr(fuel, m, e, slot);
        },
        SpecStmt::Return(e) => {
            lemma_untouched_expr(fuel, m, e, slot);
        },
        SpecStmt::While(_, _) => {
            lemma_untouched_while(fuel, m, s, Value::Unit, slot);
        },
        SpecStmt::Block(b) => {
            lemma_untouched_block(fuel, m, b, 0, Value::Unit, slot);
        },
        SpecStmt::Func { .. } => {},
    }
}

/// A loop that holds no assignment to a local leaves the local as it is.
pub proof fn lemma_untouched_while(fuel: nat, m: Machine, s: SpecStmt, last: Value, slot: usize)
    requires
        m.base <= m.stack.len(),
        m.index_of(slot) < m.stack.len(),
        !assigns_stmt(s, slot),
    ensures
        eval_while(fuel, m, s, last).r is Ok ==> untouched(m, eval_while(fuel, m, s, last).m, slot),
    decreases fuel, s, 0nat,
{
    match s {
        SpecStmt::While(cond, body) => {
            lemma_untouched_expr(fuel, m, cond, slot);
            let c = eval_expr(fuel, m, cond);
            if c.r is Ok && c.value() == Value::Bool(true) && fuel > 0 {
                lemma_untouched_block((fuel - 1) as nat, c.m, body, 0, Value::Unit, slot);
                let b = eval_block((fuel - 1) as nat, c.m, body, 0, Value::Unit);
                if b.r is Ok {
                    lemma_untouched_while((fuel - 1) as nat, b.m, s, b.value(), slot);
                }
            }
        },
        _ => {},
    }
}

/// A block that holds no assignment to a local leaves the local as it is.
pub proof fn lemma_untouched_block(
    fuel: nat,
    m: Machine,
    ss: Seq<SpecStmt>,
    i: nat,
    last: Value,
    slot: usize,
)
    requires
        m.base <= m.stack.len(),
        m.index_of(slot) < m.stack.len(),
        !assigns_block(ss, i, slot),
    ensures
        eval_block(fuel, m, ss, i, last).r is Ok ==> untouched(
            m,
            eval_block(fuel, m, ss, i, last).m,
            slot,
        ),
    decreases fuel, ss, ss.len() - i,
{
    if i < ss.len() {
        lemma_untouched_stmt(fuel, m, ss[i as int], slot);
        let x = eval_stmt(fuel, m, ss[i as int]);
        if x.r is Ok {
            lemma_untouched_block(fuel, x.m, ss, i + 1, x.value(), slot);
        }
    }
}


/// How many rounds of the `while` loop `s` are run to their end.
pub open spec fn while_rounds(fuel: nat, m: Machine, s: SpecStmt) -> nat
    decreases fuel,
{
    match s {
        SpecStmt::While(cond, body) => {
            let c = eval_expr(fuel, m, cond);
            if c.r is Err || c.value() != Value::Bool(true) || fuel == 0 {
                0
            } else {
                let b = eval_block((fuel - 1) as nat, c.m, body, 0, Value::Unit);
                if b.r is Err {
                    0
                } else {
                    1 + while_rounds((fuel - 1) as nat, b.m, s)
                }
            }
        },
        _ => 0,
    }
}

/// The statement that ends each round of a counting loop: one is added to
/// the counter.
pub open spec fn count_up(slot: Span<usize>) -> SpecStmt {
    SpecStmt::Assign(
        slot,
        SpecExpression::Add(
            Box::new(SpecExpression::Name(slot)),
            Box::new(SpecExpression::Int(Span { data: 1i64, range: slot.range })),
        ),
    )
}

/// The loop that a `for` loop with the counter in `slot` and the end `to`
/// becomes: it runs while the counter differs from `to`, and each round runs
/// the body and then adds one to the counter.
pub open spec fn counting_loop(slot: Span<usize>, to: Span<i64>, body: Seq<SpecStmt>) -> SpecStmt {
    SpecStmt::While(
        SpecExpression::Neq(
            Box::new(SpecExpression::Name(slot)),
            Box::new(SpecExpression::Int(to)),
        ),
        body.push(count_up(slot)),
    )
}

/// A block with one more statement at its end is the block, and then the
/// statement.
pub proof fn lemma_block_push(
    fuel: nat,
    m: Machine,
    ss: Seq<SpecStmt>,
    s: SpecStmt,
    i: nat,
    last: Value,
)
    requires
        i <= ss.len(),
    ensures
        ({
            let b = eval_block(fuel, m, ss, i, last);
            let x = eval_stmt(fuel, b.m, s);
            eval_block(fuel, m, ss.push(s), i, last) == if b.r is Err {
                b
            } else {
                x
            }
        }),
    decreases ss.len() - i,
{
    let all = ss.push(s);
    if i < ss.len() {
        assert(all[i as int] == ss[i as int]);
        let x = eval_stmt(fuel, m, ss[i as int]);
        if x.r is Ok {
            lemma_block_push(fuel, x.m, ss, s, i + 1, x.value());
        }
    } else {
        assert(all[i as int] == s);
        let x = eval_stmt(fuel, m, s);
        if x.r is Ok {
            assert(eval_block(fuel, x.m, all, i + 1, x.value()) == done(x.m, x.value()));
        }
    }
}

/// A counting loop whose counter is `from` at the start, with `from` no
/// larger than the end `to`, and whose body holds no assignment to the
/// counter: where the loop ends well, it has run exactly `to - from` rounds
/// (none where the two are equal), the counter is `to`, and the frame is in
/// place.
pub proof fn lemma_counting_loop(
    fuel: nat,
    m: Machine,
    slot: Span<usize>,
    from: i64,
    to: Span<i64>,
    body: Seq<SpecStmt>,
    last: Value,
)
    requires
        from <= to.data,
        m.base <= m.stack.len(),
        m.index_of(slot.data) < m.stack.len(),
        m.stack[m.index_of(slot.data)] == Value::Int(from),
        !assigns_block(body, 0, slot.data),
    ensures
        ({
            let s = counting_loop(slot, to, body);
            let r = eval_while(fuel, m, s, last);
            r.r is Ok ==> {
                &&& while_rounds(fuel, m, s) == to.data - from
                &&& r.m.stack[m.index_of(slot.data)] == Value::Int(to.data)
                &&& framed(m, r.m)
            }
        }),
    decreases to.data - from,
{
    let s = counting_loop(slot, to, body);
    let at = m.index_of(slot.data);
    let cond = SpecExpression::Neq(
        Box::new(SpecExpression::Name(slot)),
        Box::new(SpecExpression::Int(to)),
    );
    let counter = eval_expr(fuel, m, SpecExpression::Name(slot));
    assert(counter == done(m, Value::Int(from)));
    let end = eval_expr(fuel, m, SpecExpression::Int(to));
    assert(end == done(m, Value::Int(to.data)));
    let c = eval_expr(fuel, m, cond);
    assert(c == done(m, Value::Bool(from != to.data)));
    if from != to.data && fuel > 0 {
        let f = (fuel - 1) as nat;
        let rounds = body.push(count_up(slot));
        lemma_block_push(f, m, body, count_up(slot), 0, Value::Unit);
        let b = eval_block(f, m, body, 0, Value::Unit);
        if b.r is Ok {
            lemma_untouched_block(f, m, body, 0, Value::Unit, slot.data);
            let name = eval_expr(f, b.m, SpecExpression::Name(slot));
            assert(name == done(b.m, Value::Int(from)));
            let one = eval_expr(
                f,
                b.m,
                SpecExpression::Int(Span { data: 1i64, range: slot.range }),
            );
            assert(one == done(b.m, Value::Int(1)));
            let sum = eval_expr(
                f,
                b.m,
                SpecExpression::Add(
                    Box::new(SpecExpression::Name(slot)),
                    Box::new(SpecExpression::Int(Span { data: 1i64, range: slot.range })),
                ),
            );
            assert(sum == done(b.m, Value::Int((from + 1) as i64)));
            let x = eval_stmt(f, b.m, count_up(slot));
            let m2 = b.m.with_stack(b.m.stack.update(at, Value::Int((from + 1) as i64)));
            assert(x == done(m2, Value::Unit));
            assert(eval_block(f, m, rounds, 0, Value::Unit) == x);
            lemma_counting_loop(f, m2, slot, (from + 1) as i64, to, body, Value::Unit);
            let r2 = eval_while(f, m2, s, Value::Unit);
            assert(eval_while(fuel, m, s, last) == r2);
            assert(while_rounds(fuel, m, s) == 1 + while_rounds(f, m2, s));
            if r2.r is Ok {
                assert(framed(m, r2.m)) by {
                    assert forall|j: int| 0 <= j < m.base implies r2.m.stack[j] == m.stack[j] by {
                        assert(m2.stack[j] == b.m.stack[j]);
                    }
                }
            }
        }
    }
}


/// Whether an evaluation ended for want of fuel.
pub open spec fn starved(r: Result<Value, RuntimeError>) -> bool {
    r == Err::<Value, RuntimeError>(RuntimeError::StepLimit)
}

/// The fuel does not show: an expression whose evaluation does not end for
/// want of fuel is evaluated in the same way with any larger fuel.
pub proof fn lemma_fuel_expr(fuel: nat, more: nat, m: Machine, e: SpecExpression)
    requires
        fuel <= more,
        !starved(eval_expr(fuel, m, e).r),
    ensures
        eval_expr(more, m, e) == eval_expr(fuel, m, e),
    decreases fuel, e, 1nat,
{
    match e {
        SpecExpression::Int(_) => {},
        SpecExpression::String(_, _) => {},
        SpecExpression::Bool(_) => {},
        SpecExpression::Name(_) => {},
        SpecExpression::Add(l, r) => {
            lemma_fuel_pair(fuel, more, m, *l, *r, e);
        },
        SpecExpression::Sub(l, r) => {
            lemma_fuel_pair(fuel, more, m, *l, *r, e);
        },
        SpecExpression::Mul(l, r) => {
            lemma_fuel_pair(fuel, more, m, *l, *r, e);
        },
        SpecExpression::Div(l, r) => {
            lemma_fuel_pair(fuel, more, m, *l, *r, e);
        },
        SpecExpression::Eq(l, r) => {
            lemma_fuel_pair(fuel, more, m, *l, *r, e);
        },
        SpecExpression::Neq(l, r) => {
            lemma_fuel_pair(fuel, more, m, *l, *r, e);
        },
        SpecExpression::Call(name, args) => {
            lemma_fuel_args(fuel, more, m, args, 0, Seq::empty());
            let a = eval_args(fuel, m, args, 0, Seq::empty());
            if let Ok(values) = a.r {
                if built_ins().contains_key(name.data) {
                } else if a.m.funcs.contains_key(name.data) {
                    let callee = a.m.funcs[name.data];
                    lemma_fuel_block(
                        (fuel - 1) as nat,
                        (more - 1) as nat,
                        a.m.enter(callee, values),
                        callee.block,
                        0,
                        Value::Unit,
                    );
                } else if a.m.classes.contains_key(name.data) {
                    let callee = a.m.classes[name.data];
                    lemma_fuel_block(
                        (fuel - 1) as nat,
                        (more - 1) as nat,
                        a.m.enter(callee, values),
                        callee.block,
                        0,
                        Value::Unit,
                    );
                }
            }
        },
        SpecExpression::If(c, t, e) => {
            lemma_fuel_expr(fuel, more, m, *c);
            let x = eval_expr(fuel, m, *c);
            if x.r is Ok {
                if x.value() == Value::Bool(true) {
                    lemma_fuel_block(fuel, more, x.m, t, 0, Value::Unit);
                } else {
                    match e {
                        Some(b) => {
                            lemma_fuel_block(fuel, more, x.m, b, 0, Value::Unit);
                        },
                        None => {},
                    }
                }
            }
        },
    }
}

proof fn lemma_fuel_pair(
    fuel: nat,
    more: nat,
    m: Machine,
    l: SpecExpression,
    r: SpecExpression,
    parent: SpecExpression,
)
    requires
        fuel <= more,
        decreases_to!(parent => l),
        decreases_to!(parent => r),
        ({
            let a = eval_expr(fuel, m, l);
            let b = eval_expr(fuel, a.m, r);
            !starved(a.r) && (a.r is Ok ==> !starved(b.r))
        }),
    ensures
        ({
            let a = eval_expr(fuel, m, l);
            let b = eval_expr(fuel, a.m, r);
            eval_expr(more, m, l) == a && (a.r is Ok ==> eval_expr(more, a.m, r) == b)
        }),
    decreases fuel, parent, 0nat,
{
    lemma_fuel_expr(fuel, more, m, l);
    let a = eval_expr(fuel, m, l);
    if a.r is Ok {
        lemma_fuel_expr(fuel, more, a.m, r);
    }
}

/// The fuel does not show in the evaluation of the arguments of a call.
pub proof fn lemma_fuel_args(
    fuel: nat,
    more: nat,
    m: Machine,
    args: Seq<SpecExpression>,
    i: nat,
    seen: Seq<Value>,
)
    requires
        fuel <= more,
        eval_args(fuel, m, args, i, seen).r != Err::<Seq<Value>, RuntimeError>(
            RuntimeError::StepLimit,
        ),
    ensures
        eval_args(more, m, args, i, seen) == eval_args(fuel, m, args, i, seen),
    decreases fuel, args, args.len() - i,
{
    if i < args.len() {
        lemma_fuel_expr(fuel, more, m, args[i as int]);
        let x = eval_expr(fuel, m, args[i as int]);
        if let Ok(v) = x.r {
            lemma_fuel_args(fuel, more, x.m, args, i + 1, seen.push(v));
        }
    }
}

/// The fuel does not show in the evaluation of a statement.
pub proof fn lemma_fuel_stmt(fuel: nat, more: nat, m: Machine, s: SpecStmt)
    requires
        fuel <= more,
        !starved(eval_stmt(fuel, m, s).r),
    ensures
        eval_stmt(more, m, s) == eval_stmt(fuel, m, s),
    decreases fuel, s, 1nat,
{
    match s {
        SpecStmt::Expr(e) => {
            lemma_fuel_expr(fuel, more, m, e);
        },
        SpecStmt::Let(_, e) => {
            lemma_fuel_expr(fuel, more, m, e);
        },
        SpecStmt::Assign(_, e) => {
            lemma_fuel_expr(fuel, more, m, e);
        },
        SpecStmt::Return(e) => {
            lemma_fuel_expr(fuel, more, m, e);
        },
        SpecStmt::While(_, _) => {
            lemma_fuel_while(fuel, more, m, s, Value::Unit);
        },
        SpecStmt::Block(b) => {
            lemma_fuel_block(fuel, more, m, b, 0, Value::Unit);
        },
        SpecStmt::Func { .. } => {},
    }
}

/// The fuel does not show in the evaluation of a loop.
pub proof fn lemma_fuel_while(fuel: nat, more: nat, m: Machine, s: SpecStmt, last: Value)
    requires
        fuel <= more,
        !starved(eval_while(fuel, m, s, last).r),
    ensures
        eval_while(more, m, s, last) == eval_while(fuel, m, s, last),
    decreases fuel, s, 0nat,
{
    match s {
        SpecStmt::While(cond, body) => {
            lemma_fuel_expr(fuel, more, m, cond);
            let c = eval_expr(fuel, m, cond);
            if c.r is Ok && c.value() == Value::Bool(true) {
                lemma_fuel_block(
                    (fuel - 1) as nat,
                    (more - 1) as nat,
                    c.m,
                    body,
                    0,
                    Value::Unit,
                );
                let b = eval_block((fuel - 1) as nat, c.m, body, 0, Value::Unit);
                if b.r is Ok {
                    lemma_fuel_while((fuel - 1) as nat, (more - 1) as nat, b.m, s, b.value());
                }
            }
        },
        _ => {},
    }
}

/// The fuel does not show in the evaluation of a block.
pub proof fn lemma_fuel_block(
    fuel: nat,
    more: nat,
    m: Machine,
    ss: Seq<SpecStmt>,
    i: nat,
    last: Value,
)
    requires
        fuel <= more,
        !starved(eval_block(fuel, m, ss, i, last).r),
    ensures
        eval_block(more, m, ss, i, last) == eval_block(fuel, m, ss, i, last),
    decreases fuel, ss, ss.len() - i,
{
    if i < ss.len() {
        lemma_fuel_stmt(fuel, more, m, ss[i as int]);
        let x = eval_stmt(fuel, m, ss[i as int]);
        if x.r is Ok {
            lemma_fuel_block(fuel, more, x.m, ss, i + 1, x.value());
        }
    }
}


/// The fuel does not show in a run: a run that does not end for want of
/// fuel gives the same with any larger fuel.
pub proof fn lemma_fuel_run(
    items: Seq<ast::SpecTopItem>,
    top: Option<Seq<char>>,
    fuel: nat,
    more: nat,
)
    requires
        fuel <= more,
        run_model(items, top, fuel).result != Err::<Value, SpecRunError>(
            SpecRunError::Runtime(RuntimeError::StepLimit),
        ),
    ensures
        run_model(items, top, more) == run_model(items, top, fuel),
{
    match resolve_classes(0, lower_items(items), 0, Seq::empty()) {
        Ok(classes) => match entry_body(classes, top) {
            Some(body) => {
                lemma_fuel_block(fuel, more, initial(classes), body, 0, Value::Unit);
            },
            None => {},
        },
        Err(_) => {},
    }
}

/// A run starts with nothing on the stack, nothing on the heap, nothing
/// printed and no function declared, whatever ran before.
pub proof fn lemma_fresh_start(classes: Seq<SpecClass>)
    ensures
        initial(classes).stack.len() == 0,
        initial(classes).base == 0,
        initial(classes).heap.dom() =~= Set::<usize>::empty(),
        initial(classes).funcs.dom() =~= Set::<Seq<char>>::empty(),
        initial(classes).output.len() == 0,
        initial(classes).wf(),
{
}


/// What a `for` loop from the whole number `from` to the whole number `to`
/// is lowered to: the declaration of the counter, and the counting loop.
pub open spec fn counted_for(
    slot: Span<usize>,
    from: Span<i64>,
    to: Span<i64>,
    body: Seq<SpecStmt>,
) -> SpecStmt {
    SpecStmt::Block(
        seq![SpecStmt::Let(slot, SpecExpression::Int(from)), counting_loop(slot, to, body)],
    )
}

/// A `for` loop from `from` to `to`, with `from` no larger than `to`, whose
/// counter gets the next place on the stack and whose body holds no
/// assignment to the counter: where the loop ends well, it has run exactly
/// `to - from` rounds, none where the two are equal, and has left the frame
/// in place.
pub proof fn lemma_for_runs_to_minus_from(
    fuel: nat,
    m: Machine,
    slot: Span<usize>,
    from: Span<i64>,
    to: Span<i64>,
    body: Seq<SpecStmt>,
)
    requires
        from.data <= to.data,
        m.base <= m.stack.len(),
        m.index_of(slot.data) == m.stack.len(),
        !assigns_block(body, 0, slot.data),
    ensures
        ({
            let declared = m.with_stack(m.stack.push(Value::Int(from.data)));
            let r = eval_stmt(fuel, m, counted_for(slot, from, to, body));
            r.r is Ok ==> {
                &&& while_rounds(fuel, declared, counting_loop(slot, to, body)) == to.data
                    - from.data
                &&& r.m.stack[m.index_of(slot.data)] == Value::Int(to.data)
                &&& framed(m, r.m)
            }
        }),
{
    let first = SpecStmt::Let(slot, SpecExpression::Int(from));
    let second = counting_loop(slot, to, body);
    let two = seq![first, second];
    let declared = m.with_stack(m.stack.push(Value::Int(from.data)));
    assert(two[0] == first && two[1] == second);
    assert(eval_expr(fuel, m, SpecExpression::Int(from)) == done(m, Value::Int(from.data)));
    assert(eval_stmt(fuel, m, first) == done(declared, Value::Unit));
    lemma_counting_loop(fuel, declared, slot, from.data, to, body, Value::Unit);
    let w = eval_while(fuel, declared, second, Value::Unit);
    assert(eval_stmt(fuel, declared, second) == w);
    assert(eval_block(fuel, m, two, 0, Value::Unit) == eval_block(
        fuel,
        declared,
        two,
        1,
        Value::Unit,
    ));
    if w.r is Ok {
        assert(eval_block(fuel, declared, two, 1, Value::Unit) == eval_block(
            fuel,
            w.m,
            two,
            2,
            w.value(),
        ));
        assert(framed(m, w.m)) by {
            assert forall|j: int| 0 <= j < m.base implies w.m.stack[j] == m.stack[j] by {
                assert(declared.stack[j] == m.stack[j]);
            }
        }
    }
}


/// The fuel does not show in a run from the source text: where neither the
/// reading nor the run ends for want of fuel, any larger fuel gives the
/// same.
pub proof fn lemma_fuel_source(text: Seq<char>, top: Option<Seq<char>>, fuel: nat, more: nat)
    requires
        fuel <= more,
        run_source_model(text, top, fuel).result != Err::<Value, SpecRunError>(
            SpecRunError::Parse(ParseError::TooDeep),
        ),
        run_source_model(text, top, fuel).result != Err::<Value, SpecRunError>(
            SpecRunError::Runtime(RuntimeError::StepLimit),
        ),
    ensures
        run_source_model(text, top, more) == run_source_model(text, top, fuel),
{
    grammar::lemma_file_matches(fuel, text);
    grammar::lemma_fuel_file(fuel, more, text);
    match parse_model(text, fuel) {
        Ok(items) => {
            lemma_fuel_run(items, top, fuel, more);
        },
        Err(_) => {},
    }
}


/// The ids from `floor` on are free for arrays: the machine is in order, its
/// next id is no smaller than `floor`, and every string literal of every
/// function and class that it knows has an id below `floor`.
pub open spec fn above_literals(m: Machine, floor: usize) -> bool {
    &&& m.wf()
    &&& floor <= m.next_id
    &&& forall|n: Seq<char>| #[trigger]
        m.funcs.contains_key(n) ==> ids_block(m.funcs[n].block, 0) <= floor
    &&& forall|n: Seq<char>| #[trigger]
        m.classes.contains_key(n) ==> ids_block(m.classes[n].block, 0) <= floor
}

/// What the heap held from `floor` on in `m`, it holds unchanged in `s`.
pub open spec fn settled(m: Machine, s: Machine, floor: usize) -> bool {
    forall|k: usize|
        #![trigger m.heap.contains_key(k)]
        floor <= k && m.heap.contains_key(k) ==> s.heap.contains_key(k) && s.heap[k] == m.heap[k]
}

/// An array, once stored, is never written over: an expression whose string
/// literals have ids below `floor` leaves every heap entry from `floor` on
/// as it is, and the ids from `floor` on stay free for arrays.
pub proof fn lemma_settled_expr(fuel: nat, m: Machine, e: SpecExpression, floor: usize)
    requires
        above_literals(m, floor),
        ids_expr(e) <= floor,
    ensures
        above_literals(eval_expr(fuel, m, e).m, floor),
        settled(m, eval_expr(fuel, m, e).m, floor),
    decreases fuel, e, 1nat,
{
    match e {
        SpecExpression::Int(_) => {},
        SpecExpression::String(id, s) => {
            if id != usize::MAX {
                lemma_storing_keeps(m, id, SpecHeapValue::String(s.data));
            }
        },
        SpecExpression::Bool(_) => {},
        SpecExpression::Name(_) => {},
        SpecExpression::Add(l, r) => {
            lemma_settled_pair(fuel, m, *l, *r, e, floor);
        },
        SpecExpression::Sub(l, r) => {
            lemma_settled_pair(fuel, m, *l, *r, e, floor);
        },
        SpecExpression::Mul(l, r) => {
            lemma_settled_pair(fuel, m, *l, *r, e, floor);
        },
        SpecExpression::Div(l, r) => {
            lemma_settled_pair(fuel, m, *l, *r, e, floor);
        },
        SpecExpression::Eq(l, r) => {
            lemma_settled_pair(fuel, m, *l, *r, e, floor);
        },
        SpecExpression::Neq(l, r) => {
            lemma_settled_pair(fuel, m, *l, *r, e, floor);
        },
        SpecExpression::Call(name, args) => {
            lemma_settled_args(fuel, m, args, 0, Seq::empty(), floor);
            let a = eval_args(fuel, m, args, 0, Seq::empty());
            if let Ok(values) = a.r {
                if built_ins().contains_key(name.data) {
                    lemma_print_keeps(a.m, values, 0);
                    if a.m.next_id != usize::MAX {
                        lemma_storing_keeps(a.m, a.m.next_id, SpecHeapValue::Vec(values));
                    }
                } else if a.m.funcs.contains_key(name.data) {
                    if fuel > 0 {
                        lemma_settled_call((fuel - 1) as nat, a.m, a.m.funcs[name.data], values, floor);
                    }
                } else if a.m.classes.contains_key(name.data) {
                    if fuel > 0 {
                        lemma_settled_call(
                            (fuel - 1) as nat,
                            a.m,
                            a.m.classes[name.data],
                            values,
                            floor,
                        );
                    }
                }
            }
        },
        SpecExpression::If(c, t, e) => {
            lemma_settled_expr(fuel, m, *c, floor);
            let x = eval_expr(fuel, m, *c);
            if x.r is Ok {
                if x.value() == Value::Bool(true) {
                    lemma_settled_block(fuel, x.m, t, 0, Value::Unit, floor);
                } else {
                    match e {
                        Some(b) => {
                            lemma_settled_block(fuel, x.m, b, 0, Value::Unit, floor);
                        },
                        None => {},
                    }
                }
            }
        },
    }
}

proof fn lemma_settled_pair(
    fuel: nat,
    m: Machine,
    l: SpecExpression,
    r: SpecExpression,
    parent: SpecExpression,
    floor: usize,
)
    requires
        above_literals(m, floor),
        decreases_to!(parent => l),
        decreases_to!(parent => r),
        ids_expr(l) <= floor,
        ids_expr(r) <= floor,
    ensures
        ({
            let a = eval_expr(fuel, m, l);
            let b = eval_expr(fuel, a.m, r);
            &&& above_literals(a.m, floor)
            &&& settled(m, a.m, floor)
            &&& above_literals(b.m, floor)
            &&& settled(m, b.m, floor)
        }),
    decreases fuel, parent, 0nat,
{
    lemma_settled_expr(fuel, m, l, floor);
    lemma_settled_expr(fuel, eval_expr(fuel, m, l).m, r, floor);
}

/// A call leaves every heap entry from `floor` on as it is.
pub proof fn lemma_settled_call(
    fuel: nat,
    m: Machine,
    callee: SpecCallee,
    values: Seq<Value>,
    floor: usize,
)
    requires
        above_literals(m, floor),
        ids_block(callee.block, 0) <= floor,
    ensures
        ({
            let b = eval_block(fuel, m.enter(callee, values), callee.block, 0, Value::Unit);
            &&& above_literals(b.m, floor)
            &&& settled(m, b.m, floor)
            &&& above_literals(m.leave(b.m), floor)
            &&& settled(m, m.leave(b.m), floor)
        }),
    decreases fuel, callee.block, callee.block.len() + 1,
{
    let inner = m.enter(callee, values);
    assert(inner.heap == m.heap && inner.funcs == m.funcs && inner.classes == m.classes);
    assert(above_literals(inner, floor));
    lemma_settled_block(fuel, inner, callee.block, 0, Value::Unit, floor);
    let b = eval_block(fuel, inner, callee.block, 0, Value::Unit);
    let after = m.leave(b.m);
    assert(after.heap == b.m.heap && after.funcs == b.m.funcs && after.classes == b.m.classes);
    assert(settled(m, b.m, floor)) by {
        assert forall|k: usize| floor <= k && #[trigger] m.heap.contains_key(k) implies b.m.heap.contains_key(
            k,
        ) && b.m.heap[k] == m.heap[k] by {
            assert(inner.heap.contains_key(k));
        }
    }
}

/// The arguments of a call leave every heap entry from `floor` on as it is.
pub proof fn lemma_settled_args(
    fuel: nat,
    m: Machine,
    args: Seq<SpecExpression>,
    i: nat,
    seen: Seq<Value>,
    floor: usize,
)
    requires
        above_literals(m, floor),
        ids_exprs(args, i) <= floor,
    ensures
        above_literals(eval_args(fuel, m, args, i, seen).m, floor),
        settled(m, eval_args(fuel, m, args, i, seen).m, floor),
    decreases fuel, args, args.len() - i,
{
    if i < args.len() {
        lemma_settled_expr(fuel, m, args[i as int], floor);
        let x = eval_expr(fuel, m, args[i as int]);
        if let Ok(v) = x.r {
            lemma_settled_args(fuel, x.m, args, i + 1, seen.push(v), floor);
        }
    }
}

/// A statement whose string literals have ids below `floor` leaves every
/// heap entry from `floor` on as it is.
pub proof fn lemma_settled_stmt(fuel: nat, m: Machine, s: SpecStmt, floor: usize)
    requires
        above_literals(m, floor),
        ids_stmt(s) <= floor,
    ensures
        above_literals(eval_stmt(fuel, m, s).m, floor),
        settled(m, eval_stmt(fuel, m, s).m, floor),
    decreases fuel, s, 1nat,
{
    match s {
        SpecStmt::Expr(e) => {
            lemma_settled_expr(fuel, m, e, floor);
        },
        SpecStmt::Let(_, e) => {
            lemma_settled_expr(fuel, m, e, floor);
        },
        SpecStmt::Assign(_, e) => {
            lemma_settled_expr(fuel, m, e, floor);
        },
        SpecStmt::Return(e) => {
            lemma_settled_expr(fuel, m, e, floor);
        },
        SpecStmt::While(_, _) => {
            lemma_settled_while(fuel, m, s, Value::Unit, floor);
        },
        SpecStmt::Block(b) => {
            lemma_settled_block(fuel, m, b, 0, Value::Unit, floor);
        },
        SpecStmt::Func { name, params, return_type, block } => {
            let r = eval_stmt(fuel, m, s).m;
            assert forall|n: Seq<char>| #[trigger] r.funcs.contains_key(n) implies ids_block(
                r.funcs[n].block,
                0,
            ) <= floor by {
                if n != name.data {
                    assert(m.funcs.contains_key(n));
                }
            }
        },
    }
}

/// A loop leaves every heap entry from `floor` on as it is.
pub proof fn lemma_settled_while(fuel: nat, m: Machine, s: SpecStmt, last: Value, floor: usize)
    requires
        above_literals(m, floor),
        ids_stmt(s) <= floor,
    ensures
        above_literals(eval_while(fuel, m, s, last).m, floor),
        settled(m, eval_while(fuel, m, s, last).m, floor),
    decreases fuel, s, 0nat,
{
    match s {
        SpecStmt::While(cond, body) => {
            lemma_settled_expr(fuel, m, cond, floor);
            let c = eval_expr(fuel, m, cond);
            if c.r is Ok && c.value() == Value::Bool(true) && fuel > 0 {
                lemma_settled_block((fuel - 1) as nat, c.m, body, 0, Value::Unit, floor);
                let b = eval_block((fuel - 1) as nat, c.m, body, 0, Value::Unit);
                if b.r is Ok {
                    lemma_settled_while((fuel - 1) as nat, b.m, s, b.value(), floor);
                }
            }
        },
        _ => {},
    }
}

/// A block leaves every heap entry from `floor` on as it is.
pub proof fn lemma_settled_block(
    fuel: nat,
    m: Machine,
    ss: Seq<SpecStmt>,
    i: nat,
    last: Value,
    floor: usize,
)
    requires
        above_literals(m, floor),
        ids_block(ss, i) <= floor,
    ensures
        above_literals(eval_block(fuel, m, ss, i, last).m, floor),
        settled(m, eval_block(fuel, m, ss, i, last).m, floor),
    decreases fuel, ss, ss.len() - i,
{
    if i < ss.len() {
        lemma_settled_stmt(fuel, m, ss[i as int], floor);
        let x = eval_stmt(fuel, m, ss[i as int]);
        if x.r is Ok {
            lemma_settled_block(fuel, x.m, ss, i + 1, x.value(), floor);
        }
    }
}

/// The string literals of every class lie below the first free id.
pub proof fn lemma_classes_below(cs: Seq<SpecClass>, i: nat, j: int)
    requires
        i <= j < cs.len(),
    ensures
        ids_block(cs[j].block, 0) <= ids_classes(cs, i),
    decreases cs.len() - i,
{
    if i < j {
        lemma_classes_below(cs, i + 1, j);
    }
}

/// Every entry of the table of classes is one of the classes.
pub proof fn lemma_class_table(cs: Seq<SpecClass>, n: Seq<char>)
    requires
        class_table(cs).contains_key(n),
    ensures
        exists|j: int| 0 <= j < cs.len() && class_table(cs)[n].block == (#[trigger] cs[j]).block,
    decreases cs.len(),
{
    if cs.len() > 0 {
        let last = cs.last();
        if n == last.name.data {
            assert(class_table(cs)[n].block == cs[cs.len() - 1].block);
        } else {
            lemma_class_table(cs.drop_last(), n);
            let j = choose|j: int|
                0 <= j < cs.drop_last().len() && class_table(cs.drop_last())[n].block == (
                #[trigger] cs.drop_last()[j]).block;
            assert(cs[j] == cs.drop_last()[j]);
        }
    }
}

/// A fresh machine keeps the ids of the string literals of its classes
/// apart from those that it gives to arrays.
pub proof fn lemma_fresh_is_above(cs: Seq<SpecClass>)
    ensures
        above_literals(initial(cs), ids_classes(cs, 0)),
{
    let m = initial(cs);
    assert forall|n: Seq<char>| #[trigger] m.classes.contains_key(n) implies ids_block(
        m.classes[n].block,
        0,
    ) <= ids_classes(cs, 0) by {
        lemma_class_table(cs, n);
        let j = choose|j: int|
            0 <= j < cs.len() && class_table(cs)[n].block == (#[trigger] cs[j]).block;
        lemma_classes_below(cs, 0, j);
    }
}


/// The body of a class, run as a script on a fresh machine, never writes
/// over an array: the ids of the arrays lie above those of all the string
/// literals of the classes.
pub proof fn lemma_script_keeps_arrays(cs: Seq<SpecClass>, j: int, fuel: nat)
    requires
        0 <= j < cs.len(),
    ensures
        above_literals(
            eval_block(fuel, initial(cs), cs[j].block, 0, Value::Unit).m,
            ids_classes(cs, 0),
        ),
{
    lemma_fresh_is_above(cs);
    lemma_classes_below(cs, 0, j);
    lemma_settled_block(fuel, initial(cs), cs[j].block, 0, Value::Unit, ids_classes(cs, 0));
}

} // verus!
