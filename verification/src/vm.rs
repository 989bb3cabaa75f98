//! The virtual machine: it evaluates the slot-resolved tree directly, with one
//! value stack shared by all active calls and a heap for arrays and strings.
//!
//! The locals of the running call start at the frame base; a local is found
//! at the base plus its slot. A call records the stack length as the new
//! base, pushes the argument values above it, runs the body, cuts the stack
//! back and restores the base of the caller.
//!
//! A block has the value of its last statement. `return` gives the value of
//! its expression where it stands and leaves nothing early. A function is
//! known from the moment its declaration is run. The arguments of a call are
//! evaluated once, from left to right, before the callee is looked for:
//! first among the built-in functions, then among the functions declared so
//! far, then among the classes and objects.
//!
//! The ids that the machine gives to arrays begin above those of all the
//! string literals of its classes, and go up by one with every array.
//!
//! Whatever goes wrong while a program runs ends the run with a
//! [`RuntimeError`]. Evaluation is bounded by a fuel: it limits how deep calls
//! may nest and how often one loop may go round, so that every run ends.
use vstd::prelude::*;
use vstd::string::*;
use vstd::hash_map::StringHashMap;
use std::collections::HashMap;
use crate::built_in::{bi_print, bi_array};
use crate::mir::{
    Expression, Stmt, Class, SpecExpression, SpecStmt, SpecClass, stmts_view, exprs_view,
    classes_view, ids_classes, first_free_id,
};

verus! {

/// What an expression evaluates to. Arrays and strings live on the heap and
/// are handed around by their id.
#[derive(Clone, Copy, Debug, PartialEq, Eq, Structural)]
pub enum Value {
    Int(i64),
    Bool(bool),
    HeapId(usize),
    Unit,
}

/// What the heap holds under one id.
#[derive(Debug, Clone)]
pub enum HeapValue {
    Vec(Vec<Value>),
    String(String),
}

/// The mathematical value of a [`HeapValue`].
pub enum SpecHeapValue {
    Vec(Seq<Value>),
    String(Seq<char>),
}

impl HeapValue {
    /// The mathematical value.
    pub open spec fn view(&self) -> SpecHeapValue {
        match self {
            HeapValue::Vec(v) => SpecHeapValue::Vec(v@),
            HeapValue::String(s) => SpecHeapValue::String(s@),
        }
    }
}

/// Why a run was aborted.
#[derive(Clone, Copy, Debug, PartialEq, Eq, Structural)]
pub enum RuntimeError {
    /// Arithmetic on something that is no integer, or a comparison of two
    /// values of different kinds.
    TypeMismatch,
    /// A call of a name that is no built-in, no function and no class.
    UnknownCallee,
    /// A local was read or assigned whose slot lies above the stack.
    MissingSlot,
    /// A heap id was printed that the heap does not hold.
    DanglingHeapId,
    /// The result of an arithmetic operation does not fit 64 bits.
    Overflow,
    DivisionByZero,
    /// A loop went round, or calls nested, more often than the fuel allows.
    StepLimit,
    /// No heap id is left.
    HeapFull,
}

impl RuntimeError {
    /// The error in words.
    pub open spec fn text(self) -> Seq<char> {
        match self {
            RuntimeError::TypeMismatch => "type mismatch"@,
            RuntimeError::UnknownCallee => "unknown callee"@,
            RuntimeError::MissingSlot => "missing slot"@,
            RuntimeError::DanglingHeapId => "dangling heap id"@,
            RuntimeError::Overflow => "arithmetic overflow"@,
            RuntimeError::DivisionByZero => "division by zero"@,
            RuntimeError::StepLimit => "out of fuel"@,
            RuntimeError::HeapFull => "heap full"@,
        }
    }

    /// The error in words.
    pub fn message(&self) -> (r: String)
        ensures
            r@ == self.text(),
    {
        match self {
            RuntimeError::TypeMismatch => String::from_str("type mismatch"),
            RuntimeError::UnknownCallee => String::from_str("unknown callee"),
            RuntimeError::MissingSlot => String::from_str("missing slot"),
            RuntimeError::DanglingHeapId => String::from_str("dangling heap id"),
            RuntimeError::Overflow => String::from_str("arithmetic overflow"),
            RuntimeError::DivisionByZero => String::from_str("division by zero"),
            RuntimeError::StepLimit => String::from_str("out of fuel"),
            RuntimeError::HeapFull => String::from_str("heap full"),
        }
    }
}

/// One thing that `print` has shown.
#[derive(Debug, Clone)]
pub enum Printed {
    /// A value that is no heap reference.
    Scalar(Value),
    /// The items of an array, in their order.
    Array(Vec<Value>),
    /// The text of a string.
    Text(String),
}

/// The mathematical value of a [`Printed`].
pub enum SpecPrinted {
    Scalar(Value),
    Array(Seq<Value>),
    Text(Seq<char>),
}

impl Printed {
    /// The mathematical value.
    pub open spec fn view(&self) -> SpecPrinted {
        match self {
            Printed::Scalar(v) => SpecPrinted::Scalar(*v),
            Printed::Array(v) => SpecPrinted::Array(v@),
            Printed::Text(s) => SpecPrinted::Text(s@),
        }
    }
}

/// The views of a list of printed things, in order.
pub open spec fn printed_view(v: Seq<Printed>) -> Seq<SpecPrinted> {
    Seq::new(v.len(), |i: int| v[i]@)
}

/// What a call needs of a function or class: how many argument values its
/// frame takes, and its body.
pub struct SpecCallee {
    pub arity: nat,
    pub block: Seq<SpecStmt>,
}

/// The state of the machine.
pub struct Machine {
    /// The values of all active calls, the oldest call first.
    pub stack: Seq<Value>,
    /// Where the locals of the running call begin.
    pub base: nat,
    pub heap: Map<usize, SpecHeapValue>,
    /// The id that the next array gets. Every id in use lies below it.
    pub next_id: usize,
    /// The functions declared so far, by name.
    pub funcs: Map<Seq<char>, SpecCallee>,
    /// The top-level classes and objects, by name.
    pub classes: Map<Seq<char>, SpecCallee>,
    /// What `print` has shown so far, oldest first.
    pub output: Seq<SpecPrinted>,
}

/// The machine after an evaluation, and the value or the error it gave.
pub struct Step {
    pub m: Machine,
    pub r: Result<Value, RuntimeError>,
}

/// The machine after the evaluation of an argument list, and the values or
/// the error it gave.
pub struct ArgStep {
    pub m: Machine,
    pub r: Result<Seq<Value>, RuntimeError>,
}

impl Step {
    /// The value of a successful step.
    pub open spec fn value(self) -> Value {
        match self.r {
            Ok(v) => v,
            Err(_) => Value::Unit,
        }
    }
}

impl Machine {
    /// Every id in use lies below the next id.
    pub open spec fn wf(self) -> bool {
        forall|k: usize| self.heap.contains_key(k) ==> k < self.next_id
    }

    /// The stack index of a local of the running call.
    pub open spec fn index_of(self, slot: usize) -> int {
        self.base + slot
    }

    /// The machine with another stack.
    pub open spec fn with_stack(self, stack: Seq<Value>) -> Machine {
        Machine { stack, ..self }
    }

    /// The machine with the frame of a call on top of the stack: as many of
    /// the argument values as the callee takes, in their order.
    pub open spec fn enter(self, callee: SpecCallee, args: Seq<Value>) -> Machine {
        let n = if callee.arity <= args.len() {
            callee.arity as int
        } else {
            args.len() as int
        };
        Machine { stack: self.stack + args.take(n), base: self.stack.len(), ..self }
    }

    /// The machine of the caller `self` after a call has ended in `after`:
    /// the stack is cut back to the length it had before the call, and the
    /// frame base is the caller's again.
    pub open spec fn leave(self, after: Machine) -> Machine {
        Machine {
            stack: if self.stack.len() <= after.stack.len() {
                after.stack.take(self.stack.len() as int)
            } else {
                after.stack
            },
            base: self.base,
            ..after
        }
    }

    /// The machine after `print` has shown `p`.
    pub open spec fn printing(self, p: SpecPrinted) -> Machine {
        Machine { output: self.output.push(p), ..self }
    }

    /// The machine with `id` holding `h`. The next id moves above `id`.
    pub open spec fn storing(self, id: usize, h: SpecHeapValue) -> Machine {
        Machine {
            heap: self.heap.insert(id, h),
            next_id: if id < self.next_id {
                self.next_id
            } else {
                (id + 1) as usize
            },
            ..self
        }
    }
}

/// An evaluation that ended in `m` with the value `v`.
pub open spec fn done(m: Machine, v: Value) -> Step {
    Step { m, r: Ok(v) }
}

/// An evaluation that was aborted in `m`.
pub open spec fn fail(m: Machine, e: RuntimeError) -> Step {
    Step { m, r: Err(e) }
}

/// The four arithmetic operators.
#[derive(Clone, Copy, Debug, PartialEq, Eq, Structural)]
pub enum Arith {
    Add,
    Sub,
    Mul,
    Div,
}

/// The quotient of `a` by `b` rounded towards zero, for `b` other than zero.
pub open spec fn quotient(a: int, b: int) -> int {
    if a >= 0 && b > 0 {
        a / b
    } else if a < 0 && b < 0 {
        (-a) / (-b)
    } else if a < 0 {
        -((-a) / b)
    } else {
        -(a / (-b))
    }
}

/// The exact result of an arithmetic operation on integers.
pub open spec fn exact(op: Arith, a: int, b: int) -> int {
    match op {
        Arith::Add => a + b,
        Arith::Sub => a - b,
        Arith::Mul => a * b,
        Arith::Div => quotient(a, b),
    }
}

/// Arithmetic on two values: both must be integers, the divisor must not be
/// zero, and the exact result must fit 64 bits.
pub open spec fn arith(op: Arith, l: Value, r: Value) -> Result<Value, RuntimeError> {
    match (l, r) {
        (Value::Int(a), Value::Int(b)) => {
            if op == Arith::Div && b == 0 {
                Err(RuntimeError::DivisionByZero)
            } else if i64::MIN <= exact(op, a as int, b as int) <= i64::MAX {
                Ok(Value::Int(exact(op, a as int, b as int) as i64))
            } else {
                Err(RuntimeError::Overflow)
            }
        },
        _ => Err(RuntimeError::TypeMismatch),
    }
}

/// `==` (with `equal`) or `!=` (without) on two values: both must be integers
/// or both must be booleans.
pub open spec fn compare(equal: bool, l: Value, r: Value) -> Result<Value, RuntimeError> {
    match (l, r) {
        (Value::Int(a), Value::Int(b)) => Ok(Value::Bool((a == b) == equal)),
        (Value::Bool(a), Value::Bool(b)) => Ok(Value::Bool((a == b) == equal)),
        _ => Err(RuntimeError::TypeMismatch),
    }
}

/// What `print` shows for a value of the heap.
pub open spec fn shown(h: SpecHeapValue) -> SpecPrinted {
    match h {
        SpecHeapValue::Vec(v) => SpecPrinted::Array(v),
        SpecHeapValue::String(s) => SpecPrinted::Text(s),
    }
}

/// The built-in `print`, from the argument `i` on: a heap reference shows
/// what the heap holds under its id, any other value shows itself. The result
/// is `Unit`.
pub open spec fn print_from(m: Machine, args: Seq<Value>, i: nat) -> Step
    decreases args.len() - i,
{
    if i >= args.len() {
        done(m, Value::Unit)
    } else {
        match args[i as int] {
            Value::HeapId(id) => {
                if m.heap.contains_key(id) {
                    print_from(m.printing(shown(m.heap[id])), args, i + 1)
                } else {
                    fail(m, RuntimeError::DanglingHeapId)
                }
            },
            v => print_from(m.printing(SpecPrinted::Scalar(v)), args, i + 1),
        }
    }
}

/// The built-in `Array`: the argument values are stored under the next id,
/// in their order, and the result refers to them.
pub open spec fn allocate(m: Machine, items: Seq<Value>) -> Step {
    if m.next_id == usize::MAX {
        fail(m, RuntimeError::HeapFull)
    } else {
        done(m.storing(m.next_id, SpecHeapValue::Vec(items)), Value::HeapId(m.next_id))
    }
}

/// The functions that the machine brings along.
#[derive(Clone, Copy, Debug, PartialEq, Eq, Structural)]
pub enum BuiltIn {
    /// `print`
    Print,
    /// `Array`
    Array,
}

/// The built-in functions by name. A call looks here first.
pub open spec fn built_ins() -> Map<Seq<char>, BuiltIn> {
    Map::empty().insert("print"@, BuiltIn::Print).insert("Array"@, BuiltIn::Array)
}

/// The result of the second of two evaluations that run one after the other,
/// unless one of them was aborted.
pub open spec fn both(a: Step, b: Step, r: Result<Value, RuntimeError>) -> Step {
    if a.r is Err {
        a
    } else if b.r is Err {
        b
    } else {
        Step { m: b.m, r }
    }
}

/// Evaluation of an expression.
pub open spec fn eval_expr(fuel: nat, m: Machine, e: SpecExpression) -> Step
    decreases fuel, e, 0nat,
{
    match e {
        SpecExpression::Int(x) => done(m, Value::Int(x.data)),
        SpecExpression::String(id, s) => {
            if id == usize::MAX {
                fail(m, RuntimeError::HeapFull)
            } else {
                done(m.storing(id, SpecHeapValue::String(s.data)), Value::HeapId(id))
            }
        },
        SpecExpression::Bool(b) => done(m, Value::Bool(b)),
        SpecExpression::Name(slot) => {
            if m.index_of(slot.data) < m.stack.len() {
                done(m, m.stack[m.index_of(slot.data)])
            } else {
                fail(m, RuntimeError::MissingSlot)
            }
        },
        SpecExpression::Add(l, r) => {
            let a = eval_expr(fuel, m, *l);
            let b = eval_expr(fuel, a.m, *r);
            both(a, b, arith(Arith::Add, a.value(), b.value()))
        },
        SpecExpression::Sub(l, r) => {
            let a = eval_expr(fuel, m, *l);
            let b = eval_expr(fuel, a.m, *r);
            both(a, b, arith(Arith::Sub, a.value(), b.value()))
        },
        SpecExpression::Mul(l, r) => {
            let a = eval_expr(fuel, m, *l);
            let b = eval_expr(fuel, a.m, *r);
            both(a, b, arith(Arith::Mul, a.value(), b.value()))
        },
        SpecExpression::Div(l, r) => {
            let a = eval_expr(fuel, m, *l);
            let b = eval_expr(fuel, a.m, *r);
            both(a, b, arith(Arith::Div, a.value(), b.value()))
        },
        SpecExpression::Eq(l, r) => {
            let a = eval_expr(fuel, m, *l);
            let b = eval_expr(fuel, a.m, *r);
            both(a, b, compare(true, a.value(), b.value()))
        },
        SpecExpression::Neq(l, r) => {
            let a = eval_expr(fuel, m, *l);
            let b = eval_expr(fuel, a.m, *r);
            both(a, b, compare(false, a.value(), b.value()))
        },
        SpecExpression::Call(name, args) => {
            let a = eval_args(fuel, m, args, 0, Seq::empty());
            match a.r {
                Err(e) => fail(a.m, e),
                Ok(values) => {
                    if built_ins().contains_key(name.data) {
                        match built_ins()[name.data] {
                            BuiltIn::Print => print_from(a.m, values, 0),
                            BuiltIn::Array => allocate(a.m, values),
                        }
                    } else if a.m.funcs.contains_key(name.data) {
                        if fuel == 0 {
                            fail(a.m, RuntimeError::StepLimit)
                        } else {
                            let callee = a.m.funcs[name.data];
                            let b = eval_block(
                                (fuel - 1) as nat,
                                a.m.enter(callee, values),
                                callee.block,
                                0,
                                Value::Unit,
                            );
                            if b.r is Err {
                                b
                            } else {
                                Step { m: a.m.leave(b.m), r: b.r }
                            }
                        }
                    } else if a.m.classes.contains_key(name.data) {
                        if fuel == 0 {
                            fail(a.m, RuntimeError::StepLimit)
                        } else {
                            let callee = a.m.classes[name.data];
                            let b = eval_block(
                                (fuel - 1) as nat,
                                a.m.enter(callee, values),
                                callee.block,
                                0,
                                Value::Unit,
                            );
                            if b.r is Err {
                                b
                            } else {
                                Step { m: a.m.leave(b.m), r: b.r }
                            }
                        }
                    } else {
                        fail(a.m, RuntimeError::UnknownCallee)
                    }
                },
            }
        },
        SpecExpression::If(c, t, e) => {
            let x = eval_expr(fuel, m, *c);
            if x.r is Err {
                x
            } else if x.value() == Value::Bool(true) {
                eval_block(fuel, x.m, t, 0, Value::Unit)
            } else {
                match e {
                    Some(b) => eval_block(fuel, x.m, b, 0, Value::Unit),
                    None => done(x.m, Value::Unit),
                }
            }
        },
    }
}

/// Evaluation of the arguments of a call from the argument `i` on, from left
/// to right, after the earlier ones gave `seen`.
pub open spec fn eval_args(
    fuel: nat,
    m: Machine,
    args: Seq<SpecExpression>,
    i: nat,
    seen: Seq<Value>,
) -> ArgStep
    decreases fuel, args, args.len() - i,
{
    if i >= args.len() {
        ArgStep { m, r: Ok(seen) }
    } else {
        let x = eval_expr(fuel, m, args[i as int]);
        match x.r {
            Err(e) => ArgStep { m: x.m, r: Err(e) },
            Ok(v) => eval_args(fuel, x.m, args, i + 1, seen.push(v)),
        }
    }
}

/// Evaluation of a statement.
pub open spec fn eval_stmt(fuel: nat, m: Machine, s: SpecStmt) -> Step
    decreases fuel, s, 1nat,
{
    match s {
        SpecStmt::Expr(e) => eval_expr(fuel, m, e),
        SpecStmt::Let(_, e) => {
            let x = eval_expr(fuel, m, e);
            if x.r is Err {
                x
            } else {
                done(x.m.with_stack(x.m.stack.push(x.value())), Value::Unit)
            }
        },
        SpecStmt::Assign(slot, e) => {
            let x = eval_expr(fuel, m, e);
            if x.r is Err {
                x
            } else if x.m.index_of(slot.data) < x.m.stack.len() {
                done(
                    x.m.with_stack(x.m.stack.update(x.m.index_of(slot.data), x.value())),
                    Value::Unit,
                )
            } else {
                fail(x.m, RuntimeError::MissingSlot)
            }
        },
        SpecStmt::Return(e) => eval_expr(fuel, m, e),
        SpecStmt::While(_, _) => eval_while(fuel, m, s, Value::Unit),
        SpecStmt::Block(b) => eval_block(fuel, m, b, 0, Value::Unit),
        SpecStmt::Func { name, params, return_type, block } => done(
            Machine {
                funcs: m.funcs.insert(name.data, SpecCallee { arity: params.len(), block }),
                ..m
            },
            Value::Unit,
        ),
    }
}

/// Evaluation of the `while` loop `s` after the rounds run so far gave
/// `last`: the condition is evaluated before each round, and only `true`
/// lets the loop go on. Each round uses up one unit of the loop's fuel.
pub open spec fn eval_while(fuel: nat, m: Machine, s: SpecStmt, last: Value) -> Step
    decreases fuel, s, 0nat,
{
    match s {
        SpecStmt::While(cond, body) => {
            let c = eval_expr(fuel, m, cond);
            if c.r is Err {
                c
            } else if c.value() != Value::Bool(true) {
                done(c.m, last)
            } else if fuel == 0 {
                fail(c.m, RuntimeError::StepLimit)
            } else {
                let b = eval_block((fuel - 1) as nat, c.m, body, 0, Value::Unit);
                if b.r is Err {
                    b
                } else {
                    eval_while((fuel - 1) as nat, b.m, s, b.value())
                }
            }
        },
        _ => done(m, last),
    }
}

/// Evaluation of a list of statements from the statement `i` on, after the
/// earlier ones gave `last`: the value of a block is that of its last
/// statement, and `Unit` for an empty block.
pub open spec fn eval_block(fuel: nat, m: Machine, ss: Seq<SpecStmt>, i: nat, last: Value) -> Step
    decreases fuel, ss, ss.len() - i,
{
    if i >= ss.len() {
        done(m, last)
    } else {
        let x = eval_stmt(fuel, m, ss[i as int]);
        if x.r is Err {
            x
        } else {
            eval_block(fuel, x.m, ss, i + 1, x.value())
        }
    }
}


/// What a call needs of a function or class: how many argument values its
/// frame takes, and its body.
#[derive(Clone, Copy)]
pub struct Callee<'a> {
    pub arity: usize,
    pub block: &'a Vec<Stmt>,
}

impl<'a> Callee<'a> {
    /// The mathematical value.
    pub open spec fn view(&self) -> SpecCallee {
        SpecCallee { arity: self.arity as nat, block: stmts_view(*self.block) }
    }
}

/// The views of the entries of a table of callees.
pub open spec fn callees_view<'a>(m: Map<Seq<char>, Callee<'a>>) -> Map<Seq<char>, SpecCallee> {
    Map::new(|k: Seq<char>| m.contains_key(k), |k: Seq<char>| m[k]@)
}

/// The views of the entries of a heap.
pub open spec fn heap_view(m: Map<usize, HeapValue>) -> Map<usize, SpecHeapValue> {
    Map::new(|k: usize| m.contains_key(k), |k: usize| m[k]@)
}

/// The table of the top-level classes and objects: a later declaration
/// replaces an earlier one of the same name.
pub open spec fn class_table(classes: Seq<SpecClass>) -> Map<Seq<char>, SpecCallee>
    decreases classes.len(),
{
    if classes.len() == 0 {
        Map::empty()
    } else {
        let c = classes.last();
        class_table(classes.drop_last()).insert(
            c.name.data,
            SpecCallee { arity: c.args.len(), block: c.block },
        )
    }
}

/// The machine before anything has run: no value on the stack, nothing on
/// the heap, no function declared and nothing printed. The ids that a run
/// allocates begin above those of the string literals of the classes.
pub open spec fn initial(classes: Seq<SpecClass>) -> Machine {
    Machine {
        stack: Seq::empty(),
        base: 0,
        heap: Map::empty(),
        next_id: ids_classes(classes, 0),
        funcs: Map::empty(),
        classes: class_table(classes),
        output: Seq::empty(),
    }
}

/// The machine that runs a program. It borrows the program for as long as it
/// lives: the functions that the program declares are kept by reference.
pub struct Interpreter<'a> {
    built_in_func: StringHashMap<BuiltIn>,
    stack: Vec<Value>,
    heap: HashMap<usize, HeapValue>,
    next_heap_id: usize,
    classes: StringHashMap<Callee<'a>>,
    funcs: StringHashMap<Callee<'a>>,
    func_stack_offset: usize,
    output: Vec<Printed>,
}

proof fn lemma_heap_insert(m: Map<usize, HeapValue>, k: usize, h: HeapValue)
    ensures
        heap_view(m.insert(k, h)) == heap_view(m).insert(k, h@),
{
    assert(heap_view(m.insert(k, h)) =~= heap_view(m).insert(k, h@));
}

proof fn lemma_callees_insert<'a>(m: Map<Seq<char>, Callee<'a>>, k: Seq<char>, c: Callee<'a>)
    ensures
        callees_view(m.insert(k, c)) == callees_view(m).insert(k, c@),
{
    assert(callees_view(m.insert(k, c)) =~= callees_view(m).insert(k, c@));
}

proof fn lemma_printed_push(v: Seq<Printed>, p: Printed)
    ensures
        printed_view(v.push(p)) == printed_view(v).push(p@),
{
    assert(printed_view(v.push(p)) =~= printed_view(v).push(p@));
}

impl<'a> Interpreter<'a> {
    /// The state of the machine.
    pub closed spec fn view(&self) -> Machine {
        Machine {
            stack: self.stack@,
            base: self.func_stack_offset as nat,
            heap: heap_view(self.heap@),
            next_id: self.next_heap_id,
            funcs: callees_view(self.funcs@),
            classes: callees_view(self.classes@),
            output: printed_view(self.output@),
        }
    }

    /// The machine is in order: it knows its built-in functions, and every
    /// heap id in use lies below the next one.
    pub closed spec fn wf(&self) -> bool {
        &&& self.built_in_func@ == built_ins()
        &&& self@.wf()
    }

    /// Whether the machine is in the state that the evaluation `s` ends in,
    /// and `r` is what it gave.
    pub open spec fn ran(&self, s: Step, r: Result<Value, RuntimeError>) -> bool {
        &&& self.wf()
        &&& self@ == s.m
        &&& r == s.r
    }

    /// A machine that knows the given classes and has run nothing yet.
    pub fn new(classes: &'a Vec<Class>) -> (r: Self)
        ensures
            r.wf(),
            r@ == initial(classes_view(classes@)),
    {
        let ghost all = classes_view(classes@);
        let mut built_in_func: StringHashMap<BuiltIn> = StringHashMap::new();
        built_in_func.insert("print".to_owned(), BuiltIn::Print);
        built_in_func.insert("Array".to_owned(), BuiltIn::Array);
        let mut table: StringHashMap<Callee<'a>> = StringHashMap::new();
        assert(callees_view(table@) =~= class_table(all.take(0)));
        let mut i: usize = 0;
        while i < classes.len()
            invariant
                0 <= i <= classes.len(),
                all == classes_view(classes@),
                callees_view(table@) == class_table(all.take(i as int)),
            decreases classes.len() - i,
        {
            let c = &classes[i];
            let callee = Callee { arity: c.args.len(), block: &c.block };
            proof {
                lemma_callees_insert(table@, c.name.data@, callee);
                assert(all.take(i + 1).drop_last() =~= all.take(i as int));
                assert(all.take(i + 1).last() == c@);
            }
            table.insert(c.name.data.clone(), callee);
            i += 1;
        }
        proof {
            assert(all.take(classes.len() as int) =~= all);
        }
        let r = Interpreter {
            built_in_func,
            stack: Vec::new(),
            heap: HashMap::new(),
            next_heap_id: first_free_id(classes),
            classes: table,
            funcs: StringHashMap::new(),
            func_stack_offset: 0,
            output: Vec::new(),
        };
        proof {
            assert(r@.heap =~= Map::<usize, SpecHeapValue>::empty());
            assert(r@.funcs =~= Map::<Seq<char>, SpecCallee>::empty());
            assert(r@.output =~= Seq::<SpecPrinted>::empty());
        }
        r
    }

    /// What `print` has shown so far, oldest first.
    pub fn output(&self) -> (r: &Vec<Printed>)
        ensures
            printed_view(r@) == self@.output,
    {
        &self.output
    }

    /// What the heap holds under `id`, if anything.
    pub fn heap_get(&self, id: usize) -> (r: Option<&HeapValue>)
        ensures
            match r {
                Some(h) => self@.heap.contains_key(id) && self@.heap[id] == h@,
                None => !self@.heap.contains_key(id),
            },
    {
        broadcast use vstd::std_specs::hash::group_hash_axioms;

        self.heap.get(&id)
    }

    /// The values on the stack, those of the oldest call first.
    pub fn stack(&self) -> (r: &Vec<Value>)
        ensures
            r@ == self@.stack,
    {
        &self.stack
    }

    /// The stack index of a local of the running call, where the stack
    /// reaches that far.
    fn locate(&self, slot: usize) -> (r: Option<usize>)
        ensures
            match r {
                Some(at) => at == self@.index_of(slot) && at < self@.stack.len(),
                None => self@.index_of(slot) >= self@.stack.len(),
            },
    {
        let len = self.stack.len();
        match self.func_stack_offset.checked_add(slot) {
            Some(at) => if at < len {
                Some(at)
            } else {
                None
            },
            None => None,
        }
    }

    /// Stores `h` under `id`.
    pub(crate) fn store(&mut self, id: usize, h: HeapValue)
        requires
            old(self).wf(),
            id < usize::MAX,
        ensures
            final(self).wf(),
            final(self)@ == old(self)@.storing(id, h@),
    {
        broadcast use vstd::std_specs::hash::group_hash_axioms;

        proof {
            lemma_heap_insert(self.heap@, id, h);
        }
        self.heap.insert(id, h);
        if id >= self.next_heap_id {
            self.next_heap_id = id + 1;
        }
        assert(self@ == old(self)@.storing(id, h@));
        assert(self@.wf()) by {
            assert forall|k: usize| self@.heap.contains_key(k) implies k < self@.next_id by {
                if k != id {
                    assert(old(self)@.heap.contains_key(k));
                }
            }
        }
    }

    /// Appends `p` to what `print` has shown.
    pub(crate) fn show(&mut self, p: Printed)
        requires
            old(self).wf(),
        ensures
            final(self).wf(),
            final(self)@ == old(self)@.printing(p@),
    {
        proof {
            lemma_printed_push(self.output@, p);
        }
        self.output.push(p);
        assert(self@.heap == old(self)@.heap);
    }

    /// The id that the next array gets.
    pub fn next_id(&self) -> (r: usize)
        ensures
            r == self@.next_id,
    {
        self.next_heap_id
    }

    /// The body of the class or object of the given name.
    pub fn class_body(&self, name: &str) -> (r: Option<&'a Vec<Stmt>>)
        ensures
            match r {
                Some(b) => self@.classes.contains_key(name@) && self@.classes[name@].block
                    == stmts_view(*b),
                None => !self@.classes.contains_key(name@),
            },
    {
        match self.classes.get(name) {
            Some(c) => Some(c.block),
            None => None,
        }
    }

    /// Ends the run and hands out what `print` has shown, oldest first.
    pub fn into_output(self) -> (r: Vec<Printed>)
        ensures
            printed_view(r@) == self@.output,
    {
        self.output
    }

    /// Evaluates the statements in order and gives the value of the last one,
    /// or `Unit` for none.
    #[verifier::loop_isolation(false)]
    pub fn translate_block(&mut self, stmts: &'a Vec<Stmt>, fuel: usize) -> (r: Result<
        Value,
        RuntimeError,
    >)
        requires
            old(self).wf(),
        ensures
            final(self).ran(
                eval_block(fuel as nat, old(self)@, stmts_view(*stmts), 0, Value::Unit),
                r,
            ),
        decreases fuel, stmts, 0nat,
    {
        let ghost all = stmts_view(*stmts);
        let mut ret = Value::Unit;
        let mut i: usize = 0;
        while i < stmts.len()
            invariant
                0 <= i <= stmts.len(),
                all == stmts_view(*stmts),
                self.wf(),
                eval_block(fuel as nat, old(self)@, all, 0, Value::Unit) == eval_block(
                    fuel as nat,
                    self@,
                    all,
                    i as nat,
                    ret,
                ),
            decreases stmts.len() - i,
        {
            match self.translate_stmt(&stmts[i], fuel) {
                Ok(v) => {
                    ret = v;
                },
                Err(e) => {
                    return Err(e);
                },
            }
            i += 1;
        }
        Ok(ret)
    }

    /// Evaluates one statement.
    #[verifier::loop_isolation(false)]
    pub fn translate_stmt(&mut self, stmt: &'a Stmt, fuel: usize) -> (r: Result<
        Value,
        RuntimeError,
    >)
        requires
            old(self).wf(),
        ensures
            final(self).ran(eval_stmt(fuel as nat, old(self)@, stmt@), r),
        decreases fuel, stmt, 2nat,
    {
        match stmt {
            Stmt::Expr(e) => self.translate_expr(e, fuel),
            Stmt::Let(_, e) => {
                match self.translate_expr(e, fuel) {
                    Ok(value) => {
                        self.stack.push(value);
                        Ok(Value::Unit)
                    },
                    Err(e) => Err(e),
                }
            },
            Stmt::Assign(name, e) => {
                match self.translate_expr(e, fuel) {
                    Ok(value) => {
                        match self.locate(name.data) {
                            Some(at) => {
                                self.stack.set(at, value);
                                Ok(Value::Unit)
                            },
                            None => Err(RuntimeError::MissingSlot),
                        }
                    },
                    Err(e) => Err(e),
                }
            },
            Stmt::Return(e) => self.translate_expr(e, fuel),
            Stmt::While(cond, block) => {
                let mut ret = Value::Unit;
                let mut left = fuel;
                loop
                    invariant
                        stmt@ == SpecStmt::While(cond@, stmts_view(*block)),
                        left <= fuel,
                        self.wf(),
                        eval_stmt(fuel as nat, old(self)@, stmt@) == eval_while(
                            left as nat,
                            self@,
                            stmt@,
                            ret,
                        ),
                    decreases left,
                {
                    match self.translate_expr(cond, left) {
                        Ok(Value::Bool(true)) => {},
                        Ok(_) => {
                            return Ok(ret);
                        },
                        Err(e) => {
                            return Err(e);
                        },
                    }
                    if left == 0 {
                        return Err(RuntimeError::StepLimit);
                    }
                    match self.translate_block(block, left - 1) {
                        Ok(v) => {
                            ret = v;
                        },
                        Err(e) => {
                            return Err(e);
                        },
                    }
                    left = left - 1;
                }
            },
            Stmt::Block(b) => self.translate_block(b, fuel),
            Stmt::Func { name, params, return_type, block } => {
                let callee = Callee { arity: params.len(), block };
                proof {
                    lemma_callees_insert(self.funcs@, name.data@, callee);
                }
                self.funcs.insert(name.data.clone(), callee);
                Ok(Value::Unit)
            },
        }
    }

    /// Evaluates one expression.
    #[verifier::loop_isolation(false)]
    pub fn translate_expr(&mut self, expr: &'a Expression, fuel: usize) -> (r: Result<
        Value,
        RuntimeError,
    >)
        requires
            old(self).wf(),
        ensures
            final(self).ran(eval_expr(fuel as nat, old(self)@, expr@), r),
        decreases fuel, expr, 1nat,
    {
        match expr {
            Expression::Int(x) => Ok(Value::Int(x.data)),
            Expression::String(idx, data) => {
                if *idx == usize::MAX {
                    return Err(RuntimeError::HeapFull);
                }
                self.store(*idx, HeapValue::String(data.data.clone()));
                Ok(Value::HeapId(*idx))
            },
            Expression::Bool(x) => Ok(Value::Bool(*x)),
            Expression::Name(name) => {
                match self.locate(name.data) {
                    Some(at) => Ok(self.stack[at]),
                    None => Err(RuntimeError::MissingSlot),
                }
            },
            Expression::Add(l, r) => self.int_func(l, r, Arith::Add, fuel, Ghost(expr)),
            Expression::Sub(l, r) => self.int_func(l, r, Arith::Sub, fuel, Ghost(expr)),
            Expression::Mul(l, r) => self.int_func(l, r, Arith::Mul, fuel, Ghost(expr)),
            Expression::Div(l, r) => self.int_func(l, r, Arith::Div, fuel, Ghost(expr)),
            Expression::Eq(l, r) => self.eq_func(l, r, true, fuel, Ghost(expr)),
            Expression::Neq(l, r) => self.eq_func(l, r, false, fuel, Ghost(expr)),
            Expression::Call(name, p) => {
                let ghost all = exprs_view(*p);
                let mut args: Vec<Value> = Vec::new();
                let mut i: usize = 0;
                while i < p.len()
                    invariant
                        0 <= i <= p.len(),
                        all == exprs_view(*p),
                        self.wf(),
                        eval_args(fuel as nat, old(self)@, all, 0, Seq::empty()) == eval_args(
                            fuel as nat,
                            self@,
                            all,
                            i as nat,
                            args@,
                        ),
                    decreases p.len() - i,
                {
                    match self.translate_expr(&p[i], fuel) {
                        Ok(v) => {
                            args.push(v);
                        },
                        Err(e) => {
                            return Err(e);
                        },
                    }
                    i += 1;
                }
                match self.built_in_func.get(name.data.as_str()) {
                    Some(BuiltIn::Print) => {
                        return bi_print(self, args);
                    },
                    Some(BuiltIn::Array) => {
                        return bi_array(self, args);
                    },
                    None => {},
                }
                let found = match self.funcs.get(name.data.as_str()) {
                    Some(c) => Some(*c),
                    None => match self.classes.get(name.data.as_str()) {
                        Some(c) => Some(*c),
                        None => None,
                    },
                };
                match found {
                    Some(callee) => {
                        if fuel == 0 {
                            return Err(RuntimeError::StepLimit);
                        }
                        self.invoke(callee, &args, fuel - 1)
                    },
                    None => Err(RuntimeError::UnknownCallee),
                }
            },
            Expression::If(cond, then_body, else_body) => {
                match self.translate_expr(cond, fuel) {
                    Ok(Value::Bool(true)) => self.translate_block(then_body, fuel),
                    Ok(_) => match else_body {
                        Some(e) => self.translate_block(e, fuel),
                        None => Ok(Value::Unit),
                    },
                    Err(e) => Err(e),
                }
            },
        }
    }

    /// Runs the body of `callee` in a frame of its own that holds the
    /// argument values.
    #[verifier::loop_isolation(false)]
    fn invoke(&mut self, callee: Callee<'a>, args: &Vec<Value>, fuel: usize) -> (r: Result<
        Value,
        RuntimeError,
    >)
        requires
            old(self).wf(),
        ensures
            ({
                let b = eval_block(
                    fuel as nat,
                    old(self)@.enter(callee@, args@),
                    callee@.block,
                    0,
                    Value::Unit,
                );
                final(self).ran(
                    if b.r is Err {
                        b
                    } else {
                        Step { m: old(self)@.leave(b.m), r: b.r }
                    },
                    r,
                )
            }),
        decreases fuel, callee.block, 1nat,
    {
        let old_offset = self.func_stack_offset;
        let next_offset = self.stack.len();
        let mut i: usize = 0;
        while i < callee.arity && i < args.len()
            invariant
                0 <= i <= callee.arity,
                i <= args.len(),
                next_offset == old(self)@.stack.len(),
                self.wf(),
                self@ == old(self)@.with_stack(old(self)@.stack + args@.take(i as int)),
            decreases args.len() - i,
        {
            self.stack.push(args[i]);
            proof {
                assert(old(self)@.stack + args@.take(i + 1) =~= (old(self)@.stack + args@.take(
                    i as int,
                )).push(args@[i as int]));
            }
            i += 1;
        }
        self.func_stack_offset = next_offset;
        match self.translate_block(callee.block, fuel) {
            Ok(v) => {
                self.stack.truncate(next_offset);
                self.func_stack_offset = old_offset;
                Ok(v)
            },
            Err(e) => Err(e),
        }
    }

    /// Evaluates both operands and applies the arithmetic operator.
    fn int_func(
        &mut self,
        l: &'a Expression,
        r: &'a Expression,
        op: Arith,
        fuel: usize,
        Ghost(parent): Ghost<&Expression>,
    ) -> (res: Result<Value, RuntimeError>)
        requires
            old(self).wf(),
            decreases_to!(parent => l),
            decreases_to!(parent => r),
        ensures
            ({
                let a = eval_expr(fuel as nat, old(self)@, l@);
                let b = eval_expr(fuel as nat, a.m, r@);
                final(self).ran(both(a, b, arith(op, a.value(), b.value())), res)
            }),
        decreases fuel, parent, 0nat,
    {
        let a = match self.translate_expr(l, fuel) {
            Ok(v) => v,
            Err(e) => {
                return Err(e);
            },
        };
        let b = match self.translate_expr(r, fuel) {
            Ok(v) => v,
            Err(e) => {
                return Err(e);
            },
        };
        apply(op, a, b)
    }

    /// Evaluates both operands and compares them.
    fn eq_func(
        &mut self,
        l: &'a Expression,
        r: &'a Expression,
        equal: bool,
        fuel: usize,
        Ghost(parent): Ghost<&Expression>,
    ) -> (res: Result<Value, RuntimeError>)
        requires
            old(self).wf(),
            decreases_to!(parent => l),
            decreases_to!(parent => r),
        ensures
            ({
                let a = eval_expr(fuel as nat, old(self)@, l@);
                let b = eval_expr(fuel as nat, a.m, r@);
                final(self).ran(both(a, b, compare(equal, a.value(), b.value())), res)
            }),
        decreases fuel, parent, 0nat,
    {
        let a = match self.translate_expr(l, fuel) {
            Ok(v) => v,
            Err(e) => {
                return Err(e);
            },
        };
        let b = match self.translate_expr(r, fuel) {
            Ok(v) => v,
            Err(e) => {
                return Err(e);
            },
        };
        match (a, b) {
            (Value::Int(x), Value::Int(y)) => Ok(Value::Bool((x == y) == equal)),
            (Value::Bool(x), Value::Bool(y)) => Ok(Value::Bool((x == y) == equal)),
            _ => Err(RuntimeError::TypeMismatch),
        }
    }
}

/// Applies an arithmetic operator to two values.
pub fn apply(op: Arith, l: Value, r: Value) -> (res: Result<Value, RuntimeError>)
    ensures
        res == arith(op, l, r),
{
    match (l, r) {
        (Value::Int(a), Value::Int(b)) => {
            let exact = match op {
                Arith::Add => a.checked_add(b),
                Arith::Sub => a.checked_sub(b),
                Arith::Mul => a.checked_mul(b),
                Arith::Div => {
                    if b == 0 {
                        return Err(RuntimeError::DivisionByZero);
                    }
                    a.checked_div(b)
                },
            };
            match exact {
                Some(x) => Ok(Value::Int(x)),
                None => Err(RuntimeError::Overflow),
            }
        },
        _ => Err(RuntimeError::TypeMismatch),
    }
}

} // verus!
