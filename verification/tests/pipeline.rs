use typort::ast::{Block, Class, Expression, Func, Object, Stmt, TopItem};
use typort::mir::MirError;
use typort::vm::{Printed, RuntimeError, Value};
use typort::{run_program, runnable, Run, RunError, Span, UNLIMITED};

fn sp<T>(data: T) -> Span<T> {
    Span { data, range: ((0, 0), (0, 0)) }
}

fn at<T>(data: T, line: usize, col: usize, len: usize) -> Span<T> {
    Span { data, range: ((line, col), (line, col + len)) }
}

fn id(s: &str) -> Span<String> {
    sp(s.to_owned())
}

fn num(n: i64) -> Expression {
    Expression::Int(sp(n))
}

fn name(s: &str) -> Expression {
    Expression::Name(id(s))
}

fn call(f: &str, args: Vec<Expression>) -> Expression {
    Expression::Call(id(f), args)
}

fn add(a: Expression, b: Expression) -> Expression {
    Expression::Add(Box::new(a), Box::new(b))
}

fn sub(a: Expression, b: Expression) -> Expression {
    Expression::Sub(Box::new(a), Box::new(b))
}

fn eq(a: Expression, b: Expression) -> Expression {
    Expression::Eq(Box::new(a), Box::new(b))
}

fn neq(a: Expression, b: Expression) -> Expression {
    Expression::Neq(Box::new(a), Box::new(b))
}

fn app(body: Vec<Stmt>) -> Vec<TopItem> {
    vec![TopItem::Object(Object {
        name: id("Main"),
        extends: Some(id("App")),
        with: vec![],
        block: Block(body),
    })]
}

fn run(body: Vec<Stmt>) -> Run {
    run_program(app(body), None, UNLIMITED)
}

fn value(r: &Run) -> Value {
    match &r.result {
        Ok(v) => *v,
        Err(e) => panic!("the run failed: {:?}", e),
    }
}

fn messages(r: &Run) -> Vec<String> {
    r.diagnostics.iter().map(|d| d.msg.clone()).collect()
}

/// `def f(n: Int): Int { if n == 0 { return 0 } else { return n + f(n - 1) } }`
fn sum_to() -> Stmt {
    Stmt::Func(Func {
        name: id("f"),
        params: vec![(id("n"), id("Int"))],
        return_type: Some(id("Int")),
        block: Block(vec![Stmt::Expr(Expression::If(
            Box::new(eq(name("n"), num(0))),
            Block(vec![Stmt::Return(num(0))]),
            Some(Block(vec![Stmt::Return(add(
                name("n"),
                call("f", vec![sub(name("n"), num(1))]),
            ))])),
        ))]),
    })
}

/// `def fib(n: Int): Int = { if n == 0 { 0 } else { if n == 1 { 1 } else { fib(n-1) + fib(n-2) } } }`
fn fib() -> Stmt {
    Stmt::Func(Func {
        name: id("fib"),
        params: vec![(id("n"), id("Int"))],
        return_type: Some(id("Int")),
        block: Block(vec![Stmt::Expr(Expression::If(
            Box::new(eq(name("n"), num(0))),
            Block(vec![Stmt::Return(num(0))]),
            Some(Block(vec![Stmt::Expr(Expression::If(
                Box::new(eq(name("n"), num(1))),
                Block(vec![Stmt::Return(num(1))]),
                Some(Block(vec![Stmt::Return(add(
                    call("fib", vec![sub(name("n"), num(1))]),
                    call("fib", vec![sub(name("n"), num(2))]),
                ))])),
            ))])),
        ))]),
    })
}

/// `var x = 0; while (x != 5) { x = x + 1 }`
fn count_to_five() -> Vec<Stmt> {
    vec![
        Stmt::Var(id("x"), num(0)),
        Stmt::While(
            neq(name("x"), num(5)),
            Block(vec![Stmt::Assign(id("x"), add(name("x"), num(1)))]),
        ),
    ]
}

/// `var n = 0; for (i <- from until to) { n = n + 1 }; n`
fn count_rounds(from: i64, to: i64) -> Vec<Stmt> {
    vec![
        Stmt::Var(id("n"), num(0)),
        Stmt::For(
            id("i"),
            num(from),
            num(to),
            Block(vec![Stmt::Assign(id("n"), add(name("n"), num(1)))]),
        ),
        Stmt::Expr(name("n")),
    ]
}

#[test]
fn lib_test_vm() {
    // fib
    let r = run(vec![fib(), Stmt::Expr(call("fib", vec![num(11)]))]);
    assert_eq!(value(&r), Value::Int(89));
    assert!(r.diagnostics.is_empty());
    // while
    let mut body = count_to_five();
    body.push(Stmt::Expr(name("x")));
    let r = run(body);
    assert_eq!(value(&r), Value::Int(5));
    // for
    let r = run(count_rounds(0, 11));
    assert_eq!(value(&r), Value::Int(11));
    // string
    let r = run(vec![
        Stmt::Val(id("s"), Expression::String(id("abcd"))),
        Stmt::Expr(call("print", vec![name("s")])),
        Stmt::Expr(name("s")),
    ]);
    assert_eq!(value(&r), Value::HeapId(0));
    assert_eq!(r.output.len(), 1);
    assert!(matches!(&r.output[0], Printed::Text(s) if s == "abcd"));
    // array
    let r = run(vec![
        Stmt::Val(id("x"), call("Array", vec![num(1), num(2), num(3), num(4)])),
        Stmt::Expr(call("print", vec![name("x")])),
    ]);
    assert_eq!(value(&r), Value::Unit);
    assert!(matches!(
        &r.output[0],
        Printed::Array(v) if v == &vec![Value::Int(1), Value::Int(2), Value::Int(3), Value::Int(4)]
    ));
}

#[test]
fn main_test_vm() {
    let main = |body: Vec<Stmt>| {
        vec![TopItem::Object(Object { name: id("main"), extends: None, with: vec![], block: Block(body) })]
    };
    let r = run_program(
        main(vec![fib(), Stmt::Expr(call("fib", vec![num(11)]))]),
        Some("main".to_owned()),
        UNLIMITED,
    );
    assert_eq!(value(&r), Value::Int(89));
    let mut body = count_to_five();
    body.push(Stmt::Expr(name("x")));
    let r = run_program(main(body), Some("main".to_owned()), UNLIMITED);
    assert_eq!(value(&r), Value::Int(5));
    let r = run_program(main(count_rounds(0, 11)), Some("main".to_owned()), UNLIMITED);
    assert_eq!(value(&r), Value::Int(11));
}

#[test]
fn recursive_sum_of_three_is_six() {
    let r = run(vec![sum_to(), Stmt::Expr(call("f", vec![num(3)]))]);
    assert_eq!(value(&r), Value::Int(6));
    assert!(r.diagnostics.is_empty());
}

#[test]
fn while_counts_to_five() {
    let r = run(count_to_five());
    // the value of the loop is that of its last round, an assignment
    assert_eq!(value(&r), Value::Unit);
    let mut body = count_to_five();
    body.push(Stmt::Expr(name("x")));
    assert_eq!(value(&run(body)), Value::Int(5));
}

#[test]
fn while_without_a_round_is_unit() {
    let r = run(vec![
        Stmt::Var(id("x"), num(5)),
        Stmt::While(neq(name("x"), num(5)), Block(vec![Stmt::Expr(num(7))])),
    ]);
    assert_eq!(value(&r), Value::Unit);
}

#[test]
fn true_plus_one_aborts() {
    let r = run(vec![Stmt::Expr(add(Expression::Bool(true), num(1)))]);
    assert!(matches!(r.result, Err(RunError::Runtime(RuntimeError::TypeMismatch))));
}

#[test]
fn comparison_of_different_kinds_aborts() {
    let r = run(vec![Stmt::Expr(eq(Expression::Bool(true), num(1)))]);
    assert!(matches!(r.result, Err(RunError::Runtime(RuntimeError::TypeMismatch))));
    let r = run(vec![Stmt::Expr(neq(Expression::Bool(true), Expression::Bool(false)))]);
    assert_eq!(value(&r), Value::Bool(true));
    let r = run(vec![Stmt::Expr(eq(num(2), num(2)))]);
    assert_eq!(value(&r), Value::Bool(true));
}

#[test]
fn for_runs_to_minus_from_times() {
    assert_eq!(value(&run(count_rounds(2, 7))), Value::Int(5));
    assert_eq!(value(&run(count_rounds(-3, 3))), Value::Int(6));
    assert_eq!(value(&run(count_rounds(4, 4))), Value::Int(0));
}

#[test]
fn for_is_the_same_as_its_while() {
    // for (i <- 1 until 4) { n = n + i }
    let with_for = vec![
        Stmt::Var(id("n"), num(0)),
        Stmt::For(
            id("i"),
            num(1),
            num(4),
            Block(vec![Stmt::Assign(id("n"), add(name("n"), name("i")))]),
        ),
        Stmt::Expr(name("n")),
    ];
    // var i = 1; while (i != 4) { n = n + i; i = i + 1 }
    let with_while = vec![
        Stmt::Var(id("n"), num(0)),
        Stmt::Var(id("i"), num(1)),
        Stmt::While(
            neq(name("i"), num(4)),
            Block(vec![
                Stmt::Assign(id("n"), add(name("n"), name("i"))),
                Stmt::Assign(id("i"), add(name("i"), num(1))),
            ]),
        ),
        Stmt::Expr(name("n")),
    ];
    let a = run(with_for);
    let b = run(with_while);
    assert_eq!(value(&a), Value::Int(6));
    assert_eq!(value(&a), value(&b));
    assert!(a.diagnostics.is_empty());
}

#[test]
fn loop_variable_does_not_leak() {
    let r = run(vec![
        Stmt::For(id("i"), num(0), num(2), Block(vec![])),
        Stmt::Assign(id("i"), num(9)),
    ]);
    assert_eq!(messages(&r), vec!["\"i\" not defined".to_owned()]);
}

#[test]
fn redeclaration_gives_one_diagnostic_each_time() {
    let r = run(vec![
        Stmt::Val(id("x"), num(1)),
        Stmt::Var(at("x".to_owned(), 3, 4, 1), num(2)),
        Stmt::Val(id("x"), num(3)),
        Stmt::Expr(name("x")),
    ]);
    assert_eq!(messages(&r), vec!["redefine x".to_owned(), "redefine x".to_owned()]);
    assert_eq!(r.diagnostics[0].range, ((3, 4), (3, 5)));
}

#[test]
fn later_binding_shadows_the_former() {
    // val x = 1; var x = 2; x = 3   -- the assignment sees the `var`
    let r = run(vec![
        Stmt::Val(id("x"), num(1)),
        Stmt::Var(id("x"), num(2)),
        Stmt::Assign(id("x"), num(3)),
    ]);
    assert_eq!(messages(&r), vec!["redefine x".to_owned()]);
    // var x = 1; val x = 2; x = 3   -- the assignment sees the `val`
    let r = run(vec![
        Stmt::Var(id("x"), num(1)),
        Stmt::Val(id("x"), num(2)),
        Stmt::Assign(id("x"), num(3)),
    ]);
    assert_eq!(messages(&r), vec!["redefine x".to_owned(), "\"x\" is immutable".to_owned()]);
}

#[test]
fn assignment_to_val_is_reported_and_still_stores() {
    let r = run(vec![
        Stmt::Val(id("x"), num(1)),
        Stmt::Assign(id("x"), num(2)),
        Stmt::Expr(name("x")),
    ]);
    assert_eq!(messages(&r), vec!["\"x\" is immutable".to_owned()]);
    assert_eq!(value(&r), Value::Int(2));
}

#[test]
fn undeclared_name_is_reported_and_stops_the_second_lowering() {
    let r = run(vec![Stmt::Expr(name("y"))]);
    assert_eq!(messages(&r), vec!["use of undeclared value y".to_owned()]);
    assert!(matches!(&r.result, Err(RunError::Lowering(MirError::Unresolved(n))) if n.data == "y"));
    let r = run(vec![Stmt::Assign(id("z"), num(1))]);
    assert_eq!(messages(&r), vec!["\"z\" not defined".to_owned()]);
    assert!(matches!(&r.result, Err(RunError::Lowering(MirError::Unresolved(n))) if n.data == "z"));
}

#[test]
fn member_access_reads_the_receiver() {
    let r = run(vec![
        Stmt::Val(id("a"), num(4)),
        Stmt::Expr(Expression::ObjVal(id("a"), id("b"))),
    ]);
    assert_eq!(value(&r), Value::Int(4));
    let r = run(vec![Stmt::Expr(Expression::ObjVal(id("a"), id("b")))]);
    assert_eq!(messages(&r), vec!["use of undeclared value a".to_owned()]);
}

#[test]
fn array_then_print_shows_the_items_in_order() {
    let r = run(vec![
        Stmt::Val(id("a"), call("Array", vec![num(1), num(2), num(3)])),
        Stmt::Expr(call("print", vec![name("a")])),
        Stmt::Expr(name("a")),
    ]);
    assert_eq!(value(&r), Value::HeapId(0));
    assert_eq!(r.output.len(), 1);
    assert!(matches!(
        &r.output[0],
        Printed::Array(v) if v == &vec![Value::Int(1), Value::Int(2), Value::Int(3)]
    ));
}

#[test]
fn every_array_gets_an_id_of_its_own() {
    // the string literal has id 0, so the arrays start at 1
    let r = run(vec![
        Stmt::Val(id("a"), call("Array", vec![num(1)])),
        Stmt::Val(id("s"), Expression::String(id("x"))),
        Stmt::Val(id("b"), call("Array", vec![num(2)])),
        Stmt::Expr(call("print", vec![name("a"), name("s"), name("b")])),
        Stmt::Expr(name("b")),
    ]);
    assert_eq!(value(&r), Value::HeapId(2));
    assert_eq!(r.output.len(), 3);
    assert!(matches!(&r.output[0], Printed::Array(v) if v == &vec![Value::Int(1)]));
    assert!(matches!(&r.output[1], Printed::Text(s) if s == "x"));
    assert!(matches!(&r.output[2], Printed::Array(v) if v == &vec![Value::Int(2)]));
}

#[test]
fn print_shows_scalars_as_they_are() {
    let r = run(vec![Stmt::Expr(call(
        "print",
        vec![num(7), Expression::Bool(false)],
    ))]);
    assert_eq!(value(&r), Value::Unit);
    assert!(matches!(r.output[0], Printed::Scalar(Value::Int(7))));
    assert!(matches!(r.output[1], Printed::Scalar(Value::Bool(false))));
}

#[test]
fn same_program_twice_gives_the_same() {
    let program = || {
        vec![
            sum_to(),
            Stmt::Val(id("s"), Expression::String(id("abc"))),
            Stmt::Val(id("a"), call("Array", vec![call("f", vec![num(4)])])),
            Stmt::Expr(call("print", vec![name("a"), name("s")])),
            Stmt::Expr(name("a")),
        ]
    };
    let a = run(program());
    let b = run(program());
    assert_eq!(value(&a), Value::HeapId(1));
    assert_eq!(value(&a), value(&b));
    assert_eq!(format!("{:?}", a.output), format!("{:?}", b.output));
    assert!(matches!(&a.output[0], Printed::Array(v) if v == &vec![Value::Int(10)]));
}

#[test]
fn call_names_probe_built_ins_then_functions_then_classes() {
    let class = |n: &str, body: Vec<Stmt>| {
        TopItem::Class(Class {
            name: id(n),
            args: vec![(id("v"), id("Int"))],
            extends: None,
            with: vec![],
            block: Block(body),
        })
    };
    // a class is called with its constructor arguments bound
    let mut items = vec![class("Twice", vec![Stmt::Expr(add(name("v"), name("v")))])];
    items.extend(app(vec![Stmt::Expr(call("Twice", vec![num(21)]))]));
    assert_eq!(value(&run_program(items, None, UNLIMITED)), Value::Int(42));
    // a function of the same name comes before the class
    let mut items = vec![class("Twice", vec![Stmt::Expr(add(name("v"), name("v")))])];
    items.extend(app(vec![
        Stmt::Func(Func {
            name: id("Twice"),
            params: vec![(id("v"), id("Int"))],
            return_type: None,
            block: Block(vec![Stmt::Expr(num(0))]),
        }),
        Stmt::Expr(call("Twice", vec![num(21)])),
    ]));
    assert_eq!(value(&run_program(items, None, UNLIMITED)), Value::Int(0));
    // a built-in comes before a function of the same name
    let r = run(vec![
        Stmt::Func(Func {
            name: id("Array"),
            params: vec![],
            return_type: None,
            block: Block(vec![Stmt::Expr(num(0))]),
        }),
        Stmt::Expr(call("Array", vec![])),
    ]);
    assert_eq!(value(&r), Value::HeapId(0));
}

#[test]
fn functions_are_known_only_once_declared() {
    let r = run(vec![Stmt::Expr(call("f", vec![num(3)])), sum_to()]);
    assert!(matches!(r.result, Err(RunError::Runtime(RuntimeError::UnknownCallee))));
}

#[test]
fn nested_functions_do_not_see_the_locals_around_them() {
    let r = run(vec![
        Stmt::Val(id("x"), num(1)),
        Stmt::Func(Func {
            name: id("g"),
            params: vec![],
            return_type: None,
            block: Block(vec![Stmt::Expr(name("x"))]),
        }),
    ]);
    assert_eq!(messages(&r), vec!["use of undeclared value x".to_owned()]);
}

#[test]
fn repeated_parameter_is_reported() {
    let r = run(vec![Stmt::Func(Func {
        name: id("g"),
        params: vec![(id("a"), id("Int")), (id("a"), id("Int"))],
        return_type: None,
        block: Block(vec![]),
    })]);
    assert_eq!(messages(&r), vec!["redefine a".to_owned()]);
}

#[test]
fn a_call_leaves_the_locals_of_the_caller_alone() {
    let r = run(vec![
        Stmt::Val(id("x"), num(10)),
        sum_to(),
        Stmt::Val(id("y"), call("f", vec![num(2)])),
        Stmt::Expr(add(name("x"), name("y"))),
    ]);
    assert_eq!(value(&r), Value::Int(13));
}

#[test]
fn arithmetic_is_exact_or_aborts() {
    let bin = |e: Expression| run(vec![Stmt::Expr(e)]);
    assert_eq!(value(&bin(sub(num(3), num(5)))), Value::Int(-2));
    assert_eq!(
        value(&bin(Expression::Mul(Box::new(num(-4)), Box::new(num(6))))),
        Value::Int(-24)
    );
    let div = |a: i64, b: i64| bin(Expression::Div(Box::new(num(a)), Box::new(num(b))));
    assert_eq!(value(&div(7, 2)), Value::Int(3));
    assert_eq!(value(&div(-7, 2)), Value::Int(-3));
    assert_eq!(value(&div(7, -2)), Value::Int(-3));
    assert_eq!(value(&div(-7, -2)), Value::Int(3));
    assert!(matches!(div(1, 0).result, Err(RunError::Runtime(RuntimeError::DivisionByZero))));
    assert!(matches!(
        div(i64::MIN, -1).result,
        Err(RunError::Runtime(RuntimeError::Overflow))
    ));
    assert!(matches!(
        bin(add(num(i64::MAX), num(1))).result,
        Err(RunError::Runtime(RuntimeError::Overflow))
    ));
}

#[test]
fn endless_loop_ends_with_the_fuel() {
    let body = vec![Stmt::While(Expression::Bool(true), Block(vec![]))];
    let r = run_program(app(body), None, 1000);
    assert!(matches!(r.result, Err(RunError::Runtime(RuntimeError::StepLimit))));
}

#[test]
fn endless_recursion_ends_with_the_fuel() {
    let r = run_program(
        app(vec![
            Stmt::Func(Func {
                name: id("g"),
                params: vec![],
                return_type: None,
                block: Block(vec![Stmt::Expr(call("g", vec![]))]),
            }),
            Stmt::Expr(call("g", vec![])),
        ]),
        None,
        200,
    );
    assert!(matches!(r.result, Err(RunError::Runtime(RuntimeError::StepLimit))));
}

#[test]
fn fuel_counts_rounds_and_depth() {
    // five rounds need a fuel of five; the sixth test of the condition is free
    let mut body = count_to_five();
    body.push(Stmt::Expr(name("x")));
    assert_eq!(value(&run_program(app(body), None, 5)), Value::Int(5));
    let mut body = count_to_five();
    body.push(Stmt::Expr(name("x")));
    assert!(matches!(
        run_program(app(body), None, 4).result,
        Err(RunError::Runtime(RuntimeError::StepLimit))
    ));
    // f(3) nests four calls
    let r = run_program(app(vec![sum_to(), Stmt::Expr(call("f", vec![num(3)]))]), None, 4);
    assert_eq!(value(&r), Value::Int(6));
    let r = run_program(app(vec![sum_to(), Stmt::Expr(call("f", vec![num(3)]))]), None, 3);
    assert!(matches!(r.result, Err(RunError::Runtime(RuntimeError::StepLimit))));
}

#[test]
fn entry_is_the_first_that_extends_app() {
    let object = |n: &str, extends: Option<&str>, v: i64| {
        TopItem::Object(Object {
            name: id(n),
            extends: extends.map(id),
            with: vec![],
            block: Block(vec![Stmt::Expr(num(v))]),
        })
    };
    let items = || {
        vec![
            object("A", None, 1),
            object("B", Some("App"), 2),
            object("C", Some("App"), 3),
            object("D", Some("Application"), 4),
        ]
    };
    assert_eq!(value(&run_program(items(), None, UNLIMITED)), Value::Int(2));
    assert_eq!(value(&run_program(items(), Some("A".to_owned()), UNLIMITED)), Value::Int(1));
    assert_eq!(value(&run_program(items(), Some("D".to_owned()), UNLIMITED)), Value::Int(4));
    assert!(matches!(
        run_program(items(), Some("E".to_owned()), UNLIMITED).result,
        Err(RunError::NoEntry)
    ));
    assert!(matches!(
        run_program(vec![object("A", None, 1)], None, UNLIMITED).result,
        Err(RunError::NoEntry)
    ));
    let names: Vec<String> = runnable(&items()).into_iter().map(|s| s.data).collect();
    assert_eq!(names, vec!["B".to_owned(), "C".to_owned()]);
}

#[test]
fn if_without_else_is_unit() {
    let r = run(vec![Stmt::Expr(Expression::If(
        Box::new(Expression::Bool(false)),
        Block(vec![Stmt::Expr(num(1))]),
        None,
    ))]);
    assert_eq!(value(&r), Value::Unit);
    // anything but `true` takes the else branch
    let r = run(vec![Stmt::Expr(Expression::If(
        Box::new(num(1)),
        Block(vec![Stmt::Expr(num(1))]),
        Some(Block(vec![Stmt::Expr(num(2))])),
    ))]);
    assert_eq!(value(&r), Value::Int(2));
}

#[test]
fn return_does_not_unwind() {
    // the value of a block is that of its last statement
    let r = run(vec![Stmt::Return(num(1)), Stmt::Expr(num(2))]);
    assert_eq!(value(&r), Value::Int(2));
}

#[test]
fn errors_in_words() {
    let say = |body: Vec<Stmt>| run(body).result.unwrap_err().message();
    assert_eq!(say(vec![Stmt::Expr(add(Expression::Bool(true), num(1)))]), "type mismatch");
    assert_eq!(say(vec![Stmt::Expr(call("nobody", vec![]))]), "unknown callee");
    assert_eq!(say(vec![Stmt::Expr(name("y"))]), "unresolved name y");
    assert_eq!(
        say(vec![Stmt::Expr(Expression::Div(Box::new(num(1)), Box::new(num(0))))]),
        "division by zero"
    );
    assert_eq!(say(vec![Stmt::Expr(add(num(i64::MAX), num(1)))]), "arithmetic overflow");
    let r = run_program(app(vec![Stmt::While(Expression::Bool(true), Block(vec![]))]), None, 3);
    assert_eq!(r.result.unwrap_err().message(), "out of fuel");
    let r = run_program(app(vec![]), Some("Other".to_owned()), UNLIMITED);
    assert_eq!(r.result.unwrap_err().message(), "no entry point");
    assert_eq!(RuntimeError::MissingSlot.message(), "missing slot");
    assert_eq!(RuntimeError::DanglingHeapId.message(), "dangling heap id");
    assert_eq!(RuntimeError::HeapFull.message(), "heap full");
    assert_eq!(MirError::Exhausted.message(), "too many locals or string literals");
    assert_eq!(
        typort::run_code_vm("object", None, UNLIMITED).result.unwrap_err().message(),
        "parse error"
    );
}

#[test]
fn a_declaration_that_runs_again_lands_above_its_slot() {
    // var k = 0; var n = 0
    // while (k != 2) { for (i <- 0 until 3) { n = n + 1 }; k = k + 1 }
    // n
    // The counter is declared anew in every round of the outer loop, and
    // every declaration takes the next place on the stack; its slot stays
    // the one of the first round, which holds 3 by then.
    let r = run(vec![
        Stmt::Var(id("k"), num(0)),
        Stmt::Var(id("n"), num(0)),
        Stmt::While(
            neq(name("k"), num(2)),
            Block(vec![
                Stmt::For(
                    id("i"),
                    num(0),
                    num(3),
                    Block(vec![Stmt::Assign(id("n"), add(name("n"), num(1)))]),
                ),
                Stmt::Assign(id("k"), add(name("k"), num(1))),
            ]),
        ),
        Stmt::Expr(name("n")),
    ]);
    assert_eq!(value(&r), Value::Int(3));
}

#[test]
fn a_body_that_moves_the_counter_changes_the_rounds() {
    // for (i <- 0 until 4) { n = n + 1; i = i + 1 } runs two rounds
    let r = run(vec![
        Stmt::Var(id("n"), num(0)),
        Stmt::For(
            id("i"),
            num(0),
            num(4),
            Block(vec![
                Stmt::Assign(id("n"), add(name("n"), num(1))),
                Stmt::Assign(id("i"), add(name("i"), num(1))),
            ]),
        ),
        Stmt::Expr(name("n")),
    ]);
    assert_eq!(value(&r), Value::Int(2));
    assert!(r.diagnostics.is_empty());
}
