use typort::ast;
use typort::built_in::{bi_array, bi_print};
use typort::hir::{self, parse_to_hir, HirConverter};
use typort::mir::{self, first_free_id, hir_to_mir, MirConverter, MirError};
use typort::ty::Type;
use typort::vm::{apply, Arith, HeapValue, Interpreter, Printed, RuntimeError, Value};
use typort::Span;

fn sp<T>(data: T) -> Span<T> {
    Span { data, range: ((0, 0), (0, 0)) }
}

fn at<T>(data: T, line: usize, col: usize, len: usize) -> Span<T> {
    Span { data, range: ((line, col), (line, col + len)) }
}

fn id(s: &str) -> Span<String> {
    sp(s.to_owned())
}

fn object(name: &str, body: Vec<ast::Stmt>) -> ast::TopItem {
    ast::TopItem::Object(ast::Object {
        name: id(name),
        extends: Some(id("App")),
        with: vec![],
        block: ast::Block(body),
    })
}

fn lower(items: Vec<ast::TopItem>) -> Vec<mir::Class> {
    let (hir, diag) = parse_to_hir(items);
    assert!(diag.is_empty());
    match hir_to_mir(hir) {
        Ok(mir) => mir,
        Err(e) => panic!("{:?}", e),
    }
}

#[test]
fn span_map_keeps_the_range() {
    let s = at(20i64, 4, 7, 2);
    let t = s.map(|x| x + 1);
    assert_eq!(t.data, 21);
    assert_eq!(t.range, ((4, 7), (4, 9)));
    let n = at("abc".to_owned(), 1, 2, 3);
    let m = n.clone().map(|x: String| x.len());
    assert_eq!(m.data, 3);
    assert_eq!(m.range, n.range);
    let d = n.duplicate();
    assert_eq!(d.data, "abc");
    assert_eq!(d.range, ((1, 2), (1, 5)));
    let w = n.with(9u8);
    assert_eq!((w.data, w.range), (9u8, ((1, 2), (1, 5))));
}

#[test]
fn converter_starts_empty_and_binds_parameters_silently() {
    let mut c = HirConverter::new();
    assert!(c.diag().is_empty());
    c.add_param(&[(id("a"), id("Int")), (id("a"), id("Int")), (id("b"), id("Int"))]);
    assert!(c.diag().is_empty());
    // parameters are immutable
    let s = c.convert_stmt(ast::Stmt::Assign(id("a"), ast::Expression::Int(sp(1))));
    assert!(matches!(s, hir::Stmt::Assign(_, _)));
    let e = c.convert_expr(ast::Expression::Name(id("b")));
    assert!(matches!(e, hir::Expression::Name(n) if n.data == "b"));
    let e = c.convert_expr(ast::Expression::Name(at("c".to_owned(), 2, 5, 1)));
    assert!(matches!(e, hir::Expression::Name(n) if n.data == "c"));
    let found = c.finish();
    assert_eq!(found.len(), 2);
    assert_eq!(found[0].msg, "\"a\" is immutable");
    assert_eq!(found[1].msg, "use of undeclared value c");
    assert_eq!(found[1].range, ((2, 5), (2, 6)));
}

#[test]
fn call_of_a_local_value_goes_to_apply() {
    let mut c = HirConverter::new();
    c.convert_stmt(ast::Stmt::Val(id("f"), ast::Expression::Int(sp(1))));
    let e = c.convert_expr(ast::Expression::Call(
        at("f".to_owned(), 1, 0, 1),
        vec![ast::Expression::Int(sp(2))],
    ));
    match e {
        hir::Expression::ObjCall(recv, method, args) => {
            assert_eq!(recv.data, "f");
            assert_eq!(method.data, "apply");
            assert_eq!(method.range, ((1, 0), (1, 1)));
            assert_eq!(args.len(), 1);
        }
        other => panic!("{:?}", other),
    }
    let e = c.convert_expr(ast::Expression::Call(id("g"), vec![]));
    assert!(matches!(e, hir::Expression::Call(n, args) if n.data == "g" && args.is_empty()));
    let e = c.convert_expr(ast::Expression::ObjCall(id("x"), id("m"), vec![]));
    assert!(matches!(e, hir::Expression::ObjCall(r, m, _) if r.data == "x" && m.data == "m"));
    assert!(c.diag().is_empty());
}

#[test]
fn for_becomes_a_block_of_let_and_while() {
    let mut c = HirConverter::new();
    let s = c.convert_stmt(ast::Stmt::For(
        at("i".to_owned(), 3, 5, 1),
        ast::Expression::Int(sp(2)),
        ast::Expression::Int(sp(7)),
        ast::Block(vec![ast::Stmt::Expr(ast::Expression::Name(id("i")))]),
    ));
    assert!(c.diag().is_empty());
    let parts = match s {
        hir::Stmt::Block(parts) => parts,
        other => panic!("{:?}", other),
    };
    assert_eq!(parts.len(), 2);
    assert!(matches!(
        &parts[0],
        hir::Stmt::Let(n, hir::Expression::Int(from)) if n.data == "i" && from.data == 2
    ));
    let (cond, body) = match &parts[1] {
        hir::Stmt::While(cond, body) => (cond, body),
        other => panic!("{:?}", other),
    };
    match cond {
        hir::Expression::Neq(l, r) => {
            assert!(matches!(&**l, hir::Expression::Name(n) if n.data == "i"));
            assert!(matches!(&**r, hir::Expression::Int(to) if to.data == 7));
        }
        other => panic!("{:?}", other),
    }
    assert_eq!(body.len(), 2);
    assert!(matches!(&body[0], hir::Stmt::Expr(hir::Expression::Name(n)) if n.data == "i"));
    match &body[1] {
        hir::Stmt::Assign(n, hir::Expression::Add(l, r)) => {
            assert_eq!(n.data, "i");
            assert!(matches!(&**l, hir::Expression::Name(n) if n.data == "i"));
            assert!(matches!(&**r, hir::Expression::Int(one) if one.data == 1 && one.range == ((3, 5), (3, 6))));
        }
        other => panic!("{:?}", other),
    }
    // the loop variable is gone afterwards
    c.convert_expr(ast::Expression::Name(id("i")));
    assert_eq!(c.diag().len(), 1);
    assert_eq!(c.diag()[0].msg, "use of undeclared value i");
}

#[test]
fn slots_are_dense_and_parameters_come_first() {
    let class = ast::TopItem::Class(ast::Class {
        name: id("C"),
        args: vec![(at("a".to_owned(), 1, 8, 1), id("Int")), (id("b"), id("Bool"))],
        extends: None,
        with: vec![id("T")],
        block: ast::Block(vec![
            ast::Stmt::Val(id("x"), ast::Expression::Name(id("b"))),
            ast::Stmt::Func(ast::Func {
                name: id("f"),
                params: vec![(id("p"), id("Int")), (id("q"), id("Int"))],
                return_type: None,
                block: ast::Block(vec![
                    ast::Stmt::Val(id("r"), ast::Expression::Name(id("q"))),
                    ast::Stmt::Expr(ast::Expression::Name(id("r"))),
                ]),
            }),
            ast::Stmt::Var(id("y"), ast::Expression::Name(id("x"))),
            ast::Stmt::Assign(id("y"), ast::Expression::Name(id("a"))),
        ]),
    });
    let mir = lower(vec![class]);
    assert_eq!(mir.len(), 1);
    let c = &mir[0];
    assert_eq!(c.name.data, "C");
    assert_eq!(c.with[0].data, "T");
    assert_eq!(c.args.len(), 2);
    assert_eq!((c.args[0].0.data, c.args[0].0.range), (0, ((1, 8), (1, 9))));
    assert_eq!(c.args[0].1.data, "Int");
    assert_eq!(c.args[1].0.data, 1);
    assert!(matches!(
        &c.block[0],
        mir::Stmt::Let(x, mir::Expression::Name(b)) if x.data == 2 && b.data == 1
    ));
    match &c.block[1] {
        mir::Stmt::Func { name, params, block, .. } => {
            assert_eq!(name.data, "f");
            assert_eq!(params, &vec![0, 1]);
            assert!(matches!(
                &block[0],
                mir::Stmt::Let(r, mir::Expression::Name(q)) if r.data == 2 && q.data == 1
            ));
            assert!(matches!(&block[1], mir::Stmt::Expr(mir::Expression::Name(r)) if r.data == 2));
        }
        other => panic!("{:?}", other),
    }
    assert!(matches!(
        &c.block[2],
        mir::Stmt::Let(y, mir::Expression::Name(x)) if y.data == 3 && x.data == 2
    ));
    assert!(matches!(
        &c.block[3],
        mir::Stmt::Assign(y, mir::Expression::Name(a)) if y.data == 3 && a.data == 0
    ));
}

#[test]
fn string_literals_are_numbered_through_all_classes() {
    let text = |s: &str| ast::Stmt::Expr(ast::Expression::String(id(s)));
    let mir = lower(vec![
        object(
            "A",
            vec![
                text("a"),
                ast::Stmt::Func(ast::Func {
                    name: id("f"),
                    params: vec![],
                    return_type: None,
                    block: ast::Block(vec![text("b")]),
                }),
                text("c"),
            ],
        ),
        object("B", vec![text("d")]),
    ]);
    let literal = |s: &mir::Stmt| match s {
        mir::Stmt::Expr(mir::Expression::String(n, t)) => (*n, t.data.clone()),
        other => panic!("{:?}", other),
    };
    assert_eq!(literal(&mir[0].block[0]), (0, "a".to_owned()));
    match &mir[0].block[1] {
        mir::Stmt::Func { block, .. } => assert_eq!(literal(&block[0]), (1, "b".to_owned())),
        other => panic!("{:?}", other),
    }
    assert_eq!(literal(&mir[0].block[2]), (2, "c".to_owned()));
    assert_eq!(literal(&mir[1].block[0]), (3, "d".to_owned()));
    assert_eq!(first_free_id(&mir), 4);
    assert_eq!(first_free_id(&Vec::new()), 0);
}

#[test]
fn method_calls_lose_their_method() {
    let mir = lower(vec![object(
        "A",
        vec![
            ast::Stmt::Val(id("x"), ast::Expression::Int(sp(1))),
            ast::Stmt::Expr(ast::Expression::ObjCall(id("x"), id("m"), vec![])),
            ast::Stmt::Expr(ast::Expression::Call(id("x"), vec![])),
        ],
    )]);
    assert!(matches!(
        &mir[0].block[1],
        mir::Stmt::Expr(mir::Expression::Call(n, args)) if n.data == "x" && args.is_empty()
    ));
    assert!(matches!(
        &mir[0].block[2],
        mir::Stmt::Expr(mir::Expression::Call(n, _)) if n.data == "x"
    ));
}

#[test]
fn converter_of_its_own_counts_from_zero() {
    let mut c = MirConverter::new();
    let e = c.convert_expr(hir::Expression::String(id("s")));
    assert!(matches!(e, Ok(mir::Expression::String(0, _))));
    let e = c.convert_expr(hir::Expression::String(id("t")));
    assert!(matches!(e, Ok(mir::Expression::String(1, _))));
    let s = c.convert_stmt(hir::Stmt::Let(id("x"), hir::Expression::Int(sp(1))));
    assert!(matches!(s, Ok(mir::Stmt::Let(x, _)) if x.data == 0));
    let s = c.convert_stmt(hir::Stmt::Let(id("x"), hir::Expression::Name(id("x"))));
    assert!(matches!(s, Ok(mir::Stmt::Let(x, mir::Expression::Name(y))) if x.data == 1 && y.data == 1));
    let e = c.convert_expr(hir::Expression::Name(at("nope".to_owned(), 5, 1, 4)));
    assert!(matches!(
        e,
        Err(MirError::Unresolved(n)) if n.data == "nope" && n.range == ((5, 1), (5, 5))
    ));
    let class = hir::Class {
        name: id("K"),
        args: vec![(id("x"), id("Int"))],
        extends: None,
        with: vec![],
        block: vec![hir::Stmt::Expr(hir::Expression::String(id("u")))],
    };
    // the slots start anew, the heap ids go on
    let k = c.convert(class).unwrap();
    assert_eq!(k.args[0].0.data, 0);
    assert!(matches!(&k.block[0], mir::Stmt::Expr(mir::Expression::String(2, _))));
}

fn script(body: Vec<mir::Stmt>) -> Vec<mir::Class> {
    vec![mir::Class { name: id("Main"), args: vec![], extends: None, with: vec![], block: body }]
}

#[test]
fn reading_above_the_stack_aborts() {
    let program = script(vec![mir::Stmt::Expr(mir::Expression::Name(sp(3)))]);
    let mut vm = Interpreter::new(&program);
    assert_eq!(vm.translate_block(&program[0].block, 10), Err(RuntimeError::MissingSlot));
    let program = script(vec![mir::Stmt::Assign(sp(0), mir::Expression::Int(sp(1)))]);
    let mut vm = Interpreter::new(&program);
    assert_eq!(vm.translate_stmt(&program[0].block[0], 10), Err(RuntimeError::MissingSlot));
    let program = script(vec![mir::Stmt::Expr(mir::Expression::Name(sp(usize::MAX)))]);
    let mut vm = Interpreter::new(&program);
    assert_eq!(vm.translate_block(&program[0].block, 10), Err(RuntimeError::MissingSlot));
}

#[test]
fn let_pushes_and_assign_stores() {
    let program = script(vec![
        mir::Stmt::Let(sp(0), mir::Expression::Int(sp(4))),
        mir::Stmt::Let(sp(1), mir::Expression::Bool(true)),
        mir::Stmt::Assign(sp(0), mir::Expression::Int(sp(5))),
    ]);
    let mut vm = Interpreter::new(&program);
    assert_eq!(vm.translate_block(&program[0].block, 10), Ok(Value::Unit));
    assert_eq!(vm.stack(), &vec![Value::Int(5), Value::Bool(true)]);
}

#[test]
fn printing_a_dangling_reference_aborts() {
    let program = script(vec![]);
    let mut vm = Interpreter::new(&program);
    assert_eq!(
        bi_print(&mut vm, vec![Value::Int(1), Value::HeapId(9), Value::Int(2)]),
        Err(RuntimeError::DanglingHeapId)
    );
    // what came before the failure was shown
    assert_eq!(vm.output().len(), 1);
    assert!(matches!(vm.output()[0], Printed::Scalar(Value::Int(1))));
    assert_eq!(bi_print(&mut vm, vec![Value::Unit]), Ok(Value::Unit));
    assert!(matches!(vm.output()[1], Printed::Scalar(Value::Unit)));
}

#[test]
fn arrays_get_fresh_ids_above_the_literals() {
    let program = script(vec![mir::Stmt::Expr(mir::Expression::String(6, id("six")))]);
    let mut vm = Interpreter::new(&program);
    assert_eq!(vm.next_id(), 7);
    assert_eq!(bi_array(&mut vm, vec![Value::Int(1), Value::Int(2)]), Ok(Value::HeapId(7)));
    assert_eq!(bi_array(&mut vm, vec![]), Ok(Value::HeapId(8)));
    assert_eq!(vm.translate_block(&program[0].block, 10), Ok(Value::HeapId(6)));
    assert!(matches!(vm.heap_get(6), Some(HeapValue::String(s)) if s == "six"));
    assert!(matches!(
        vm.heap_get(7),
        Some(HeapValue::Vec(v)) if v == &vec![Value::Int(1), Value::Int(2)]
    ));
    assert!(matches!(vm.heap_get(8), Some(HeapValue::Vec(v)) if v.is_empty()));
    assert!(vm.heap_get(9).is_none());
    assert_eq!(vm.next_id(), 9);
}

#[test]
fn the_last_heap_id_is_never_given_out() {
    let program = script(vec![mir::Stmt::Expr(mir::Expression::String(usize::MAX, id("x")))]);
    let mut vm = Interpreter::new(&program);
    assert_eq!(vm.next_id(), usize::MAX);
    assert_eq!(vm.translate_block(&program[0].block, 10), Err(RuntimeError::HeapFull));
    assert_eq!(bi_array(&mut vm, vec![]), Err(RuntimeError::HeapFull));
    let program = script(vec![mir::Stmt::Expr(mir::Expression::String(usize::MAX - 1, id("x")))]);
    let mut vm = Interpreter::new(&program);
    assert_eq!(vm.translate_block(&program[0].block, 10), Ok(Value::HeapId(usize::MAX - 1)));
    assert_eq!(bi_array(&mut vm, vec![]), Err(RuntimeError::HeapFull));
}

#[test]
fn a_frame_takes_as_many_arguments_as_there_are_parameters() {
    // def f(a) { a }  called with two arguments, and def g(a, b) { b } with one
    let program = script(vec![
        mir::Stmt::Func {
            name: id("f"),
            params: vec![0],
            return_type: None,
            block: vec![mir::Stmt::Expr(mir::Expression::Name(sp(0)))],
        },
        mir::Stmt::Func {
            name: id("g"),
            params: vec![0, 1],
            return_type: None,
            block: vec![mir::Stmt::Expr(mir::Expression::Name(sp(1)))],
        },
        mir::Stmt::Expr(mir::Expression::Call(
            id("f"),
            vec![mir::Expression::Int(sp(1)), mir::Expression::Int(sp(2))],
        )),
        mir::Stmt::Expr(mir::Expression::Call(id("g"), vec![mir::Expression::Int(sp(1))])),
    ]);
    let mut vm = Interpreter::new(&program);
    assert_eq!(vm.translate_stmt(&program[0].block[0], 10), Ok(Value::Unit));
    assert_eq!(vm.translate_stmt(&program[0].block[1], 10), Ok(Value::Unit));
    assert_eq!(vm.translate_stmt(&program[0].block[2], 10), Ok(Value::Int(1)));
    assert!(vm.stack().is_empty());
    assert_eq!(vm.translate_stmt(&program[0].block[3], 10), Err(RuntimeError::MissingSlot));
}

#[test]
fn a_later_class_of_the_same_name_wins() {
    let class = |v: i64| mir::Class {
        name: id("K"),
        args: vec![],
        extends: None,
        with: vec![],
        block: vec![mir::Stmt::Expr(mir::Expression::Int(sp(v)))],
    };
    let program = vec![class(1), class(2)];
    let mut vm = Interpreter::new(&program);
    let call = mir::Expression::Call(id("K"), vec![]);
    assert_eq!(vm.translate_expr(&call, 1), Ok(Value::Int(2)));
    assert_eq!(vm.translate_expr(&call, 0), Err(RuntimeError::StepLimit));
    assert!(vm.class_body("K").is_some());
    assert!(vm.class_body("L").is_none());
    let unknown = mir::Expression::Call(id("L"), vec![]);
    assert_eq!(vm.translate_expr(&unknown, 1), Err(RuntimeError::UnknownCallee));
}

#[test]
fn arithmetic_on_values() {
    assert_eq!(apply(Arith::Add, Value::Int(2), Value::Int(3)), Ok(Value::Int(5)));
    assert_eq!(apply(Arith::Sub, Value::Int(2), Value::Int(3)), Ok(Value::Int(-1)));
    assert_eq!(apply(Arith::Mul, Value::Int(-2), Value::Int(3)), Ok(Value::Int(-6)));
    assert_eq!(apply(Arith::Div, Value::Int(-9), Value::Int(2)), Ok(Value::Int(-4)));
    assert_eq!(apply(Arith::Div, Value::Int(9), Value::Int(0)), Err(RuntimeError::DivisionByZero));
    assert_eq!(apply(Arith::Mul, Value::Int(i64::MAX), Value::Int(2)), Err(RuntimeError::Overflow));
    assert_eq!(apply(Arith::Sub, Value::Int(i64::MIN), Value::Int(1)), Err(RuntimeError::Overflow));
    assert_eq!(apply(Arith::Add, Value::Unit, Value::Int(1)), Err(RuntimeError::TypeMismatch));
    assert_eq!(apply(Arith::Add, Value::Int(1), Value::HeapId(0)), Err(RuntimeError::TypeMismatch));
    assert_eq!(apply(Arith::Div, Value::Bool(true), Value::Int(0)), Err(RuntimeError::TypeMismatch));
}

#[test]
fn types_are_written_as_in_the_language() {
    let b = |t: Type| Box::new(t);
    assert_eq!(Type::Unit.render(), "Unit");
    assert_eq!(Type::Bool.render(), "Bool");
    assert_eq!(Type::I64.render(), "Int");
    assert_eq!(Type::F64.render(), "Float");
    assert_eq!(Type::Own("Thing".to_owned()).render(), "Thing");
    assert_eq!(Type::Tuple2(b(Type::I64), b(Type::Bool)).render(), "(Int, Bool)");
    assert_eq!(
        Type::Tuple3(b(Type::I64), b(Type::Bool), b(Type::Unit)).render(),
        "(Int, Bool, Unit)"
    );
    assert_eq!(
        Type::Tuple4(b(Type::I64), b(Type::Bool), b(Type::Unit), b(Type::F64)).render(),
        "(Int, Bool, Unit, Float)"
    );
    assert_eq!(Type::Func(vec![], b(Type::Unit)).render(), "() -> Unit");
    assert_eq!(Type::Func(vec![Type::I64], b(Type::Bool)).render(), "(Int) -> Bool");
    assert_eq!(
        Type::Func(
            vec![Type::I64, Type::Tuple2(b(Type::Bool), b(Type::Own("T".to_owned()))), Type::F64],
            b(Type::Func(vec![Type::Unit], b(Type::I64)))
        )
        .render(),
        "(Int, (Bool, T), Float) -> (Unit) -> Int"
    );
}

#[test]
fn copies_are_the_same_trees() {
    let item = object(
        "A",
        vec![
            ast::Stmt::Var(id("n"), ast::Expression::Int(sp(0))),
            ast::Stmt::For(
                at("i".to_owned(), 2, 7, 1),
                ast::Expression::Int(sp(0)),
                ast::Expression::Int(sp(4)),
                ast::Block(vec![ast::Stmt::Assign(
                    id("n"),
                    ast::Expression::Add(
                        Box::new(ast::Expression::Name(id("n"))),
                        Box::new(ast::Expression::Call(
                            id("f"),
                            vec![ast::Expression::String(id("s")), ast::Expression::Bool(true)],
                        )),
                    ),
                )]),
            ),
            ast::Stmt::Func(ast::Func {
                name: id("f"),
                params: vec![(id("a"), id("Int"))],
                return_type: Some(id("Int")),
                block: ast::Block(vec![ast::Stmt::Return(ast::Expression::If(
                    Box::new(ast::Expression::Name(id("a"))),
                    ast::Block(vec![]),
                    Some(ast::Block(vec![ast::Stmt::Expr(ast::Expression::ObjVal(id("a"), id("b")))])),
                ))]),
            }),
        ],
    );
    let copy = item.clone();
    assert_eq!(format!("{:?}", copy), format!("{:?}", item));
    let (hir, _) = parse_to_hir(vec![item]);
    let hir_copy = hir.clone();
    assert_eq!(format!("{:?}", hir_copy), format!("{:?}", hir));
    let mir = hir_to_mir(hir).unwrap();
    assert_eq!(format!("{:?}", mir.clone()), format!("{:?}", mir));
    assert_eq!(format!("{:?}", hir_to_mir(hir_copy).unwrap()), format!("{:?}", mir));
}
