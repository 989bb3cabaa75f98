use typort::ast::{Expression, Stmt, TopItem};
use typort::lex::{id, literal, varid, Literal};
use typort::parser::{
    block, chars_of, escaped_quoted_span, expect, expr, integer, name, parse, stmt,
    text_of, whitespace, Location, Outcome, ParseError,
};
use typort::vm::{Printed, RuntimeError, Value};
use typort::{run_code_vm, RunError, UNLIMITED};

const START: Location = Location { offset: 0, line: 0, col: 0 };

fn chars(s: &str) -> Vec<char> {
    chars_of(s)
}

fn expression(s: &str) -> Expression {
    match expr(&chars(s), START, UNLIMITED) {
        Outcome::Match(e, _) => e,
        other => panic!("{:?}", other),
    }
}

fn shape(e: &Expression) -> String {
    match e {
        Expression::Int(n) => format!("{}", n.data),
        Expression::String(s) => format!("{:?}", s.data),
        Expression::Bool(b) => format!("{}", b),
        Expression::Name(n) => n.data.clone(),
        Expression::ObjVal(a, b) => format!("{}.{}", a.data, b.data),
        Expression::Add(a, b) => format!("({} + {})", shape(a), shape(b)),
        Expression::Sub(a, b) => format!("({} - {})", shape(a), shape(b)),
        Expression::Mul(a, b) => format!("({} * {})", shape(a), shape(b)),
        Expression::Div(a, b) => format!("({} / {})", shape(a), shape(b)),
        Expression::Eq(a, b) => format!("({} == {})", shape(a), shape(b)),
        Expression::Neq(a, b) => format!("({} != {})", shape(a), shape(b)),
        Expression::Call(f, args) => {
            let args: Vec<String> = args.iter().map(shape).collect();
            format!("{}({})", f.data, args.join(", "))
        }
        Expression::ObjCall(a, f, args) => {
            let args: Vec<String> = args.iter().map(shape).collect();
            format!("{}.{}({})", a.data, f.data, args.join(", "))
        }
        Expression::If(c, t, e) => format!(
            "if {} {{{}}}{}",
            shape(c),
            t.0.len(),
            match e {
                Some(e) => format!(" else {{{}}}", e.0.len()),
                None => String::new(),
            }
        ),
    }
}

fn value_of(code: &str) -> Value {
    let r = run_code_vm(code, None, UNLIMITED);
    assert!(r.diagnostics.is_empty(), "{:?}", r.diagnostics);
    match r.result {
        Ok(v) => v,
        Err(e) => panic!("{:?}", e),
    }
}

#[test]
fn text_becomes_characters_and_back() {
    let c = chars("a\u{e9}\n\u{1F600}b");
    assert_eq!(c, vec!['a', '\u{e9}', '\n', '\u{1F600}', 'b']);
    assert_eq!(text_of(&c, 1, 4), "\u{e9}\n\u{1F600}");
    assert_eq!(text_of(&c, 2, 2), "");
    assert!(chars("").is_empty());
}

#[test]
fn blanks_move_lines_and_columns() {
    let c = chars("  \t\n \r\n   x  ");
    let l = whitespace(&c, START);
    assert_eq!(l, Location { offset: 10, line: 2, col: 3 });
    assert_eq!(whitespace(&c, l), l);
    let end = Location { offset: c.len(), line: 2, col: 6 };
    assert_eq!(whitespace(&c, end), end);
}

#[test]
fn tokens_take_their_blanks() {
    let c = chars("val  x");
    assert_eq!(expect(&c, START, "val"), Some(Location { offset: 5, line: 0, col: 5 }));
    assert_eq!(expect(&c, START, "var"), None);
    assert_eq!(expect(&c, START, "val  x y"), None);
    assert_eq!(expect(&c, START, ""), Some(START));
    // key words are no words of their own
    let c = chars("value");
    assert_eq!(expect(&c, START, "val"), Some(Location { offset: 3, line: 0, col: 3 }));
}

#[test]
fn names_begin_with_a_letter() {
    let c = chars("ab_1cd  +");
    let (n, l) = name(&c, START).unwrap();
    assert_eq!(n.data, "ab_1cd");
    assert_eq!(n.range, ((0, 0), (0, 6)));
    assert_eq!(l, Location { offset: 8, line: 0, col: 8 });
    assert!(name(&chars("_a"), START).is_none());
    assert!(name(&chars("1a"), START).is_none());
    assert!(name(&chars(""), START).is_none());
    assert!(name(&chars("\u{e9}t\u{e9}"), START).is_none());
    let c = chars("\n  x\ny");
    let at = whitespace(&c, START);
    let (n, l) = name(&c, at).unwrap();
    assert_eq!((n.data.as_str(), n.range), ("x", ((1, 2), (1, 3))));
    assert_eq!(l, Location { offset: 5, line: 2, col: 0 });
}

#[test]
fn whole_numbers_fit_sixty_four_bits() {
    let number = |s: &str| integer(&chars(s), START).map(|(n, l)| (n.data, n.range, l.offset));
    assert_eq!(number("123 "), Some((123, ((0, 0), (0, 3)), 4)));
    assert_eq!(number("-45x"), Some((-45, ((0, 0), (0, 3)), 3)));
    assert_eq!(number("+7"), Some((7, ((0, 0), (0, 2)), 2)));
    assert_eq!(number("007"), Some((7, ((0, 0), (0, 3)), 3)));
    assert_eq!(number("0"), Some((0, ((0, 0), (0, 1)), 1)));
    assert_eq!(number("9223372036854775807"), Some((i64::MAX, ((0, 0), (0, 19)), 19)));
    assert_eq!(number("-9223372036854775808"), Some((i64::MIN, ((0, 0), (0, 20)), 20)));
    assert_eq!(number("9223372036854775808"), None);
    assert_eq!(number("-9223372036854775809"), None);
    assert_eq!(number("99999999999999999999999"), None);
    assert_eq!(number("-"), None);
    assert_eq!(number("+"), None);
    assert_eq!(number("- 1"), None);
    assert_eq!(number(""), None);
    assert_eq!(number("x1"), None);
}

#[test]
fn strings_end_at_the_next_quote() {
    let c = chars("\"ab cd\"  x");
    let (s, l) = escaped_quoted_span(&c, START).unwrap();
    assert_eq!(s.data, "ab cd");
    assert_eq!(s.range, ((0, 0), (0, 7)));
    assert_eq!(l, Location { offset: 9, line: 0, col: 9 });
    let (s, _) = escaped_quoted_span(&chars("\"\""), START).unwrap();
    assert_eq!(s.data, "");
    let (s, _) = escaped_quoted_span(&chars("\"a\\\" b"), START).unwrap();
    assert_eq!(s.data, "a\\");
    assert!(escaped_quoted_span(&chars("\"open"), START).is_none());
    assert!(escaped_quoted_span(&chars("x\"y\""), START).is_none());
    assert!(escaped_quoted_span(&chars(""), START).is_none());
}

#[test]
fn every_operator_takes_all_that_follows() {
    assert_eq!(shape(&expression("1 - 2 - 3")), "(1 - (2 - 3))");
    assert_eq!(shape(&expression("a == b + c")), "(a == (b + c))");
    assert_eq!(shape(&expression("a + b == c")), "(a + (b == c))");
    assert_eq!(shape(&expression("a * b + c")), "(a * (b + c))");
    assert_eq!(shape(&expression("a + b * c")), "(a + (b * c))");
    assert_eq!(shape(&expression("(a + b) * c")), "((a + b) * c)");
    assert_eq!(shape(&expression("n-1")), "(n - 1)");
    assert_eq!(shape(&expression("n - -1")), "(n - -1)");
    assert_eq!(shape(&expression("a != b / c")), "(a != (b / c))");
}

#[test]
fn calls_names_and_literals() {
    assert_eq!(shape(&expression("f(n - 1, g(), \"s\",)")), "f((n - 1), g(), \"s\")");
    assert_eq!(shape(&expression("f()")), "f()");
    assert_eq!(shape(&expression("f")), "f");
    assert_eq!(shape(&expression("true")), "true");
    assert_eq!(shape(&expression("false == x")), "(false == x)");
    assert_eq!(shape(&expression("trueish")), "true");
    assert_eq!(shape(&expression("if a == 0 { 1 2 } else { 3 }")), "if (a == 0) {2} else {1}");
    assert_eq!(shape(&expression("if a { }")), "if a {0}");
    // the operator is given back where nothing follows it
    match expr(&chars("a + )"), START, UNLIMITED) {
        Outcome::Match(e, l) => {
            assert_eq!(shape(&e), "a");
            assert_eq!(l.offset, 2);
        }
        other => panic!("{:?}", other),
    }
    assert!(matches!(expr(&chars(")"), START, UNLIMITED), Outcome::NoMatch));
    assert!(matches!(expr(&chars(""), START, UNLIMITED), Outcome::NoMatch));
}

#[test]
fn statements_in_their_order_of_choice() {
    let one = |s: &str| match stmt(&chars(s), START, UNLIMITED) {
        Outcome::Match(x, l) => (x, l.offset),
        other => panic!("{:?}", other),
    };
    assert!(matches!(one("val x = 1"), (Stmt::Val(n, Expression::Int(v)), 9) if n.data == "x" && v.data == 1));
    assert!(matches!(one("var y=2 "), (Stmt::Var(n, _), 8) if n.data == "y"));
    assert!(matches!(one("x = x + 1"), (Stmt::Assign(n, Expression::Add(_, _)), 9) if n.data == "x"));
    assert!(matches!(one("x == 1"), (Stmt::Expr(Expression::Eq(_, _)), 6)));
    assert!(matches!(one("return x"), (Stmt::Return(Expression::Name(_)), 8)));
    assert!(matches!(one("while (x != 5) { x = x + 1 }"), (Stmt::While(Expression::Neq(_, _), b), 28) if b.0.len() == 1));
    match one("for (i <- 0 until n) { }") {
        (Stmt::For(i, Expression::Int(from), Expression::Name(to), b), 24) => {
            assert_eq!((i.data.as_str(), from.data, to.data.as_str(), b.0.len()), ("i", 0, "n", 0));
            assert_eq!(i.range, ((0, 5), (0, 6)));
        }
        other => panic!("{:?}", other),
    }
    match one("def f(a: Int, b: Bool): Int = { a }") {
        (Stmt::Func(f), 35) => {
            assert_eq!(f.name.data, "f");
            assert_eq!(f.params.len(), 2);
            assert_eq!((f.params[1].0.data.as_str(), f.params[1].1.data.as_str()), ("b", "Bool"));
            assert_eq!(f.return_type.unwrap().data, "Int");
            assert_eq!(f.block.0.len(), 1);
        }
        other => panic!("{:?}", other),
    }
    match one("def g() { }") {
        (Stmt::Func(f), 11) => {
            assert!(f.params.is_empty());
            assert!(f.return_type.is_none());
        }
        other => panic!("{:?}", other),
    }
    // `value` begins with `val`
    assert!(matches!(one("value = 1"), (Stmt::Val(n, _), 9) if n.data == "ue"));
}

#[test]
fn lib_test() {
    let f = parse(
        r#"
fn main() {
    let x = 123;
    let y = x + 345;
    println(y);
}
        "#,
        UNLIMITED,
    );
    assert_eq!(f.unwrap_err(), ParseError::Stopped(Location { offset: 1, line: 1, col: 0 }));
    let f = parse(
        r#"
fn recursive_fib(n : i64) -> i64 {
    if n == 0 {
        return 0
    } else {
        if n == 1 {
            return 1
        } else {
            return recursive_fib(n - 1) + recursive_fib(n - 2)
        }
    }
}
        "#,
        UNLIMITED,
    );
    assert!(matches!(f, Err(ParseError::Stopped(l)) if l.offset == 1));
    let f = stmt(&chars(r#"let x = 123;"#), START, UNLIMITED);
    assert!(matches!(f, Outcome::Match(Stmt::Expr(Expression::Name(n)), l) if n.data == "let" && l.offset == 4));
    let f = stmt(&chars(r#"let y = x + 345;"#), START, UNLIMITED);
    assert!(matches!(f, Outcome::Match(Stmt::Expr(Expression::Name(n)), _) if n.data == "let"));
    let f = block(
        &chars(
            r#"{let x = 123;
        let y = x + 345;}"#,
        ),
        START,
        UNLIMITED,
    );
    assert!(matches!(f, Outcome::NoMatch));
    let f = expr(&chars(r#"println(y);"#), START, UNLIMITED);
    assert!(matches!(f, Outcome::Match(Expression::Call(n, a), l) if n.data == "println" && a.len() == 1 && l.offset == 10));
    // the block does not close after the semicolon, so `if` is read as a name
    let f = expr(&chars(r#"if n == 0 {return 0;}"#), START, UNLIMITED);
    assert!(matches!(f, Outcome::Match(Expression::Name(n), l) if n.data == "if" && l.offset == 3));
    let f = parse(
        r#"
fn testloop(n : i64) -> i64 {
    let x = 0
    let ret = 0
    while(x != n) {
        x = x + 1
        ret = ret + x
    }
    return ret
}
        "#,
        UNLIMITED,
    );
    assert!(f.is_err());
    let f = parse(
        r#"
fn testloop(n : i64) -> i64 {
    let ret = 0
    for(x <- 0 until n) {
        ret = ret + x
    }
    return ret
}
        "#,
        UNLIMITED,
    );
    assert!(f.is_err());
    let f = parse(
        r#"
fn main() -> String {
    let ret = "abcd"
    ret
}
        "#,
        UNLIMITED,
    );
    assert!(f.is_err());
    let f = parse(
        r#"
fn main() -> Unit {
    let x = Array(1,2,3,4)
    print(x)
}
        "#,
        UNLIMITED,
    );
    assert!(f.is_err());
}

#[test]
fn files_hold_objects_and_classes() {
    let items = parse(
        "\n object A extends App with T with U { }\nclass B(x: Int, y: Int,) extends A { x }\nclass C { }\nobject D{}",
        UNLIMITED,
    )
    .unwrap();
    assert_eq!(items.len(), 4);
    match &items[0] {
        TopItem::Object(o) => {
            assert_eq!(o.name.data, "A");
            assert_eq!(o.name.range, ((1, 8), (1, 9)));
            assert_eq!(o.extends.as_ref().unwrap().data, "App");
            assert_eq!(o.with.len(), 2);
            assert_eq!(o.with[1].data, "U");
        }
        other => panic!("{:?}", other),
    }
    match &items[1] {
        TopItem::Class(c) => {
            assert_eq!(c.name.data, "B");
            assert_eq!(c.args.len(), 2);
            assert_eq!(c.args[1].0.data, "y");
            assert_eq!(c.extends.as_ref().unwrap().data, "A");
            assert!(c.with.is_empty());
            assert_eq!(c.block.0.len(), 1);
        }
        other => panic!("{:?}", other),
    }
    assert!(matches!(&items[2], TopItem::Class(c) if c.args.is_empty() && c.extends.is_none()));
    assert!(matches!(&items[3], TopItem::Object(o) if o.name.data == "D"));
    assert!(parse("", UNLIMITED).unwrap().is_empty());
    assert!(parse("  \n ", UNLIMITED).unwrap().is_empty());
    match typort::parser::file(&chars("object A { } junk"), UNLIMITED) {
        Outcome::Match(items, l) => {
            assert_eq!(items.len(), 1);
            assert_eq!(l.offset, 13);
        }
        other => panic!("{:?}", other),
    }
    assert_eq!(
        parse("object A { } junk", UNLIMITED).unwrap_err(),
        ParseError::Stopped(Location { offset: 13, line: 0, col: 13 })
    );
    assert!(parse("object A { ", UNLIMITED).is_err());
}

#[test]
fn nesting_is_bounded_by_the_fuel() {
    let deep = "object A { if a { if b { if c { 1 } } } }";
    assert!(parse(deep, 100).is_ok());
    assert_eq!(parse(deep, 3).unwrap_err(), ParseError::TooDeep);
    assert_eq!(parse("object A { }", 0).unwrap_err(), ParseError::TooDeep);
    assert!(matches!(expr(&chars("1"), START, 0), Outcome::Match(Expression::Int(_), _)));
    assert!(matches!(expr(&chars("x"), START, 0), Outcome::TooDeep));
    assert!(matches!(expr(&chars("1 + 2"), START, 0), Outcome::TooDeep));
    let r = run_code_vm(deep, None, 3);
    assert!(matches!(r.result, Err(RunError::Parse(ParseError::TooDeep))));
}

#[test]
fn recursive_sum_from_its_text() {
    let code = r#"
object Main extends App {
    def f(n: Int): Int = {
        if n == 0 { return 0 } else { return n + f(n - 1) }
    }
    f(3)
}
"#;
    assert_eq!(value_of(code), Value::Int(6));
}

#[test]
fn fib_from_its_text() {
    let code = r#"
object Main extends App {
    def fib(n: Int): Int = {
        if n == 0 {
            0
        } else {
            if n == 1 { 1 } else { fib(n - 1) + fib(n - 2) }
        }
    }
    fib(11)
}
"#;
    assert_eq!(value_of(code), Value::Int(89));
}

#[test]
fn loops_from_their_text() {
    assert_eq!(
        value_of("object Main extends App { var x = 0 while (x != 5) { x = x + 1 } x }"),
        Value::Int(5)
    );
    assert_eq!(
        value_of(
            "object Main extends App {\n  var n = 0\n  for (i <- 2 until 7) {\n    n = n + i\n  }\n  n\n}"
        ),
        Value::Int(20)
    );
}

#[test]
fn arrays_and_strings_from_their_text() {
    let r = run_code_vm(
        "object Main extends App { val a = Array(1, 2, 3) val s = \"abcd\" print(a, s, 7) a }",
        None,
        UNLIMITED,
    );
    assert_eq!(r.result.unwrap(), Value::HeapId(1));
    assert_eq!(r.output.len(), 3);
    assert!(matches!(&r.output[0], Printed::Array(v) if v == &vec![Value::Int(1), Value::Int(2), Value::Int(3)]));
    assert!(matches!(&r.output[1], Printed::Text(s) if s == "abcd"));
    assert!(matches!(r.output[2], Printed::Scalar(Value::Int(7))));
}

#[test]
fn mismatch_and_diagnostics_from_their_text() {
    let r = run_code_vm("object Main extends App { true + 1 }", None, UNLIMITED);
    assert!(matches!(r.result, Err(RunError::Runtime(RuntimeError::TypeMismatch))));
    let r = run_code_vm(
        "object Main extends App {\n  val x = 1\n  x = 2\n  val x = 3\n  x\n}",
        None,
        UNLIMITED,
    );
    assert_eq!(r.result.unwrap(), Value::Int(3));
    let found: Vec<(String, ((usize, usize), (usize, usize)))> =
        r.diagnostics.into_iter().map(|d| (d.msg, d.range)).collect();
    assert_eq!(
        found,
        vec![
            ("\"x\" is immutable".to_owned(), ((2, 2), (2, 3))),
            ("redefine x".to_owned(), ((3, 6), (3, 7))),
        ]
    );
    let r = run_code_vm("object Main { 1 }", Some("Main".to_owned()), UNLIMITED);
    assert_eq!(r.result.unwrap(), Value::Int(1));
    let r = run_code_vm("object Main { 1 }", None, UNLIMITED);
    assert!(matches!(r.result, Err(RunError::NoEntry)));
    let r = run_code_vm("object Main { 1 ", None, UNLIMITED);
    assert!(matches!(r.result, Err(RunError::Parse(ParseError::Stopped(l))) if l.offset == 0));
}

#[test]
fn lex_test() {
    let read = literal(&chars("true"), START).map(|(l, _)| l);
    println!("{:#?}", read);
    assert_eq!("Some(Boolean(true))", format!("{:?}", read));
}

#[test]
fn constants() {
    let read = |s: &str| literal(&chars(s), START).map(|(l, at)| (format!("{:?}", l), at.offset));
    assert_eq!(read("false  x"), Some(("Boolean(false)".to_owned(), 7)));
    assert_eq!(read("null"), Some(("Null".to_owned(), 4)));
    assert_eq!(read("nul"), None);
    assert_eq!(read(""), None);
    assert!(matches!(literal(&chars("true"), START), Some((Literal::Boolean(true), _))));
}

#[test]
fn identifiers_of_any_script() {
    let word = |s: &str| id(&chars(s), START).map(|(n, at)| (n.data, n.range, at.offset));
    assert_eq!(word("\u{e9}t\u{e9}_1 x"), Some(("\u{e9}t\u{e9}_1".to_owned(), ((0, 0), (0, 5)), 6)));
    assert_eq!(word("\u{3b1}\u{3b2}+"), Some(("\u{3b1}\u{3b2}".to_owned(), ((0, 0), (0, 2)), 2)));
    assert_eq!(word("Abc"), Some(("Abc".to_owned(), ((0, 0), (0, 3)), 3)));
    assert_eq!(word("a\u{663}"), Some(("a\u{663}".to_owned(), ((0, 0), (0, 2)), 2)));
    assert_eq!(word("_a"), None);
    assert_eq!(word("1a"), None);
    assert_eq!(word(""), None);
    let small = |s: &str| varid(&chars(s), START).map(|(n, at)| (n.data, at.offset));
    assert_eq!(small("x\u{e9}_2 ="), Some(("x\u{e9}_2".to_owned(), 5)));
    assert_eq!(small("Abc"), None);
    assert_eq!(small("\u{e9}t\u{e9}"), None);
    assert_eq!(small(""), None);
}
