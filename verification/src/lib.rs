//! Front end and runtime of the Typort language.
//!
//! A source text is read, lowered in two steps and then run:
//!
//! * [`parser`] reads the text as the [`grammar`] says and gives the syntax
//!   tree of [`ast`] ([`lex`] reads words beyond the Latin alphabet, which
//!   the grammar does not use);
//! * [`hir`] checks scopes and mutability, rewrites `for` loops and calls of
//!   local values, and collects diagnostics without ever stopping;
//! * [`mir`] replaces every local name by a slot of its call frame and gives
//!   every string literal a heap id;
//! * [`vm`] evaluates the result on one value stack shared by all calls and
//!   a heap, with the built-in functions of [`built_in`].
//!
//! Every step has a mathematical model, a `spec` function over the views of
//! its trees, and the executable code is proved to compute exactly that
//! model. What holds of the models beyond that is proved in [`laws`] (of
//! every evaluation), [`soundness`] (of the slots that the second lowering
//! gives out) and [`agreement`] (of the two lowerings together).
//!
//! Reading and running are bounded by a fuel, so that both always end. The
//! fuel limits how deep things nest and how long lists and loops go on; it
//! does not show otherwise, and [`UNLIMITED`] is more than any real program
//! uses up.
use vstd::prelude::*;
use vstd::string::*;
use crate::ast::{TopItem, Ident};
use crate::hir::{parse_to_hir, lower_items, lower_items_diag};
use crate::mir::{hir_to_mir, resolve_classes, MirError, SpecMirError, Class, Stmt, SpecClass, SpecStmt};
use crate::vm::{
    Interpreter, Value, RuntimeError, Printed, SpecPrinted, printed_view, class_table, initial,
    eval_block,
};
use crate::parser::{parse, parse_model, ParseError};

pub mod agreement;
pub mod ast;
pub mod built_in;
pub mod counting;
pub mod grammar;
pub mod hir;
pub mod laws;
pub mod lex;
pub mod mir;
pub mod parser;
pub mod soundness;
pub mod ty;
pub mod vm;

verus! {

/// A line number of the source text.
pub type Line = usize;

/// A column number of the source text.
pub type Col = usize;

/// Start and end position of a piece of source text.
pub type Range = ((Line, Col), (Line, Col));

/// A value together with the place in the source that it was read from.
#[derive(Debug)]
pub struct Span<T> {
    pub data: T,
    pub range: Range,
}

impl<T: Clone> Clone for Span<T> {
    fn clone(&self) -> (r: Self)
        ensures
            cloned(self.data, r.data),
            r.range == self.range,
    {
        Span { data: self.data.clone(), range: self.range }
    }
}

impl<T> Span<T> {
    /// Applies `f` to the carried value and keeps the source range.
    pub fn map<F, O>(self, f: F) -> (r: Span<O>) where F: Fn(T) -> O
        requires
            f.requires((self.data,)),
        ensures
            f.ensures((self.data,), r.data),
            r.range == self.range,
    {
        Span { data: f(self.data), range: self.range }
    }
}

impl Span<String> {
    /// The carried text as a sequence of characters, with the range unchanged.
    pub open spec fn view(&self) -> Span<Seq<char>> {
        Span { data: self.data@, range: self.range }
    }

    /// A copy with the same text and range.
    pub fn duplicate(&self) -> (r: Span<String>)
        ensures
            r@ == self@,
    {
        self.clone()
    }

    /// Replaces the text by `data` and keeps the range.
    pub fn with<O>(&self, data: O) -> (r: Span<O>)
        ensures
            r.data == data,
            r.range == self.range,
    {
        Span { data, range: self.range }
    }
}

/// A finding of the static checks: advisory, collected, never thrown.
#[derive(Debug)]
pub struct Diagnostic {
    pub msg: String,
    pub range: Range,
}

/// The mathematical value of a [`Diagnostic`].
pub struct SpecDiagnostic {
    pub msg: Seq<char>,
    pub range: Range,
}

impl Diagnostic {
    /// The mathematical value.
    pub open spec fn view(&self) -> SpecDiagnostic {
        SpecDiagnostic { msg: self.msg@, range: self.range }
    }
}

/// The views of a list of diagnostics, in order.
pub open spec fn diagnostics_view(v: Seq<Diagnostic>) -> Seq<SpecDiagnostic> {
    Seq::new(v.len(), |i: int| v[i]@)
}

/// A fuel that no run of a real program uses up.
pub const UNLIMITED: usize = usize::MAX;

/// Why a run gave no value.
#[derive(Debug)]
pub enum RunError {
    /// The text could not be read.
    Parse(ParseError),
    /// The second lowering failed.
    Lowering(MirError),
    /// No declaration has the name asked for, or none extends `App`.
    NoEntry,
    /// The machine aborted the run.
    Runtime(RuntimeError),
}

/// The mathematical value of a [`RunError`].
pub enum SpecRunError {
    Parse(ParseError),
    Lowering(SpecMirError),
    NoEntry,
    Runtime(RuntimeError),
}

/// What a run gives: the value or the reason why there is none, the
/// diagnostics of the first lowering, and what `print` has shown.
#[derive(Debug)]
pub struct Run {
    pub result: Result<Value, RunError>,
    pub diagnostics: Vec<Diagnostic>,
    pub output: Vec<Printed>,
}

/// The mathematical value of a [`Run`].
pub struct SpecRun {
    pub result: Result<Value, SpecRunError>,
    pub diagnostics: Seq<SpecDiagnostic>,
    pub output: Seq<SpecPrinted>,
}

impl RunError {
    /// The mathematical value.
    pub open spec fn view(&self) -> SpecRunError {
        match self {
            RunError::Parse(e) => SpecRunError::Parse(*e),
            RunError::Lowering(e) => SpecRunError::Lowering(e@),
            RunError::NoEntry => SpecRunError::NoEntry,
            RunError::Runtime(e) => SpecRunError::Runtime(*e),
        }
    }
}

impl SpecRunError {
    /// The error in words.
    pub open spec fn text(self) -> Seq<char> {
        match self {
            SpecRunError::Parse(_) => "parse error"@,
            SpecRunError::Lowering(e) => e.text(),
            SpecRunError::NoEntry => "no entry point"@,
            SpecRunError::Runtime(e) => e.text(),
        }
    }
}

impl RunError {
    /// The error in words.
    pub fn message(&self) -> (r: String)
        ensures
            r@ == self@.text(),
    {
        match self {
            RunError::Parse(_) => String::from_str("parse error"),
            RunError::Lowering(e) => e.message(),
            RunError::NoEntry => String::from_str("no entry point"),
            RunError::Runtime(e) => e.message(),
        }
    }
}

impl Run {
    /// The mathematical value.
    pub open spec fn view(&self) -> SpecRun {
        SpecRun {
            result: match self.result {
                Ok(v) => Ok(v),
                Err(e) => Err(e@),
            },
            diagnostics: diagnostics_view(self.diagnostics@),
            output: printed_view(self.output@),
        }
    }
}

/// Whether a superclass name is exactly `App`.
pub open spec fn is_app(extends: Option<Ident>) -> bool {
    match extends {
        Some(s) => s.data == "App"@,
        None => false,
    }
}

/// The position of the first class from the class `i` on whose superclass is
/// `App`.
pub open spec fn first_app(cs: Seq<SpecClass>, i: nat) -> Option<nat>
    decreases cs.len() - i,
{
    if i >= cs.len() {
        None
    } else if is_app(cs[i as int].extends) {
        Some(i)
    } else {
        first_app(cs, i + 1)
    }
}

/// The body that a run starts with: that of the declaration named `top`, the
/// last one of that name, or else that of the first declaration whose
/// superclass is `App`.
pub open spec fn entry_body(cs: Seq<SpecClass>, top: Option<Seq<char>>) -> Option<Seq<SpecStmt>> {
    match top {
        Some(name) => if class_table(cs).contains_key(name) {
            Some(class_table(cs)[name].block)
        } else {
            None
        },
        None => match first_app(cs, 0) {
            Some(i) => Some(cs[i as int].block),
            None => None,
        },
    }
}

/// A whole run: both lowerings, the choice of the entry, and the evaluation
/// of its body as a script on a fresh machine.
pub open spec fn run_model(items: Seq<ast::SpecTopItem>, top: Option<Seq<char>>, fuel: nat) -> SpecRun {
    let diagnostics = lower_items_diag(items);
    match resolve_classes(0, lower_items(items), 0, Seq::empty()) {
        Err(e) => SpecRun {
            result: Err(SpecRunError::Lowering(e)),
            diagnostics,
            output: Seq::empty(),
        },
        Ok(classes) => match entry_body(classes, top) {
            None => SpecRun { result: Err(SpecRunError::NoEntry), diagnostics, output: Seq::empty() },
            Some(body) => {
                let s = eval_block(fuel, initial(classes), body, 0, Value::Unit);
                SpecRun {
                    result: match s.r {
                        Ok(v) => Ok(v),
                        Err(e) => Err(SpecRunError::Runtime(e)),
                    },
                    diagnostics,
                    output: s.m.output,
                }
            },
        },
    }
}

/// The view of an optional text.
pub open spec fn opt_text(top: Option<String>) -> Option<Seq<char>> {
    match top {
        Some(s) => Some(s@),
        None => None,
    }
}

/// The body of the first class whose superclass is `App`.
fn find_app<'a>(classes: &'a Vec<Class>) -> (r: Option<&'a Vec<Stmt>>)
    ensures
        match r {
            Some(b) => match first_app(mir::classes_view(classes@), 0) {
                Some(i) => mir::classes_view(classes@)[i as int].block == mir::stmts_view(*b),
                None => false,
            },
            None => first_app(mir::classes_view(classes@), 0) is None,
        },
{
    let ghost all = mir::classes_view(classes@);
    let app = "App".to_owned();
    let mut i: usize = 0;
    while i < classes.len()
        invariant
            0 <= i <= classes.len(),
            all == mir::classes_view(classes@),
            app@ == "App"@,
            first_app(all, 0) == first_app(all, i as nat),
        decreases classes.len() - i,
    {
        let c = &classes[i];
        let found = match &c.extends {
            Some(s) => s.data == app,
            None => false,
        };
        if found {
            return Some(&c.block);
        }
        i += 1;
    }
    None
}

/// Runs a parsed program. With `top`, the run starts at the declaration of
/// that name; without, at the first declaration whose superclass is `App`.
/// The body of that declaration is evaluated as a script, on a fresh machine
/// and with the given fuel.
pub fn run_program(ast: Vec<TopItem>, top: Option<String>, fuel: usize) -> (r: Run)
    ensures
        r@ == run_model(ast::items_view(ast@), opt_text(top), fuel as nat),
{
    let (hir, diagnostics) = parse_to_hir(ast);
    let mir = match hir_to_mir(hir) {
        Ok(mir) => mir,
        Err(e) => {
            let r = Run { result: Err(RunError::Lowering(e)), diagnostics, output: Vec::new() };
            assert(r@.output =~= Seq::<SpecPrinted>::empty());
            return r;
        },
    };
    let mut vm = Interpreter::new(&mir);
    let body = match &top {
        Some(name) => vm.class_body(name.as_str()),
        None => find_app(&mir),
    };
    match body {
        Some(body) => {
            let result = match vm.translate_block(body, fuel) {
                Ok(v) => Ok(v),
                Err(e) => Err(RunError::Runtime(e)),
            };
            Run { result, diagnostics, output: vm.into_output() }
        },
        None => {
            let r = Run { result: Err(RunError::NoEntry), diagnostics, output: Vec::new() };
            assert(r@.output =~= Seq::<SpecPrinted>::empty());
            r
        },
    }
}

/// The names of the declarations of a list from the declaration `i` on whose
/// superclass is `App`, after the earlier ones gave `seen`.
pub open spec fn runnable_from(items: Seq<ast::SpecTopItem>, i: nat, seen: Seq<Ident>) -> Seq<Ident>
    decreases items.len() - i,
{
    if i >= items.len() {
        seen
    } else if is_app(items[i as int].extends) {
        runnable_from(items, i + 1, seen.push(items[i as int].name))
    } else {
        runnable_from(items, i + 1, seen)
    }
}

/// The names of the declarations that a run can start at without being told
/// where: those whose superclass is `App`, in their order.
pub fn runnable(items: &Vec<TopItem>) -> (r: Vec<Span<String>>)
    ensures
        ast::idents_view(r@) == runnable_from(ast::items_view(items@), 0, Seq::empty()),
{
    let ghost all = ast::items_view(items@);
    let app = "App".to_owned();
    let mut out: Vec<Span<String>> = Vec::new();
    assert(ast::idents_view(out@) =~= Seq::<Ident>::empty());
    let mut i: usize = 0;
    while i < items.len()
        invariant
            0 <= i <= items.len(),
            all == ast::items_view(items@),
            app@ == "App"@,
            runnable_from(all, 0, Seq::empty()) == runnable_from(
                all,
                i as nat,
                ast::idents_view(out@),
            ),
        decreases items.len() - i,
    {
        let (name, extends) = match &items[i] {
            TopItem::Class(c) => (&c.name, &c.extends),
            TopItem::Object(o) => (&o.name, &o.extends),
        };
        let found = match extends {
            Some(s) => s.data == app,
            None => false,
        };
        if found {
            let ghost before = out@;
            let n = name.duplicate();
            out.push(n);
            proof {
                assert(ast::idents_view(before.push(n)) =~= ast::idents_view(before).push(n@));
            }
        }
        i += 1;
    }
    out
}

/// A whole run from the source text on.
pub open spec fn run_source_model(text: Seq<char>, top: Option<Seq<char>>, fuel: nat) -> SpecRun {
    match parse_model(text, fuel) {
        Ok(items) => run_model(items, top, fuel),
        Err(e) => SpecRun {
            result: Err(SpecRunError::Parse(e)),
            diagnostics: Seq::empty(),
            output: Seq::empty(),
        },
    }
}

/// Runs a program from its source text: the text is read, lowered twice and
/// run as [`run_program`] does. The fuel bounds the reading as well as the
/// run.
pub fn run_code_vm(code: &str, top: Option<String>, fuel: usize) -> (r: Run)
    ensures
        r@ == run_source_model(code@, opt_text(top), fuel as nat),
{
    match parse(code, fuel) {
        Ok(ast) => run_program(ast, top, fuel),
        Err(e) => {
            let r = Run { result: Err(RunError::Parse(e)), diagnostics: Vec::new(), output: Vec::new() };
            proof {
                assert(r@.diagnostics =~= Seq::<SpecDiagnostic>::empty());
                assert(r@.output =~= Seq::<SpecPrinted>::empty());
            }
            r
        },
    }
}

} // verus!
