//! The parser: source text to the syntax tree.
//!
//! The grammar is read as written, from left to right and with the choices in
//! their order; a choice that fails gives back what it has read. Every token
//! is followed by any number of blanks, which belong to it. Key words are not
//! set apart from names: `value` begins with `val`.
//!
//! A fuel bounds how deep expressions and blocks may nest and how many items
//! one list may hold, so that parsing always ends.
use vstd::prelude::*;
use vstd::string::*;
use crate::{Span, Range};
use crate::grammar::{
    Pos, is_blank, is_letter, is_digit, is_word, blanks, advance, range_of, token, word_end,
    digits_end, digits_value, digit_of, quote_at,
};
use crate::grammar;
use crate::grammar::Parsed;
use crate::ast::{
    Expression, Stmt, Block, Func, Class, Object, TopItem, SpecExpression, SpecStmt, SpecFunc,
    SpecTopItem, Ident, exprs_view, stmts_view, params_view, idents_view, items_view,
    opt_ident_view,
};

verus! {

/// The characters of a text, in order.
pub fn chars_of(text: &str) -> (r: Vec<char>)
    ensures
        r@ == text@,
{
    let mut out: Vec<char> = Vec::new();
    for c in it: text.chars()
        invariant
            it.seq() == text@,
            out@ == text@.take(it.index() as int),
    {
        let ghost before = out@;
        out.push(c);
        assert(out@ =~= text@.take(it.index() + 1));
    }
    assert(text@.take(text@.len() as int) =~= text@);
    out
}

/// Appends one character to a text: `String::push`. The text afterwards is
/// the text before with the character at its end.
#[verifier::external_body]
fn push_char(s: &mut String, c: char)
    ensures
        final(s)@ == old(s)@.push(c),
{
    s.push(c);
}

/// The characters from `from` up to `to` as a text.
pub fn text_of(chars: &Vec<char>, from: usize, to: usize) -> (r: String)
    requires
        from <= to <= chars.len(),
    ensures
        r@ == chars@.subrange(from as int, to as int),
{
    let mut out = String::new();
    let mut i = from;
    while i < to
        invariant
            from <= i <= to <= chars.len(),
            out@ == chars@.subrange(from as int, i as int),
        decreases to - i,
    {
        push_char(&mut out, chars[i]);
        assert(out@ =~= chars@.subrange(from as int, i + 1));
        i += 1;
    }
    out
}


/// A place in the source text: the number of characters in front of it, its
/// line and its column, all counted from zero.
#[derive(Clone, Copy, Debug, PartialEq, Eq, Structural)]
pub struct Location {
    pub offset: usize,
    pub line: usize,
    pub col: usize,
}

impl Location {
    /// The mathematical value.
    pub open spec fn view(&self) -> Pos {
        Pos { offset: self.offset as nat, line: self.line as nat, col: self.col as nat }
    }

    /// The place lies in the text `s`, and neither its line nor its column
    /// is larger than its offset.
    pub open spec fn wf(&self, s: Seq<char>) -> bool {
        &&& self.offset <= s.len()
        &&& self.line <= self.offset
        &&& self.col <= self.offset
    }
}

proof fn lemma_word_end(s: Seq<char>, i: nat)
    requires
        i <= s.len(),
    ensures
        i <= word_end(s, i) <= s.len(),
    decreases s.len() - i,
{
    if i < s.len() && is_word(s[i as int]) {
        lemma_word_end(s, i + 1);
    }
}

proof fn lemma_digits_grow(d: Seq<char>, k: int)
    requires
        0 <= k <= d.len(),
    ensures
        digits_value(d.take(k)) <= digits_value(d),
    decreases d.len(),
{
    if k == d.len() {
        assert(d.take(k) =~= d);
    } else {
        lemma_digits_grow(d.drop_last(), k);
        assert(d.drop_last().take(k) =~= d.take(k));
    }
}

fn blank(c: char) -> (r: bool)
    ensures
        r == is_blank(c),
{
    c == ' ' || c == '\t' || c == '\n' || c == '\r'
}

fn letter(c: char) -> (r: bool)
    ensures
        r == is_letter(c),
{
    (c >= 'a' && c <= 'z') || (c >= 'A' && c <= 'Z')
}

fn digit(c: char) -> (r: bool)
    ensures
        r == is_digit(c),
{
    c >= '0' && c <= '9'
}

/// Skips the blanks at `loc`.
pub fn whitespace(input: &Vec<char>, loc: Location) -> (r: Location)
    requires
        loc.wf(input@),
    ensures
        r.wf(input@),
        r@ == blanks(input@, loc@),
        loc.offset <= r.offset,
{
    let mut at = loc;
    while at.offset < input.len() && blank(input[at.offset])
        invariant
            at.wf(input@),
            loc.offset <= at.offset,
            blanks(input@, loc@) == blanks(input@, at@),
        decreases input.len() - at.offset,
    {
        if input[at.offset] == '\n' {
            at = Location { offset: at.offset + 1, line: at.line + 1, col: 0 };
        } else {
            at = Location { offset: at.offset + 1, line: at.line, col: at.col + 1 };
        }
    }
    at
}

/// The place `n` characters after `loc` on the same line, and then after
/// the blanks that follow.
fn pass(input: &Vec<char>, loc: Location, n: usize) -> (r: Location)
    requires
        loc.wf(input@),
        loc.offset + n <= input.len(),
    ensures
        r.wf(input@),
        r@ == blanks(input@, advance(loc@, n as nat)),
        loc.offset + n <= r.offset,
{
    whitespace(input, Location { offset: loc.offset + n, line: loc.line, col: loc.col + n })
}

/// The range of `n` characters on one line that begin at `loc`.
fn here(loc: Location, n: usize) -> (r: Range)
    requires
        loc.col + n <= usize::MAX,
    ensures
        r == range_of(loc@, n as nat),
{
    ((loc.line, loc.col), (loc.line, loc.col + n))
}

/// Reads the token `lit` at `loc`, with the blanks that follow it.
pub fn expect(input: &Vec<char>, loc: Location, lit: &str) -> (r: Option<Location>)
    requires
        loc.wf(input@),
    ensures
        match r {
            Some(l) => token(input@, loc@, lit@) == Some(l@) && l.wf(input@) && loc.offset
                + lit@.len() <= l.offset,
            None => token(input@, loc@, lit@) is None,
        },
{
    let n = lit.unicode_len();
    if n > input.len() - loc.offset {
        return None;
    }
    let mut i: usize = 0;
    while i < n
        invariant
            0 <= i <= n,
            n == lit@.len(),
            loc.offset + n <= input.len(),
            input@.subrange(loc.offset as int, loc.offset + i) == lit@.take(i as int),
        decreases n - i,
    {
        if input[loc.offset + i] != lit.get_char(i) {
            proof {
                let a = input@.subrange(loc.offset as int, loc.offset + n);
                assert(a[i as int] != lit@[i as int]);
            }
            return None;
        }
        proof {
            assert(input@.subrange(loc.offset as int, loc.offset + i + 1) =~= input@.subrange(
                loc.offset as int,
                loc.offset + i,
            ).push(input@[loc.offset + i]));
            assert(lit@.take(i + 1) =~= lit@.take(i as int).push(lit@[i as int]));
        }
        i += 1;
    }
    proof {
        assert(lit@.take(n as int) =~= lit@);
    }
    Some(pass(input, loc, n))
}

/// Reads a name at `loc`, with the blanks that follow it.
pub fn name(input: &Vec<char>, loc: Location) -> (r: Option<(Span<String>, Location)>)
    requires
        loc.wf(input@),
    ensures
        match r {
            Some((n, l)) => grammar::name(input@, loc@) == Some((n@, l@)) && l.wf(input@) && loc.offset
                < l.offset,
            None => grammar::name(input@, loc@) is None,
        },
{
    if loc.offset >= input.len() || !letter(input[loc.offset]) {
        return None;
    }
    let mut end = loc.offset + 1;
    while end < input.len() && (letter(input[end]) || digit(input[end]) || input[end] == '_')
        invariant
            loc.offset < end <= input.len(),
            word_end(input@, (loc.offset + 1) as nat) == word_end(input@, end as nat),
        decreases input.len() - end,
    {
        end += 1;
    }
    let data = text_of(input, loc.offset, end);
    Some((Span { data, range: here(loc, end - loc.offset) }, pass(input, loc, end - loc.offset)))
}

/// Reads a whole number at `loc`, with the blanks that follow it.
#[verifier::loop_isolation(false)]
pub fn integer(input: &Vec<char>, loc: Location) -> (r: Option<(Span<i64>, Location)>)
    requires
        loc.wf(input@),
    ensures
        match r {
            Some((n, l)) => grammar::integer(input@, loc@) == Some((n, l@)) && l.wf(input@) && loc.offset
                < l.offset,
            None => grammar::integer(input@, loc@) is None,
        },
{
    if loc.offset >= input.len() {
        return None;
    }
    let first = input[loc.offset];
    if !(digit(first) || first == '-' || first == '+') {
        return None;
    }
    let negative = first == '-';
    let start = if digit(first) {
        loc.offset
    } else {
        loc.offset + 1
    };
    proof {
        lemma_digits_end_reach(input@, start as nat);
    }
    let ghost all = input@.subrange(start as int, digits_end(input@, start as nat) as int);
    let mut end = start;
    let mut value: i64 = 0;
    while end < input.len() && digit(input[end])
        invariant
            start <= end <= input.len(),
            digits_end(input@, start as nat) == digits_end(input@, end as nat),
            all == input@.subrange(start as int, digits_end(input@, start as nat) as int),
            value == if negative {
                -digits_value(input@.subrange(start as int, end as int))
            } else {
                digits_value(input@.subrange(start as int, end as int)) as int
            },
        decreases input.len() - end,
    {
        let d = (input[end] as u32 - '0' as u32) as i64;
        proof {
            let s = input@;
            let upto = s.subrange(start as int, end + 1);
            assert(upto.drop_last() =~= s.subrange(start as int, end as int));
            assert(upto.last() == s[end as int]);
            assert(d == digit_of(s[end as int]));
            assert(digits_value(upto) == digits_value(s.subrange(start as int, end as int)) * 10
                + d);
            assert(digits_end(s, end as nat) == digits_end(s, (end + 1) as nat));
            lemma_digits_end_reach(s, (end + 1) as nat);
            assert(all.take(end + 1 - start) =~= upto);
            lemma_digits_grow(all, end + 1 - start);
        }
        let ghost part = digits_value(input@.subrange(start as int, end + 1));
        assert(part <= digits_value(all));
        let scaled = match value.checked_mul(10) {
            Some(x) => x,
            None => {
                assert(negative ==> -part < i64::MIN);
                assert(!negative ==> part > i64::MAX);
                return None;
            },
        };
        let next = if negative {
            scaled.checked_sub(d)
        } else {
            scaled.checked_add(d)
        };
        value = match next {
            Some(x) => x,
            None => {
                assert(negative ==> -part < i64::MIN);
                assert(!negative ==> part > i64::MAX);
                return None;
            },
        };
        end += 1;
    }
    if end == start {
        return None;
    }
    Some(
        (
            Span { data: value, range: here(loc, end - loc.offset) },
            pass(input, loc, end - loc.offset),
        ),
    )
}

proof fn lemma_digits_end_reach(s: Seq<char>, i: nat)
    requires
        i <= s.len(),
    ensures
        i <= digits_end(s, i) <= s.len(),
    decreases s.len() - i,
{
    if i < s.len() && is_digit(s[i as int]) {
        lemma_digits_end_reach(s, i + 1);
    }
}

/// Reads a string at `loc`, with the blanks that follow it.
pub fn escaped_quoted_span(input: &Vec<char>, loc: Location) -> (r: Option<
    (Span<String>, Location),
>)
    requires
        loc.wf(input@),
    ensures
        match r {
            Some((n, l)) => grammar::escaped_quoted_span(input@, loc@) == Some((n@, l@)) && l.wf(input@)
                && loc.offset < l.offset,
            None => grammar::escaped_quoted_span(input@, loc@) is None,
        },
{
    if loc.offset >= input.len() || input[loc.offset] != '"' {
        return None;
    }
    let mut end = loc.offset + 1;
    while end < input.len() && input[end] != '"'
        invariant
            loc.offset < end <= input.len(),
            quote_at(input@, (loc.offset + 1) as nat) == quote_at(input@, end as nat),
        decreases input.len() - end,
    {
        end += 1;
    }
    if end >= input.len() {
        return None;
    }
    let data = text_of(input, loc.offset + 1, end);
    Some(
        (
            Span { data, range: here(loc, end + 1 - loc.offset) },
            pass(input, loc, end + 1 - loc.offset),
        ),
    )
}


/// What reading a piece of the grammar at some place gives.
#[derive(Debug)]
pub enum Outcome<T> {
    /// The piece stands there: what was read, and the place after it.
    Match(T, Location),
    /// The piece does not stand there.
    NoMatch,
    /// The fuel is used up.
    TooDeep,
}

/// The mathematical value of what reading an expression gave.
pub open spec fn expr_outcome(r: Outcome<Expression>) -> Parsed<SpecExpression> {
    match r {
        Outcome::Match(e, l) => Parsed::Match(e@, l@),
        Outcome::NoMatch => Parsed::NoMatch,
        Outcome::TooDeep => Parsed::TooDeep,
    }
}

/// The mathematical value of what reading a list of expressions gave.
pub open spec fn exprs_outcome(r: Outcome<Vec<Expression>>) -> Parsed<Seq<SpecExpression>> {
    match r {
        Outcome::Match(e, l) => Parsed::Match(exprs_view(e), l@),
        Outcome::NoMatch => Parsed::NoMatch,
        Outcome::TooDeep => Parsed::TooDeep,
    }
}

/// The mathematical value of what reading a statement gave.
pub open spec fn stmt_outcome(r: Outcome<Stmt>) -> Parsed<SpecStmt> {
    match r {
        Outcome::Match(e, l) => Parsed::Match(e@, l@),
        Outcome::NoMatch => Parsed::NoMatch,
        Outcome::TooDeep => Parsed::TooDeep,
    }
}

/// The mathematical value of what reading a block gave.
pub open spec fn block_outcome(r: Outcome<Block>) -> Parsed<Seq<SpecStmt>> {
    match r {
        Outcome::Match(e, l) => Parsed::Match(e@, l@),
        Outcome::NoMatch => Parsed::NoMatch,
        Outcome::TooDeep => Parsed::TooDeep,
    }
}

/// The mathematical value of what reading a function gave.
pub open spec fn func_outcome(r: Outcome<Func>) -> Parsed<SpecFunc> {
    match r {
        Outcome::Match(e, l) => Parsed::Match(e@, l@),
        Outcome::NoMatch => Parsed::NoMatch,
        Outcome::TooDeep => Parsed::TooDeep,
    }
}

/// The mathematical value of what reading a list of parameters gave.
pub open spec fn params_outcome(r: Outcome<Vec<(Span<String>, Span<String>)>>) -> Parsed<
    Seq<(Ident, Ident)>,
> {
    match r {
        Outcome::Match(e, l) => Parsed::Match(params_view(e@), l@),
        Outcome::NoMatch => Parsed::NoMatch,
        Outcome::TooDeep => Parsed::TooDeep,
    }
}

/// The mathematical value of what reading a list of names gave.
pub open spec fn idents_outcome(r: Outcome<Vec<Span<String>>>) -> Parsed<Seq<Ident>> {
    match r {
        Outcome::Match(e, l) => Parsed::Match(idents_view(e@), l@),
        Outcome::NoMatch => Parsed::NoMatch,
        Outcome::TooDeep => Parsed::TooDeep,
    }
}

/// The mathematical value of what reading a declaration gave.
pub open spec fn item_outcome(r: Outcome<TopItem>) -> Parsed<SpecTopItem> {
    match r {
        Outcome::Match(e, l) => Parsed::Match(e@, l@),
        Outcome::NoMatch => Parsed::NoMatch,
        Outcome::TooDeep => Parsed::TooDeep,
    }
}

/// The mathematical value of what reading a list of declarations gave.
pub open spec fn items_outcome(r: Outcome<Vec<TopItem>>) -> Parsed<Seq<SpecTopItem>> {
    match r {
        Outcome::Match(e, l) => Parsed::Match(items_view(e@), l@),
        Outcome::NoMatch => Parsed::NoMatch,
        Outcome::TooDeep => Parsed::TooDeep,
    }
}

/// Whether the place of a match lies in the text.
pub open spec fn lands<T>(r: Outcome<T>, s: Seq<char>) -> bool {
    match r {
        Outcome::Match(_, l) => l.wf(s),
        _ => true,
    }
}

proof fn lemma_exprs_push(v: Vec<Expression>, w: Vec<Expression>, x: Expression)
    requires
        w@ == v@.push(x),
    ensures
        exprs_view(w) == exprs_view(v).push(x@),
{
    assert(exprs_view(w) =~= exprs_view(v).push(x@));
}

proof fn lemma_stmts_push(v: Vec<Stmt>, w: Vec<Stmt>, x: Stmt)
    requires
        w@ == v@.push(x),
    ensures
        stmts_view(w) == stmts_view(v).push(x@),
{
    assert(stmts_view(w) =~= stmts_view(v).push(x@));
}

/// A literal: a whole number, a string, `true` or `false`.
fn literal(input: &Vec<char>, loc: Location) -> (r: Outcome<Expression>)
    requires
        loc.wf(input@),
    ensures
        expr_outcome(r) == grammar::literal(input@, loc@),
        lands(r, input@),
{
    if let Some((n, l)) = integer(input, loc) {
        return Outcome::Match(Expression::Int(n), l);
    }
    if let Some((t, l)) = escaped_quoted_span(input, loc) {
        return Outcome::Match(Expression::String(t), l);
    }
    if let Some(l) = expect(input, loc, "true") {
        return Outcome::Match(Expression::Bool(true), l);
    }
    if let Some(l) = expect(input, loc, "false") {
        return Outcome::Match(Expression::Bool(false), l);
    }
    Outcome::NoMatch
}

/// The operators of a level of binding.
fn operators(level: u8) -> (r: (&'static str, &'static str))
    ensures
        r.0@ == grammar::first_op(level as nat),
        r.1@ == grammar::second_op(level as nat),
{
    if level == 0 {
        ("==", "!=")
    } else if level == 1 {
        ("*", "/")
    } else {
        ("+", "-")
    }
}

/// The expression of an operator of a level with its two operands.
fn infix(level: u8, first: bool, l: Expression, r: Expression) -> (e: Expression)
    ensures
        e@ == grammar::infix(level as nat, first, l@, r@),
{
    if level == 0 {
        if first {
            Expression::Eq(Box::new(l), Box::new(r))
        } else {
            Expression::Neq(Box::new(l), Box::new(r))
        }
    } else if level == 1 {
        if first {
            Expression::Mul(Box::new(l), Box::new(r))
        } else {
            Expression::Div(Box::new(l), Box::new(r))
        }
    } else {
        if first {
            Expression::Add(Box::new(l), Box::new(r))
        } else {
            Expression::Sub(Box::new(l), Box::new(r))
        }
    }
}

/// Reads an expression.
pub fn expr(input: &Vec<char>, loc: Location, fuel: usize) -> (r: Outcome<Expression>)
    requires
        loc.wf(input@),
    ensures
        expr_outcome(r) == grammar::expr(fuel as nat, input@, loc@),
        lands(r, input@),
    decreases fuel, 9nat,
{
    binary(input, loc, fuel, 2)
}

#[verifier::rlimit(50)]
#[verifier::spinoff_prover]
fn binary(input: &Vec<char>, loc: Location, fuel: usize, level: u8) -> (r: Outcome<Expression>)
    requires
        loc.wf(input@),
    ensures
        expr_outcome(r) == grammar::binary(fuel as nat, input@, loc@, level as nat),
        lands(r, input@),
    decreases fuel,
        6 + (if level <= 2 {
            level as nat
        } else {
            2nat
        }),
{
    let left = if level == 0 || level > 2 {
        base(input, loc, fuel)
    } else {
        binary(input, loc, fuel, level - 1)
    };
    match left {
        Outcome::Match(l, at) => {
            let (first, second) = operators(level);
            let op = match expect(input, at, first) {
                Some(p2) => Some((true, p2)),
                None => match expect(input, at, second) {
                    Some(p2) => Some((false, p2)),
                    None => None,
                },
            };
            match op {
                None => Outcome::Match(l, at),
                Some((is_first, p2)) => {
                    if fuel == 0 {
                        return Outcome::TooDeep;
                    }
                    match expr(input, p2, fuel - 1) {
                        Outcome::Match(r, p3) => Outcome::Match(infix(level, is_first, l, r), p3),
                        Outcome::NoMatch => Outcome::Match(l, at),
                        Outcome::TooDeep => Outcome::TooDeep,
                    }
                },
            }
        },
        Outcome::NoMatch => Outcome::NoMatch,
        Outcome::TooDeep => Outcome::TooDeep,
    }
}

#[verifier::rlimit(50)]
#[verifier::spinoff_prover]
fn base(input: &Vec<char>, loc: Location, fuel: usize) -> (r: Outcome<Expression>)
    requires
        loc.wf(input@),
    ensures
        expr_outcome(r) == grammar::base(fuel as nat, input@, loc@),
        lands(r, input@),
    decreases fuel, 5nat,
{
    match literal(input, loc) {
        Outcome::NoMatch => {},
        other => {
            return other;
        },
    }
    if fuel == 0 {
        return Outcome::TooDeep;
    }
    match branch(input, loc, fuel - 1) {
        Outcome::NoMatch => {},
        other => {
            return other;
        },
    }
    match name_or_call(input, loc, fuel - 1) {
        Outcome::NoMatch => {},
        other => {
            return other;
        },
    }
    paren(input, loc, fuel - 1)
}

#[verifier::rlimit(50)]
#[verifier::spinoff_prover]
fn branch(input: &Vec<char>, loc: Location, fuel: usize) -> (r: Outcome<Expression>)
    requires
        loc.wf(input@),
    ensures
        expr_outcome(r) == grammar::branch(fuel as nat, input@, loc@),
        lands(r, input@),
    decreases fuel, 11nat,
{
    let p1 = match expect(input, loc, "if") {
        Some(l) => l,
        None => {
            return Outcome::NoMatch;
        },
    };
    let (c, p2) = match expr(input, p1, fuel) {
        Outcome::Match(c, p2) => (c, p2),
        Outcome::NoMatch => {
            return Outcome::NoMatch;
        },
        Outcome::TooDeep => {
            return Outcome::TooDeep;
        },
    };
    let (t, p3) = match block(input, p2, fuel) {
        Outcome::Match(t, p3) => (t, p3),
        Outcome::NoMatch => {
            return Outcome::NoMatch;
        },
        Outcome::TooDeep => {
            return Outcome::TooDeep;
        },
    };
    match expect(input, p3, "else") {
        None => Outcome::Match(Expression::If(Box::new(c), t, None), p3),
        Some(p4) => match block(input, p4, fuel) {
            Outcome::Match(e, p5) => Outcome::Match(Expression::If(Box::new(c), t, Some(e)), p5),
            Outcome::NoMatch => Outcome::Match(Expression::If(Box::new(c), t, None), p3),
            Outcome::TooDeep => Outcome::TooDeep,
        },
    }
}

#[verifier::rlimit(50)]
#[verifier::spinoff_prover]
fn name_or_call(input: &Vec<char>, loc: Location, fuel: usize) -> (r: Outcome<Expression>)
    requires
        loc.wf(input@),
    ensures
        expr_outcome(r) == grammar::name_or_call(fuel as nat, input@, loc@),
        lands(r, input@),
    decreases fuel, 11nat,
{
    let (n, p1) = match name(input, loc) {
        Some(x) => x,
        None => {
            return Outcome::NoMatch;
        },
    };
    match args(input, p1, fuel) {
        Outcome::Match(a, p2) => Outcome::Match(Expression::Call(n, a), p2),
        Outcome::NoMatch => Outcome::Match(Expression::Name(n), p1),
        Outcome::TooDeep => Outcome::TooDeep,
    }
}

#[verifier::rlimit(50)]
#[verifier::spinoff_prover]
fn paren(input: &Vec<char>, loc: Location, fuel: usize) -> (r: Outcome<Expression>)
    requires
        loc.wf(input@),
    ensures
        expr_outcome(r) == grammar::paren(fuel as nat, input@, loc@),
        lands(r, input@),
    decreases fuel, 10nat,
{
    let p1 = match expect(input, loc, "(") {
        Some(l) => l,
        None => {
            return Outcome::NoMatch;
        },
    };
    match expr(input, p1, fuel) {
        Outcome::Match(e, p2) => match expect(input, p2, ")") {
            Some(p3) => Outcome::Match(e, p3),
            None => Outcome::NoMatch,
        },
        Outcome::NoMatch => Outcome::NoMatch,
        Outcome::TooDeep => Outcome::TooDeep,
    }
}

#[verifier::rlimit(50)]
#[verifier::spinoff_prover]
#[verifier::loop_isolation(false)]
fn args(input: &Vec<char>, loc: Location, fuel: usize) -> (r: Outcome<Vec<Expression>>)
    requires
        loc.wf(input@),
    ensures
        exprs_outcome(r) == grammar::args(fuel as nat, input@, loc@),
        lands(r, input@),
    decreases fuel, 10nat,
{
    let p1 = match expect(input, loc, "(") {
        Some(l) => l,
        None => {
            return Outcome::NoMatch;
        },
    };
    let mut out: Vec<Expression> = Vec::new();
    assert(exprs_view(out) =~= Seq::<SpecExpression>::empty());
    let mut at = p1;
    let mut left = fuel;
    loop
        invariant
            at.wf(input@),
            left <= fuel,
            grammar::items(fuel as nat, input@, p1@, Seq::empty()) == grammar::items(
                left as nat,
                input@,
                at@,
                exprs_view(out),
            ),
        decreases left,
    {
        if left == 0 {
            return Outcome::TooDeep;
        }
        match expr(input, at, left - 1) {
            Outcome::Match(e, p2) => {
                let ghost before = out;
                out.push(e);
                proof {
                    lemma_exprs_push(before, out, e);
                }
                match expect(input, p2, ",") {
                    Some(p3) => {
                        at = p3;
                        left = left - 1;
                    },
                    None => {
                        at = p2;
                        break ;
                    },
                }
            },
            Outcome::NoMatch => {
                break ;
            },
            Outcome::TooDeep => {
                return Outcome::TooDeep;
            },
        }
    }
    match expect(input, at, ")") {
        Some(p4) => Outcome::Match(out, p4),
        None => Outcome::NoMatch,
    }
}

/// Reads a block of statements in curly brackets.
#[verifier::rlimit(50)]
#[verifier::spinoff_prover]
#[verifier::loop_isolation(false)]
pub fn block(input: &Vec<char>, loc: Location, fuel: usize) -> (r: Outcome<Block>)
    requires
        loc.wf(input@),
    ensures
        block_outcome(r) == grammar::block(fuel as nat, input@, loc@),
        lands(r, input@),
    decreases fuel, 10nat,
{
    let p1 = match expect(input, loc, "{") {
        Some(l) => l,
        None => {
            return Outcome::NoMatch;
        },
    };
    if fuel == 0 {
        return Outcome::TooDeep;
    }
    let mut out: Vec<Stmt> = Vec::new();
    assert(stmts_view(out) =~= Seq::<SpecStmt>::empty());
    let mut at = p1;
    let mut left = fuel - 1;
    loop
        invariant
            at.wf(input@),
            left < fuel,
            grammar::stmts((fuel - 1) as nat, input@, p1@, Seq::empty()) == grammar::stmts(
                left as nat,
                input@,
                at@,
                stmts_view(out),
            ),
        decreases left,
    {
        match stmt(input, at, left) {
            Outcome::Match(x, p2) => {
                if left == 0 {
                    return Outcome::TooDeep;
                }
                let ghost before = out;
                out.push(x);
                proof {
                    lemma_stmts_push(before, out, x);
                }
                at = p2;
                left = left - 1;
            },
            Outcome::NoMatch => {
                break ;
            },
            Outcome::TooDeep => {
                return Outcome::TooDeep;
            },
        }
    }
    match expect(input, at, "}") {
        Some(p4) => Outcome::Match(Block(out), p4),
        None => Outcome::NoMatch,
    }
}

/// Reads a statement.
#[verifier::rlimit(50)]
#[verifier::spinoff_prover]
pub fn stmt(input: &Vec<char>, loc: Location, fuel: usize) -> (r: Outcome<Stmt>)
    requires
        loc.wf(input@),
    ensures
        stmt_outcome(r) == grammar::stmt(fuel as nat, input@, loc@),
        lands(r, input@),
    decreases fuel, 12nat,
{
    match declaration(input, loc, fuel, false) {
        Outcome::NoMatch => {},
        other => {
            return other;
        },
    }
    match declaration(input, loc, fuel, true) {
        Outcome::NoMatch => {},
        other => {
            return other;
        },
    }
    match func(input, loc, fuel) {
        Outcome::Match(f, p1) => {
            return Outcome::Match(Stmt::Func(f), p1);
        },
        Outcome::NoMatch => {},
        Outcome::TooDeep => {
            return Outcome::TooDeep;
        },
    }
    match expect(input, loc, "return") {
        None => {},
        Some(p1) => match expr(input, p1, fuel) {
            Outcome::Match(e, p2) => {
                return Outcome::Match(Stmt::Return(e), p2);
            },
            Outcome::NoMatch => {},
            Outcome::TooDeep => {
                return Outcome::TooDeep;
            },
        },
    }
    match while_loop(input, loc, fuel) {
        Outcome::NoMatch => {},
        other => {
            return other;
        },
    }
    match for_loop(input, loc, fuel) {
        Outcome::NoMatch => {},
        other => {
            return other;
        },
    }
    match assignment(input, loc, fuel) {
        Outcome::NoMatch => {},
        other => {
            return other;
        },
    }
    match expr(input, loc, fuel) {
        Outcome::Match(e, p1) => Outcome::Match(Stmt::Expr(e), p1),
        Outcome::NoMatch => Outcome::NoMatch,
        Outcome::TooDeep => Outcome::TooDeep,
    }
}

#[verifier::rlimit(50)]
#[verifier::spinoff_prover]
fn declaration(input: &Vec<char>, loc: Location, fuel: usize, mutable: bool) -> (r: Outcome<Stmt>)
    requires
        loc.wf(input@),
    ensures
        stmt_outcome(r) == grammar::declaration(fuel as nat, input@, loc@, mutable),
        lands(r, input@),
    decreases fuel, 11nat,
{
    let word = if mutable {
        "var"
    } else {
        "val"
    };
    let p1 = match expect(input, loc, word) {
        Some(l) => l,
        None => {
            return Outcome::NoMatch;
        },
    };
    let (n, p2) = match name(input, p1) {
        Some(x) => x,
        None => {
            return Outcome::NoMatch;
        },
    };
    let p3 = match expect(input, p2, "=") {
        Some(l) => l,
        None => {
            return Outcome::NoMatch;
        },
    };
    match expr(input, p3, fuel) {
        Outcome::Match(e, p4) => Outcome::Match(
            if mutable {
                Stmt::Var(n, e)
            } else {
                Stmt::Val(n, e)
            },
            p4,
        ),
        Outcome::NoMatch => Outcome::NoMatch,
        Outcome::TooDeep => Outcome::TooDeep,
    }
}

#[verifier::rlimit(50)]
#[verifier::spinoff_prover]
fn assignment(input: &Vec<char>, loc: Location, fuel: usize) -> (r: Outcome<Stmt>)
    requires
        loc.wf(input@),
    ensures
        stmt_outcome(r) == grammar::assignment(fuel as nat, input@, loc@),
        lands(r, input@),
    decreases fuel, 11nat,
{
    let (n, p1) = match name(input, loc) {
        Some(x) => x,
        None => {
            return Outcome::NoMatch;
        },
    };
    let p2 = match expect(input, p1, "=") {
        Some(l) => l,
        None => {
            return Outcome::NoMatch;
        },
    };
    match expr(input, p2, fuel) {
        Outcome::Match(e, p3) => Outcome::Match(Stmt::Assign(n, e), p3),
        Outcome::NoMatch => Outcome::NoMatch,
        Outcome::TooDeep => Outcome::TooDeep,
    }
}

#[verifier::rlimit(50)]
#[verifier::spinoff_prover]
fn while_loop(input: &Vec<char>, loc: Location, fuel: usize) -> (r: Outcome<Stmt>)
    requires
        loc.wf(input@),
    ensures
        stmt_outcome(r) == grammar::while_loop(fuel as nat, input@, loc@),
        lands(r, input@),
    decreases fuel, 11nat,
{
    let p1 = match expect(input, loc, "while") {
        Some(l) => l,
        None => {
            return Outcome::NoMatch;
        },
    };
    let (c, p2) = match paren(input, p1, fuel) {
        Outcome::Match(c, p2) => (c, p2),
        Outcome::NoMatch => {
            return Outcome::NoMatch;
        },
        Outcome::TooDeep => {
            return Outcome::TooDeep;
        },
    };
    match block(input, p2, fuel) {
        Outcome::Match(b, p3) => Outcome::Match(Stmt::While(c, b), p3),
        Outcome::NoMatch => Outcome::NoMatch,
        Outcome::TooDeep => Outcome::TooDeep,
    }
}

#[verifier::rlimit(50)]
#[verifier::spinoff_prover]
fn for_loop(input: &Vec<char>, loc: Location, fuel: usize) -> (r: Outcome<Stmt>)
    requires
        loc.wf(input@),
    ensures
        stmt_outcome(r) == grammar::for_loop(fuel as nat, input@, loc@),
        lands(r, input@),
    decreases fuel, 11nat,
{
    let p1 = match expect(input, loc, "for") {
        Some(l) => l,
        None => {
            return Outcome::NoMatch;
        },
    };
    let p2 = match expect(input, p1, "(") {
        Some(l) => l,
        None => {
            return Outcome::NoMatch;
        },
    };
    let (n, p3) = match name(input, p2) {
        Some(x) => x,
        None => {
            return Outcome::NoMatch;
        },
    };
    let p4 = match expect(input, p3, "<-") {
        Some(l) => l,
        None => {
            return Outcome::NoMatch;
        },
    };
    let (from, p5) = match expr(input, p4, fuel) {
        Outcome::Match(e, p) => (e, p),
        Outcome::NoMatch => {
            return Outcome::NoMatch;
        },
        Outcome::TooDeep => {
            return Outcome::TooDeep;
        },
    };
    let p6 = match expect(input, p5, "until") {
        Some(l) => l,
        None => {
            return Outcome::NoMatch;
        },
    };
    let (to, p7) = match expr(input, p6, fuel) {
        Outcome::Match(e, p) => (e, p),
        Outcome::NoMatch => {
            return Outcome::NoMatch;
        },
        Outcome::TooDeep => {
            return Outcome::TooDeep;
        },
    };
    let p8 = match expect(input, p7, ")") {
        Some(l) => l,
        None => {
            return Outcome::NoMatch;
        },
    };
    match block(input, p8, fuel) {
        Outcome::Match(b, p9) => Outcome::Match(Stmt::For(n, from, to, b), p9),
        Outcome::NoMatch => Outcome::NoMatch,
        Outcome::TooDeep => Outcome::TooDeep,
    }
}

#[verifier::rlimit(50)]
#[verifier::spinoff_prover]
fn func(input: &Vec<char>, loc: Location, fuel: usize) -> (r: Outcome<Func>)
    requires
        loc.wf(input@),
    ensures
        func_outcome(r) == grammar::func(fuel as nat, input@, loc@),
        lands(r, input@),
    decreases fuel, 11nat,
{
    let p1 = match expect(input, loc, "def") {
        Some(l) => l,
        None => {
            return Outcome::NoMatch;
        },
    };
    let (n, p2) = match name(input, p1) {
        Some(x) => x,
        None => {
            return Outcome::NoMatch;
        },
    };
    let (ps, p3) = match params(input, p2, fuel) {
        Outcome::Match(ps, p) => (ps, p),
        Outcome::NoMatch => {
            return Outcome::NoMatch;
        },
        Outcome::TooDeep => {
            return Outcome::TooDeep;
        },
    };
    let (ty, p4) = result_type(input, p3);
    match block(input, p4, fuel) {
        Outcome::Match(b, p5) => Outcome::Match(
            Func { name: n, params: ps, return_type: ty, block: b },
            p5,
        ),
        Outcome::NoMatch => Outcome::NoMatch,
        Outcome::TooDeep => Outcome::TooDeep,
    }
}

fn result_type(input: &Vec<char>, loc: Location) -> (r: (Option<Span<String>>, Location))
    requires
        loc.wf(input@),
    ensures
        (opt_ident_view(r.0), r.1@) == grammar::result_type(input@, loc@),
        r.1.wf(input@),
{
    let p1 = match expect(input, loc, ":") {
        Some(l) => l,
        None => {
            return (None, loc);
        },
    };
    let (t, p2) = match name(input, p1) {
        Some(x) => x,
        None => {
            return (None, loc);
        },
    };
    match expect(input, p2, "=") {
        Some(p3) => (Some(t), p3),
        None => (Some(t), p2),
    }
}

fn param(input: &Vec<char>, loc: Location) -> (r: Option<((Span<String>, Span<String>), Location)>)
    requires
        loc.wf(input@),
    ensures
        match r {
            Some((x, l)) => grammar::param(input@, loc@) == Some(((x.0@, x.1@), l@)) && l.wf(
                input@,
            ),
            None => grammar::param(input@, loc@) is None,
        },
{
    let (n, p1) = match name(input, loc) {
        Some(x) => x,
        None => {
            return None;
        },
    };
    let p2 = match expect(input, p1, ":") {
        Some(l) => l,
        None => {
            return None;
        },
    };
    match name(input, p2) {
        Some((t, p3)) => Some(((n, t), p3)),
        None => None,
    }
}

#[verifier::rlimit(50)]
#[verifier::spinoff_prover]
#[verifier::loop_isolation(false)]
fn params(input: &Vec<char>, loc: Location, fuel: usize) -> (r: Outcome<
    Vec<(Span<String>, Span<String>)>,
>)
    requires
        loc.wf(input@),
    ensures
        params_outcome(r) == grammar::params(fuel as nat, input@, loc@),
        lands(r, input@),
{
    let p1 = match expect(input, loc, "(") {
        Some(l) => l,
        None => {
            return Outcome::NoMatch;
        },
    };
    let mut out: Vec<(Span<String>, Span<String>)> = Vec::new();
    assert(params_view(out@) =~= Seq::<(Ident, Ident)>::empty());
    let mut at = p1;
    let mut left = fuel;
    loop
        invariant
            at.wf(input@),
            left <= fuel,
            grammar::param_items(fuel as nat, input@, p1@, Seq::empty())
                == grammar::param_items(left as nat, input@, at@, params_view(out@)),
        decreases left,
    {
        match param(input, at) {
            Some((x, p2)) => {
                let ghost before = out@;
                proof {
                    assert(params_view(before.push(x)) =~= params_view(before).push((x.0@, x.1@)));
                }
                out.push(x);
                match expect(input, p2, ",") {
                    Some(p3) => {
                        if left == 0 {
                            return Outcome::TooDeep;
                        }
                        at = p3;
                        left = left - 1;
                    },
                    None => {
                        at = p2;
                        break ;
                    },
                }
            },
            None => {
                break ;
            },
        }
    }
    match expect(input, at, ")") {
        Some(p4) => Outcome::Match(out, p4),
        None => Outcome::NoMatch,
    }
}

fn extends(input: &Vec<char>, loc: Location) -> (r: (Option<Span<String>>, Location))
    requires
        loc.wf(input@),
    ensures
        (opt_ident_view(r.0), r.1@) == grammar::extends(input@, loc@),
        r.1.wf(input@),
{
    let p1 = match expect(input, loc, "extends") {
        Some(l) => l,
        None => {
            return (None, loc);
        },
    };
    match name(input, p1) {
        Some((n, p2)) => (Some(n), p2),
        None => (None, loc),
    }
}

#[verifier::rlimit(50)]
#[verifier::spinoff_prover]
#[verifier::loop_isolation(false)]
fn withs(input: &Vec<char>, loc: Location, fuel: usize) -> (r: Outcome<Vec<Span<String>>>)
    requires
        loc.wf(input@),
    ensures
        idents_outcome(r) == grammar::withs(fuel as nat, input@, loc@, Seq::empty()),
        lands(r, input@),
{
    let mut out: Vec<Span<String>> = Vec::new();
    assert(idents_view(out@) =~= Seq::<Ident>::empty());
    let mut at = loc;
    let mut left = fuel;
    loop
        invariant
            at.wf(input@),
            left <= fuel,
            grammar::withs(fuel as nat, input@, loc@, Seq::empty()) == grammar::withs(
                left as nat,
                input@,
                at@,
                idents_view(out@),
            ),
        decreases left,
    {
        let p1 = match expect(input, at, "with") {
            Some(l) => l,
            None => {
                break ;
            },
        };
        match name(input, p1) {
            Some((n, p2)) => {
                if left == 0 {
                    return Outcome::TooDeep;
                }
                let ghost before = out@;
                proof {
                    assert(idents_view(before.push(n)) =~= idents_view(before).push(n@));
                }
                out.push(n);
                at = p2;
                left = left - 1;
            },
            None => {
                break ;
            },
        }
    }
    Outcome::Match(out, at)
}

#[verifier::rlimit(50)]
#[verifier::spinoff_prover]
fn declared(input: &Vec<char>, loc: Location, fuel: usize, is_class: bool) -> (r: Outcome<TopItem>)
    requires
        loc.wf(input@),
    ensures
        item_outcome(r) == grammar::declared(fuel as nat, input@, loc@, is_class),
        lands(r, input@),
{
    let word = if is_class {
        "class"
    } else {
        "object"
    };
    let p1 = match expect(input, loc, word) {
        Some(l) => l,
        None => {
            return Outcome::NoMatch;
        },
    };
    let (n, p2) = match name(input, p1) {
        Some(x) => x,
        None => {
            return Outcome::NoMatch;
        },
    };
    let mut a: Vec<(Span<String>, Span<String>)> = Vec::new();
    assert(params_view(a@) =~= Seq::<(Ident, Ident)>::empty());
    let mut p3 = p2;
    if is_class {
        match params(input, p2, fuel) {
            Outcome::Match(ps, p) => {
                a = ps;
                p3 = p;
            },
            Outcome::NoMatch => {},
            Outcome::TooDeep => {
                return Outcome::TooDeep;
            },
        }
    }
    let (e, p4) = extends(input, p3);
    let (w, p5) = match withs(input, p4, fuel) {
        Outcome::Match(w, p) => (w, p),
        Outcome::NoMatch => {
            return Outcome::NoMatch;
        },
        Outcome::TooDeep => {
            return Outcome::TooDeep;
        },
    };
    match block(input, p5, fuel) {
        Outcome::Match(b, p6) => {
            let item = if is_class {
                TopItem::Class(Class { name: n, args: a, extends: e, with: w, block: b })
            } else {
                TopItem::Object(Object { name: n, extends: e, with: w, block: b })
            };
            Outcome::Match(item, p6)
        },
        Outcome::NoMatch => Outcome::NoMatch,
        Outcome::TooDeep => Outcome::TooDeep,
    }
}

/// Reads the declarations of a text: any number of objects and classes,
/// after any blanks at the start. The place of the result is where the
/// reading stopped.
#[verifier::rlimit(50)]
#[verifier::spinoff_prover]
#[verifier::loop_isolation(false)]
pub fn file(input: &Vec<char>, fuel: usize) -> (r: Outcome<Vec<TopItem>>)
    ensures
        items_outcome(r) == grammar::file(fuel as nat, input@),
        lands(r, input@),
{
    let start = whitespace(input, Location { offset: 0, line: 0, col: 0 });
    let mut out: Vec<TopItem> = Vec::new();
    assert(items_view(out@) =~= Seq::<SpecTopItem>::empty());
    let mut at = start;
    let mut left = fuel;
    loop
        invariant
            at.wf(input@),
            left <= fuel,
            grammar::file(fuel as nat, input@) == grammar::top_items(
                left as nat,
                input@,
                at@,
                items_view(out@),
            ),
        decreases left,
    {
        let found = match declared(input, at, left, false) {
            Outcome::NoMatch => declared(input, at, left, true),
            other => other,
        };
        match found {
            Outcome::Match(x, p1) => {
                if left == 0 {
                    return Outcome::TooDeep;
                }
                let ghost before = out@;
                proof {
                    assert(items_view(before.push(x)) =~= items_view(before).push(x@));
                }
                out.push(x);
                at = p1;
                left = left - 1;
            },
            Outcome::NoMatch => {
                break ;
            },
            Outcome::TooDeep => {
                return Outcome::TooDeep;
            },
        }
    }
    Outcome::Match(out, at)
}

/// Why a text could not be read.
#[derive(Clone, Copy, Debug, PartialEq, Eq, Structural)]
pub enum ParseError {
    /// No declaration stands at this place, and the text goes on.
    Stopped(Location),
    /// The fuel is used up.
    TooDeep,
}

/// What reading a text gives: its declarations where they reach the end of
/// the text, else the place where the reading stopped, or that the fuel was
/// used up.
pub open spec fn parse_model(text: Seq<char>, fuel: nat) -> Result<
    Seq<SpecTopItem>,
    ParseError,
> {
    match grammar::file(fuel, text) {
        Parsed::Match(items, p) => if p.offset == text.len() {
            Ok(items)
        } else {
            Err(
                ParseError::Stopped(
                    Location {
                        offset: p.offset as usize,
                        line: p.line as usize,
                        col: p.col as usize,
                    },
                ),
            )
        },
        _ => Err(ParseError::TooDeep),
    }
}

/// Reads a whole text: its declarations, where they reach the end of the
/// text.
pub fn parse(text: &str, fuel: usize) -> (r: Result<Vec<TopItem>, ParseError>)
    ensures
        match r {
            Ok(items) => parse_model(text@, fuel as nat) == Ok::<Seq<SpecTopItem>, ParseError>(
                items_view(items@),
            ),
            Err(e) => parse_model(text@, fuel as nat) == Err::<Seq<SpecTopItem>, ParseError>(e),
        },
{
    let input = chars_of(text);
    match file(&input, fuel) {
        Outcome::Match(items, at) => {
            if at.offset == input.len() {
                Ok(items)
            } else {
                Err(ParseError::Stopped(at))
            }
        },
        _ => Err(ParseError::TooDeep),
    }
}

} // verus!
