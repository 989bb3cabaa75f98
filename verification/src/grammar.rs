//! The grammar of the language, as a function from a text and a place in it
//! to what is read there and the place after it.
//!
//! The grammar is read as written, from left to right and with the choices in
//! their order; a choice that fails gives back what it has read. Every token
//! is followed by any number of blanks, which belong to it. Key words are not
//! set apart from names: `value` begins with `val`.
use vstd::prelude::*;
use crate::{Span, Range};
use crate::ast::{Ident, SpecExpression, SpecStmt, SpecFunc, SpecTopItem};

verus! {

/// The mathematical value of a [`Location`].
pub struct Pos {
    pub offset: nat,
    pub line: nat,
    pub col: nat,
}

/// The start of a text.
pub open spec fn origin() -> Pos {
    Pos { offset: 0, line: 0, col: 0 }
}

/// Blanks, tabs and line ends.
pub open spec fn is_blank(c: char) -> bool {
    c == ' ' || c == '\t' || c == '\n' || c == '\r'
}

/// The letters of the Latin alphabet.
pub open spec fn is_letter(c: char) -> bool {
    ('a' <= c && c <= 'z') || ('A' <= c && c <= 'Z')
}

/// The ten digits.
pub open spec fn is_digit(c: char) -> bool {
    '0' <= c && c <= '9'
}

/// What a name may hold after its first letter.
pub open spec fn is_word(c: char) -> bool {
    is_letter(c) || is_digit(c) || c == '_'
}

/// The place after the character `c` at `p`: a line end begins a new line.
pub open spec fn step(p: Pos, c: char) -> Pos {
    if c == '\n' {
        Pos { offset: p.offset + 1, line: p.line + 1, col: 0 }
    } else {
        Pos { offset: p.offset + 1, line: p.line, col: p.col + 1 }
    }
}

/// The place `n` characters after `p` on the same line.
pub open spec fn advance(p: Pos, n: nat) -> Pos {
    Pos { offset: p.offset + n, line: p.line, col: p.col + n }
}

/// The place after the blanks that begin at `p`.
pub open spec fn blanks(s: Seq<char>, p: Pos) -> Pos
    decreases s.len() - p.offset,
{
    if p.offset < s.len() && is_blank(s[p.offset as int]) {
        blanks(s, step(p, s[p.offset as int]))
    } else {
        p
    }
}

/// The range of `n` characters on one line that begin at `p`.
pub open spec fn range_of(p: Pos, n: nat) -> Range {
    ((p.line as usize, p.col as usize), (p.line as usize, (p.col + n) as usize))
}

/// Whether the text `lit` stands at the offset `at`.
pub open spec fn starts_with(s: Seq<char>, at: nat, lit: Seq<char>) -> bool {
    at + lit.len() <= s.len() && s.subrange(at as int, (at + lit.len()) as int) == lit
}

/// The token `lit` at `p`: the place after it and its blanks.
pub open spec fn token(s: Seq<char>, p: Pos, lit: Seq<char>) -> Option<Pos> {
    if starts_with(s, p.offset, lit) {
        Some(blanks(s, advance(p, lit.len())))
    } else {
        None
    }
}

/// The end of the run of word characters that begins at `i`.
pub open spec fn word_end(s: Seq<char>, i: nat) -> nat
    decreases s.len() - i,
{
    if i < s.len() && is_word(s[i as int]) {
        word_end(s, i + 1)
    } else {
        i
    }
}

/// The end of the run of digits that begins at `i`.
pub open spec fn digits_end(s: Seq<char>, i: nat) -> nat
    decreases s.len() - i,
{
    if i < s.len() && is_digit(s[i as int]) {
        digits_end(s, i + 1)
    } else {
        i
    }
}

/// The first offset from `i` on that holds a double quote, or the length of
/// the text.
pub open spec fn quote_at(s: Seq<char>, i: nat) -> nat
    decreases s.len() - i,
{
    if i < s.len() && s[i as int] != '"' {
        quote_at(s, i + 1)
    } else {
        i
    }
}

/// The number that a digit stands for.
pub open spec fn digit_of(c: char) -> nat {
    if is_digit(c) {
        (c as nat - '0' as nat) as nat
    } else {
        0
    }
}

/// The number that a run of digits stands for.
pub open spec fn digits_value(d: Seq<char>) -> nat
    decreases d.len(),
{
    if d.len() == 0 {
        0
    } else {
        digits_value(d.drop_last()) * 10 + digit_of(d.last())
    }
}

/// A name at `p`: a letter, then letters, digits and underscores.
pub open spec fn name(s: Seq<char>, p: Pos) -> Option<(Ident, Pos)> {
    if p.offset < s.len() && is_letter(s[p.offset as int]) {
        let end = word_end(s, p.offset + 1);
        let n = (end - p.offset) as nat;
        Some(
            (
                Span { data: s.subrange(p.offset as int, end as int), range: range_of(p, n) },
                blanks(s, advance(p, n)),
            ),
        )
    } else {
        None
    }
}

/// A whole number at `p`: a sign or not, then at least one digit, with a
/// value that fits 64 bits.
pub open spec fn integer(s: Seq<char>, p: Pos) -> Option<(Span<i64>, Pos)> {
    if p.offset < s.len() && (is_digit(s[p.offset as int]) || s[p.offset as int] == '-'
        || s[p.offset as int] == '+') {
        let start = if is_digit(s[p.offset as int]) {
            p.offset
        } else {
            p.offset + 1
        };
        let end = digits_end(s, start);
        let size = digits_value(s.subrange(start as int, end as int));
        let v: int = if s[p.offset as int] == '-' {
            -size
        } else {
            size as int
        };
        let n = (end - p.offset) as nat;
        if end > start && i64::MIN <= v <= i64::MAX {
            Some((Span { data: v as i64, range: range_of(p, n) }, blanks(s, advance(p, n))))
        } else {
            None
        }
    } else {
        None
    }
}

/// A string at `p`: a double quote, then everything up to the next double
/// quote. The range counts both quotes and stays on one line.
pub open spec fn escaped_quoted_span(s: Seq<char>, p: Pos) -> Option<(Ident, Pos)> {
    if p.offset < s.len() && s[p.offset as int] == '"' {
        let end = quote_at(s, p.offset + 1);
        if end < s.len() {
            let n = (end + 1 - p.offset) as nat;
            Some(
                (
                    Span { data: s.subrange((p.offset + 1) as int, end as int), range: range_of(p, n) },
                    blanks(s, advance(p, n)),
                ),
            )
        } else {
            None
        }
    } else {
        None
    }
}



/// What reading a piece of the grammar at some place gives.
pub enum Parsed<T> {
    /// The piece stands there: what was read, and the place after it.
    Match(T, Pos),
    /// The piece does not stand there.
    NoMatch,
    /// The fuel is used up.
    TooDeep,
}

/// The first of two choices that does not fail to match.
pub open spec fn or_else<T>(a: Parsed<T>, b: Parsed<T>) -> Parsed<T> {
    match a {
        Parsed::NoMatch => b,
        _ => a,
    }
}

/// A literal: a whole number, a string, `true` or `false`.
pub open spec fn literal(s: Seq<char>, p: Pos) -> Parsed<SpecExpression> {
    match integer(s, p) {
        Some((n, p1)) => Parsed::Match(SpecExpression::Int(n), p1),
        None => match escaped_quoted_span(s, p) {
            Some((t, p1)) => Parsed::Match(SpecExpression::String(t), p1),
            None => match token(s, p, "true"@) {
                Some(p1) => Parsed::Match(SpecExpression::Bool(true), p1),
                None => match token(s, p, "false"@) {
                    Some(p1) => Parsed::Match(SpecExpression::Bool(false), p1),
                    None => Parsed::NoMatch,
                },
            },
        },
    }
}

/// The first operator of a level of binding: `==`, `*` or `+`.
pub open spec fn first_op(level: nat) -> Seq<char> {
    if level == 0 {
        "=="@
    } else if level == 1 {
        "*"@
    } else {
        "+"@
    }
}

/// The second operator of a level of binding: `!=`, `/` or `-`.
pub open spec fn second_op(level: nat) -> Seq<char> {
    if level == 0 {
        "!="@
    } else if level == 1 {
        "/"@
    } else {
        "-"@
    }
}

/// The expression of an operator of a level with its two operands.
pub open spec fn infix(level: nat, first: bool, l: SpecExpression, r: SpecExpression) -> SpecExpression {
    if level == 0 {
        if first {
            SpecExpression::Eq(Box::new(l), Box::new(r))
        } else {
            SpecExpression::Neq(Box::new(l), Box::new(r))
        }
    } else if level == 1 {
        if first {
            SpecExpression::Mul(Box::new(l), Box::new(r))
        } else {
            SpecExpression::Div(Box::new(l), Box::new(r))
        }
    } else {
        if first {
            SpecExpression::Add(Box::new(l), Box::new(r))
        } else {
            SpecExpression::Sub(Box::new(l), Box::new(r))
        }
    }
}

/// An expression: `expr = binary(2)`.
pub open spec fn expr(fuel: nat, s: Seq<char>, p: Pos) -> Parsed<SpecExpression>
    decreases fuel, 9nat,
{
    binary(fuel, s, p, 2)
}

/// `binary(level) = operand [ (first_op | second_op) expr ]`, where the
/// operand of the level 0 is a base expression and that of a higher level
/// is `binary` of the level below. The right operand is a whole expression,
/// so every operator takes all that follows it.
pub open spec fn binary(fuel: nat, s: Seq<char>, p: Pos, level: nat) -> Parsed<SpecExpression>
    decreases fuel, 6 + (if level <= 2 { level } else { 2 }),
{
    let left = if level == 0 || level > 2 {
        base(fuel, s, p)
    } else {
        binary(fuel, s, p, (level - 1) as nat)
    };
    match left {
        Parsed::Match(l, p1) => {
            let op = match token(s, p1, first_op(level)) {
                Some(p2) => Some((true, p2)),
                None => match token(s, p1, second_op(level)) {
                    Some(p2) => Some((false, p2)),
                    None => None,
                },
            };
            match op {
                None => left,
                Some((first, p2)) => {
                    if fuel == 0 {
                        Parsed::TooDeep
                    } else {
                        match expr((fuel - 1) as nat, s, p2) {
                            Parsed::Match(r, p3) => Parsed::Match(infix(level, first, l, r), p3),
                            Parsed::NoMatch => left,
                            Parsed::TooDeep => Parsed::TooDeep,
                        }
                    }
                },
            }
        },
        _ => left,
    }
}

/// `base = literal | if | name [args] | "(" expr ")"`.
pub open spec fn base(fuel: nat, s: Seq<char>, p: Pos) -> Parsed<SpecExpression>
    decreases fuel, 5nat,
{
    or_else(
        literal(s, p),
        if fuel == 0 {
            Parsed::TooDeep
        } else {
            let f = (fuel - 1) as nat;
            or_else(branch(f, s, p), or_else(name_or_call(f, s, p), paren(f, s, p)))
        },
    )
}

/// `if = "if" expr block [ "else" block ]`.
pub open spec fn branch(fuel: nat, s: Seq<char>, p: Pos) -> Parsed<SpecExpression>
    decreases fuel, 11nat,
{
    match token(s, p, "if"@) {
        None => Parsed::NoMatch,
        Some(p1) => match expr(fuel, s, p1) {
            Parsed::Match(c, p2) => match block(fuel, s, p2) {
                Parsed::Match(t, p3) => match token(s, p3, "else"@) {
                    None => Parsed::Match(SpecExpression::If(Box::new(c), t, None), p3),
                    Some(p4) => match block(fuel, s, p4) {
                        Parsed::Match(e, p5) => Parsed::Match(
                            SpecExpression::If(Box::new(c), t, Some(e)),
                            p5,
                        ),
                        Parsed::NoMatch => Parsed::Match(
                            SpecExpression::If(Box::new(c), t, None),
                            p3,
                        ),
                        Parsed::TooDeep => Parsed::TooDeep,
                    },
                },
                Parsed::NoMatch => Parsed::NoMatch,
                Parsed::TooDeep => Parsed::TooDeep,
            },
            Parsed::NoMatch => Parsed::NoMatch,
            Parsed::TooDeep => Parsed::TooDeep,
        },
    }
}

/// `name [args]`: a call where an argument list follows, else a name.
pub open spec fn name_or_call(fuel: nat, s: Seq<char>, p: Pos) -> Parsed<SpecExpression>
    decreases fuel, 11nat,
{
    match name(s, p) {
        None => Parsed::NoMatch,
        Some((n, p1)) => match args(fuel, s, p1) {
            Parsed::Match(a, p2) => Parsed::Match(SpecExpression::Call(n, a), p2),
            Parsed::NoMatch => Parsed::Match(SpecExpression::Name(n), p1),
            Parsed::TooDeep => Parsed::TooDeep,
        },
    }
}

/// `"(" expr ")"`.
pub open spec fn paren(fuel: nat, s: Seq<char>, p: Pos) -> Parsed<SpecExpression>
    decreases fuel, 10nat,
{
    match token(s, p, "("@) {
        None => Parsed::NoMatch,
        Some(p1) => match expr(fuel, s, p1) {
            Parsed::Match(e, p2) => match token(s, p2, ")"@) {
                Some(p3) => Parsed::Match(e, p3),
                None => Parsed::NoMatch,
            },
            other => other,
        },
    }
}

/// `args = "(" { expr "," } [ expr ] ")"`: the arguments of a call,
/// separated by commas; a comma may follow the last one.
pub open spec fn args(fuel: nat, s: Seq<char>, p: Pos) -> Parsed<Seq<SpecExpression>>
    decreases fuel, 10nat,
{
    match token(s, p, "("@) {
        None => Parsed::NoMatch,
        Some(p1) => match items(fuel, s, p1, Seq::empty()) {
            Parsed::Match(a, p2) => match token(s, p2, ")"@) {
                Some(p3) => Parsed::Match(a, p3),
                None => Parsed::NoMatch,
            },
            other => other,
        },
    }
}

/// The arguments of a call from `p` on, after the earlier ones gave `seen`.
pub open spec fn items(fuel: nat, s: Seq<char>, p: Pos, seen: Seq<SpecExpression>) -> Parsed<
    Seq<SpecExpression>,
>
    decreases fuel, 0nat,
{
    if fuel == 0 {
        Parsed::TooDeep
    } else {
        match expr((fuel - 1) as nat, s, p) {
            Parsed::Match(e, p1) => match token(s, p1, ","@) {
                Some(p2) => items((fuel - 1) as nat, s, p2, seen.push(e)),
                None => Parsed::Match(seen.push(e), p1),
            },
            Parsed::NoMatch => Parsed::Match(seen, p),
            Parsed::TooDeep => Parsed::TooDeep,
        }
    }
}

/// `block = "{" { stmt } "}"`.
pub open spec fn block(fuel: nat, s: Seq<char>, p: Pos) -> Parsed<Seq<SpecStmt>>
    decreases fuel, 10nat,
{
    match token(s, p, "{"@) {
        None => Parsed::NoMatch,
        Some(p1) => {
            if fuel == 0 {
                Parsed::TooDeep
            } else {
                match stmts((fuel - 1) as nat, s, p1, Seq::empty()) {
                    Parsed::Match(b, p2) => match token(s, p2, "}"@) {
                        Some(p3) => Parsed::Match(b, p3),
                        None => Parsed::NoMatch,
                    },
                    other => other,
                }
            }
        },
    }
}

/// The statements of a block from `p` on, after the earlier ones gave
/// `seen`.
pub open spec fn stmts(fuel: nat, s: Seq<char>, p: Pos, seen: Seq<SpecStmt>) -> Parsed<
    Seq<SpecStmt>,
>
    decreases fuel, 13nat,
{
    match stmt(fuel, s, p) {
        Parsed::Match(x, p1) => {
            if fuel == 0 {
                Parsed::TooDeep
            } else {
                stmts((fuel - 1) as nat, s, p1, seen.push(x))
            }
        },
        Parsed::NoMatch => Parsed::Match(seen, p),
        Parsed::TooDeep => Parsed::TooDeep,
    }
}

/// `stmt = let | func | return | while | for | assign | expr`, with
/// `return = "return" expr` and the last choice an expression by itself.
pub open spec fn stmt(fuel: nat, s: Seq<char>, p: Pos) -> Parsed<SpecStmt>
    decreases fuel, 12nat,
{
    or_else(
        declaration(fuel, s, p, false),
        or_else(
            declaration(fuel, s, p, true),
            or_else(
                match func(fuel, s, p) {
                    Parsed::Match(f, p1) => Parsed::Match(SpecStmt::Func(f), p1),
                    Parsed::NoMatch => Parsed::NoMatch,
                    Parsed::TooDeep => Parsed::TooDeep,
                },
                or_else(
                    match token(s, p, "return"@) {
                        None => Parsed::NoMatch,
                        Some(p1) => match expr(fuel, s, p1) {
                            Parsed::Match(e, p2) => Parsed::Match(SpecStmt::Return(e), p2),
                            Parsed::NoMatch => Parsed::NoMatch,
                            Parsed::TooDeep => Parsed::TooDeep,
                        },
                    },
                    or_else(
                        while_loop(fuel, s, p),
                        or_else(
                            for_loop(fuel, s, p),
                            or_else(
                                assignment(fuel, s, p),
                                match expr(fuel, s, p) {
                                    Parsed::Match(e, p1) => Parsed::Match(SpecStmt::Expr(e), p1),
                                    Parsed::NoMatch => Parsed::NoMatch,
                                    Parsed::TooDeep => Parsed::TooDeep,
                                },
                            ),
                        ),
                    ),
                ),
            ),
        ),
    )
}

/// `let = "val" name "=" expr | "var" name "=" expr`, one of the two.
pub open spec fn declaration(fuel: nat, s: Seq<char>, p: Pos, mutable: bool) -> Parsed<SpecStmt>
    decreases fuel, 11nat,
{
    match token(
        s,
        p,
        if mutable {
            "var"@
        } else {
            "val"@
        },
    ) {
        None => Parsed::NoMatch,
        Some(p1) => match name(s, p1) {
            None => Parsed::NoMatch,
            Some((n, p2)) => match token(s, p2, "="@) {
                None => Parsed::NoMatch,
                Some(p3) => match expr(fuel, s, p3) {
                    Parsed::Match(e, p4) => Parsed::Match(
                        if mutable {
                            SpecStmt::Var(n, e)
                        } else {
                            SpecStmt::Val(n, e)
                        },
                        p4,
                    ),
                    Parsed::NoMatch => Parsed::NoMatch,
                    Parsed::TooDeep => Parsed::TooDeep,
                },
            },
        },
    }
}

/// `assign = name "=" expr`.
pub open spec fn assignment(fuel: nat, s: Seq<char>, p: Pos) -> Parsed<SpecStmt>
    decreases fuel, 11nat,
{
    match name(s, p) {
        None => Parsed::NoMatch,
        Some((n, p1)) => match token(s, p1, "="@) {
            None => Parsed::NoMatch,
            Some(p2) => match expr(fuel, s, p2) {
                Parsed::Match(e, p3) => Parsed::Match(SpecStmt::Assign(n, e), p3),
                Parsed::NoMatch => Parsed::NoMatch,
                Parsed::TooDeep => Parsed::TooDeep,
            },
        },
    }
}

/// `while = "while" "(" expr ")" block`.
pub open spec fn while_loop(fuel: nat, s: Seq<char>, p: Pos) -> Parsed<SpecStmt>
    decreases fuel, 11nat,
{
    match token(s, p, "while"@) {
        None => Parsed::NoMatch,
        Some(p1) => match paren(fuel, s, p1) {
            Parsed::Match(c, p2) => match block(fuel, s, p2) {
                Parsed::Match(b, p3) => Parsed::Match(SpecStmt::While(c, b), p3),
                Parsed::NoMatch => Parsed::NoMatch,
                Parsed::TooDeep => Parsed::TooDeep,
            },
            Parsed::NoMatch => Parsed::NoMatch,
            Parsed::TooDeep => Parsed::TooDeep,
        },
    }
}

/// `for = "for" "(" name "<-" expr "until" expr ")" block`.
pub open spec fn for_loop(fuel: nat, s: Seq<char>, p: Pos) -> Parsed<SpecStmt>
    decreases fuel, 11nat,
{
    match token(s, p, "for"@) {
        None => Parsed::NoMatch,
        Some(p1) => match token(s, p1, "("@) {
            None => Parsed::NoMatch,
            Some(p2) => match name(s, p2) {
                None => Parsed::NoMatch,
                Some((n, p3)) => match token(s, p3, "<-"@) {
                    None => Parsed::NoMatch,
                    Some(p4) => match expr(fuel, s, p4) {
                        Parsed::Match(from, p5) => match token(s, p5, "until"@) {
                            None => Parsed::NoMatch,
                            Some(p6) => match expr(fuel, s, p6) {
                                Parsed::Match(to, p7) => match token(s, p7, ")"@) {
                                    None => Parsed::NoMatch,
                                    Some(p8) => match block(fuel, s, p8) {
                                        Parsed::Match(b, p9) => Parsed::Match(
                                            SpecStmt::For(n, from, to, b),
                                            p9,
                                        ),
                                        Parsed::NoMatch => Parsed::NoMatch,
                                        Parsed::TooDeep => Parsed::TooDeep,
                                    },
                                },
                                Parsed::NoMatch => Parsed::NoMatch,
                                Parsed::TooDeep => Parsed::TooDeep,
                            },
                        },
                        Parsed::NoMatch => Parsed::NoMatch,
                        Parsed::TooDeep => Parsed::TooDeep,
                    },
                },
            },
        },
    }
}

/// `func = "def" name params [ ":" name [ "=" ] ] block`.
pub open spec fn func(fuel: nat, s: Seq<char>, p: Pos) -> Parsed<SpecFunc>
    decreases fuel, 11nat,
{
    match token(s, p, "def"@) {
        None => Parsed::NoMatch,
        Some(p1) => match name(s, p1) {
            None => Parsed::NoMatch,
            Some((n, p2)) => match params(fuel, s, p2) {
                Parsed::Match(ps, p3) => {
                    let (ty, p4) = result_type(s, p3);
                    match block(fuel, s, p4) {
                        Parsed::Match(b, p5) => Parsed::Match(
                            SpecFunc { name: n, params: ps, return_type: ty, block: b },
                            p5,
                        ),
                        Parsed::NoMatch => Parsed::NoMatch,
                        Parsed::TooDeep => Parsed::TooDeep,
                    }
                },
                Parsed::NoMatch => Parsed::NoMatch,
                Parsed::TooDeep => Parsed::TooDeep,
            },
        },
    }
}

/// `[ ":" name [ "=" ] ]`: the result type of a function, if one is given.
pub open spec fn result_type(s: Seq<char>, p: Pos) -> (Option<Ident>, Pos) {
    match token(s, p, ":"@) {
        None => (None, p),
        Some(p1) => match name(s, p1) {
            None => (None, p),
            Some((t, p2)) => match token(s, p2, "="@) {
                Some(p3) => (Some(t), p3),
                None => (Some(t), p2),
            },
        },
    }
}

/// `params = "(" { name ":" name "," } [ name ":" name ] ")"`: the
/// parameters of a function or class with their types, separated by commas;
/// a comma may follow the last one.
pub open spec fn params(fuel: nat, s: Seq<char>, p: Pos) -> Parsed<Seq<(Ident, Ident)>> {
    match token(s, p, "("@) {
        None => Parsed::NoMatch,
        Some(p1) => match param_items(fuel, s, p1, Seq::empty()) {
            Parsed::Match(a, p2) => match token(s, p2, ")"@) {
                Some(p3) => Parsed::Match(a, p3),
                None => Parsed::NoMatch,
            },
            other => other,
        },
    }
}

/// `name ":" name`.
pub open spec fn param(s: Seq<char>, p: Pos) -> Option<((Ident, Ident), Pos)> {
    match name(s, p) {
        None => None,
        Some((n, p1)) => match token(s, p1, ":"@) {
            None => None,
            Some(p2) => match name(s, p2) {
                None => None,
                Some((t, p3)) => Some(((n, t), p3)),
            },
        },
    }
}

/// The parameters from `p` on, after the earlier ones gave `seen`.
pub open spec fn param_items(fuel: nat, s: Seq<char>, p: Pos, seen: Seq<(Ident, Ident)>) -> Parsed<
    Seq<(Ident, Ident)>,
>
    decreases fuel,
{
    match param(s, p) {
        Some((x, p1)) => match token(s, p1, ","@) {
            Some(p2) => {
                if fuel == 0 {
                    Parsed::TooDeep
                } else {
                    param_items((fuel - 1) as nat, s, p2, seen.push(x))
                }
            },
            None => Parsed::Match(seen.push(x), p1),
        },
        None => Parsed::Match(seen, p),
    }
}

/// `[ "extends" name ]`.
pub open spec fn extends(s: Seq<char>, p: Pos) -> (Option<Ident>, Pos) {
    match token(s, p, "extends"@) {
        None => (None, p),
        Some(p1) => match name(s, p1) {
            None => (None, p),
            Some((n, p2)) => (Some(n), p2),
        },
    }
}

/// `{ "with" name }`, from `p` on, after the earlier ones gave `seen`.
pub open spec fn withs(fuel: nat, s: Seq<char>, p: Pos, seen: Seq<Ident>) -> Parsed<Seq<Ident>>
    decreases fuel,
{
    match token(s, p, "with"@) {
        None => Parsed::Match(seen, p),
        Some(p1) => match name(s, p1) {
            None => Parsed::Match(seen, p),
            Some((n, p2)) => {
                if fuel == 0 {
                    Parsed::TooDeep
                } else {
                    withs((fuel - 1) as nat, s, p2, seen.push(n))
                }
            },
        },
    }
}

/// `object = "object" name [ "extends" name ] { "with" name } block` and
/// `class = "class" name [ params ] [ "extends" name ] { "with" name } block`,
/// the first of the two that stands at `p`.
pub open spec fn top_item(fuel: nat, s: Seq<char>, p: Pos) -> Parsed<SpecTopItem> {
    or_else(declared(fuel, s, p, false), declared(fuel, s, p, true))
}

/// An object, or a class.
pub open spec fn declared(fuel: nat, s: Seq<char>, p: Pos, is_class: bool) -> Parsed<SpecTopItem> {
    match token(
        s,
        p,
        if is_class {
            "class"@
        } else {
            "object"@
        },
    ) {
        None => Parsed::NoMatch,
        Some(p1) => match name(s, p1) {
            None => Parsed::NoMatch,
            Some((n, p2)) => {
                let given = if is_class {
                    params(fuel, s, p2)
                } else {
                    Parsed::NoMatch
                };
                match given {
                    Parsed::TooDeep => Parsed::TooDeep,
                    _ => {
                        let (a, p3) = match given {
                            Parsed::Match(a, p3) => (a, p3),
                            _ => (Seq::empty(), p2),
                        };
                        let (e, p4) = extends(s, p3);
                        match withs(fuel, s, p4, Seq::empty()) {
                            Parsed::Match(w, p5) => match block(fuel, s, p5) {
                                Parsed::Match(b, p6) => Parsed::Match(
                                    SpecTopItem {
                                        is_class,
                                        name: n,
                                        args: a,
                                        extends: e,
                                        with: w,
                                        block: b,
                                    },
                                    p6,
                                ),
                                Parsed::NoMatch => Parsed::NoMatch,
                                Parsed::TooDeep => Parsed::TooDeep,
                            },
                            Parsed::NoMatch => Parsed::NoMatch,
                            Parsed::TooDeep => Parsed::TooDeep,
                        }
                    },
                }
            },
        }
    }
}

/// The declarations of a file from `p` on, after the earlier ones gave
/// `seen`.
pub open spec fn top_items(fuel: nat, s: Seq<char>, p: Pos, seen: Seq<SpecTopItem>) -> Parsed<
    Seq<SpecTopItem>,
>
    decreases fuel,
{
    match top_item(fuel, s, p) {
        Parsed::Match(x, p1) => {
            if fuel == 0 {
                Parsed::TooDeep
            } else {
                top_items((fuel - 1) as nat, s, p1, seen.push(x))
            }
        },
        Parsed::NoMatch => Parsed::Match(seen, p),
        Parsed::TooDeep => Parsed::TooDeep,
    }
}

/// `file = blanks { object | class }`: the declarations of a text, and where
/// the reading stopped.
pub open spec fn file(fuel: nat, s: Seq<char>) -> Parsed<Seq<SpecTopItem>> {
    top_items(fuel, s, blanks(s, origin()), Seq::empty())
}


/// Whether reading ended for want of fuel.
pub open spec fn starved<T>(r: Parsed<T>) -> bool {
    r is TooDeep
}

/// The fuel does not show: an expression that is read without using up the
/// fuel is read in the same way with any larger fuel.
pub proof fn lemma_fuel_expr(fuel: nat, more: nat, s: Seq<char>, p: Pos)
    requires
        fuel <= more,
        !starved(expr(fuel, s, p)),
    ensures
        expr(more, s, p) == expr(fuel, s, p),
    decreases fuel, 9nat,
{
    lemma_fuel_binary(fuel, more, s, p, 2);
}

proof fn lemma_fuel_binary(fuel: nat, more: nat, s: Seq<char>, p: Pos, level: nat)
    requires
        fuel <= more,
        !starved(binary(fuel, s, p, level)),
    ensures
        binary(more, s, p, level) == binary(fuel, s, p, level),
    decreases fuel,
        6 + (if level <= 2 {
            level
        } else {
            2
        }),
{
    if level == 0 || level > 2 {
        lemma_fuel_base(fuel, more, s, p);
    } else {
        lemma_fuel_binary(fuel, more, s, p, (level - 1) as nat);
    }
    let left = if level == 0 || level > 2 {
        base(fuel, s, p)
    } else {
        binary(fuel, s, p, (level - 1) as nat)
    };
    match left {
        Parsed::Match(l, p1) => {
            let op = match token(s, p1, first_op(level)) {
                Some(p2) => Some((true, p2)),
                None => match token(s, p1, second_op(level)) {
                    Some(p2) => Some((false, p2)),
                    None => None,
                },
            };
            match op {
                Some((_, p2)) => {
                    lemma_fuel_expr((fuel - 1) as nat, (more - 1) as nat, s, p2);
                },
                None => {},
            }
        },
        _ => {},
    }
}

proof fn lemma_fuel_base(fuel: nat, more: nat, s: Seq<char>, p: Pos)
    requires
        fuel <= more,
        !starved(base(fuel, s, p)),
    ensures
        base(more, s, p) == base(fuel, s, p),
    decreases fuel, 5nat,
{
    if literal(s, p) is NoMatch {
        let f = (fuel - 1) as nat;
        let g = (more - 1) as nat;
        lemma_fuel_branch(f, g, s, p);
        if branch(f, s, p) is NoMatch {
            lemma_fuel_name_or_call(f, g, s, p);
            if name_or_call(f, s, p) is NoMatch {
                lemma_fuel_paren(f, g, s, p);
            }
        }
    }
}

proof fn lemma_fuel_branch(fuel: nat, more: nat, s: Seq<char>, p: Pos)
    requires
        fuel <= more,
        !starved(branch(fuel, s, p)),
    ensures
        branch(more, s, p) == branch(fuel, s, p),
    decreases fuel, 11nat,
{
    if let Some(p1) = token(s, p, "if"@) {
        lemma_fuel_expr(fuel, more, s, p1);
        if let Parsed::Match(_, p2) = expr(fuel, s, p1) {
            lemma_fuel_block(fuel, more, s, p2);
            if let Parsed::Match(_, p3) = block(fuel, s, p2) {
                if let Some(p4) = token(s, p3, "else"@) {
                    lemma_fuel_block(fuel, more, s, p4);
                }
            }
        }
    }
}

proof fn lemma_fuel_name_or_call(fuel: nat, more: nat, s: Seq<char>, p: Pos)
    requires
        fuel <= more,
        !starved(name_or_call(fuel, s, p)),
    ensures
        name_or_call(more, s, p) == name_or_call(fuel, s, p),
    decreases fuel, 11nat,
{
    if let Some((_, p1)) = name(s, p) {
        lemma_fuel_args(fuel, more, s, p1);
    }
}

proof fn lemma_fuel_paren(fuel: nat, more: nat, s: Seq<char>, p: Pos)
    requires
        fuel <= more,
        !starved(paren(fuel, s, p)),
    ensures
        paren(more, s, p) == paren(fuel, s, p),
    decreases fuel, 10nat,
{
    if let Some(p1) = token(s, p, "("@) {
        lemma_fuel_expr(fuel, more, s, p1);
    }
}

proof fn lemma_fuel_args(fuel: nat, more: nat, s: Seq<char>, p: Pos)
    requires
        fuel <= more,
        !starved(args(fuel, s, p)),
    ensures
        args(more, s, p) == args(fuel, s, p),
    decreases fuel, 10nat,
{
    if let Some(p1) = token(s, p, "("@) {
        lemma_fuel_items(fuel, more, s, p1, Seq::empty());
    }
}

proof fn lemma_fuel_items(
    fuel: nat,
    more: nat,
    s: Seq<char>,
    p: Pos,
    seen: Seq<SpecExpression>,
)
    requires
        fuel <= more,
        !starved(items(fuel, s, p, seen)),
    ensures
        items(more, s, p, seen) == items(fuel, s, p, seen),
    decreases fuel, 0nat,
{
    let f = (fuel - 1) as nat;
    let g = (more - 1) as nat;
    lemma_fuel_expr(f, g, s, p);
    if let Parsed::Match(e, p1) = expr(f, s, p) {
        if let Some(p2) = token(s, p1, ","@) {
            lemma_fuel_items(f, g, s, p2, seen.push(e));
        }
    }
}

/// The fuel does not show in the reading of a block.
pub proof fn lemma_fuel_block(fuel: nat, more: nat, s: Seq<char>, p: Pos)
    requires
        fuel <= more,
        !starved(block(fuel, s, p)),
    ensures
        block(more, s, p) == block(fuel, s, p),
    decreases fuel, 10nat,
{
    if let Some(p1) = token(s, p, "{"@) {
        lemma_fuel_stmts((fuel - 1) as nat, (more - 1) as nat, s, p1, Seq::empty());
    }
}

proof fn lemma_fuel_stmts(fuel: nat, more: nat, s: Seq<char>, p: Pos, seen: Seq<SpecStmt>)
    requires
        fuel <= more,
        !starved(stmts(fuel, s, p, seen)),
    ensures
        stmts(more, s, p, seen) == stmts(fuel, s, p, seen),
    decreases fuel, 13nat,
{
    lemma_fuel_stmt(fuel, more, s, p);
    if let Parsed::Match(x, p1) = stmt(fuel, s, p) {
        lemma_fuel_stmts((fuel - 1) as nat, (more - 1) as nat, s, p1, seen.push(x));
    }
}

/// The fuel does not show in the reading of a statement.
pub proof fn lemma_fuel_stmt(fuel: nat, more: nat, s: Seq<char>, p: Pos)
    requires
        fuel <= more,
        !starved(stmt(fuel, s, p)),
    ensures
        stmt(more, s, p) == stmt(fuel, s, p),
    decreases fuel, 12nat,
{
    lemma_fuel_declaration(fuel, more, s, p, false);
    if declaration(fuel, s, p, false) is NoMatch {
        lemma_fuel_declaration(fuel, more, s, p, true);
        if declaration(fuel, s, p, true) is NoMatch {
            lemma_fuel_func(fuel, more, s, p);
            if func(fuel, s, p) is NoMatch {
                let returned = match token(s, p, "return"@) {
                    None => true,
                    Some(p1) => {
                        lemma_fuel_expr(fuel, more, s, p1);
                        expr(fuel, s, p1) is NoMatch
                    },
                };
                if returned {
                    lemma_fuel_while_loop(fuel, more, s, p);
                    if while_loop(fuel, s, p) is NoMatch {
                        lemma_fuel_for_loop(fuel, more, s, p);
                        if for_loop(fuel, s, p) is NoMatch {
                            lemma_fuel_assignment(fuel, more, s, p);
                            if assignment(fuel, s, p) is NoMatch {
                                lemma_fuel_expr(fuel, more, s, p);
                            }
                        }
                    }
                }
            }
        }
    }
}

proof fn lemma_fuel_declaration(fuel: nat, more: nat, s: Seq<char>, p: Pos, mutable: bool)
    requires
        fuel <= more,
        !starved(declaration(fuel, s, p, mutable)),
    ensures
        declaration(more, s, p, mutable) == declaration(fuel, s, p, mutable),
    decreases fuel, 11nat,
{
    let word = if mutable {
        "var"@
    } else {
        "val"@
    };
    if let Some(p1) = token(s, p, word) {
        if let Some((_, p2)) = name(s, p1) {
            if let Some(p3) = token(s, p2, "="@) {
                lemma_fuel_expr(fuel, more, s, p3);
            }
        }
    }
}

proof fn lemma_fuel_assignment(fuel: nat, more: nat, s: Seq<char>, p: Pos)
    requires
        fuel <= more,
        !starved(assignment(fuel, s, p)),
    ensures
        assignment(more, s, p) == assignment(fuel, s, p),
    decreases fuel, 11nat,
{
    if let Some((_, p1)) = name(s, p) {
        if let Some(p2) = token(s, p1, "="@) {
            lemma_fuel_expr(fuel, more, s, p2);
        }
    }
}

proof fn lemma_fuel_while_loop(fuel: nat, more: nat, s: Seq<char>, p: Pos)
    requires
        fuel <= more,
        !starved(while_loop(fuel, s, p)),
    ensures
        while_loop(more, s, p) == while_loop(fuel, s, p),
    decreases fuel, 11nat,
{
    if let Some(p1) = token(s, p, "while"@) {
        lemma_fuel_paren(fuel, more, s, p1);
        if let Parsed::Match(_, p2) = paren(fuel, s, p1) {
            lemma_fuel_block(fuel, more, s, p2);
        }
    }
}

proof fn lemma_fuel_for_loop(fuel: nat, more: nat, s: Seq<char>, p: Pos)
    requires
        fuel <= more,
        !starved(for_loop(fuel, s, p)),
    ensures
        for_loop(more, s, p) == for_loop(fuel, s, p),
    decreases fuel, 11nat,
{
    if let Some(p1) = token(s, p, "for"@) {
        if let Some(p2) = token(s, p1, "("@) {
            if let Some((_, p3)) = name(s, p2) {
                if let Some(p4) = token(s, p3, "<-"@) {
                    lemma_fuel_expr(fuel, more, s, p4);
                    if let Parsed::Match(_, p5) = expr(fuel, s, p4) {
                        if let Some(p6) = token(s, p5, "until"@) {
                            lemma_fuel_expr(fuel, more, s, p6);
                            if let Parsed::Match(_, p7) = expr(fuel, s, p6) {
                                if let Some(p8) = token(s, p7, ")"@) {
                                    lemma_fuel_block(fuel, more, s, p8);
                                }
                            }
                        }
                    }
                }
            }
        }
    }
}

proof fn lemma_fuel_func(fuel: nat, more: nat, s: Seq<char>, p: Pos)
    requires
        fuel <= more,
        !starved(func(fuel, s, p)),
    ensures
        func(more, s, p) == func(fuel, s, p),
    decreases fuel, 11nat,
{
    if let Some(p1) = token(s, p, "def"@) {
        if let Some((_, p2)) = name(s, p1) {
            lemma_fuel_params(fuel, more, s, p2);
            if let Parsed::Match(_, p3) = params(fuel, s, p2) {
                let (_, p4) = result_type(s, p3);
                lemma_fuel_block(fuel, more, s, p4);
            }
        }
    }
}

proof fn lemma_fuel_params(fuel: nat, more: nat, s: Seq<char>, p: Pos)
    requires
        fuel <= more,
        !starved(params(fuel, s, p)),
    ensures
        params(more, s, p) == params(fuel, s, p),
{
    if let Some(p1) = token(s, p, "("@) {
        lemma_fuel_param_items(fuel, more, s, p1, Seq::empty());
    }
}

proof fn lemma_fuel_param_items(
    fuel: nat,
    more: nat,
    s: Seq<char>,
    p: Pos,
    seen: Seq<(Ident, Ident)>,
)
    requires
        fuel <= more,
        !starved(param_items(fuel, s, p, seen)),
    ensures
        param_items(more, s, p, seen) == param_items(fuel, s, p, seen),
    decreases fuel,
{
    if let Some((x, p1)) = param(s, p) {
        if let Some(p2) = token(s, p1, ","@) {
            lemma_fuel_param_items((fuel - 1) as nat, (more - 1) as nat, s, p2, seen.push(x));
        }
    }
}

proof fn lemma_fuel_withs(fuel: nat, more: nat, s: Seq<char>, p: Pos, seen: Seq<Ident>)
    requires
        fuel <= more,
        !starved(withs(fuel, s, p, seen)),
    ensures
        withs(more, s, p, seen) == withs(fuel, s, p, seen),
    decreases fuel,
{
    if let Some(p1) = token(s, p, "with"@) {
        if let Some((n, p2)) = name(s, p1) {
            lemma_fuel_withs((fuel - 1) as nat, (more - 1) as nat, s, p2, seen.push(n));
        }
    }
}

proof fn lemma_fuel_declared(fuel: nat, more: nat, s: Seq<char>, p: Pos, is_class: bool)
    requires
        fuel <= more,
        !starved(declared(fuel, s, p, is_class)),
    ensures
        declared(more, s, p, is_class) == declared(fuel, s, p, is_class),
{
    let word = if is_class {
        "class"@
    } else {
        "object"@
    };
    if let Some(p1) = token(s, p, word) {
        if let Some((_, p2)) = name(s, p1) {
            if is_class {
                lemma_fuel_params(fuel, more, s, p2);
            }
            let given = if is_class {
                params(fuel, s, p2)
            } else {
                Parsed::NoMatch
            };
            let p3 = match given {
                Parsed::Match(_, p3) => p3,
                _ => p2,
            };
            let (_, p4) = extends(s, p3);
            lemma_fuel_withs(fuel, more, s, p4, Seq::empty());
            if let Parsed::Match(_, p5) = withs(fuel, s, p4, Seq::empty()) {
                lemma_fuel_block(fuel, more, s, p5);
            }
        }
    }
}

proof fn lemma_fuel_top_items(
    fuel: nat,
    more: nat,
    s: Seq<char>,
    p: Pos,
    seen: Seq<SpecTopItem>,
)
    requires
        fuel <= more,
        !starved(top_items(fuel, s, p, seen)),
    ensures
        top_items(more, s, p, seen) == top_items(fuel, s, p, seen),
    decreases fuel,
{
    lemma_fuel_declared(fuel, more, s, p, false);
    if declared(fuel, s, p, false) is NoMatch {
        lemma_fuel_declared(fuel, more, s, p, true);
    }
    if let Parsed::Match(x, p1) = top_item(fuel, s, p) {
        lemma_fuel_top_items((fuel - 1) as nat, (more - 1) as nat, s, p1, seen.push(x));
    }
}

/// The fuel does not show in the reading of a text: a text that is read
/// without using up the fuel is read in the same way with any larger fuel.
pub proof fn lemma_fuel_file(fuel: nat, more: nat, s: Seq<char>)
    requires
        fuel <= more,
        !starved(file(fuel, s)),
    ensures
        file(more, s) == file(fuel, s),
{
    lemma_fuel_top_items(fuel, more, s, blanks(s, origin()), Seq::empty());
}

/// A list of declarations never fails to match: it ends where no
/// declaration stands.
pub proof fn lemma_top_items_match(fuel: nat, s: Seq<char>, p: Pos, seen: Seq<SpecTopItem>)
    ensures
        !(top_items(fuel, s, p, seen) is NoMatch),
    decreases fuel,
{
    match top_item(fuel, s, p) {
        Parsed::Match(x, p1) => {
            if fuel > 0 {
                lemma_top_items_match((fuel - 1) as nat, s, p1, seen.push(x));
            }
        },
        _ => {},
    }
}

/// The declarations of a text never fail to match: reading stops where no
/// declaration stands.
pub proof fn lemma_file_matches(fuel: nat, s: Seq<char>)
    ensures
        !(file(fuel, s) is NoMatch),
{
    lemma_top_items_match(fuel, s, blanks(s, origin()), Seq::empty());
}

} // verus!
