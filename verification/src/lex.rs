//! Words beyond the Latin alphabet: identifiers whose letters are those of
//! any script, and the constants `true`, `false` and `null`.
use vstd::prelude::*;
use crate::Span;
use crate::ast::Ident;
use crate::grammar::{Pos, advance, blanks, range_of, token};
use crate::parser::{Location, expect, text_of, whitespace};

verus! {

/// A constant.
#[derive(Debug, Clone)]
pub enum Literal {
    Int(),
    Float(),
    Boolean(bool),
    Character(),
    String(),
    Symbol(),
    Null,
}

/// Whether a character is a letter of some script: what
/// `char::is_alphabetic` gives for it.
pub uninterp spec fn alphabetic(c: char) -> bool;

/// Whether a character is a letter or a digit of some script: what
/// `char::is_alphanumeric` gives for it.
pub uninterp spec fn alphanumeric(c: char) -> bool;

/// `char::is_alphabetic`: whether the character has the property
/// `Alphabetic` of the Unicode standard. Nothing is claimed of which
/// characters have it.
#[verifier::external_body]
fn is_alphabetic(c: char) -> (r: bool)
    ensures
        r == alphabetic(c),
{
    c.is_alphabetic()
}

/// `char::is_alphanumeric`: whether the character is alphabetic or numeric
/// by the Unicode standard. Nothing is claimed of which characters are.
#[verifier::external_body]
fn is_alphanumeric(c: char) -> (r: bool)
    ensures
        r == alphanumeric(c),
{
    c.is_alphanumeric()
}

/// What an identifier may hold after its first character.
pub open spec fn continues(c: char) -> bool {
    alphanumeric(c) || c == '_'
}

/// The end of the run of characters that an identifier may hold, from `i`
/// on.
pub open spec fn id_end(s: Seq<char>, i: nat) -> nat
    decreases s.len() - i,
{
    if i < s.len() && continues(s[i as int]) {
        id_end(s, i + 1)
    } else {
        i
    }
}

/// The identifier that begins at `p`, given that its first character is
/// fit to begin one.
pub open spec fn word_from(s: Seq<char>, p: Pos) -> (Ident, Pos) {
    let end = id_end(s, p.offset + 1);
    let n = (end - p.offset) as nat;
    (
        Span { data: s.subrange(p.offset as int, end as int), range: range_of(p, n) },
        blanks(s, advance(p, n)),
    )
}

/// An identifier at `p`: a letter of any script, then letters and digits of
/// any script and underscores.
pub open spec fn id_model(s: Seq<char>, p: Pos) -> Option<(Ident, Pos)> {
    if p.offset < s.len() && alphabetic(s[p.offset as int]) {
        Some(word_from(s, p))
    } else {
        None
    }
}

/// An identifier of a variable at `p`: a small Latin letter, then letters
/// and digits of any script and underscores.
pub open spec fn varid_model(s: Seq<char>, p: Pos) -> Option<(Ident, Pos)> {
    if p.offset < s.len() && 'a' <= s[p.offset as int] && s[p.offset as int] <= 'z' {
        Some(word_from(s, p))
    } else {
        None
    }
}

/// A constant at `p`: `true`, `false` or `null`.
pub open spec fn literal_model(s: Seq<char>, p: Pos) -> Option<(Literal, Pos)> {
    match token(s, p, "true"@) {
        Some(p1) => Some((Literal::Boolean(true), p1)),
        None => match token(s, p, "false"@) {
            Some(p1) => Some((Literal::Boolean(false), p1)),
            None => match token(s, p, "null"@) {
                Some(p1) => Some((Literal::Null, p1)),
                None => None,
            },
        },
    }
}

/// Reads the identifier that begins at `loc`.
fn word(input: &Vec<char>, loc: Location) -> (r: (Span<String>, Location))
    requires
        loc.wf(input@),
        loc.offset < input.len(),
    ensures
        (r.0@, r.1@) == word_from(input@, loc@),
        r.1.wf(input@),
        loc.offset < r.1.offset,
{
    let mut end = loc.offset + 1;
    while end < input.len() && (is_alphanumeric(input[end]) || input[end] == '_')
        invariant
            loc.offset < end <= input.len(),
            id_end(input@, (loc.offset + 1) as nat) == id_end(input@, end as nat),
        decreases input.len() - end,
    {
        end += 1;
    }
    let n = end - loc.offset;
    let data = text_of(input, loc.offset, end);
    let after = whitespace(
        input,
        Location { offset: loc.offset + n, line: loc.line, col: loc.col + n },
    );
    (Span { data, range: ((loc.line, loc.col), (loc.line, loc.col + n)) }, after)
}

/// Reads an identifier at `loc`, with the blanks that follow it.
pub fn id(input: &Vec<char>, loc: Location) -> (r: Option<(Span<String>, Location)>)
    requires
        loc.wf(input@),
    ensures
        match r {
            Some((n, l)) => id_model(input@, loc@) == Some((n@, l@)) && l.wf(input@),
            None => id_model(input@, loc@) is None,
        },
{
    if loc.offset < input.len() && is_alphabetic(input[loc.offset]) {
        Some(word(input, loc))
    } else {
        None
    }
}

/// Reads an identifier of a variable at `loc`, with the blanks that follow
/// it.
pub fn varid(input: &Vec<char>, loc: Location) -> (r: Option<(Span<String>, Location)>)
    requires
        loc.wf(input@),
    ensures
        match r {
            Some((n, l)) => varid_model(input@, loc@) == Some((n@, l@)) && l.wf(input@),
            None => varid_model(input@, loc@) is None,
        },
{
    if loc.offset < input.len() && input[loc.offset] >= 'a' && input[loc.offset] <= 'z' {
        Some(word(input, loc))
    } else {
        None
    }
}

/// Reads a constant at `loc`, with the blanks that follow it.
pub fn literal(input: &Vec<char>, loc: Location) -> (r: Option<(Literal, Location)>)
    requires
        loc.wf(input@),
    ensures
        match r {
            Some((x, l)) => literal_model(input@, loc@) == Some((x, l@)) && l.wf(input@),
            None => literal_model(input@, loc@) is None,
        },
{
    if let Some(l) = expect(input, loc, "true") {
        return Some((Literal::Boolean(true), l));
    }
    if let Some(l) = expect(input, loc, "false") {
        return Some((Literal::Boolean(false), l));
    }
    if let Some(l) = expect(input, loc, "null") {
        return Some((Literal::Null, l));
    }
    None
}

} // verus!
