//! Errors: the user-facing `ParseError` (a message and a position in the
//! original input) and the grammar's `Fault`, which says what went wrong where
//! in the whitespace-stripped input.
use vstd::prelude::*;

use crate::program::{Function, function_name};
use crate::text::append_range;

verus! {

/// An error of an expression, shown to the user.
#[derive(Clone, Debug, PartialEq)]
pub struct ParseError {
    pub msg: String,
    /// Character index in the *original* (with-whitespace) input string.
    pub pos: Option<usize>,
}

impl ParseError {
    /// An error with message `msg` at character index `pos`.
    pub fn at(msg: String, pos: usize) -> (r: Self)
        ensures
            r.msg@ == msg@,
            r.pos == Some(pos),
    {
        Self { msg, pos: Some(pos) }
    }
}

/// What stopped the grammar, with positions that index the stripped input.
#[derive(Clone, Copy, Debug, PartialEq, Eq, Structural)]
pub enum Fault {
    /// A character that no rule accepts at this point.
    UnexpectedChar { found: char, at: usize },
    /// The input ended where an operand was due.
    UnexpectedEnd { at: usize },
    /// A parenthesised expression without its `)`.
    MissingCloseParen { at: usize },
    /// A run of digits and points that is not a number, such as "1.2.3".
    InvalidNumber { start: usize, end: usize },
    /// A function's argument without its closing `)`.
    MissingCallParen { function: Function, at: usize },
    /// A name that is neither a constant nor a known variable.
    UnknownVariable { start: usize, end: usize },
}

/// The stripped index at which `f` is reported.
pub open spec fn fault_at(f: Fault) -> int {
    match f {
        Fault::UnexpectedChar { at, .. } => at as int,
        Fault::UnexpectedEnd { at } => at as int,
        Fault::MissingCloseParen { at } => at as int,
        Fault::InvalidNumber { start, .. } => start as int,
        Fault::MissingCallParen { at, .. } => at as int,
        Fault::UnknownVariable { start, .. } => start as int,
    }
}

/// The message shown for `f`, where `s` is the stripped input.
pub open spec fn fault_message(f: Fault, s: Seq<char>) -> Seq<char> {
    match f {
        Fault::UnexpectedChar { found, .. } => "Unerwartetes Zeichen: '"@ + seq![found] + "'"@,
        Fault::UnexpectedEnd { .. } => "Unerwartetes Ende des Ausdrucks"@,
        Fault::MissingCloseParen { .. } => "Fehlende schließende Klammer ')'"@,
        Fault::InvalidNumber { start, end } => "Ungültige Zahl: "@ + s.subrange(
            start as int,
            end as int,
        ),
        Fault::MissingCallParen { function, .. } => "Fehlende ')' nach "@ + function_name(function)
            + "(…"@,
        Fault::UnknownVariable { start, end } => "Unbekannte Variable '"@ + s.subrange(
            start as int,
            end as int,
        ) + "'"@,
    }
}

/// The ranges of `f` lie inside a text of `len` characters.
pub open spec fn fault_in_bounds(f: Fault, len: int) -> bool {
    match f {
        Fault::InvalidNumber { start, end } => start <= end <= len,
        Fault::UnknownVariable { start, end } => start <= end <= len,
        _ => true,
    }
}

impl Fault {
    /// The message shown for this fault; `chars` is the stripped input.
    pub fn message(&self, chars: &Vec<char>) -> (r: String)
        requires
            fault_in_bounds(*self, chars@.len() as int),
        ensures
            r@ == fault_message(*self, chars@),
    {
        match *self {
            Fault::UnexpectedChar { found, .. } => {
                let mut m = String::from_str("Unerwartetes Zeichen: '");
                crate::text::push_char(&mut m, found);
                m.append("'");
                m
            },
            Fault::UnexpectedEnd { .. } => String::from_str("Unerwartetes Ende des Ausdrucks"),
            Fault::MissingCloseParen { .. } => String::from_str("Fehlende schließende Klammer ')'"),
            Fault::InvalidNumber { start, end } => {
                let mut m = String::from_str("Ungültige Zahl: ");
                append_range(&mut m, chars, start, end);
                m
            },
            Fault::MissingCallParen { function, .. } => {
                let mut m = String::from_str("Fehlende ')' nach ");
                let name = function.name();
                append_range(&mut m, &name, 0, name.len());
                assert(name@.subrange(0, name@.len() as int) =~= name@);
                m.append("(…");
                m
            },
            Fault::UnknownVariable { start, end } => {
                let mut m = String::from_str("Unbekannte Variable '");
                append_range(&mut m, chars, start, end);
                m.append("'");
                m
            },
        }
    }
}

} // verus!
