//! The expression grammar, as a specification over the whitespace-stripped
//! input `s`:
//!
//! ```text
//! expr    = term (('+' | '-') term)*
//! term    = power (('*' | '/' | implicit) power)*
//! power   = postfix ('^' power)?          right-associative
//! postfix = factor ('!' | '°')*
//! factor  = NUMBER
//!         | IDENT '(' expr ')'            function call
//!         | IDENT                         constant / variable
//!         | '(' expr ')'
//!         | ('+' | '-') factor            unary
//! ```
//!
//! Implicit multiplication applies when a power is directly followed by `(`,
//! a letter, `_`, or (right after a closing parenthesis) a digit.
//!
//! Each rule takes the state before it (position, whether the last operand
//! ended with `)`, the steps emitted so far) and gives the state after it, or
//! the fault that stopped it together with the steps emitted until then.
use vstd::prelude::*;

use crate::error::Fault;
use crate::program::{Op, is_number_char, known_function, valid_number_literal};
use crate::text::{is_letter, is_letter_or_digit, is_ascii_digit};

verus! {

/// The grammar's state between two rules.
pub struct ParseState {
    /// Index of the next character of the stripped input.
    pub pos: int,
    /// Whether the operand read last ended with a closing parenthesis.
    pub after_paren: bool,
    /// The evaluation steps emitted so far.
    pub ops: Seq<Op>,
    /// What stopped the grammar, if anything did.
    pub fault: Option<Fault>,
}

pub open spec fn char_at(s: Seq<char>, pos: int) -> Option<char> {
    if 0 <= pos < s.len() {
        Some(s[pos])
    } else {
        None
    }
}

pub open spec fn moved(st: ParseState, pos: int) -> ParseState {
    ParseState { pos: pos, ..st }
}

pub open spec fn emitted(st: ParseState, op: Op) -> ParseState {
    ParseState { ops: st.ops.push(op), ..st }
}

pub open spec fn failed(st: ParseState, f: Fault) -> ParseState {
    ParseState { fault: Some(f), ..st }
}

/// `after` lies strictly past `before`, within the input. Every rule that
/// succeeds reads at least one character (the parser proves it), so the
/// branches guarded by the negation of this are never taken; they only make
/// the recursion visibly well-founded.
pub open spec fn progressed(s: Seq<char>, before: ParseState, after: ParseState) -> bool {
    before.pos < after.pos <= s.len()
}

/// A character that may continue a name.
pub open spec fn is_name_char(c: char) -> bool {
    is_letter_or_digit(c) || c == '_'
}

/// A character that starts a name.
pub open spec fn starts_name(c: char) -> bool {
    is_letter(c) || c == '_'
}

/// The character after a power that starts an implicitly multiplied factor.
pub open spec fn starts_implicit_factor(c: char, after_paren: bool) -> bool {
    c == '(' || is_letter(c) || c == '_' || (is_ascii_digit(c) && after_paren)
}

/// The end of the run of number characters that starts at `pos`.
pub open spec fn number_end(s: Seq<char>, pos: int) -> int
    decreases s.len() - pos,
{
    if 0 <= pos < s.len() && is_number_char(s[pos]) {
        number_end(s, pos + 1)
    } else {
        pos
    }
}

/// The end of the run of name characters that starts at `pos`.
pub open spec fn name_end(s: Seq<char>, pos: int) -> int
    decreases s.len() - pos,
{
    if 0 <= pos < s.len() && is_name_char(s[pos]) {
        name_end(s, pos + 1)
    } else {
        pos
    }
}

pub proof fn lemma_number_end(s: Seq<char>, pos: int)
    requires
        0 <= pos <= s.len(),
    ensures
        pos <= number_end(s, pos) <= s.len(),
        forall|i: int| pos <= i < number_end(s, pos) ==> is_number_char(#[trigger] s[i]),
        number_end(s, pos) < s.len() ==> !is_number_char(s[number_end(s, pos)]),
    decreases s.len() - pos,
{
    if pos < s.len() && is_number_char(s[pos]) {
        lemma_number_end(s, pos + 1);
    }
}

pub proof fn lemma_name_end(s: Seq<char>, pos: int)
    ensures
        pos <= name_end(s, pos),
        0 <= pos <= s.len() ==> name_end(s, pos) <= s.len(),
        forall|i: int| pos <= i < name_end(s, pos) ==> is_name_char(#[trigger] s[i]),
        0 <= pos <= name_end(s, pos) < s.len() ==> !is_name_char(s[name_end(s, pos)]),
    decreases s.len() - pos,
{
    if 0 <= pos < s.len() && is_name_char(s[pos]) {
        lemma_name_end(s, pos + 1);
    }
}

/// expr = term (('+' | '-') term)*
pub open spec fn parse_expr(s: Seq<char>, names: Seq<Seq<char>>, st: ParseState) -> ParseState
    decreases s.len() - st.pos, 7nat,
{
    let t = parse_term(s, names, st);
    if t.fault is Some || !progressed(s, st, t) {
        t
    } else {
        parse_expr_rest(s, names, t)
    }
}

/// The `(('+' | '-') term)*` part of an expression.
pub open spec fn parse_expr_rest(s: Seq<char>, names: Seq<Seq<char>>, st: ParseState) -> ParseState
    decreases s.len() - st.pos, 8nat,
{
    let c = char_at(s, st.pos);
    if c == Some('+') || c == Some('-') {
        let t = parse_term(s, names, moved(st, st.pos + 1));
        if t.fault is Some || !progressed(s, st, t) {
            t
        } else {
            parse_expr_rest(
                s,
                names,
                emitted(
                    t,
                    if c == Some('+') {
                        Op::Add
                    } else {
                        Op::Subtract
                    },
                ),
            )
        }
    } else {
        st
    }
}

/// term = power (('*' | '/' | implicit) power)*
pub open spec fn parse_term(s: Seq<char>, names: Seq<Seq<char>>, st: ParseState) -> ParseState
    decreases s.len() - st.pos, 5nat,
{
    let t = parse_power(s, names, st);
    if t.fault is Some || !progressed(s, st, t) {
        t
    } else {
        parse_term_rest(s, names, t)
    }
}

/// The `(('*' | '/' | implicit) power)*` part of a term.
pub open spec fn parse_term_rest(s: Seq<char>, names: Seq<Seq<char>>, st: ParseState) -> ParseState
    decreases s.len() - st.pos, 6nat,
{
    let c = char_at(s, st.pos);
    if c == Some('*') || c == Some('/') {
        let t = parse_power(s, names, moved(st, st.pos + 1));
        if t.fault is Some || !progressed(s, st, t) {
            t
        } else {
            parse_term_rest(
                s,
                names,
                emitted(
                    t,
                    if c == Some('*') {
                        Op::Multiply
                    } else {
                        Op::Divide { at: st.pos as usize }
                    },
                ),
            )
        }
    } else if c is Some && starts_implicit_factor(c->0, st.after_paren) {
        let t = parse_power(s, names, st);
        if t.fault is Some || !progressed(s, st, t) {
            t
        } else {
            parse_term_rest(s, names, emitted(t, Op::Multiply))
        }
    } else {
        st
    }
}

/// power = postfix ('^' power)?
pub open spec fn parse_power(s: Seq<char>, names: Seq<Seq<char>>, st: ParseState) -> ParseState
    decreases s.len() - st.pos, 4nat,
{
    let t = parse_postfix(s, names, st);
    if t.fault is Some || !progressed(s, st, t) {
        t
    } else if char_at(s, t.pos) == Some('^') {
        let u = parse_power(s, names, moved(t, t.pos + 1));
        if u.fault is Some {
            u
        } else {
            emitted(u, Op::Power)
        }
    } else {
        t
    }
}

/// postfix = factor ('!' | '°')*
pub open spec fn parse_postfix(s: Seq<char>, names: Seq<Seq<char>>, st: ParseState) -> ParseState
    decreases s.len() - st.pos, 2nat,
{
    let t = parse_factor(s, names, st);
    if t.fault is Some || !progressed(s, st, t) {
        t
    } else {
        parse_postfix_rest(s, t)
    }
}

/// The `('!' | '°')*` part of a postfix expression.
pub open spec fn parse_postfix_rest(s: Seq<char>, st: ParseState) -> ParseState
    decreases s.len() - st.pos,
{
    let c = char_at(s, st.pos);
    if c == Some('!') {
        parse_postfix_rest(s, emitted(moved(st, st.pos + 1), Op::Factorial { at: st.pos as usize }))
    } else if c == Some('°') {
        parse_postfix_rest(s, emitted(moved(st, st.pos + 1), Op::Degrees))
    } else {
        st
    }
}

/// factor = NUMBER | IDENT ... | '(' expr ')' | ('+' | '-') factor
pub open spec fn parse_factor(s: Seq<char>, names: Seq<Seq<char>>, st: ParseState) -> ParseState
    decreases s.len() - st.pos, 1nat,
{
    let st0 = ParseState { after_paren: false, ..st };
    let c = char_at(s, st.pos);
    if c is None {
        failed(st0, Fault::UnexpectedEnd { at: st.pos as usize })
    } else if c == Some('(') {
        let t = parse_expr(s, names, moved(st0, st.pos + 1));
        if t.fault is Some {
            t
        } else if char_at(s, t.pos) == Some(')') {
            ParseState { pos: t.pos + 1, after_paren: true, ..t }
        } else {
            failed(t, Fault::MissingCloseParen { at: t.pos as usize })
        }
    } else if c == Some('-') {
        let t = parse_factor(s, names, moved(st0, st.pos + 1));
        if t.fault is Some {
            t
        } else {
            emitted(t, Op::Negate)
        }
    } else if c == Some('+') {
        parse_factor(s, names, moved(st0, st.pos + 1))
    } else if is_number_char(c->0) {
        parse_number(s, st0)
    } else if starts_name(c->0) {
        parse_identifier(s, names, st0)
    } else {
        failed(st0, Fault::UnexpectedChar { found: c->0, at: st.pos as usize })
    }
}

/// NUMBER: the run of digits and points at the current position.
pub open spec fn parse_number(s: Seq<char>, st: ParseState) -> ParseState {
    let end = number_end(s, st.pos);
    if valid_number_literal(s.subrange(st.pos, end)) {
        emitted(moved(st, end), Op::Number { start: st.pos as usize, end: end as usize })
    } else {
        failed(moved(st, end), Fault::InvalidNumber { start: st.pos as usize, end: end as usize })
    }
}

/// IDENT: a function call, a constant or a variable.
pub open spec fn parse_identifier(
    s: Seq<char>,
    names: Seq<Seq<char>>,
    st: ParseState,
) -> ParseState
    decreases s.len() - st.pos, 0nat,
{
    let end = name_end(s, st.pos);
    let name = s.subrange(st.pos, end);
    let after = moved(st, end);
    let function = known_function(name);
    if function is Some && char_at(s, end) == Some('(') {
        proof {
            lemma_name_end(s, st.pos);
        }
        let t = parse_expr(s, names, moved(after, end + 1));
        if t.fault is Some {
            t
        } else if char_at(s, t.pos) == Some(')') {
            emitted(
                ParseState { pos: t.pos + 1, after_paren: true, ..t },
                Op::Call { function: function->0, at: st.pos as usize },
            )
        } else {
            failed(t, Fault::MissingCallParen { function: function->0, at: t.pos as usize })
        }
    } else if name == seq!['p', 'i'] {
        emitted(after, Op::Pi)
    } else if name == seq!['e'] {
        emitted(after, Op::Euler)
    } else if names.contains(name) {
        emitted(after, Op::Variable { start: st.pos as usize, end: end as usize })
    } else {
        failed(after, Fault::UnknownVariable { start: st.pos as usize, end: end as usize })
    }
}

pub open spec fn initial_state() -> ParseState {
    ParseState { pos: 0, after_paren: false, ops: Seq::empty(), fault: None }
}

/// A whole input: nothing for a blank one, else an expression that must
/// reach the end of the input.
pub open spec fn parse_program(s: Seq<char>, names: Seq<Seq<char>>) -> ParseState {
    if s.len() == 0 {
        initial_state()
    } else {
        let t = parse_expr(s, names, initial_state());
        if t.fault is Some {
            t
        } else if t.pos < s.len() {
            failed(t, Fault::UnexpectedChar { found: s[t.pos], at: t.pos as usize })
        } else {
            t
        }
    }
}

} // verus!
