//! The recursive-descent parser: one method per rule of `grammar`, each
//! proved to do exactly what its rule says. It emits the evaluation steps in
//! the order in which the calculator performs them, and stops at the first
//! fault.
use vstd::prelude::*;

use crate::error::{Fault, fault_at, fault_in_bounds};
use crate::grammar::{ParseState, char_at, initial_state, lemma_name_end, lemma_number_end, name_end, number_end, parse_expr, parse_expr_rest, parse_factor, parse_identifier, parse_number, parse_postfix, parse_postfix_rest, parse_power, parse_term, parse_term_rest, starts_name};
use crate::laws::law_function_names_resolve;
use crate::program::{Op, dots, function_named, is_number_char, lemma_push, lemma_runs_net, net, op_placed, op_sound, ops_placed, ops_sound, pops, range_is, runs, valid_number_literal};
use crate::text::{is_digit, letter, letter_or_digit};

verus! {

/// What the parser reads: the stripped input and the names of the variables.
pub struct Source {
    pub chars: Vec<char>,
    pub names: Vec<Vec<char>>,
}

impl Source {
    pub open spec fn names_view(&self) -> Seq<Seq<char>> {
        self.names@.map_values(|n: Vec<char>| n@)
    }
}

/// The parser's state: position in the stripped input, whether the last
/// operand ended with `)`, and the steps emitted so far.
pub struct Parser {
    pub pos: usize,
    pub after_paren: bool,
    pub ops: Vec<Op>,
}

/// A fault whose position and ranges lie within a text of `len` characters.
pub open spec fn fault_ok(f: Fault, len: int) -> bool {
    fault_in_bounds(f, len) && 0 <= fault_at(f) <= len
}

impl Parser {
    /// The grammar state this parser stands for, given how its last step ended.
    pub open spec fn state(&self, r: Result<(), Fault>) -> ParseState {
        ParseState {
            pos: self.pos as int,
            after_paren: self.after_paren,
            ops: self.ops@,
            fault: match r {
                Ok(_) => None,
                Err(f) => Some(f),
            },
        }
    }

    pub open spec fn inv(&self, src: &Source) -> bool {
        &&& self.pos <= src.chars@.len()
        &&& runs(self.ops@)
        &&& ops_sound(self.ops@, src.chars@, src.names_view())
        &&& ops_placed(self.ops@, src.chars@)
    }

    /// What each rule's method guarantees: the invariant, the state its rule
    /// gives, and on success one more value on the stack and (where `reads`)
    /// at least one character read.
    pub open spec fn did(
        &self,
        before: &Parser,
        src: &Source,
        r: Result<(), Fault>,
        expected: ParseState,
        reads: bool,
    ) -> bool {
        &&& self.inv(src)
        &&& self.state(r) == expected
        &&& r is Ok ==> net(self.ops@) == net(before.ops@) + 1
        &&& (r is Ok && reads) ==> before.pos < self.pos
        &&& r matches Err(f) ==> fault_ok(f, src.chars@.len() as int)
    }

    /// A parser at the start of `chars`.
    pub fn new() -> (p: Parser)
        ensures
            p.state(Ok(())) == initial_state(),
    {
        Parser { pos: 0, after_paren: false, ops: Vec::new() }
    }

    fn peek(&self, src: &Source) -> (r: Option<char>)
        ensures
            r == char_at(src.chars@, self.pos as int),
            r is Some ==> self.pos < usize::MAX,
    {
        if self.pos < src.chars.len() {
            Some(src.chars[self.pos])
        } else {
            None
        }
    }

    fn peek_is(&self, src: &Source, ch: char) -> (r: bool)
        ensures
            r == (char_at(src.chars@, self.pos as int) == Some(ch)),
            r ==> self.pos < src.chars@.len(),
            r ==> self.pos < usize::MAX,
    {
        self.pos < src.chars.len() && src.chars[self.pos] == ch
    }

    fn push_op(&mut self, src: &Source, op: Op)
        requires
            old(self).inv(src),
            net(old(self).ops@) >= pops(op),
            op_sound(op, src.chars@, src.names_view()),
            op_placed(op, src.chars@),
        ensures
            final(self).inv(src),
            final(self).pos == old(self).pos,
            final(self).after_paren == old(self).after_paren,
            final(self).ops@ == old(self).ops@.push(op),
            net(final(self).ops@) == net(old(self).ops@) + 1 - pops(op),
    {
        proof {
            lemma_push(self.ops@, op);
        }
        self.ops.push(op);
        assert forall|i: int| 0 <= i < self.ops@.len() implies op_sound(
            #[trigger] self.ops@[i],
            src.chars@,
            src.names_view(),
        ) && op_placed(self.ops@[i], src.chars@) by {
            if i < old(self).ops@.len() {
                assert(self.ops@[i] == old(self).ops@[i]);
            }
        }
    }

    /// expr = term (('+' | '-') term)*
    pub fn expr(&mut self, src: &Source) -> (r: Result<(), Fault>)
        requires
            old(self).inv(src),
        ensures
            final(self).did(
                old(self),
                src,
                r,
                parse_expr(src.chars@, src.names_view(), old(self).state(Ok(()))),
                true,
            ),
        decreases src.chars@.len() - old(self).pos, 7nat,
    {
        let ghost s = src.chars@;
        let ghost names = src.names_view();
        let ghost start = *self;
        self.term(src)?;
        let ghost goal = parse_expr_rest(s, names, self.state(Ok(())));
        assert(goal == parse_expr(s, names, start.state(Ok(()))));
        loop
            invariant
                self.inv(src),
                start.pos < self.pos,
                net(self.ops@) == net(start.ops@) + 1,
                parse_expr_rest(s, names, self.state(Ok(()))) == goal,
                goal == parse_expr(s, names, start.state(Ok(()))),
                s == src.chars@,
                names == src.names_view(),
                start == *old(self),
                start.inv(src),
            decreases s.len() - self.pos,
        {
            let plus = self.peek_is(src, '+');
            if plus || self.peek_is(src, '-') {
                let ghost at = self.state(Ok(()));
                self.pos = self.pos + 1;
                self.term(src)?;
                let op = if plus {
                    Op::Add
                } else {
                    Op::Subtract
                };
                proof {
                    lemma_runs_net(start.ops@);
                }
                self.push_op(src, op);
                assert(parse_expr_rest(s, names, at) == parse_expr_rest(
                    s,
                    names,
                    self.state(Ok(())),
                ));
            } else {
                return Ok(());
            }
        }
    }

    /// term = power (('*' | '/' | implicit) power)*
    pub fn term(&mut self, src: &Source) -> (r: Result<(), Fault>)
        requires
            old(self).inv(src),
        ensures
            final(self).did(
                old(self),
                src,
                r,
                parse_term(src.chars@, src.names_view(), old(self).state(Ok(()))),
                true,
            ),
        decreases src.chars@.len() - old(self).pos, 5nat,
    {
        let ghost s = src.chars@;
        let ghost names = src.names_view();
        let ghost start = *self;
        self.power(src)?;
        let ghost goal = parse_term_rest(s, names, self.state(Ok(())));
        assert(goal == parse_term(s, names, start.state(Ok(()))));
        loop
            invariant
                self.inv(src),
                start.pos < self.pos,
                net(self.ops@) == net(start.ops@) + 1,
                parse_term_rest(s, names, self.state(Ok(()))) == goal,
                goal == parse_term(s, names, start.state(Ok(()))),
                s == src.chars@,
                names == src.names_view(),
                start == *old(self),
                start.inv(src),
            decreases s.len() - self.pos,
        {
            let ghost at = self.state(Ok(()));
            let c = self.peek(src);
            proof {
                lemma_runs_net(start.ops@);
            }
            let times = self.peek_is(src, '*');
            if times || self.peek_is(src, '/') {
                let op_pos = self.pos;
                self.pos = self.pos + 1;
                self.power(src)?;
                let op = if times {
                    Op::Multiply
                } else {
                    Op::Divide { at: op_pos }
                };
                self.push_op(src, op);
                assert(parse_term_rest(s, names, at) == parse_term_rest(
                    s,
                    names,
                    self.state(Ok(())),
                ));
            } else {
                let implicit = match c {
                    Some(ch) => ch == '(' || letter(ch) || ch == '_' || (is_digit(ch)
                        && self.after_paren),
                    None => false,
                };
                if implicit {
                    // implicit multiplication: 2pi, 3(4+5), (2)(3), pi(2), etc.
                    self.power(src)?;
                    self.push_op(src, Op::Multiply);
                    assert(parse_term_rest(s, names, at) == parse_term_rest(
                        s,
                        names,
                        self.state(Ok(())),
                    ));
                } else {
                    return Ok(());
                }
            }
        }
    }

    /// power = postfix ('^' power)?  — right-associative
    pub fn power(&mut self, src: &Source) -> (r: Result<(), Fault>)
        requires
            old(self).inv(src),
        ensures
            final(self).did(
                old(self),
                src,
                r,
                parse_power(src.chars@, src.names_view(), old(self).state(Ok(()))),
                true,
            ),
        decreases src.chars@.len() - old(self).pos, 4nat,
    {
        let ghost start = *self;
        self.postfix(src)?;
        if self.peek_is(src, '^') {
            self.pos = self.pos + 1;
            self.power(src)?;
            proof {
                lemma_runs_net(start.ops@);
            }
            self.push_op(src, Op::Power);
        }
        Ok(())
    }

    /// postfix = factor ('!' | '°')*
    pub fn postfix(&mut self, src: &Source) -> (r: Result<(), Fault>)
        requires
            old(self).inv(src),
        ensures
            final(self).did(
                old(self),
                src,
                r,
                parse_postfix(src.chars@, src.names_view(), old(self).state(Ok(()))),
                true,
            ),
        decreases src.chars@.len() - old(self).pos, 2nat,
    {
        let ghost s = src.chars@;
        let ghost names = src.names_view();
        let ghost start = *self;
        self.factor(src)?;
        let ghost goal = parse_postfix_rest(s, self.state(Ok(())));
        assert(goal == parse_postfix(s, names, start.state(Ok(()))));
        loop
            invariant
                self.inv(src),
                start.pos < self.pos,
                net(self.ops@) == net(start.ops@) + 1,
                parse_postfix_rest(s, self.state(Ok(()))) == goal,
                goal == parse_postfix(s, names, start.state(Ok(()))),
                s == src.chars@,
                names == src.names_view(),
                start == *old(self),
                start.inv(src),
            decreases s.len() - self.pos,
        {
            let ghost at = self.state(Ok(()));
            proof {
                lemma_runs_net(start.ops@);
            }
            if self.peek_is(src, '!') {
                let bang_pos = self.pos;
                self.pos = self.pos + 1;
                self.push_op(src, Op::Factorial { at: bang_pos });
                assert(parse_postfix_rest(s, at) == parse_postfix_rest(s, self.state(Ok(()))));
            } else if self.peek_is(src, '°') {
                self.pos = self.pos + 1;
                self.push_op(src, Op::Degrees);
                assert(parse_postfix_rest(s, at) == parse_postfix_rest(s, self.state(Ok(()))));
            } else {
                return Ok(());
            }
        }
    }

    /// factor = number | identifier/function | '(' expr ')' | unary
    pub fn factor(&mut self, src: &Source) -> (r: Result<(), Fault>)
        requires
            old(self).inv(src),
        ensures
            final(self).did(
                old(self),
                src,
                r,
                parse_factor(src.chars@, src.names_view(), old(self).state(Ok(()))),
                true,
            ),
        decreases src.chars@.len() - old(self).pos, 1nat,
    {
        let ghost start = *self;
        self.after_paren = false;
        let c = self.peek(src);
        match c {
            None => Err(Fault::UnexpectedEnd { at: self.pos }),
            Some(ch) => {
                if ch == '(' {
                    self.pos = self.pos + 1;
                    self.expr(src)?;
                    if self.peek_is(src, ')') {
                        self.pos = self.pos + 1;
                        self.after_paren = true;
                        Ok(())
                    } else {
                        Err(Fault::MissingCloseParen { at: self.pos })
                    }
                } else if ch == '-' {
                    self.pos = self.pos + 1;
                    self.factor(src)?;
                    proof {
                        lemma_runs_net(start.ops@);
                    }
                    self.push_op(src, Op::Negate);
                    Ok(())
                } else if ch == '+' {
                    self.pos = self.pos + 1;
                    self.factor(src)
                } else if is_digit(ch) || ch == '.' {
                    self.number(src)
                } else if letter(ch) || ch == '_' {
                    self.identifier(src)
                } else {
                    Err(Fault::UnexpectedChar { found: ch, at: self.pos })
                }
            },
        }
    }

    /// NUMBER: the run of digits and points at the current position.
    pub fn number(&mut self, src: &Source) -> (r: Result<(), Fault>)
        requires
            old(self).inv(src),
            old(self).pos < src.chars@.len(),
            is_number_char(src.chars@[old(self).pos as int]),
        ensures
            final(self).did(old(self), src, r, parse_number(src.chars@, old(self).state(Ok(()))), true),
    {
        let ghost s = src.chars@;
        let start = self.pos;
        let mut end = self.pos;
        while end < src.chars.len() && (is_digit(src.chars[end]) || src.chars[end] == '.')
            invariant
                start <= end <= s.len(),
                s == src.chars@,
                number_end(s, end as int) == number_end(s, start as int),
            decreases s.len() - end,
        {
            end = end + 1;
        }
        proof {
            lemma_number_end(s, start as int);
        }
        self.pos = end;
        if number_literal_ok(&src.chars, start, end) {
            proof {
                lemma_runs_net(self.ops@);
            }
            self.push_op(src, Op::Number { start, end });
            Ok(())
        } else {
            Err(Fault::InvalidNumber { start, end })
        }
    }

    /// IDENT: a function call, a constant or a variable.
    pub fn identifier(&mut self, src: &Source) -> (r: Result<(), Fault>)
        requires
            old(self).inv(src),
            old(self).pos < src.chars@.len(),
            starts_name(src.chars@[old(self).pos as int]),
        ensures
            final(self).did(
                old(self),
                src,
                r,
                parse_identifier(src.chars@, src.names_view(), old(self).state(Ok(()))),
                true,
            ),
        decreases src.chars@.len() - old(self).pos, 0nat,
    {
        let ghost s = src.chars@;
        let start = self.pos;
        let mut end = self.pos;
        while end < src.chars.len() && (letter_or_digit(src.chars[end]) || src.chars[end] == '_')
            invariant
                start <= end <= s.len(),
                s == src.chars@,
                name_end(s, end as int) == name_end(s, start as int),
            decreases s.len() - end,
        {
            end = end + 1;
        }
        proof {
            lemma_name_end(s, start as int);
            lemma_runs_net(self.ops@);
        }
        assert(end > start);
        self.pos = end;
        let function = function_named(&src.chars, start, end);
        let pi = vec!['p', 'i'];
        let e = vec!['e'];
        assert(pi@ =~= seq!['p', 'i']);
        assert(e@ =~= seq!['e']);
        // if this is a known function and followed by '(', parse as function call
        if function.is_some() && self.peek_is(src, '(') {
            let f = function.unwrap();
            self.pos = self.pos + 1;
            self.expr(src)?;
            if self.peek_is(src, ')') {
                self.pos = self.pos + 1;
                self.after_paren = true;
                proof {
                    law_function_names_resolve(f, src.chars@.subrange(start as int, end as int));
                }
                self.push_op(src, Op::Call { function: f, at: start });
                Ok(())
            } else {
                Err(Fault::MissingCallParen { function: f, at: self.pos })
            }
        } else if range_is(&src.chars, start, end, &pi) {
            self.push_op(src, Op::Pi);
            Ok(())
        } else if range_is(&src.chars, start, end, &e) {
            self.push_op(src, Op::Euler);
            Ok(())
        } else if has_name(src, start, end) {
            self.push_op(src, Op::Variable { start, end });
            Ok(())
        } else {
            Err(Fault::UnknownVariable { start, end })
        }
    }
}

/// Whether `chars[start..end]`, made of number characters, reads as a number:
/// at most one point and at least one digit.
fn number_literal_ok(chars: &Vec<char>, start: usize, end: usize) -> (r: bool)
    requires
        start <= end <= chars@.len(),
        forall|i: int| start <= i < end ==> is_number_char(#[trigger] chars@[i]),
    ensures
        r == valid_number_literal(chars@.subrange(start as int, end as int)),
{
    let ghost lit = chars@.subrange(start as int, end as int);
    let mut count: usize = 0;
    let mut i = start;
    while i < end
        invariant
            start <= i <= end <= chars@.len(),
            count as int == dots(chars@.subrange(start as int, i as int)),
            count <= i - start,
        decreases end - i,
    {
        assert(chars@.subrange(start as int, i + 1).drop_last() =~= chars@.subrange(
            start as int,
            i as int,
        ));
        if chars[i] == '.' {
            count = count + 1;
        }
        i = i + 1;
    }
    assert(lit =~= chars@.subrange(start as int, i as int));
    assert forall|k: int| 0 <= k < lit.len() implies is_number_char(#[trigger] lit[k]) by {
        assert(lit[k] == chars@[start + k]);
    }
    count <= 1 && count < end - start
}

/// Whether `chars[start..end]` is one of the variable names.
fn has_name(src: &Source, start: usize, end: usize) -> (r: bool)
    requires
        start <= end <= src.chars@.len(),
    ensures
        r == src.names_view().contains(src.chars@.subrange(start as int, end as int)),
{
    let ghost name = src.chars@.subrange(start as int, end as int);
    let mut i: usize = 0;
    while i < src.names.len()
        invariant
            i <= src.names@.len(),
            start <= end <= src.chars@.len(),
            name == src.chars@.subrange(start as int, end as int),
            forall|k: int| 0 <= k < i ==> src.names@[k]@ != name,
        decreases src.names@.len() - i,
    {
        if range_is(&src.chars, start, end, &src.names[i]) {
            assert(src.names_view()[i as int] == name);
            return true;
        }
        i = i + 1;
    }
    assert forall|k: int| 0 <= k < src.names_view().len() implies src.names_view()[k] != name by {
        assert(src.names_view()[k] == src.names@[k]@);
    }
    false
}

} // verus!
