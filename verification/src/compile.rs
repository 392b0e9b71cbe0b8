//! Compiling an input line: strip the whitespace, run the grammar, and state
//! every position in terms of the original line.
use vstd::prelude::*;

use crate::error::{Fault, ParseError, fault_at, fault_message};
use crate::grammar::{ParseState, parse_program};
use crate::parser::{Parser, Source, fault_ok};
use crate::program::{
    Op,
    function_name,
    net,
    op_placed,
    op_reported_in,
    op_sound,
    ops_placed,
    ops_sound,
    pops,
    runs,
};
use crate::text::{
    is_white_space,
    kept_positions,
    lemma_kept_positions,
    original_index,
    original_position,
    strip_whitespace,
    stripped,
    to_chars,
};

verus! {

/// An input line compiled: its stripped characters (which the number and
/// variable steps index), the evaluation steps in the order in which they
/// happen, and the error that stops the evaluation once those steps have run.
/// A blank line has no steps and no error; its value is 0.
pub struct Program {
    pub chars: Vec<char>,
    pub ops: Vec<Op>,
    pub error: Option<ParseError>,
}

/// The names of the variables, as character sequences.
pub open spec fn variable_names(names: Seq<String>) -> Seq<Seq<char>> {
    names.map_values(|n: String| n@)
}

/// The grammar's result on the line `input`.
pub open spec fn parsed(input: Seq<char>, names: Seq<Seq<char>>) -> ParseState {
    parse_program(stripped(input), names)
}

/// `op` with its reporting position moved from the stripped line to the
/// original one.
pub open spec fn relocated(op: Op, positions: Seq<usize>) -> Op {
    match op {
        Op::Divide { at } => Op::Divide { at: original_position(positions, at as int) as usize },
        Op::Factorial { at } => Op::Factorial {
            at: original_position(positions, at as int) as usize,
        },
        Op::Call { function, at } => Op::Call {
            function,
            at: original_position(positions, at as int) as usize,
        },
        _ => op,
    }
}

pub open spec fn relocated_all(ops: Seq<Op>, positions: Seq<usize>) -> Seq<Op> {
    ops.map_values(|op: Op| relocated(op, positions))
}

/// The steps of the program compiled from `input`.
pub open spec fn program_ops(input: Seq<char>, names: Seq<Seq<char>>) -> Seq<Op> {
    relocated_all(parsed(input, names).ops, kept_positions(input))
}

/// The position in `input` just after its last character that is not
/// whitespace (0 if there is none): where the end of the expression is
/// reported.
pub open spec fn end_position(input: Seq<char>) -> int {
    original_position(kept_positions(input), stripped(input).len() as int)
}

pub proof fn lemma_relocated(ops: Seq<Op>, positions: Seq<usize>)
    ensures
        net(relocated_all(ops, positions)) == net(ops),
        runs(relocated_all(ops, positions)) == runs(ops),
    decreases ops.len(),
{
    if ops.len() > 0 {
        let init = ops.drop_last();
        lemma_relocated(init, positions);
        assert(relocated_all(ops, positions).drop_last() =~= relocated_all(init, positions));
        assert(pops(relocated(ops.last(), positions)) == pops(ops.last()));
    }
}

/// Compiles the line `input` over the variables called `names`.
pub fn compile(input: &str, names: &Vec<String>) -> (p: Program)
    ensures
        p.chars@ == stripped(input@),
        p.ops@ == program_ops(input@, variable_names(names@)),
        p.error is None <==> parsed(input@, variable_names(names@)).fault is None,
        parsed(input@, variable_names(names@)).fault matches Some(f) ==> p.error matches Some(e)
            && e.msg@ == fault_message(f, stripped(input@)) && e.pos == Some(
            original_position(kept_positions(input@), fault_at(f)) as usize,
        ),
        // A blank line compiles to nothing; any other line either fails or
        // compiles to steps that leave exactly one value, its result.
        runs(p.ops@),
        p.error is None ==> (p.ops@.len() == 0 <==> stripped(input@).len() == 0),
        p.error is None && p.ops@.len() > 0 ==> net(p.ops@) == 1,
        // Every number step reads as a number and every variable step names one
        // of `names`.
        ops_sound(p.ops@, p.chars@, variable_names(names@)),
        // Each division, factorial and call reports at the character it stands
        // for in the line: the `/`, the `!`, the first letter of the name.
        forall|k: int| 0 <= k < p.ops@.len() ==> op_reported_in(#[trigger] p.ops@[k], input@),
        // An error points at a character of the line that is not whitespace, or
        // just past the last such character.
        p.error matches Some(e) ==> e.pos matches Some(at) && ((at < input@.len()
            && !is_white_space(input@[at as int])) || at == end_position(input@)),
{
    let (chars, positions) = strip_whitespace(input);
    proof {
        lemma_kept_positions(input@);
    }
    let mut name_chars: Vec<Vec<char>> = Vec::new();
    let mut i: usize = 0;
    while i < names.len()
        invariant
            i <= names@.len(),
            name_chars@.len() == i,
            forall|k: int| 0 <= k < i ==> (#[trigger] name_chars@[k])@ == names@[k]@,
        decreases names@.len() - i,
    {
        name_chars.push(to_chars(names[i].as_str()));
        i = i + 1;
    }
    let src = Source { chars, names: name_chars };
    assert(src.names_view() =~= variable_names(names@));
    let ghost s = src.chars@;
    let ghost vars = src.names_view();
    let mut parser = Parser::new();
    let r: Result<(), Fault> = if src.chars.len() == 0 {
        Ok(())
    } else {
        match parser.expr(&src) {
            Err(f) => Err(f),
            Ok(()) => {
                if parser.pos < src.chars.len() {
                    Err(Fault::UnexpectedChar { found: src.chars[parser.pos], at: parser.pos })
                } else {
                    Ok(())
                }
            },
        }
    };
    assert(parser.state(r) == parse_program(s, vars));
    assert(r matches Err(f) ==> fault_ok(f, s.len() as int));
    assert(ops_placed(parser.ops@, s));
    // Move each reported position from the stripped line to the original one.
    let mut ops: Vec<Op> = Vec::new();
    let mut j: usize = 0;
    while j < parser.ops.len()
        invariant
            j <= parser.ops@.len(),
            ops@ == relocated_all(parser.ops@.take(j as int), positions@),
            positions@ == kept_positions(input@),
            forall|k: int| 0 <= k < positions@.len() ==> positions@[k] < usize::MAX,
            ops_placed(parser.ops@, s),
            s == stripped(input@),
            input@.len() <= usize::MAX,
            forall|k: int| 0 <= k < j ==> op_reported_in(#[trigger] ops@[k], input@),
        decreases parser.ops@.len() - j,
    {
        let op = parser.ops[j];
        proof {
            assert(op_placed(op, s));
            if let Op::Call { function, at } = op {
                assert(s[at as int] == s.subrange(at as int, at + function_name(function).len())[0]);
            }
            let at: int = match op {
                Op::Divide { at } => at as int,
                Op::Factorial { at } => at as int,
                Op::Call { at, .. } => at as int,
                _ => 0,
            };
            if 0 <= at < s.len() {
                lemma_kept_positions(input@);
                let k = kept_positions(input@)[at];
                assert((k as int) < input@.len() && input@[k as int] == stripped(input@)[at]);
            }
        }
        let moved = match op {
            Op::Divide { at } => Op::Divide { at: original_index(&positions, at) },
            Op::Factorial { at } => Op::Factorial { at: original_index(&positions, at) },
            Op::Call { function, at } => Op::Call {
                function,
                at: original_index(&positions, at),
            },
            _ => op,
        };
        ops.push(moved);
        assert(op_reported_in(moved, input@));
        j = j + 1;
        assert(ops@ =~= relocated_all(parser.ops@.take(j as int), positions@));
    }
    assert(parser.ops@.take(j as int) =~= parser.ops@);
    proof {
        lemma_relocated(parser.ops@, positions@);
        assert forall|k: int| 0 <= k < ops@.len() implies op_sound(#[trigger] ops@[k], s, vars) by {
            assert(op_sound(parser.ops@[k], s, vars));
        }
    }
    let error = match r {
        Ok(()) => None,
        Err(f) => {
            let at = match f {
                Fault::UnexpectedChar { at, .. } => at,
                Fault::UnexpectedEnd { at } => at,
                Fault::MissingCloseParen { at } => at,
                Fault::InvalidNumber { start, .. } => start,
                Fault::MissingCallParen { at, .. } => at,
                Fault::UnknownVariable { start, .. } => start,
            };
            let pos = original_index(&positions, at);
            proof {
                if (at as int) < positions@.len() {
                    assert((pos as int) < input@.len());
                }
            }
            Some(ParseError::at(f.message(&src.chars), pos))
        },
    };
    proof {
        if r is Ok && s.len() > 0 {
            assert(parser.ops@.len() > 0) by {
                if parser.ops@.len() == 0 {
                    assert(net(parser.ops@) == 0);
                }
            }
        }
    }
    Program { chars: src.chars, ops, error }
}

} // verus!
