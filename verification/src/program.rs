//! The stack program that an expression compiles to. The calculator evaluates
//! an expression eagerly, left to right; the program lists those steps in the
//! order in which they happen, so that a machine with a value stack runs them
//! one after the other. Number literals and variable names are kept as ranges
//! of the whitespace-stripped input.
use vstd::prelude::*;

verus! {

/// The built-in functions, applied to one argument in parentheses.
#[derive(Clone, Copy, Debug, PartialEq, Eq, Structural)]
pub enum Function {
    Sin,
    Cos,
    Tan,
    Asin,
    Acos,
    Atan,
    Log,
    Ln,
    Sqrt,
    Abs,
    Floor,
    Ceil,
}

/// One step of an expression's evaluation.
#[derive(Clone, Copy, Debug, PartialEq, Eq, Structural)]
pub enum Op {
    /// Push the number written as `chars[start..end]`.
    Number { start: usize, end: usize },
    /// Push π.
    Pi,
    /// Push Euler's number e.
    Euler,
    /// Push the value of the variable named `chars[start..end]`.
    Variable { start: usize, end: usize },
    /// Replace the top value by its negation.
    Negate,
    /// Replace the two top values by their sum.
    Add,
    /// Replace the two top values by their difference.
    Subtract,
    /// Replace the two top values by their product.
    Multiply,
    /// Replace the two top values by their quotient; a zero divisor is an
    /// error reported at position `at`, the `/`.
    Divide { at: usize },
    /// Replace the two top values, base and exponent, by the power.
    Power,
    /// Replace the top value by its factorial; an argument that is not a
    /// non-negative integer of at most 170 is an error reported at `at`, the `!`.
    Factorial { at: usize },
    /// Convert the top value from degrees to radians.
    Degrees,
    /// Apply `function` to the top value; a domain error (the square root of a
    /// negative number) is reported at `at`, where the function's name starts.
    Call { function: Function, at: usize },
}

/// The number of values `op` takes from the stack (it always pushes one).
pub open spec fn pops(op: Op) -> int {
    match op {
        Op::Number { .. } | Op::Pi | Op::Euler | Op::Variable { .. } => 0,
        Op::Negate | Op::Factorial { .. } | Op::Degrees | Op::Call { .. } => 1,
        Op::Add | Op::Subtract | Op::Multiply | Op::Divide { .. } | Op::Power => 2,
    }
}

/// The height of the stack after running `ops` on an empty stack.
pub open spec fn net(ops: Seq<Op>) -> int
    decreases ops.len(),
{
    if ops.len() == 0 {
        0
    } else {
        net(ops.drop_last()) + 1 - pops(ops.last())
    }
}

/// Running `ops` on an empty stack never takes a value that is not there.
pub open spec fn runs(ops: Seq<Op>) -> bool
    decreases ops.len(),
{
    if ops.len() == 0 {
        true
    } else {
        runs(ops.drop_last()) && net(ops.drop_last()) >= pops(ops.last())
    }
}

pub proof fn lemma_push(ops: Seq<Op>, op: Op)
    ensures
        net(ops.push(op)) == net(ops) + 1 - pops(op),
        runs(ops.push(op)) == (runs(ops) && net(ops) >= pops(op)),
{
    assert(ops.push(op).drop_last() =~= ops);
}

pub proof fn lemma_runs_net(ops: Seq<Op>)
    requires
        runs(ops),
    ensures
        net(ops) >= 0,
    decreases ops.len(),
{
    if ops.len() > 0 {
        lemma_runs_net(ops.drop_last());
    }
}

/// The number of decimal points in `s`.
pub open spec fn dots(s: Seq<char>) -> int
    decreases s.len(),
{
    if s.len() == 0 {
        0
    } else {
        dots(s.drop_last()) + if s.last() == '.' {
            1int
        } else {
            0int
        }
    }
}

/// A character of a number literal: a decimal digit or the decimal point.
pub open spec fn is_number_char(c: char) -> bool {
    ('0' <= c && c <= '9') || c == '.'
}

/// A number literal that reads as a floating-point number: digits with at most
/// one decimal point and at least one digit ("12", "1.5", ".5", "5.").
pub open spec fn valid_number_literal(lit: Seq<char>) -> bool {
    &&& forall|i: int| 0 <= i < lit.len() ==> is_number_char(#[trigger] lit[i])
    &&& dots(lit) <= 1
    &&& dots(lit) < lit.len()
}

/// `op` refers only to what exists: a number range that reads as a number, a
/// variable range that names one of `names`, a position inside `s`.
pub open spec fn op_sound(op: Op, s: Seq<char>, names: Seq<Seq<char>>) -> bool {
    match op {
        Op::Number { start, end } => start <= end <= s.len() && valid_number_literal(
            s.subrange(start as int, end as int),
        ),
        Op::Variable { start, end } => start <= end <= s.len() && names.contains(
            s.subrange(start as int, end as int),
        ),
        _ => true,
    }
}

pub open spec fn ops_sound(ops: Seq<Op>, s: Seq<char>, names: Seq<Seq<char>>) -> bool {
    forall|i: int| 0 <= i < ops.len() ==> op_sound(#[trigger] ops[i], s, names)
}

/// `op` reports at the character it stands for in the stripped line `s`: a
/// division at its `/`, a factorial at its `!`, a call where the function's
/// name is written.
pub open spec fn op_placed(op: Op, s: Seq<char>) -> bool {
    match op {
        Op::Divide { at } => at < s.len() && s[at as int] == '/',
        Op::Factorial { at } => at < s.len() && s[at as int] == '!',
        Op::Call { function, at } => at + function_name(function).len() <= s.len() && s.subrange(
            at as int,
            at + function_name(function).len(),
        ) == function_name(function),
        _ => true,
    }
}

pub open spec fn ops_placed(ops: Seq<Op>, s: Seq<char>) -> bool {
    forall|i: int| 0 <= i < ops.len() ==> op_placed(#[trigger] ops[i], s)
}

/// `op` reports at the character it stands for in the original line `input`:
/// a division at its `/`, a factorial at its `!`, a call at the first letter
/// of the function's name.
pub open spec fn op_reported_in(op: Op, input: Seq<char>) -> bool {
    match op {
        Op::Divide { at } => at < input.len() && input[at as int] == '/',
        Op::Factorial { at } => at < input.len() && input[at as int] == '!',
        Op::Call { function, at } => at < input.len() && input[at as int] == function_name(
            function,
        )[0],
        _ => true,
    }
}

pub open spec fn function_name(f: Function) -> Seq<char> {
    match f {
        Function::Sin => seq!['s', 'i', 'n'],
        Function::Cos => seq!['c', 'o', 's'],
        Function::Tan => seq!['t', 'a', 'n'],
        Function::Asin => seq!['a', 's', 'i', 'n'],
        Function::Acos => seq!['a', 'c', 'o', 's'],
        Function::Atan => seq!['a', 't', 'a', 'n'],
        Function::Log => seq!['l', 'o', 'g'],
        Function::Ln => seq!['l', 'n'],
        Function::Sqrt => seq!['s', 'q', 'r', 't'],
        Function::Abs => seq!['a', 'b', 's'],
        Function::Floor => seq!['f', 'l', 'o', 'o', 'r'],
        Function::Ceil => seq!['c', 'e', 'i', 'l'],
    }
}

/// The built-in function called `name`, if there is one.
pub open spec fn known_function(name: Seq<char>) -> Option<Function> {
    if name == function_name(Function::Sin) {
        Some(Function::Sin)
    } else if name == function_name(Function::Cos) {
        Some(Function::Cos)
    } else if name == function_name(Function::Tan) {
        Some(Function::Tan)
    } else if name == function_name(Function::Asin) {
        Some(Function::Asin)
    } else if name == function_name(Function::Acos) {
        Some(Function::Acos)
    } else if name == function_name(Function::Atan) {
        Some(Function::Atan)
    } else if name == function_name(Function::Log) {
        Some(Function::Log)
    } else if name == function_name(Function::Ln) {
        Some(Function::Ln)
    } else if name == function_name(Function::Sqrt) {
        Some(Function::Sqrt)
    } else if name == function_name(Function::Abs) {
        Some(Function::Abs)
    } else if name == function_name(Function::Floor) {
        Some(Function::Floor)
    } else if name == function_name(Function::Ceil) {
        Some(Function::Ceil)
    } else {
        None
    }
}

/// The names of the built-in constants π and e.
pub open spec fn is_constant_name(name: Seq<char>) -> bool {
    name == seq!['p', 'i'] || name == seq!['e']
}

/// The names that a variable cannot take: the constants and the functions.
pub open spec fn is_reserved(name: Seq<char>) -> bool {
    is_constant_name(name) || known_function(name) is Some
}

impl Function {
    /// The function's name as written in an expression.
    pub fn name(&self) -> (r: Vec<char>)
        ensures
            r@ == function_name(*self),
    {
        match self {
            Function::Sin => vec!['s', 'i', 'n'],
            Function::Cos => vec!['c', 'o', 's'],
            Function::Tan => vec!['t', 'a', 'n'],
            Function::Asin => vec!['a', 's', 'i', 'n'],
            Function::Acos => vec!['a', 'c', 'o', 's'],
            Function::Atan => vec!['a', 't', 'a', 'n'],
            Function::Log => vec!['l', 'o', 'g'],
            Function::Ln => vec!['l', 'n'],
            Function::Sqrt => vec!['s', 'q', 'r', 't'],
            Function::Abs => vec!['a', 'b', 's'],
            Function::Floor => vec!['f', 'l', 'o', 'o', 'r'],
            Function::Ceil => vec!['c', 'e', 'i', 'l'],
        }
    }
}

/// Whether `chars[start..end]` is the word `word`.
pub fn range_is(chars: &Vec<char>, start: usize, end: usize, word: &Vec<char>) -> (r: bool)
    requires
        start <= end <= chars@.len(),
    ensures
        r == (chars@.subrange(start as int, end as int) == word@),
{
    if end - start != word.len() {
        assert(chars@.subrange(start as int, end as int).len() != word@.len());
        return false;
    }
    let mut i: usize = 0;
    while i < word.len()
        invariant
            start <= end <= chars@.len(),
            end - start == word@.len(),
            i <= word@.len(),
            forall|k: int| 0 <= k < i ==> chars@[start + k] == word@[k],
        decreases word@.len() - i,
    {
        if chars[start + i] != word[i] {
            assert(chars@.subrange(start as int, end as int)[i as int] != word@[i as int]);
            return false;
        }
        i = i + 1;
    }
    assert(chars@.subrange(start as int, end as int) =~= word@);
    true
}

/// The built-in function called `chars[start..end]`, if there is one.
pub fn function_named(chars: &Vec<char>, start: usize, end: usize) -> (r: Option<Function>)
    requires
        start <= end <= chars@.len(),
    ensures
        r == known_function(chars@.subrange(start as int, end as int)),
{
    if range_is(chars, start, end, &Function::Sin.name()) {
        Some(Function::Sin)
    } else if range_is(chars, start, end, &Function::Cos.name()) {
        Some(Function::Cos)
    } else if range_is(chars, start, end, &Function::Tan.name()) {
        Some(Function::Tan)
    } else if range_is(chars, start, end, &Function::Asin.name()) {
        Some(Function::Asin)
    } else if range_is(chars, start, end, &Function::Acos.name()) {
        Some(Function::Acos)
    } else if range_is(chars, start, end, &Function::Atan.name()) {
        Some(Function::Atan)
    } else if range_is(chars, start, end, &Function::Log.name()) {
        Some(Function::Log)
    } else if range_is(chars, start, end, &Function::Ln.name()) {
        Some(Function::Ln)
    } else if range_is(chars, start, end, &Function::Sqrt.name()) {
        Some(Function::Sqrt)
    } else if range_is(chars, start, end, &Function::Abs.name()) {
        Some(Function::Abs)
    } else if range_is(chars, start, end, &Function::Floor.name()) {
        Some(Function::Floor)
    } else if range_is(chars, start, end, &Function::Ceil.name()) {
        Some(Function::Ceil)
    } else {
        None
    }
}

/// Whether `chars[start..end]` names a constant or a function.
pub fn reserved_range(chars: &Vec<char>, start: usize, end: usize) -> (r: bool)
    requires
        start <= end <= chars@.len(),
    ensures
        r == is_reserved(chars@.subrange(start as int, end as int)),
{
    let pi = vec!['p', 'i'];
    let e = vec!['e'];
    assert(pi@ =~= seq!['p', 'i']);
    assert(e@ =~= seq!['e']);
    let is_pi = range_is(chars, start, end, &pi);
    let is_e = range_is(chars, start, end, &e);
    let func = function_named(chars, start, end);
    is_pi || is_e || func.is_some()
}

} // verus!
