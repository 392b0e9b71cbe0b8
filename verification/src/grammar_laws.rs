//! Properties of the grammar: what each operator compiles to, and in which
//! order the steps come.
use vstd::prelude::*;

use crate::grammar::{
    ParseState,
    char_at,
    emitted,
    initial_state,
    is_name_char,
    moved,
    name_end,
    number_end,
    parse_expr,
    parse_expr_rest,
    parse_factor,
    parse_identifier,
    parse_number,
    parse_postfix,
    parse_postfix_rest,
    parse_power,
    parse_program,
    parse_term,
    parse_term_rest,
};
use crate::program::{Op, dots, is_number_char, known_function, valid_number_literal};
use crate::text::{is_ascii_digit, is_letter};

verus! {

/// The step an additive operator character stands for.
pub open spec fn additive_op(c: char) -> Op {
    if c == '+' {
        Op::Add
    } else {
        Op::Subtract
    }
}

/// A `+` or `-` between two terms emits, right after the second term's steps,
/// `Add` for `+` and `Subtract` for `-`, whatever came before; the rest of the
/// expression then goes on from there.
pub proof fn law_additive_operator(s: Seq<char>, names: Seq<Seq<char>>, st: ParseState)
    requires
        st.fault is None,
        0 <= st.pos < s.len(),
        s[st.pos] == '+' || s[st.pos] == '-',
    ensures
        ({
            let t = parse_term(s, names, moved(st, st.pos + 1));
            t.fault is None && st.pos < t.pos <= s.len() ==> parse_expr_rest(s, names, st)
                == parse_expr_rest(s, names, emitted(t, additive_op(s[st.pos])))
        }),
{
}

/// A `*` or `/` between two powers emits, right after the second power's
/// steps, `Multiply` for `*` and `Divide` reported at the `/` for `/`.
pub proof fn law_multiplicative_operator(s: Seq<char>, names: Seq<Seq<char>>, st: ParseState)
    requires
        st.fault is None,
        0 <= st.pos < s.len(),
        s[st.pos] == '*' || s[st.pos] == '/',
    ensures
        ({
            let t = parse_power(s, names, moved(st, st.pos + 1));
            t.fault is None && st.pos < t.pos <= s.len() ==> parse_term_rest(s, names, st)
                == parse_term_rest(
                s,
                names,
                emitted(
                    t,
                    if s[st.pos] == '*' {
                        Op::Multiply
                    } else {
                        Op::Divide { at: st.pos as usize }
                    },
                ),
            )
        }),
{
}

/// Implicit multiplication: a power directly followed by `(`, a letter, `_`,
/// or, right after a closing parenthesis, a digit, is multiplied by the power
/// that starts there. A digit that does not follow a closing parenthesis, and
/// `+`, `-`, `)` or the end, end the term.
pub proof fn law_implicit_multiplication(s: Seq<char>, names: Seq<Seq<char>>, st: ParseState)
    requires
        st.fault is None,
        0 <= st.pos <= s.len(),
    ensures
        st.pos < s.len() && (s[st.pos] == '(' || is_letter(s[st.pos]) || s[st.pos] == '_' || (
        is_ascii_digit(s[st.pos]) && st.after_paren)) ==> ({
            let t = parse_power(s, names, st);
            t.fault is None && st.pos < t.pos <= s.len() ==> parse_term_rest(s, names, st)
                == parse_term_rest(s, names, emitted(t, Op::Multiply))
        }),
        (st.pos == s.len() || s[st.pos] == '+' || s[st.pos] == '-' || s[st.pos] == ')' || (
        is_ascii_digit(s[st.pos]) && !st.after_paren)) ==> parse_term_rest(s, names, st) == st,
{
}

/// `^` is right-associative: the exponent is a whole power, and `Power`
/// follows the steps of the base and of that exponent.
pub proof fn law_power_right_associative(s: Seq<char>, names: Seq<Seq<char>>, st: ParseState)
    requires
        st.fault is None,
        0 <= st.pos <= s.len(),
    ensures
        ({
            let t = parse_postfix(s, names, st);
            let u = parse_power(s, names, moved(t, t.pos + 1));
            t.fault is None && st.pos < t.pos < s.len() && s[t.pos] == '^' && u.fault is None
                ==> parse_power(s, names, st) == emitted(u, Op::Power)
        }),
        ({
            let t = parse_postfix(s, names, st);
            t.fault is None && st.pos < t.pos <= s.len() && char_at(s, t.pos) != Some('^')
                ==> parse_power(s, names, st) == t
        }),
{
}

/// Postfix operators apply in order: `!` emits `Factorial` reported at the
/// `!`, `°` emits `Degrees`, and anything else ends the postfix expression.
pub proof fn law_postfix_operators(s: Seq<char>, st: ParseState)
    requires
        0 <= st.pos <= s.len(),
    ensures
        char_at(s, st.pos) == Some('!') ==> parse_postfix_rest(s, st) == parse_postfix_rest(
            s,
            emitted(moved(st, st.pos + 1), Op::Factorial { at: st.pos as usize }),
        ),
        char_at(s, st.pos) == Some('°') ==> parse_postfix_rest(s, st) == parse_postfix_rest(
            s,
            emitted(moved(st, st.pos + 1), Op::Degrees),
        ),
        char_at(s, st.pos) != Some('!') && char_at(s, st.pos) != Some('°') ==> parse_postfix_rest(
            s,
            st,
        ) == st,
{
}

/// Unary signs and parentheses: `-` negates the factor after it, `+` leaves it
/// as it is, and `( expr )` is the expression inside, after which a digit
/// multiplies implicitly.
pub proof fn law_unary_and_parentheses(s: Seq<char>, names: Seq<Seq<char>>, st: ParseState)
    requires
        st.fault is None,
        0 <= st.pos < s.len(),
    ensures
        ({
            let st1 = ParseState { pos: st.pos + 1, after_paren: false, ..st };
            &&& s[st.pos] == '-' && parse_factor(s, names, st1).fault is None ==> parse_factor(
                s,
                names,
                st,
            ) == emitted(parse_factor(s, names, st1), Op::Negate)
            &&& s[st.pos] == '+' ==> parse_factor(s, names, st) == parse_factor(s, names, st1)
            &&& s[st.pos] == '(' && parse_expr(s, names, st1).fault is None && char_at(
                s,
                parse_expr(s, names, st1).pos,
            ) == Some(')') ==> parse_factor(s, names, st) == (ParseState {
                pos: parse_expr(s, names, st1).pos + 1,
                after_paren: true,
                ..parse_expr(s, names, st1)
            })
        }),
{
}

/// The names `pi` and `e`, not followed by more name characters, push π and
/// e, whatever variables exist.
pub proof fn law_constants(s: Seq<char>, names: Seq<Seq<char>>, st: ParseState)
    requires
        st.fault is None,
        0 <= st.pos,
        st.pos + 2 <= s.len(),
    ensures
        s[st.pos] == 'p' && s[st.pos + 1] == 'i' && (st.pos + 2 == s.len() || !is_name_char(
            s[st.pos + 2],
        )) ==> parse_identifier(s, names, st) == emitted(moved(st, st.pos + 2), Op::Pi),
        s[st.pos] == 'e' && !is_name_char(s[st.pos + 1]) ==> parse_identifier(s, names, st)
            == emitted(moved(st, st.pos + 1), Op::Euler),
{
    if s[st.pos] == 'p' && s[st.pos + 1] == 'i' && (st.pos + 2 == s.len() || !is_name_char(
        s[st.pos + 2],
    )) {
        assert(is_name_char(s[st.pos]) && is_name_char(s[st.pos + 1]));
        assert(name_end(s, st.pos + 2) == st.pos + 2);
        assert(name_end(s, st.pos + 1) == st.pos + 2);
        assert(name_end(s, st.pos) == st.pos + 2);
        assert(s.subrange(st.pos, st.pos + 2) =~= seq!['p', 'i']);
        assert(known_function(seq!['p', 'i']) is None);
    }
    if s[st.pos] == 'e' && !is_name_char(s[st.pos + 1]) {
        assert(is_name_char(s[st.pos]));
        assert(name_end(s, st.pos + 1) == st.pos + 1);
        assert(name_end(s, st.pos) == st.pos + 1);
        assert(s.subrange(st.pos, st.pos + 1) =~= seq!['e']);
        assert(known_function(seq!['e']) is None);
    }
}

proof fn lemma_dots_concat(a: Seq<char>, b: Seq<char>)
    ensures
        dots(a + b) == dots(a) + dots(b),
    decreases b.len(),
{
    if b.len() > 0 {
        lemma_dots_concat(a, b.drop_last());
        assert((a + b).drop_last() =~= a + b.drop_last());
    } else {
        assert(a + b =~= a);
    }
}

proof fn lemma_dot_counts(s: Seq<char>, i: int)
    requires
        0 <= i < s.len(),
        s[i] == '.',
    ensures
        dots(s) >= 1,
    decreases s.len(),
{
    if i < s.len() - 1 {
        assert(s.drop_last()[i] == s[i]);
        lemma_dot_counts(s.drop_last(), i);
    } else {
        lemma_dots_nonneg(s.drop_last());
    }
}

proof fn lemma_dots_nonneg(s: Seq<char>)
    ensures
        dots(s) >= 0,
    decreases s.len(),
{
    if s.len() > 0 {
        lemma_dots_nonneg(s.drop_last());
    }
}

/// Which runs of digits and points are numbers: digits alone when there is at
/// least one; digits, one point and digits when there is at least one digit;
/// never a run with two points.
pub proof fn law_number_literals(x: Seq<char>, y: Seq<char>, lit: Seq<char>, i: int, j: int)
    requires
        forall|k: int| 0 <= k < x.len() ==> is_ascii_digit(#[trigger] x[k]),
        forall|k: int| 0 <= k < y.len() ==> is_ascii_digit(#[trigger] y[k]),
    ensures
        valid_number_literal(x) <==> x.len() > 0,
        valid_number_literal(x + seq!['.'] + y) <==> x.len() + y.len() > 0,
        0 <= i < j < lit.len() && lit[i] == '.' && lit[j] == '.' ==> !valid_number_literal(lit),
{
    lemma_digits_dots(x);
    lemma_digits_dots(y);
    lemma_dots_concat(x, seq!['.']);
    lemma_dots_concat(x + seq!['.'], y);
    reveal_with_fuel(dots, 2);
    let w = x + seq!['.'] + y;
    assert forall|k: int| 0 <= k < w.len() implies is_number_char(#[trigger] w[k]) by {
        if k < x.len() {
            assert(w[k] == x[k]);
        } else if k > x.len() {
            assert(w[k] == y[k - x.len() - 1]);
        }
    }
    if 0 <= i < j < lit.len() && lit[i] == '.' && lit[j] == '.' {
        lemma_dot_counts(lit.take(j), i);
        lemma_dot_counts(lit.skip(j), 0);
        lemma_dots_concat(lit.take(j), lit.skip(j));
        assert(lit.take(j) + lit.skip(j) =~= lit);
    }
}

proof fn lemma_digits_dots(lit: Seq<char>)
    requires
        forall|i: int| 0 <= i < lit.len() ==> is_ascii_digit(#[trigger] lit[i]),
    ensures
        dots(lit) == 0,
    decreases lit.len(),
{
    if lit.len() > 0 {
        lemma_digits_dots(lit.drop_last());
    }
}

proof fn lemma_number_end_digits(s: Seq<char>, pos: int, e: int)
    requires
        0 <= pos <= e <= s.len(),
        forall|i: int| pos <= i < e ==> is_ascii_digit(#[trigger] s[i]),
        e == s.len() || s[e] == '+' || s[e] == '-',
    ensures
        number_end(s, pos) == e,
    decreases e - pos,
{
    if pos < e {
        lemma_number_end_digits(s, pos + 1, e);
    }
}

/// A run of digits followed by `+`, `-` or the end is a term that pushes that
/// number.
pub proof fn lemma_term_digits(s: Seq<char>, names: Seq<Seq<char>>, st: ParseState, e: int)
    requires
        st.fault is None,
        0 <= st.pos < e <= s.len(),
        forall|i: int| st.pos <= i < e ==> is_ascii_digit(#[trigger] s[i]),
        e == s.len() || s[e] == '+' || s[e] == '-',
    ensures
        parse_term(s, names, st) == emitted(
            ParseState { pos: e, after_paren: false, ..st },
            Op::Number { start: st.pos as usize, end: e as usize },
        ),
{
    let st0 = ParseState { after_paren: false, ..st };
    let lit = s.subrange(st.pos, e);
    lemma_number_end_digits(s, st.pos, e);
    assert forall|i: int| 0 <= i < lit.len() implies is_ascii_digit(#[trigger] lit[i]) by {
        assert(lit[i] == s[st.pos + i]);
    }
    lemma_digits_dots(lit);
    assert(valid_number_literal(lit));
    let v = emitted(moved(st0, e), Op::Number { start: st.pos as usize, end: e as usize });
    assert(parse_number(s, st0) == v);
    assert(is_number_char(s[st.pos]));
    assert(parse_factor(s, names, st) == v);
    assert(parse_postfix_rest(s, v) == v);
    assert(parse_postfix(s, names, st) == v);
    assert(parse_power(s, names, st) == v);
    assert(parse_term_rest(s, names, v) == v);
}

/// Additive operators associate to the left and keep their meaning: a line
/// `x o y p z`, where `x`, `y`, `z` are runs of digits (`x` ending at `a`, `y`
/// at `b`) and `o`, `p` are `+` or `-`, compiles without error to the steps
/// `x`, `y`, `o`, `z`, `p`; so "10-4+3" is (10 - 4) + 3.
#[verifier::spinoff_prover]
#[verifier::rlimit(50)]
pub proof fn law_additive_chain(s: Seq<char>, names: Seq<Seq<char>>, a: int, b: int)
    requires
        0 < a,
        a + 1 < b,
        b + 1 < s.len(),
        forall|i: int| 0 <= i < a ==> is_ascii_digit(#[trigger] s[i]),
        forall|i: int| a + 1 <= i < b ==> is_ascii_digit(#[trigger] s[i]),
        forall|i: int| b + 1 <= i < s.len() ==> is_ascii_digit(#[trigger] s[i]),
        s[a] == '+' || s[a] == '-',
        s[b] == '+' || s[b] == '-',
    ensures
        parse_program(s, names).fault is None,
        parse_program(s, names).ops == seq![
            Op::Number { start: 0, end: a as usize },
            Op::Number { start: (a + 1) as usize, end: b as usize },
            additive_op(s[a]),
            Op::Number { start: (b + 1) as usize, end: s.len() as usize },
            additive_op(s[b]),
        ],
{
    let n = s.len() as int;
    let st = initial_state();
    lemma_term_digits(s, names, st, a);
    let t1 = parse_term(s, names, st);
    let st2 = moved(t1, a + 1);
    lemma_term_digits(s, names, st2, b);
    let t2 = parse_term(s, names, st2);
    let u2 = emitted(t2, additive_op(s[a]));
    let st3 = moved(u2, b + 1);
    lemma_term_digits(s, names, st3, n);
    let t3 = parse_term(s, names, st3);
    let u3 = emitted(t3, additive_op(s[b]));
    assert(parse_expr_rest(s, names, t1) == parse_expr_rest(s, names, u2)) by {
        law_additive_operator(s, names, t1);
    }
    assert(parse_expr_rest(s, names, u2) == parse_expr_rest(s, names, u3)) by {
        law_additive_operator(s, names, u2);
    }
    assert(parse_expr_rest(s, names, u3) == u3) by {
        assert(char_at(s, u3.pos) is None);
    }
    assert(parse_expr(s, names, st) == parse_expr_rest(s, names, t1));
    assert(parse_program(s, names) == u3);
    assert(u3.ops =~= seq![
        Op::Number { start: 0, end: a as usize },
        Op::Number { start: (a + 1) as usize, end: b as usize },
        additive_op(s[a]),
        Op::Number { start: (b + 1) as usize, end: n as usize },
        additive_op(s[b]),
    ]);
}

} // verus!
