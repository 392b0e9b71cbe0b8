//! Properties that relate the library's functions to one another.
use vstd::prelude::*;

use crate::compile::{parsed, program_ops, relocated};
use crate::error::fault_message;
use crate::grammar::{ParseState, char_at, emitted, initial_state, is_name_char, moved, name_end, parse_expr, parse_expr_rest, parse_factor, parse_identifier, parse_postfix, parse_postfix_rest, parse_power, parse_program, parse_term, parse_term_rest};
use crate::names::name_error;
use crate::variables::{
    distinct_names,
    find_name,
    lemma_find_name,
    stored,
    valid_table,
    without_name,
};
use crate::program::{
    Function,
    Op,
    function_name,
    is_constant_name,
    is_number_char,
    is_reserved,
    known_function,
};
use crate::text::{
    is_letter,
    is_letter_or_digit,
    is_white_space,
    kept_positions,
    lemma_kept_positions,
    lemma_stripped_without_white_space,
    original_position,
    pointer_line,
    stripped,
    trim_end,
};

verus! {

/// `op` with its reporting position left out.
pub open spec fn unplaced(op: Op) -> Op {
    match op {
        Op::Divide { .. } => Op::Divide { at: 0 },
        Op::Factorial { .. } => Op::Factorial { at: 0 },
        Op::Call { function, .. } => Op::Call { function, at: 0 },
        _ => op,
    }
}

/// Whitespace changes nothing but positions: two lines that differ only in
/// whitespace compile to the same steps apart from the positions those report
/// at, and stop, if they do, on the same fault with the same message.
pub proof fn law_whitespace_only_moves_positions(
    a: Seq<char>,
    b: Seq<char>,
    names: Seq<Seq<char>>,
)
    requires
        stripped(a) == stripped(b),
    ensures
        program_ops(a, names).map_values(|op: Op| unplaced(op)) == program_ops(
            b,
            names,
        ).map_values(|op: Op| unplaced(op)),
        parsed(a, names).fault == parsed(b, names).fault,
        parsed(a, names).fault matches Some(f) ==> fault_message(f, stripped(a)) == fault_message(
            f,
            stripped(b),
        ),
{
    let ops = parsed(a, names).ops;
    assert(parsed(a, names) == parsed(b, names));
    let pa = kept_positions(a);
    let pb = kept_positions(b);
    assert(program_ops(a, names).map_values(|op: Op| unplaced(op)) =~= program_ops(
        b,
        names,
    ).map_values(|op: Op| unplaced(op))) by {
        assert forall|i: int| 0 <= i < ops.len() implies unplaced(relocated(ops[i], pa))
            == unplaced(relocated(ops[i], pb)) by {}
    }
}

/// The caret line of an error lands on the error: for any position that the
/// grammar reports at, the original position it stands for lies within the
/// line (or just past its end), and `error_pointer` puts the caret exactly in
/// that column.
pub proof fn law_caret_marks_error_column(input: Seq<char>, at: int)
    requires
        input.len() <= usize::MAX,
    ensures
        0 <= original_position(kept_positions(input), at) <= input.len(),
        pointer_line(input, original_position(kept_positions(input), at)).len()
            == original_position(kept_positions(input), at) + 1,
        pointer_line(input, original_position(kept_positions(input), at))[original_position(
            kept_positions(input),
            at,
        )] == '^',
        forall|i: int|
            0 <= i < original_position(kept_positions(input), at) ==> #[trigger] pointer_line(
                input,
                original_position(kept_positions(input), at),
            )[i] == ' ',
{
    lemma_kept_positions(input);
    let kp = kept_positions(input);
    if kp.len() > 0 {
        assert((kp[kp.len() - 1] as int) < input.len());
    }
}

/// The caret line never reaches past the end of the line: it is spaces and
/// then `^`, in column `pos` when that lies within the line or just past its
/// end, else just past the end.
pub proof fn law_pointer_line(input: Seq<char>, pos: int)
    requires
        pos >= 0,
    ensures
        pointer_line(input, pos).len() <= input.len() + 1,
        pos <= input.len() ==> pointer_line(input, pos).len() == pos + 1,
        pos > input.len() ==> pointer_line(input, pos).len() == input.len() + 1,
        pointer_line(input, pos).last() == '^',
        forall|i: int|
            0 <= i < pointer_line(input, pos).len() - 1 ==> #[trigger] pointer_line(input, pos)[i]
                == ' ',
{
}

/// Stripping keeps exactly the characters that are not whitespace, in order.
pub proof fn law_stripped_is_filter(s: Seq<char>)
    ensures
        stripped(s) == s.filter(|c: char| !is_white_space(c)),
    decreases s.len(),
{
    reveal_with_fuel(Seq::filter, 1);
    if s.len() > 0 {
        law_stripped_is_filter(s.drop_last());
    }
}

/// A trimmed number is the text without a trailing run of points followed by
/// zeros: the result is a prefix of `text`; what follows it is points and then
/// zeros; the result does not end with a point, and ends with a zero only if a
/// point came right after it.
pub proof fn law_trim_fraction(text: Seq<char>)
    ensures
        ({
            let r = trim_end(trim_end(text, '0'), '.');
            &&& r.len() <= text.len()
            &&& text.subrange(0, r.len() as int) == r
            &&& forall|i: int| r.len() <= i < text.len() ==> #[trigger] text[i] == '.' || text[i] == '0'
            &&& forall|i: int, j: int|
                r.len() <= i < j < text.len() && #[trigger] text[i] == '0' ==> #[trigger] text[j]
                    == '0'
            &&& (r.len() > 0 ==> r.last() != '.')
            &&& (r.len() > 0 && r.last() == '0' ==> text.len() > r.len() && text[r.len() as int]
                == '.')
        }),
{
    let t = trim_end(text, '0');
    let r = trim_end(t, '.');
    let (z, _) = lemma_trim_end(text, '0');
    let (d, _) = lemma_trim_end(t, '.');
    assert(text =~= r + Seq::new(d, |i: int| '.') + Seq::new(z, |i: int| '0'));
    assert(text.subrange(0, r.len() as int) =~= r);
    if r.len() > 0 && r.last() == '0' {
        assert(d > 0) by {
            if d == 0 {
                assert(r =~= t);
            }
        }
        assert(text[r.len() as int] == '.');
    }
}

/// `trim_end(s, c)` is `s` without its trailing run of `c`, of length `n`.
pub proof fn lemma_trim_end(s: Seq<char>, c: char) -> (n: (nat, bool))
    ensures
        s =~= trim_end(s, c) + Seq::new(n.0, |i: int| c),
        trim_end(s, c).len() > 0 ==> trim_end(s, c).last() != c,
    decreases s.len(),
{
    if s.len() > 0 && s.last() == c {
        let (m, _) = lemma_trim_end(s.drop_last(), c);
        let t = trim_end(s, c);
        assert(t == trim_end(s.drop_last(), c));
        assert(s =~= s.drop_last().push(c));
        assert(Seq::new(m + 1, |i: int| c) =~= Seq::new(m, |i: int| c).push(c));
        assert(t + Seq::new(m + 1, |i: int| c) =~= (t + Seq::new(m, |i: int| c)).push(c));
        (m + 1, true)
    } else {
        assert(s =~= trim_end(s, c) + Seq::new(0, |i: int| c));
        (0, true)
    }
}

pub proof fn lemma_name_end_whole(s: Seq<char>, pos: int)
    requires
        0 <= pos <= s.len(),
        forall|i: int| pos <= i < s.len() ==> is_name_char(#[trigger] s[i]),
    ensures
        name_end(s, pos) == s.len(),
    decreases s.len() - pos,
{
    if pos < s.len() {
        lemma_name_end_whole(s, pos + 1);
    }
}

/// A stored variable can be referenced: a line made of nothing but a name
/// that `validate_var_name` accepts, with a variable of that name among
/// `names`, compiles without error to the single step that reads that
/// variable.
pub proof fn law_valid_name_reads_its_variable(name: Seq<char>, names: Seq<Seq<char>>)
    requires
        name_error(name) is None,
        names.contains(name),
    ensures
        stripped(name) == name,
        parse_program(name, names) == (ParseState {
            pos: name.len() as int,
            after_paren: false,
            ops: seq![Op::Variable { start: 0, end: name.len() as usize }],
            fault: None,
        }),
        parsed(name, names).fault is None,
        program_ops(name, names) == seq![Op::Variable { start: 0, end: name.len() as usize }],
{
    let s = name;
    let n = s.len() as int;
    assert(is_letter(s[0]));
    assert(is_letter_or_digit(s[0]));
    assert forall|i: int| 0 <= i < n implies is_name_char(#[trigger] s[i]) by {
        if i == 0 {
            assert(is_letter_or_digit(s[0]));
        } else {
            assert(is_name_char(s[i]));
        }
    }
    assert forall|i: int| 0 <= i < n implies !is_white_space(#[trigger] s[i]) by {
        assert(is_name_char(s[i]));
    }
    lemma_stripped_without_white_space(s);
    lemma_name_end_whole(s, 0);
    assert(s.subrange(0, n) =~= s);
    let st = initial_state();
    let st0 = ParseState { after_paren: false, ..st };
    let v = emitted(moved(st0, n), Op::Variable { start: 0, end: n as usize });
    assert(known_function(s) is None);
    assert(!is_constant_name(s));
    assert(parse_identifier(s, names, st0) == v);
    assert(char_at(s, 0) == Some(s[0]));
    assert(!is_number_char(s[0]));
    assert(parse_factor(s, names, st) == v);
    assert(parse_postfix_rest(s, v) == v);
    assert(parse_postfix(s, names, st) == v);
    assert(parse_power(s, names, st) == v);
    assert(parse_term_rest(s, names, v) == v);
    assert(parse_term(s, names, st) == v);
    assert(parse_expr_rest(s, names, v) == v);
    assert(parse_expr(s, names, st) == v);
    assert(v.ops =~= seq![Op::Variable { start: 0, end: n as usize }]);
    assert(program_ops(name, names) =~= seq![Op::Variable { start: 0, end: n as usize }]);
}

/// A stored value can be read back: after storing `value` under `name`, the
/// first entry called `name` holds `value`.
pub proof fn law_store_then_find<T>(vars: Seq<(String, T)>, name: String, value: T)
    ensures
        find_name(stored(vars, name, value), name@, 0) matches Some(i) && stored(
            vars,
            name,
            value,
        )[i] == (name, value),
{
    lemma_find_name(vars, name@, 0);
    let r = stored(vars, name, value);
    match find_name(vars, name@, 0) {
        Some(i) => {
            assert forall|k: int| 0 <= k < i implies r[k].0@ != name@ by {
                assert(r[k] == vars[k]);
            }
            lemma_find_name_at(r, name@, 0, i);
        },
        None => {
            assert forall|k: int| 0 <= k < vars.len() implies r[k].0@ != name@ by {
                assert(r[k] == vars[k]);
            }
            lemma_find_name_at(r, name@, 0, vars.len() as int);
        },
    }
}

/// Storing loses no other variable: every entry of another name keeps its
/// place, a name already present keeps the table's length (only its first
/// entry takes the new value), and a new name is added at the end.
pub proof fn law_store_keeps_other_entries<T>(vars: Seq<(String, T)>, name: String, value: T)
    ensures
        forall|k: int|
            0 <= k < vars.len() && vars[k].0@ != name@ ==> #[trigger] stored(vars, name, value)[k]
                == vars[k],
        forall|k: int|
            0 <= k < vars.len() ==> (#[trigger] stored(vars, name, value)[k] == vars[k]
                || stored(vars, name, value)[k] == (name, value)),
        (exists|k: int| 0 <= k < vars.len() && #[trigger] vars[k].0@ == name@) ==> stored(
            vars,
            name,
            value,
        ).len() == vars.len(),
        !(exists|k: int| 0 <= k < vars.len() && #[trigger] vars[k].0@ == name@) ==> stored(
            vars,
            name,
            value,
        ) == vars.push((name, value)),
{
    lemma_find_name(vars, name@, 0);
    if exists|k: int| 0 <= k < vars.len() && #[trigger] vars[k].0@ == name@ {
        let k = choose|k: int| 0 <= k < vars.len() && #[trigger] vars[k].0@ == name@;
        assert(find_name(vars, name@, 0) is Some);
    }
}

/// Deleting removes exactly the entries of that name: the table left is the
/// old one with those entries filtered out, everything else in order.
pub proof fn law_delete_is_filter<T>(vars: Seq<(String, T)>, name: Seq<char>)
    ensures
        without_name(vars, name) == vars.filter(|e: (String, T)| e.0@ != name),
    decreases vars.len(),
{
    let pred = |e: (String, T)| e.0@ != name;
    if vars.len() == 0 {
        reveal(Seq::filter);
    } else {
        let tail = vars.drop_first();
        law_delete_is_filter(tail, name);
        assert(vars =~= seq![vars[0]] + tail);
        Seq::filter_distributes_over_add(seq![vars[0]], tail, pred);
        reveal_with_fuel(Seq::filter, 2);
        assert(seq![vars[0]].drop_last() =~= Seq::<(String, T)>::empty());
        if pred(vars[0]) {
            assert(seq![vars[0]].filter(pred) =~= seq![vars[0]]);
        } else {
            assert(seq![vars[0]].filter(pred) =~= Seq::<(String, T)>::empty());
            assert(Seq::<(String, T)>::empty() + tail.filter(pred) =~= tail.filter(pred));
        }
    }
}

/// Storing keeps the names of the table distinct.
pub proof fn law_store_keeps_names_distinct<T>(vars: Seq<(String, T)>, name: String, value: T)
    requires
        distinct_names(vars),
    ensures
        distinct_names(stored(vars, name, value)),
{
    lemma_find_name(vars, name@, 0);
    let r = stored(vars, name, value);
    assert forall|i: int, j: int| 0 <= i < j < r.len() implies r[i].0@ != r[j].0@ by {
        if find_name(vars, name@, 0) is None {
            if j == vars.len() {
                assert(r[i] == vars[i]);
            } else {
                assert(r[i] == vars[i] && r[j] == vars[j]);
            }
        } else {
            let k = find_name(vars, name@, 0)->0;
            if i != k && j != k {
                assert(r[i] == vars[i] && r[j] == vars[j]);
            } else if i == k {
                assert(r[j] == vars[j]);
            } else {
                assert(r[i] == vars[i]);
            }
        }
    }
}

/// Deleting a name forgets it: no entry of that name is left, and the others
/// keep their order.
pub proof fn law_delete_forgets_name<T>(vars: Seq<(String, T)>, name: Seq<char>)
    ensures
        find_name(without_name(vars, name), name, 0) is None,
        forall|k: int|
            0 <= k < without_name(vars, name).len() ==> (#[trigger] without_name(vars, name)[k]).0@
                != name,
{
    lemma_without_name(vars, name);
    let r = without_name(vars, name);
    lemma_find_name(r, name, 0);
}

proof fn lemma_without_name<T>(vars: Seq<(String, T)>, name: Seq<char>)
    ensures
        forall|k: int|
            0 <= k < without_name(vars, name).len() ==> (#[trigger] without_name(vars, name)[k]).0@
                != name,
    decreases vars.len(),
{
    if vars.len() > 0 {
        lemma_without_name(vars.drop_first(), name);
        let rest = without_name(vars.drop_first(), name);
        if vars[0].0@ != name {
            assert forall|k: int| 0 <= k < (seq![vars[0]] + rest).len() implies (#[trigger] (seq![
                vars[0],
            ] + rest)[k]).0@ != name by {
                if k > 0 {
                    assert((seq![vars[0]] + rest)[k] == rest[k - 1]);
                }
            }
        }
    }
}

/// Deleting keeps the names of the table distinct.
pub proof fn law_delete_keeps_names_distinct<T>(vars: Seq<(String, T)>, name: Seq<char>)
    requires
        distinct_names(vars),
    ensures
        distinct_names(without_name(vars, name)),
    decreases vars.len(),
{
    if vars.len() > 0 {
        let tail = vars.drop_first();
        assert(distinct_names(tail)) by {
            assert forall|i: int, j: int| 0 <= i < j < tail.len() implies tail[i].0@
                != tail[j].0@ by {
                assert(tail[i] == vars[i + 1] && tail[j] == vars[j + 1]);
            }
        }
        law_delete_keeps_names_distinct(tail, name);
        lemma_without_name_keeps_entries(tail, name);
        let rest = without_name(tail, name);
        if vars[0].0@ != name {
            let r = seq![vars[0]] + rest;
            assert forall|i: int, j: int| 0 <= i < j < r.len() implies r[i].0@ != r[j].0@ by {
                assert(r[j] == rest[j - 1]);
                if i == 0 {
                    let k = choose|k: int| 0 <= k < tail.len() && rest[j - 1] == tail[k];
                    assert(tail[k] == vars[k + 1]);
                } else {
                    assert(r[i] == rest[i - 1]);
                }
            }
        }
    }
}

/// Every entry left by a delete was an entry before it.
pub proof fn lemma_without_name_keeps_entries<T>(vars: Seq<(String, T)>, name: Seq<char>)
    ensures
        forall|k: int|
            0 <= k < without_name(vars, name).len() ==> exists|j: int|
                0 <= j < vars.len() && #[trigger] without_name(vars, name)[k] == vars[j],
    decreases vars.len(),
{
    if vars.len() > 0 {
        let tail = vars.drop_first();
        lemma_without_name_keeps_entries(tail, name);
        let rest = without_name(tail, name);
        let r = without_name(vars, name);
        assert forall|k: int| 0 <= k < r.len() implies exists|j: int|
            0 <= j < vars.len() && #[trigger] r[k] == vars[j] by {
            if vars[0].0@ == name {
                let j = choose|j: int| 0 <= j < tail.len() && rest[k] == tail[j];
                assert(r[k] == vars[j + 1]);
            } else if k == 0 {
                assert(r[0] == vars[0]);
            } else {
                assert(r[k] == rest[k - 1]);
                let j = choose|j: int| 0 <= j < tail.len() && rest[k - 1] == tail[j];
                assert(r[k] == vars[j + 1]);
            }
        }
    }
}

/// Storing under a valid name keeps a valid table valid.
pub proof fn law_store_keeps_table_valid<T>(vars: Seq<(String, T)>, name: String, value: T)
    requires
        valid_table(vars),
        name_error(name@) is None,
    ensures
        valid_table(stored(vars, name, value)),
{
    law_store_keeps_names_distinct(vars, name, value);
    lemma_find_name(vars, name@, 0);
    let r = stored(vars, name, value);
    assert forall|i: int| 0 <= i < r.len() implies name_error((#[trigger] r[i]).0@) is None by {
        match find_name(vars, name@, 0) {
            Some(k) => {
                if i != k {
                    assert(r[i] == vars[i]);
                }
            },
            None => {
                if i < vars.len() {
                    assert(r[i] == vars[i]);
                }
            },
        }
    }
}

/// Deleting keeps a valid table valid.
pub proof fn law_delete_keeps_table_valid<T>(vars: Seq<(String, T)>, name: Seq<char>)
    requires
        valid_table(vars),
    ensures
        valid_table(without_name(vars, name)),
{
    law_delete_keeps_names_distinct(vars, name);
    lemma_without_name_keeps_entries(vars, name);
    let r = without_name(vars, name);
    assert forall|i: int| 0 <= i < r.len() implies name_error((#[trigger] r[i]).0@) is None by {
        let j = choose|j: int| 0 <= j < vars.len() && r[i] == vars[j];
        assert(name_error(vars[j].0@) is None);
    }
}

/// The empty table, where the calculator starts and what "Clear all" leaves,
/// is valid.
pub proof fn law_empty_table_is_valid<T>()
    ensures
        valid_table(Seq::<(String, T)>::empty()),
{
}

proof fn lemma_find_name_at<T>(vars: Seq<(String, T)>, name: Seq<char>, from: int, i: int)
    requires
        0 <= from <= i,
        forall|k: int| from <= k < i ==> vars[k].0@ != name,
        i < vars.len() ==> vars[i].0@ == name,
        i <= vars.len(),
    ensures
        i < vars.len() ==> find_name(vars, name, from) == Some(i),
    decreases i - from,
{
    if from < i {
        lemma_find_name_at(vars, name, from + 1, i);
    }
}

/// Every built-in function's name calls that function, and nothing else.
pub proof fn law_function_names_resolve(f: Function, name: Seq<char>)
    ensures
        known_function(function_name(f)) == Some(f),
        known_function(name) matches Some(g) ==> name == function_name(g),
{
    let n = function_name(f);
    match f {
        Function::Sin => {},
        Function::Cos => {
            assert(n[0] != 's');
        },
        Function::Tan => {
            assert(n[0] != 's' && n[0] != 'c');
        },
        Function::Asin => {
            assert(n.len() == 4);
        },
        Function::Acos => {
            assert(n.len() == 4 && n[1] != 's');
        },
        Function::Atan => {
            assert(n.len() == 4 && n[1] != 's' && n[1] != 'c');
        },
        Function::Log => {
            assert(n[0] == 'l');
        },
        Function::Ln => {
            assert(n.len() == 2);
        },
        Function::Sqrt => {
            assert(n.len() == 4 && n[0] == 's');
        },
        Function::Abs => {
            assert(n[0] == 'a' && n.len() == 3);
        },
        Function::Floor => {
            assert(n.len() == 5);
        },
        Function::Ceil => {
            assert(n.len() == 4 && n[0] == 'c');
        },
    }
}

/// Exactly fourteen words are reserved: "pi", "e" and the names of the twelve
/// built-in functions.
pub proof fn law_reserved_words(name: Seq<char>)
    ensures
        is_reserved(name) <==> (name == seq!['p', 'i'] || name == seq!['e'] || exists|f: Function|
            name == #[trigger] function_name(f)),
{
    if exists|f: Function| name == #[trigger] function_name(f) {
        let f = choose|f: Function| name == #[trigger] function_name(f);
        law_function_names_resolve(f, name);
    }
    if known_function(name) is Some {
        law_function_names_resolve(known_function(name)->0, name);
    }
}

/// `validate_var_name` accepts exactly the names made of letters, digits and
/// `_` that start with a letter and are none of the fourteen reserved words.
pub proof fn law_valid_names(name: Seq<char>)
    ensures
        name_error(name) is None <==> {
            &&& name.len() > 0
            &&& is_letter(name[0])
            &&& forall|i: int| 0 <= i < name.len() ==> is_name_char(#[trigger] name[i])
            &&& name != seq!['p', 'i']
            &&& name != seq!['e']
            &&& forall|f: Function| name != #[trigger] function_name(f)
        },
{
    law_reserved_words(name);
    if name.len() > 0 && is_letter(name[0]) {
        assert(is_name_char(name[0]));
    }
}

} // verus!
