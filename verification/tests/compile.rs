use neo_calc::compile::compile;
use neo_calc::program::{Function, Op};
use neo_calc::text::error_pointer;

fn no_vars() -> Vec<String> {
    Vec::new()
}

fn num(start: usize, end: usize) -> Op {
    Op::Number { start, end }
}

fn unplaced(op: Op) -> Op {
    match op {
        Op::Divide { .. } => Op::Divide { at: 0 },
        Op::Factorial { .. } => Op::Factorial { at: 0 },
        Op::Call { function, .. } => Op::Call { function, at: 0 },
        other => other,
    }
}

#[test]
fn steps_follow_precedence() {
    let p = compile("2+3*4", &no_vars());
    assert!(p.error.is_none());
    assert_eq!(p.ops, vec![num(0, 1), num(2, 3), num(4, 5), Op::Multiply, Op::Add]);
}

#[test]
fn power_is_right_associative() {
    let p = compile("2^3^2", &no_vars());
    assert_eq!(p.ops, vec![num(0, 1), num(2, 3), num(4, 5), Op::Power, Op::Power]);
}

#[test]
fn implicit_multiplication() {
    let p = compile("2pi", &no_vars());
    assert_eq!(p.ops, vec![num(0, 1), Op::Pi, Op::Multiply]);
    let p = compile("(2)3", &no_vars());
    assert_eq!(p.ops, vec![num(1, 2), num(3, 4), Op::Multiply]);
    // a digit after a name is part of the name, after a number part of the number
    let p = compile("2 3", &no_vars());
    assert_eq!(p.chars, vec!['2', '3']);
    assert_eq!(p.ops, vec![num(0, 2)]);
}

#[test]
fn positions_are_in_the_original_line() {
    let p = compile("8 / 2", &no_vars());
    assert_eq!(p.ops, vec![num(0, 1), num(2, 3), Op::Divide { at: 2 }]);
    let p = compile(" 4 !", &no_vars());
    assert_eq!(p.ops, vec![num(0, 1), Op::Factorial { at: 3 }]);
    let p = compile("  sqrt (9)", &no_vars());
    assert_eq!(p.ops, vec![num(5, 6), Op::Call { function: Function::Sqrt, at: 2 }]);
}

#[test]
fn each_fault_and_its_message() {
    let e = compile("1+}", &no_vars()).error.unwrap();
    assert_eq!((e.msg.as_str(), e.pos), ("Unerwartetes Zeichen: '}'", Some(2)));
    let e = compile("1 +", &no_vars()).error.unwrap();
    assert_eq!((e.msg.as_str(), e.pos), ("Unerwartetes Ende des Ausdrucks", Some(3)));
    let e = compile("(1+2", &no_vars()).error.unwrap();
    assert_eq!((e.msg.as_str(), e.pos), ("Fehlende schließende Klammer ')'", Some(4)));
    let e = compile("1.2.3", &no_vars()).error.unwrap();
    assert_eq!((e.msg.as_str(), e.pos), ("Ungültige Zahl: 1.2.3", Some(0)));
    let e = compile("2+.", &no_vars()).error.unwrap();
    assert_eq!((e.msg.as_str(), e.pos), ("Ungültige Zahl: .", Some(2)));
    let e = compile("sin(1", &no_vars()).error.unwrap();
    assert_eq!((e.msg.as_str(), e.pos), ("Fehlende ')' nach sin(…", Some(5)));
    let e = compile("foo+1", &no_vars()).error.unwrap();
    assert_eq!((e.msg.as_str(), e.pos), ("Unbekannte Variable 'foo'", Some(0)));
    let e = compile("2)", &no_vars()).error.unwrap();
    assert_eq!((e.msg.as_str(), e.pos), ("Unerwartetes Zeichen: ')'", Some(1)));
    let e = compile("2 § 3", &no_vars()).error.unwrap();
    assert_eq!((e.msg.as_str(), e.pos), ("Unerwartetes Zeichen: '§'", Some(2)));
}

#[test]
fn steps_before_a_fault_are_kept() {
    let p = compile("1/0 + }", &no_vars());
    assert_eq!(p.ops, vec![num(0, 1), num(2, 3), Op::Divide { at: 1 }]);
    assert_eq!(p.error.unwrap().pos, Some(6));
}

#[test]
fn blank_line_compiles_to_nothing() {
    let p = compile("  ", &no_vars());
    assert!(p.ops.is_empty());
    assert!(p.error.is_none());
}

#[test]
fn variables_and_unary_signs() {
    let names = vec!["x".to_string(), "rate".to_string()];
    let p = compile("-x * +rate", &names);
    assert!(p.error.is_none());
    assert_eq!(
        p.ops,
        vec![Op::Variable { start: 1, end: 2 }, Op::Negate, Op::Variable { start: 4, end: 8 }, Op::Multiply]
    );
    let p = compile("90°", &no_vars());
    assert_eq!(p.ops, vec![num(0, 2), Op::Degrees]);
}

// whitespace only moves positions
#[test]
fn whitespace_changes_only_positions() {
    let a = compile("1+2/sqrt(4)!", &no_vars());
    let b = compile(" 1 + 2 / sqrt ( 4 ) ! ", &no_vars());
    let ua: Vec<Op> = a.ops.iter().map(|op| unplaced(*op)).collect();
    let ub: Vec<Op> = b.ops.iter().map(|op| unplaced(*op)).collect();
    assert_eq!(ua, ub);
    let ea = compile("1+(2", &no_vars()).error.unwrap();
    let eb = compile("1 + ( 2", &no_vars()).error.unwrap();
    assert_eq!(ea.msg, eb.msg);
    assert_ne!(ea.pos, eb.pos);
}

// the caret marks the reported column
#[test]
fn caret_marks_the_error() {
    let line = "12 * (3 + ";
    let e = compile(line, &no_vars()).error.unwrap();
    let pos = e.pos.unwrap();
    assert_eq!(pos, 9);
    assert_eq!(error_pointer(line, pos), "         ^");
}

// a validated name, once stored, reads its variable
#[test]
fn stored_name_reads_its_variable() {
    let names = vec!["my_var".to_string()];
    let p = compile("my_var", &names);
    assert!(p.error.is_none());
    assert_eq!(p.ops, vec![Op::Variable { start: 0, end: 6 }]);
}

#[test]
fn stored_name_surrounded_by_whitespace_reads_its_variable() {
    let names = vec!["größe".to_string()];
    let p = compile("  größe ", &names);
    assert!(p.error.is_none());
    assert_eq!(p.ops, vec![Op::Variable { start: 0, end: 5 }]);
}
