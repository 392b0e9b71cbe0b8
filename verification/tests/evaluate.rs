use std::collections::HashMap;

use neo_calc::compile::{compile, Program};
use neo_calc::error::ParseError;
use neo_calc::program::{Function, Op};

// A stack machine that runs a compiled program with f64 values, as the
// calculator does.

fn factorial(n: f64) -> Result<f64, String> {
    if n < 0.0 || n.fract().abs() > 1e-9 {
        return Err("Fakultät erfordert eine nicht-negative ganze Zahl".into());
    }
    let n = n.round() as u64;
    if n > 170 {
        return Err("Fakultät-Überlauf (max. 170!)".into());
    }
    let mut result: f64 = 1.0;
    for i in 2..=n {
        result *= i as f64;
    }
    Ok(result)
}

fn apply_function(function: Function, arg: f64) -> Result<f64, String> {
    match function {
        Function::Sin => Ok(arg.sin()),
        Function::Cos => Ok(arg.cos()),
        Function::Tan => Ok(arg.tan()),
        Function::Asin => Ok(arg.asin()),
        Function::Acos => Ok(arg.acos()),
        Function::Atan => Ok(arg.atan()),
        Function::Log => Ok(arg.log10()),
        Function::Ln => Ok(arg.ln()),
        Function::Sqrt => {
            if arg < 0.0 {
                Err("Wurzel aus negativer Zahl".into())
            } else {
                Ok(arg.sqrt())
            }
        }
        Function::Abs => Ok(arg.abs()),
        Function::Floor => Ok(arg.floor()),
        Function::Ceil => Ok(arg.ceil()),
    }
}

fn run(program: &Program, vars: &HashMap<String, f64>) -> Result<f64, ParseError> {
    let mut stack: Vec<f64> = Vec::new();
    for op in &program.ops {
        let value = match *op {
            Op::Number { start, end } => {
                let text: String = program.chars[start..end].iter().collect();
                text.parse::<f64>().unwrap()
            }
            Op::Pi => std::f64::consts::PI,
            Op::Euler => std::f64::consts::E,
            Op::Variable { start, end } => {
                let name: String = program.chars[start..end].iter().collect();
                vars[&name]
            }
            Op::Negate => -stack.pop().unwrap(),
            Op::Factorial { at } => {
                factorial(stack.pop().unwrap()).map_err(|msg| ParseError::at(msg, at))?
            }
            Op::Degrees => stack.pop().unwrap() * (std::f64::consts::PI / 180.0),
            Op::Call { function, at } => apply_function(function, stack.pop().unwrap())
                .map_err(|msg| ParseError::at(msg, at))?,
            _ => {
                let right = stack.pop().unwrap();
                let left = stack.pop().unwrap();
                match *op {
                    Op::Add => left + right,
                    Op::Subtract => left - right,
                    Op::Multiply => left * right,
                    Op::Power => left.powf(right),
                    Op::Divide { at } => {
                        if right == 0.0 {
                            return Err(ParseError::at("Division durch Null".into(), at));
                        }
                        left / right
                    }
                    _ => unreachable!(),
                }
            }
        };
        stack.push(value);
    }
    if let Some(e) = &program.error {
        return Err(e.clone());
    }
    Ok(stack.pop().unwrap_or(0.0))
}

fn evaluate(input: &str, vars: &HashMap<String, f64>) -> Result<f64, ParseError> {
    let names: Vec<String> = vars.keys().cloned().collect();
    run(&compile(input, &names), vars)
}

fn eval(expr: &str) -> Result<f64, ParseError> {
    evaluate(expr, &HashMap::new())
}

fn eval_with(expr: &str, vars: &[(&str, f64)]) -> Result<f64, ParseError> {
    let map: HashMap<String, f64> = vars.iter().map(|(k, v)| (k.to_string(), *v)).collect();
    evaluate(expr, &map)
}

fn approx(a: f64, b: f64) -> bool {
    (a - b).abs() < 1e-9
}

// basic arithmetic
#[test]
fn test_basic() {
    assert!(approx(eval("2+3").unwrap(), 5.0));
    assert!(approx(eval("10-3*2").unwrap(), 4.0));
    assert!(approx(eval("(1+2)*3").unwrap(), 9.0));
    assert!(approx(eval("2^10").unwrap(), 1024.0));
}

// functions
#[test]
fn test_functions() {
    assert!(approx(eval("sin(0)").unwrap(), 0.0));
    assert!(approx(eval("cos(0)").unwrap(), 1.0));
    assert!(approx(eval("sqrt(4)").unwrap(), 2.0));
    assert!(approx(eval("abs(-5)").unwrap(), 5.0));
    assert!(approx(eval("log(100)").unwrap(), 2.0));
    assert!(approx(eval("ln(e)").unwrap(), 1.0));
    assert!(approx(eval("floor(3.7)").unwrap(), 3.0));
    assert!(approx(eval("ceil(3.2)").unwrap(), 4.0));
}

// implicit multiplication
#[test]
fn test_implicit_mult() {
    assert!(approx(eval("2pi").unwrap(), 2.0 * std::f64::consts::PI));
    assert!(approx(eval("3(4+5)").unwrap(), 27.0));
    assert!(approx(eval("(2)(3)").unwrap(), 6.0));
    assert!(approx(eval("2sin(0)").unwrap(), 0.0));
    assert!(approx(eval("2cos(0)").unwrap(), 2.0));
}

// factorial
#[test]
fn test_factorial() {
    assert!(approx(eval("0!").unwrap(), 1.0));
    assert!(approx(eval("5!").unwrap(), 120.0));
    assert!(approx(eval("3!^2").unwrap(), 36.0));
    assert!(eval("(-1)!").is_err());
    assert!(eval("2.5!").is_err());
}

// variables
#[test]
fn test_variables() {
    assert!(approx(eval_with("x+1", &[("x", 5.0)]).unwrap(), 6.0));
    assert!(approx(eval_with("2x", &[("x", 5.0)]).unwrap(), 10.0));
}

// errors
#[test]
fn test_errors() {
    assert!(eval("1/0").is_err());
    assert!(eval("sqrt(-1)").is_err());
    assert!(eval("unknown(3)").is_err());
}

// error positions
#[test]
fn test_error_positions() {
    // "1+}" → error at position 2 (the '}')
    let err = eval("1+}").unwrap_err();
    assert_eq!(err.pos, Some(2));

    // "1 + }" → error at position 4 (whitespace-aware)
    let err = eval("1 + }").unwrap_err();
    assert_eq!(err.pos, Some(4));

    // "(1+2" → missing ')' at position 4
    let err = eval("(1+2").unwrap_err();
    assert_eq!(err.pos, Some(4));

    // "1/0" → division by zero at '/'
    let err = eval("1/0").unwrap_err();
    assert_eq!(err.pos, Some(1));

    // unknown variable
    let err = eval("foo+1").unwrap_err();
    assert_eq!(err.pos, Some(0));
}

#[test]
fn blank_input_is_zero() {
    assert_eq!(eval("").unwrap(), 0.0);
    assert_eq!(eval("   \t ").unwrap(), 0.0);
}

#[test]
fn precedence_and_associativity() {
    assert!(approx(eval("2+3*4").unwrap(), 14.0));
    assert!(approx(eval("2*3^2").unwrap(), 18.0));
    assert!(approx(eval("2^3^2").unwrap(), 512.0));
    assert!(approx(eval("-2^2").unwrap(), 4.0));
    assert!(approx(eval("8/4/2").unwrap(), 1.0));
    assert!(approx(eval("10-4-3").unwrap(), 3.0));
    assert!(approx(eval("3!!").unwrap(), 720.0));
}

#[test]
fn degrees_and_constants() {
    assert!(approx(eval("sin(90°)").unwrap(), 1.0));
    assert!(approx(eval("e").unwrap(), std::f64::consts::E));
    assert!(approx(eval("2 pi").unwrap(), 2.0 * std::f64::consts::PI));
}

#[test]
fn runtime_errors_come_before_later_syntax_errors() {
    let err = eval("1/0 + }").unwrap_err();
    assert_eq!(err.msg, "Division durch Null");
    assert_eq!(err.pos, Some(1));
    let err = eval("sqrt(-4) )").unwrap_err();
    assert_eq!(err.msg, "Wurzel aus negativer Zahl");
    assert_eq!(err.pos, Some(0));
    let err = eval("171!").unwrap_err();
    assert_eq!(err.msg, "Fakultät-Überlauf (max. 170!)");
    assert_eq!(err.pos, Some(3));
}

#[test]
fn stored_variables_shadow_nothing_but_unknown_names() {
    assert!(approx(eval_with("pi", &[("pi", 3.0)]).unwrap(), std::f64::consts::PI));
    assert!(approx(eval_with("a*x^2", &[("a", 2.0), ("x", 3.0)]).unwrap(), 18.0));
}
