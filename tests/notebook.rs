use calcpad::functions::{canonical_digits, substitute, FunctionTable};
use calcpad::linear::{extract_linear_coefficients, parse_unsigned, solve, Decimal};
use calcpad::recognize::{recognize, Recognized};
use calcpad::session::{commit_line, Key, Outcome, Response, Session, Severity};
use calcpad::EvalError;

fn chars(s: &str) -> Vec<char> {
    s.chars().collect()
}

fn text(v: &[char]) -> String {
    v.iter().collect()
}

fn dec(negative: bool, digits: &str, scale: usize) -> Decimal {
    Decimal { negative, digits: digits.bytes().map(|b| b - b'0').collect(), scale }
}

fn solved_value(a: Decimal, b: Decimal, t: Decimal) -> Option<String> {
    solve(&a, &b, &t).map(|v| text(&v))
}

fn solved(table: &mut FunctionTable, line: &str) -> Result<String, EvalError> {
    match commit_line(&chars(line), table) {
        Outcome::Solved { solution } => Ok(text(&solution)),
        Outcome::Failed { error } => Err(error),
        other => panic!("unexpected outcome {:?}", other),
    }
}

#[test]
fn evaluate_defined_function() {
    let mut table = FunctionTable::new();
    table.define(chars("f"), chars("2*x+3"));
    match commit_line(&chars("f(5)"), &mut table) {
        Outcome::Evaluate { expr, .. } => {
            assert_eq!(text(&expr), "2*5+3");
            assert_eq!(meval::eval_str(text(&expr)).unwrap(), 13.0);
        }
        other => panic!("unexpected outcome {:?}", other),
    }
}

#[test]
fn definition_then_call_reports_result() {
    match recognize(&chars("f(x):= 2*x+3")) {
        Recognized::Definition { name, body } => {
            assert_eq!(text(&name), "f");
            assert_eq!(text(&body), "2*x+3");
        }
        other => panic!("unexpected {:?}", other),
    }
    let mut s = Session::new(vec![Vec::new()]);
    for c in "f(x):= 2*x+3".chars() {
        s.handle_key(Key::Char(c));
    }
    match s.handle_key(Key::Enter) {
        Response::Report { outcome: Outcome::Defined { name } } => assert_eq!(text(&name), "f"),
        other => panic!("unexpected {:?}", other),
    }
    for c in "f(5)".chars() {
        s.handle_key(Key::Char(c));
    }
    match s.handle_key(Key::Enter) {
        Response::Report { outcome: Outcome::Evaluate { name, arg, expr } } => {
            let value = meval::eval_str(text(&expr)).unwrap();
            assert_eq!(value, 13.0);
            assert_eq!(format!("{}({}) = {}", text(&name), text(&arg), value), "f(5) = 13");
        }
        other => panic!("unexpected {:?}", other),
    }
    assert_eq!(s.buffer.lines.len(), 3);
}

#[test]
fn linear_coefficients_and_solution() {
    assert_eq!(extract_linear_coefficients(&chars("2x+3")), Some((dec(false, "2", 0), dec(false, "3", 0))));
    assert_eq!(solved_value(dec(false, "2", 0), dec(false, "3", 0), dec(false, "13", 0)).unwrap(), "5.00");
    let mut table = FunctionTable::new();
    table.define(chars("f"), chars("2x+3"));
    assert_eq!(solved(&mut table, "f = 13"), Ok("5.00".to_string()));
}

#[test]
fn solving_undefined_function_is_not_found() {
    let mut table = FunctionTable::new();
    assert_eq!(solved(&mut table, "g = 4"), Err(EvalError::FunctionNotFound));
    match commit_line(&chars("g(4)"), &mut table) {
        Outcome::Failed { error } => assert_eq!(error, EvalError::FunctionNotFound),
        other => panic!("unexpected {:?}", other),
    }
}

#[test]
fn unrecognized_line_is_syntax_error() {
    let mut table = FunctionTable::new();
    for line in ["", "hello", "f(x)", "f = x", "(5)"] {
        match commit_line(&chars(line), &mut table) {
            Outcome::Failed { error } => assert_eq!(error, EvalError::RecognitionFailure),
            other => panic!("unexpected {:?} for {:?}", other, line),
        }
    }
    assert!(table.entries.is_empty());
}

#[test]
fn recognition_order_and_leftmost_match() {
    match recognize(&chars("g(x):= f(2)")) {
        Recognized::Definition { name, body } => {
            assert_eq!(text(&name), "g");
            assert_eq!(text(&body), "f(2)");
        }
        other => panic!("unexpected {:?}", other),
    }
    match recognize(&chars("a = 1 then b(22)")) {
        Recognized::Call { name, arg } => {
            assert_eq!(text(&name), "b");
            assert_eq!(text(&arg), "22");
        }
        other => panic!("unexpected {:?}", other),
    }
    match recognize(&chars("say total_1 = 042!")) {
        Recognized::Solve { name, target } => {
            assert_eq!(text(&name), "total_1");
            assert_eq!(text(&target), "042");
        }
        other => panic!("unexpected {:?}", other),
    }
    assert!(matches!(recognize(&chars("f(x):= ")), Recognized::Unrecognized));
}

#[test]
fn first_definition_wins() {
    let mut table = FunctionTable::new();
    table.define(chars("f"), chars("x+1"));
    table.define(chars("f"), chars("x+2"));
    assert_eq!(table.lookup(&chars("f")).map(|b| text(&b)), Some("x+1".to_string()));
    assert_eq!(table.lookup(&chars("h")), None);
}

#[test]
fn call_argument_loses_leading_zeros() {
    assert_eq!(text(&canonical_digits(&chars("007"))), "7");
    assert_eq!(text(&canonical_digits(&chars("000"))), "0");
    assert_eq!(text(&canonical_digits(&chars("10"))), "10");
    let mut table = FunctionTable::new();
    table.define(chars("f"), chars("x*x"));
    match commit_line(&chars("f(012)"), &mut table) {
        Outcome::Evaluate { arg, expr, .. } => {
            assert_eq!(text(&arg), "12");
            assert_eq!(text(&expr), "12*12");
        }
        other => panic!("unexpected {:?}", other),
    }
}

#[test]
fn substitution_is_textual() {
    assert_eq!(text(&substitute(&chars("max(x, 2)"), &chars("3"))), "ma3(3, 2)");
    assert_eq!(text(&substitute(&chars("x^2+x"), &chars("10"))), "10^2+10");
}

#[test]
fn linear_forms_accepted_and_refused() {
    assert_eq!(extract_linear_coefficients(&chars("x")), Some((dec(false, "1", 0), dec(false, "0", 0))));
    assert_eq!(extract_linear_coefficients(&chars("-x+4")), Some((dec(true, "1", 0), dec(false, "4", 0))));
    assert_eq!(
        extract_linear_coefficients(&chars("1.5x - 2")),
        Some((dec(false, "15", 1), dec(true, "2", 0)))
    );
    assert_eq!(extract_linear_coefficients(&chars("2*x+3")), None);
    assert_eq!(extract_linear_coefficients(&chars("2x+x")), None);
    assert_eq!(extract_linear_coefficients(&chars("(2x+3)")), None);
    assert_eq!(extract_linear_coefficients(&chars("3")), None);
    assert_eq!(parse_unsigned(&chars("12.50")), Some((vec![1, 2, 5, 0], 2)));
    assert_eq!(parse_unsigned(&chars(".")), None);
}

#[test]
fn solutions_round_to_hundredths() {
    assert_eq!(solved_value(dec(false, "3", 0), dec(false, "0", 0), dec(false, "1", 0)).unwrap(), "0.33");
    assert_eq!(solved_value(dec(false, "3", 0), dec(false, "0", 0), dec(false, "2", 0)).unwrap(), "0.67");
    assert_eq!(solved_value(dec(false, "8", 0), dec(false, "0", 0), dec(false, "1", 0)).unwrap(), "0.13");
    assert_eq!(solved_value(dec(true, "1", 0), dec(false, "4", 0), dec(false, "1", 0)).unwrap(), "3.00");
    assert_eq!(solved_value(dec(false, "2", 0), dec(false, "10", 0), dec(false, "1", 0)).unwrap(), "-4.50");
    assert_eq!(solved_value(dec(false, "15", 1), dec(true, "2", 0), dec(false, "1", 0)).unwrap(), "2.00");
    assert_eq!(
        solved_value(dec(false, "1", 9), dec(false, "0", 0), dec(false, "999999999", 0)).unwrap(),
        "999999999000000000.00"
    );
    assert_eq!(solved_value(dec(false, "0", 0), dec(false, "1", 0), dec(false, "1", 0)), None);
    assert_eq!(solved_value(dec(false, "000", 2), dec(false, "1", 0), dec(false, "1", 0)), None);
}

#[test]
fn solve_failures() {
    let mut table = FunctionTable::new();
    table.define(chars("f"), chars("2*x+3"));
    table.define(chars("z"), chars("0x+1"));
    table.define(chars("g"), chars("x"));
    assert_eq!(solved(&mut table, "f = 13"), Err(EvalError::SolveFailure));
    assert_eq!(solved(&mut table, "z = 1"), Err(EvalError::SolveFailure));
    assert_eq!(solved(&mut table, "g = 7"), Ok("7.00".to_string()));
}

#[test]
fn failures_are_errors() {
    let mut table = FunctionTable::new();
    assert_eq!(commit_line(&chars("nonsense"), &mut table).severity(), Severity::Error);
    assert_eq!(commit_line(&chars("f(x):= x+1"), &mut table).severity(), Severity::Info);
    assert_eq!(commit_line(&chars("f(1)"), &mut table).severity(), Severity::Info);
}

#[test]
fn long_numbers_are_exact() {
    assert_eq!(
        extract_linear_coefficients(&chars("1234567890x+1")),
        Some((dec(false, "1234567890", 0), dec(false, "1", 0)))
    );
    assert_eq!(
        solved_value(dec(false, "1234567890", 0), dec(false, "1", 0), dec(false, "1234567891", 0)),
        Some("1.00".to_string())
    );
    let mut table = FunctionTable::new();
    table.define(chars("g"), chars("x"));
    assert_eq!(solved(&mut table, "g = 1234567890"), Ok("1234567890.00".to_string()));
    assert_eq!(
        solved(&mut table, "g = 123456789012345678901234567890"),
        Ok("123456789012345678901234567890.00".to_string())
    );
    table.define(chars("h"), chars("3x-0.00000000001"));
    assert_eq!(solved(&mut table, "h = 1"), Ok("0.33".to_string()));
}

#[test]
fn blanks_after_constant_are_allowed() {
    assert_eq!(
        extract_linear_coefficients(&chars("2x + 3 ")),
        Some((dec(false, "2", 0), dec(false, "3", 0)))
    );
    assert_eq!(extract_linear_coefficients(&chars("2x  ")), Some((dec(false, "2", 0), dec(false, "0", 0))));
    assert_eq!(extract_linear_coefficients(&chars("2x + 3 4")), None);
}

#[test]
fn names_may_be_unicode_alphanumeric() {
    match recognize(&chars("é(x):= x")) {
        Recognized::Definition { name, body } => {
            assert_eq!(text(&name), "é");
            assert_eq!(text(&body), "x");
        }
        other => panic!("unexpected {:?}", other),
    }
}
