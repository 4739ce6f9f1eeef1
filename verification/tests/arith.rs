use pointer_chain::arith::{evaluate_groups, groups_computable, read_isize};
use pointer_chain::{try_evaluate_expression, ArithmeticError};

fn groups(first: &str, op: &str, second: &str) -> Vec<Option<String>> {
    vec![
        Some(format!("{}{}{}", first, op, second)),
        Some(first.to_string()),
        Some(op.to_string()),
        Some(second.to_string()),
    ]
}

/// The evaluation written with the pattern matcher; `None` where the arithmetic cannot be
/// done.
fn by_pattern(matcher: &regex::Regex, expr: &str) -> Option<Result<isize, String>> {
    if let Some(caps) = matcher.captures(expr) {
        let a: isize = match caps[1].parse() {
            Ok(a) => a,
            Err(_) => return Some(Err("Invalid number in expression".to_string())),
        };
        let b: isize = match caps[3].parse() {
            Ok(b) => b,
            Err(_) => return Some(Err("Invalid number in expression".to_string())),
        };
        match &caps[2] {
            "+" => a.checked_add(b).map(Ok),
            "-" => a.checked_sub(b).map(Ok),
            "*" => a.checked_mul(b).map(Ok),
            "/" => a.checked_div(b).map(Ok),
            _ => Some(Err("Unsupported operation".to_string())),
        }
    } else {
        Some(expr.parse().map_err(|_| "Invalid expression".to_string()))
    }
}

#[test]
fn operation_on_two_numbers() {
    assert_eq!(try_evaluate_expression("12+30"), Some(Ok(42)));
    assert_eq!(try_evaluate_expression("12 - 30"), Some(Ok(-18)));
    assert_eq!(try_evaluate_expression("6\t*\n7"), Some(Ok(42)));
    assert_eq!(try_evaluate_expression("45/7"), Some(Ok(6)));
    assert_eq!(try_evaluate_expression("0/5"), Some(Ok(0)));
}

#[test]
fn first_operation_in_the_text_counts() {
    assert_eq!(try_evaluate_expression("sum: 3*4 and 5+6"), Some(Ok(12)));
    assert_eq!(try_evaluate_expression("1 2+3"), Some(Ok(5)));
    assert_eq!(try_evaluate_expression("-2+3"), Some(Ok(5)));
    assert_eq!(try_evaluate_expression("2+-3"), Some(Err(ArithmeticError::InvalidExpression)));
    assert_eq!(try_evaluate_expression("1+2+3"), Some(Ok(3)));
}

#[test]
fn text_without_an_operation_is_read_as_a_number() {
    assert_eq!(try_evaluate_expression("42"), Some(Ok(42)));
    assert_eq!(try_evaluate_expression("-42"), Some(Ok(-42)));
    assert_eq!(try_evaluate_expression("+42"), Some(Ok(42)));
    assert_eq!(try_evaluate_expression(""), Some(Err(ArithmeticError::InvalidExpression)));
    assert_eq!(try_evaluate_expression(" 42"), Some(Err(ArithmeticError::InvalidExpression)));
    assert_eq!(try_evaluate_expression("four"), Some(Err(ArithmeticError::InvalidExpression)));
    assert_eq!(try_evaluate_expression("2 ^ 3"), Some(Err(ArithmeticError::InvalidExpression)));
}

#[test]
fn operand_that_is_no_number_is_invalid() {
    assert_eq!(
        try_evaluate_expression("99999999999999999999+1"),
        Some(Err(ArithmeticError::InvalidNumber))
    );
    assert_eq!(
        try_evaluate_expression("1+99999999999999999999"),
        Some(Err(ArithmeticError::InvalidNumber))
    );
    // U+0663 and U+0664 are decimal digits that no number is written with.
    assert_eq!(
        try_evaluate_expression("\u{663}+\u{664}"),
        Some(Err(ArithmeticError::InvalidNumber))
    );
}

#[test]
fn result_outside_the_range_is_not_computed() {
    assert_eq!(try_evaluate_expression(&format!("{}+1", isize::MAX)), None);
    assert_eq!(try_evaluate_expression(&format!("{}*2", isize::MAX)), None);
    assert_eq!(try_evaluate_expression("1/0"), None);
    assert_eq!(try_evaluate_expression("0/0"), None);
    assert_eq!(try_evaluate_expression(&format!("{}+0", isize::MAX)), Some(Ok(isize::MAX)));
    assert_eq!(try_evaluate_expression(&format!("0-{}", isize::MAX)), Some(Ok(-isize::MAX)));
}

#[test]
fn groups_of_an_operation() {
    assert!(groups_computable(&groups("7", "%", "2")));
    assert_eq!(evaluate_groups(&groups("7", "%", "2")), Err(ArithmeticError::UnsupportedOperation));
    assert_eq!(evaluate_groups(&groups("x", "%", "2")), Err(ArithmeticError::InvalidNumber));
    assert!(groups_computable(&groups("-7", "/", "2")));
    assert_eq!(evaluate_groups(&groups("-7", "/", "2")), Ok(-3));
    assert_eq!(evaluate_groups(&groups("7", "/", "-2")), Ok(-3));
    assert_eq!(evaluate_groups(&groups("-7", "/", "-2")), Ok(3));
    assert_eq!(evaluate_groups(&groups("-7", "-", "-2")), Ok(-5));
    assert!(!groups_computable(&groups("7", "/", "0")));
    assert!(!groups_computable(&groups(&isize::MIN.to_string(), "/", "-1")));
    assert!(!groups_computable(&groups(&isize::MIN.to_string(), "-", "1")));
    assert!(!groups_computable(&vec![Some("7".to_string()), None, None, None]));
    assert!(!groups_computable(&vec![]));
}

#[test]
fn numbers_that_fit() {
    assert_eq!(read_isize(&isize::MAX.to_string()), Some(isize::MAX));
    assert_eq!(read_isize(&isize::MIN.to_string()), Some(isize::MIN));
    assert_eq!(read_isize("170141183460469231731687303715884105727"), None);
    assert_eq!(read_isize("1_000"), None);
}

#[test]
fn messages_of_failures() {
    assert_eq!(ArithmeticError::InvalidNumber.message(), "Invalid number in expression");
    assert_eq!(ArithmeticError::UnsupportedOperation.message(), "Unsupported operation");
    assert_eq!(ArithmeticError::InvalidExpression.message(), "Invalid expression");
}

struct Source(u64);

impl Source {
    fn next(&mut self, bound: usize) -> usize {
        self.0 = self.0.wrapping_mul(6364136223846793005).wrapping_add(1442695040888963407);
        ((self.0 >> 33) as usize) % bound
    }

    fn text(&mut self, alphabet: &[&str], longest: usize) -> String {
        let length = self.next(longest + 1);
        let mut out = String::new();
        for _ in 0..length {
            out.push_str(alphabet[self.next(alphabet.len())]);
        }
        out
    }
}

#[test]
fn evaluation_agrees_with_the_pattern() {
    let matcher = regex::Regex::new(r"(\d+)\s*([+\-*/])\s*(\d+)").unwrap();
    let alphabet = [
        "0", "1", "7", "42", "+", "-", "*", "/", " ", "\t", "\u{a0}", "\u{663}", "x", "92233720368",
        "54775807", "9223372036854775807", "\n", "(", ".",
    ];
    let mut source = Source(0x5eed);
    for _ in 0..4000 {
        let text = source.text(&alphabet, 7);
        let expected = by_pattern(&matcher, &text);
        let got = try_evaluate_expression(&text).map(|r| r.map_err(|e| e.message()));
        assert_eq!(got, expected, "expression {:?}", text);
    }
}
