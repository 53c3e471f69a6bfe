use complex::binary64::Binary64;
use complex::complex::{checked_result, finite_complex_or_none, Complex};
use complex::format::Rendering;
use complex::parse_complex::Literal;
use complex::process_tokens::{extract_complex, process, EvalError, Step};
use complex::shunting_yard::shunting_yard;
use complex::token::{Operator, Token};
use complex::tokenize::tokenize;

fn bits(x: f64) -> Binary64 {
    Binary64::from_bits(x.to_bits())
}

fn float(x: Binary64) -> f64 {
    f64::from_bits(x.to_bits())
}

fn c(re: f64, im: f64) -> Complex {
    Complex::new(bits(re), bits(im))
}

fn value(l: &Literal) -> Complex {
    c(l.re.parse().unwrap(), l.im.parse().unwrap())
}

fn values(tokens: Vec<Token<Literal>>) -> Vec<Token<Complex>> {
    tokens
        .into_iter()
        .map(|t| match t.retyped() {
            Ok(other) => other,
            Err(l) => Token::ComplexNumber(value(&l)),
        })
        .collect()
}

fn compute(operator: Operator, left: Complex, right: Complex) -> Complex {
    let (a, b) = (float(left.re), float(left.im));
    let (x, y) = (float(right.re), float(right.im));
    match operator {
        Operator::Plus => c(a + x, b + y),
        Operator::Minus => c(a - x, b - y),
        Operator::Multiply => c(a * x - b * y, a * y + x * b),
        Operator::Divide => {
            let denom = x * x + y * y;
            c((a * x + b * y) / denom, (x * b - a * y) / denom)
        }
        Operator::Power => {
            let r = a.hypot(b).powf(x);
            let theta = b.atan2(a) * x;
            c(r * theta.cos(), r * theta.sin())
        }
    }
}

fn apply(operator: Operator, left: Complex, right: Complex) -> Option<Complex> {
    let computed = compute(operator, left, right);
    match operator {
        Operator::Plus => left.add(right, computed),
        Operator::Minus => left.sub(right, computed),
        Operator::Multiply => left.mul(right, computed),
        Operator::Divide => left.div(right, computed),
        Operator::Power => checked_result(operator, left, right, computed),
    }
}

fn evaluate(tokens: &mut Vec<Token<Complex>>) -> Result<Complex, EvalError> {
    let mut computed = None;
    loop {
        match process(tokens, computed)? {
            Step::Finished(value) => return Ok(value),
            Step::Apply { operator, left, right } => {
                computed = Some(compute(operator, left, right));
            }
        }
    }
}

fn rendering(x: f64, precision: usize) -> Rendering {
    Rendering {
        log10_floor: x.abs().log10().floor() as i16,
        fixed: format!("{:.precision$}", x),
        exponential: format!("{:.precision$e}", x),
    }
}

fn show(value: Complex) -> String {
    let re = rendering(float(value.re), 6);
    let im = rendering(float(value.shown_imaginary()), 6);
    value.to_std_string(&re, &im, 12, 6)
}

fn run(input: &str) -> Result<Complex, EvalError> {
    let mut shunted = shunting_yard(values(tokenize(input).unwrap()));
    evaluate(&mut shunted)
}

fn answer(input: &str) -> String {
    show(run(input).unwrap())
}

fn same(expected: Option<Complex>, result: Option<Complex>) {
    assert_eq!(expected, result);
}

fn shunted(input: &str) -> String {
    shunting_yard(values(tokenize(input).unwrap()))
        .iter()
        .map(|t| match t {
            Token::ComplexNumber(c) => {
                t.to_string(&rendering(float(c.re), 6), &rendering(float(c.shown_imaginary()), 6))
            }
            _ => t.to_string(&rendering(0.0, 6), &rendering(0.0, 6)),
        })
        .collect::<Vec<_>>()
        .join(" ")
}

#[test]
fn shunting_works() {
    assert_eq!("{1} {2} +", shunted("{1} + {2}"));
    assert_eq!("{1} {2} {3} * +", shunted("{1} + {2} * {3}"));
    assert_eq!("{1} {2} {3} * + {4} -", shunted("{1} + {2} * {3} - {4}"));
    assert_eq!("z({1})", shunted("z({1})"));
    assert_eq!("pow({1}, {10})", shunted("pow({1}, {10})"));
    assert_eq!("sum({1}, {2}, {3}, {4})", shunted("sum({1}, {2}, {3}, {4})"));
}

#[test]
fn test_processing() {
    assert_eq!("{2 + i}", answer("{2 + i}"));
    assert_eq!("{2 + i}", answer("{2} + {i}"));
    assert_eq!("{4 + 2i}", answer("{2} + {i} + {2 + i}"));
    assert_eq!("{2 + 2i}", answer("{3 + i} - {1 - i}"));
    assert_eq!("{0}", answer("{2} + {i} + {-2} + {-i} + {3 - 3i} + {-3 + 3i}"));
    assert_eq!("{-1}", answer("{i} * {i}"));
    assert_eq!("{4 + 2i}", answer("{1 + i} * {3 - i}"));
    assert_eq!("{1 + i}", answer("{4 + 2i} / {3 - i}"));
}

#[test]
fn end_to_end_evaluation() {
    assert_eq!("{2 + i}", answer("{2} + {i}"));
    assert_eq!("{-1}", answer("{i} * {i}"));
    assert_eq!("{1 + i}", answer("{4 + 2i} / {3 - i}"));
    assert_eq!("{2 + 2i}", answer("{3 + i} - {1 - i}"));
}

#[test]
fn evaluation_follows_the_reordering() {
    assert_eq!("{7}", answer("{1} + {2} * {3}"));
    assert_eq!("{3}", answer("{1} + {2} * {3} - {4}"));
    assert_eq!("{5}", answer("{1} * {2} + {3}"));
    assert_eq!("{-3}", answer("({1} - {2}) * {3}"));
    assert_eq!("{1, 2}".len(), 6);
    assert_eq!("{4 + i}", answer("{1, 2} + {3} * {1, -1} / {1, -1} - {0, 1}"));
}

#[test]
fn process_asks_for_the_first_operator() {
    let mut tokens = vec![
        Token::ComplexNumber(c(1.0, 0.0)),
        Token::ComplexNumber(c(2.0, 0.0)),
        Token::ComplexNumber(c(3.0, 0.0)),
        Token::Multiply,
        Token::Plus,
    ];
    match process(&mut tokens, None).unwrap() {
        Step::Apply { operator, left, right } => {
            assert_eq!(Operator::Multiply, operator);
            assert_eq!(c(2.0, 0.0), left);
            assert_eq!(c(3.0, 0.0), right);
        }
        _ => panic!("no operation"),
    }
    assert_eq!(5, tokens.len());
    match process(&mut tokens, Some(c(6.0, 0.0))).unwrap() {
        Step::Apply { operator, left, right } => {
            assert_eq!(Operator::Plus, operator);
            assert_eq!(c(1.0, 0.0), left);
            assert_eq!(c(6.0, 0.0), right);
        }
        _ => panic!("no operation"),
    }
    assert_eq!(3, tokens.len());
    match process(&mut tokens, Some(c(7.0, 0.0))).unwrap() {
        Step::Finished(value) => assert_eq!(c(7.0, 0.0), value),
        _ => panic!("not finished"),
    }
    assert!(tokens.is_empty());
}

#[test]
fn process_rejects_malformed_sequences() {
    let mut tokens: Vec<Token<Complex>> = vec![Token::Plus];
    assert_eq!(EvalError::SingleTokenNotNumber, process(&mut tokens, None).unwrap_err());
    assert!(tokens.is_empty());
    assert_eq!(EvalError::ResultNotNumber, process(&mut tokens, None).unwrap_err());

    let mut tokens = vec![Token::ComplexNumber(c(1.0, 0.0)), Token::Plus];
    assert_eq!(EvalError::MissingOperands, process(&mut tokens, None).unwrap_err());
    assert_eq!(2, tokens.len());

    let mut tokens = vec![Token::LeftParen, Token::ComplexNumber(c(1.0, 0.0)), Token::Plus];
    assert_eq!(EvalError::OperandNotNumber, process(&mut tokens, None).unwrap_err());
    let mut tokens = vec![Token::ComplexNumber(c(1.0, 0.0)), Token::Comma, Token::Minus];
    assert_eq!(EvalError::OperandNotNumber, process(&mut tokens, None).unwrap_err());

    let mut tokens = vec![Token::ComplexNumber(c(1.0, 0.0)), Token::LeftParen];
    assert_eq!(EvalError::ResultNotNumber, process(&mut tokens, None).unwrap_err());
    assert_eq!(1, tokens.len());

    let mut tokens = vec![Token::ComplexNumber(c(1.0, 0.0)), Token::ComplexNumber(c(2.0, 0.0))];
    assert_eq!(EvalError::NothingPending, process(&mut tokens, Some(c(1.0, 0.0))).unwrap_err());
    match process(&mut tokens, None).unwrap() {
        Step::Finished(value) => assert_eq!(c(2.0, 0.0), value),
        _ => panic!("not finished"),
    }
    assert_eq!(1, tokens.len());
}

#[test]
fn process_rejects_results_that_are_not_finite() {
    assert_eq!(EvalError::NotFinite(Operator::Plus), run("{1, 1.7e308} + {1, 1.7e308}").unwrap_err());
    assert_eq!(EvalError::NotFinite(Operator::Divide), run("{1.1, 1} / {0, 0}").unwrap_err());
    assert_eq!(EvalError::NotFinite(Operator::Multiply), run("{1e200} * {1e200}").unwrap_err());
    assert_eq!(EvalError::NotFinite(Operator::Minus), run("{inf, 0} - {1}").unwrap_err());
    assert_eq!(EvalError::NotFinite(Operator::Plus), run("{1} + {0, nan}").unwrap_err());
    let mut tokens =
        vec![Token::ComplexNumber(c(1.0, 0.0)), Token::ComplexNumber(c(2.0, 0.0)), Token::Plus];
    let e = process(&mut tokens, Some(c(f64::INFINITY, 0.0))).unwrap_err();
    assert_eq!(EvalError::NotFinite(Operator::Plus), e);
    assert_eq!(3, tokens.len());
}

#[test]
fn process_hands_a_real_exponent_to_a_power() {
    let mut tokens =
        vec![Token::ComplexNumber(c(0.0, 2.0)), Token::ComplexNumber(c(2.0, 5.0)), Token::Power];
    match process(&mut tokens, None).unwrap() {
        Step::Apply { operator, left, right } => {
            assert_eq!(Operator::Power, operator);
            assert_eq!(c(0.0, 2.0), left);
            assert_eq!(2.0f64.to_bits(), right.re.to_bits());
            assert_eq!(0.0f64.to_bits(), right.im.to_bits());
        }
        _ => panic!("no operation"),
    }
}

#[test]
fn power_takes_the_real_part_of_the_exponent() {
    let mut tokens =
        vec![Token::ComplexNumber(c(0.0, 2.0)), Token::ComplexNumber(c(2.0, 5.0)), Token::Power];
    let result = evaluate(&mut tokens).unwrap();
    assert!((float(result.re) + 4.0).abs() < 1e-12);
    assert!(float(result.im).abs() < 1e-12);
}

#[test]
fn power_accepts_what_the_other_operations_refuse() {
    let one = c(1.0, 0.0);
    assert_eq!(Some(one), checked_result(Operator::Power, c(f64::INFINITY, 0.0), c(0.0, 0.0), one));
    assert_eq!(None, checked_result(Operator::Multiply, c(f64::INFINITY, 0.0), c(0.0, 0.0), one));
    assert_eq!(None, checked_result(Operator::Divide, one, c(0.0, -0.0), one));
    assert_eq!(None, checked_result(Operator::Power, one, one, c(f64::NAN, 0.0)));
}

#[test]
fn only_finite_numbers_enter_a_sequence() {
    let mut tokens = vec![
        Token::ComplexNumber(c(f64::INFINITY, 0.0)),
        Token::ComplexNumber(c(1.0, 0.0)),
        Token::ComplexNumber(c(2.0, 0.0)),
        Token::Plus,
        Token::Comma,
    ];
    assert!(process(&mut tokens, None).is_ok());
    assert!(process(&mut tokens, Some(c(3.0, f64::NAN))).is_err());
    assert_eq!(5, tokens.len());
    assert!(process(&mut tokens, Some(c(3.0, 0.0))).is_err());
    assert_eq!(2, tokens.len());
    assert_eq!(Ok(c(f64::INFINITY, 0.0)), extract_complex(&tokens[0]));
    assert_eq!(Ok(c(3.0, 0.0)), extract_complex(&tokens[1]));
}

#[test]
fn messages() {
    assert_eq!(
        "Single remaining token must be a complex number",
        EvalError::SingleTokenNotNumber.message()
    );
    assert_eq!("Evaluation did not end in a complex number", EvalError::ResultNotNumber.message());
    assert_eq!("Need two operands for + - * / or ^", EvalError::MissingOperands.message());
    assert_eq!("Token does not contain a complex number", EvalError::OperandNotNumber.message());
    assert_eq!("Sum is not a finite number", EvalError::NotFinite(Operator::Plus).message());
    assert_eq!("Difference is not a finite number", EvalError::NotFinite(Operator::Minus).message());
    assert_eq!("Product is not a finite number", EvalError::NotFinite(Operator::Multiply).message());
    assert_eq!("Quotient is not a finite number", EvalError::NotFinite(Operator::Divide).message());
    assert_eq!("Power is not a finite number", EvalError::NotFinite(Operator::Power).message());
    assert_eq!("No operation is waiting for a result", EvalError::NothingPending.message());
}

#[test]
fn retyped_hands_out_the_number() {
    let l = Literal { re: "1".to_string(), im: "2".to_string() };
    match Token::ComplexNumber(l).retyped::<Complex>() {
        Err(l) => assert_eq!(("1", "2"), (l.re.as_str(), l.im.as_str())),
        Ok(_) => panic!("a number"),
    }
    let all: Vec<Token<Literal>> = vec![
        Token::Plus,
        Token::Minus,
        Token::Divide,
        Token::Multiply,
        Token::Power,
        Token::LeftParen,
        Token::RightParen,
        Token::Conjugate,
        Token::Transpose,
        Token::OpenVector,
        Token::CloseVector,
        Token::Comma,
        Token::Dot,
        Token::Function("f".to_string(), "x".to_string()),
    ];
    for token in all {
        let before = format!("{:?}", token);
        let after = format!("{:?}", token.retyped::<Complex>().ok().unwrap());
        assert_eq!(before, after);
    }
}

#[test]
fn extract_complex_wants_a_number() {
    assert_eq!(Ok(c(1.0, 2.0)), extract_complex(&Token::ComplexNumber(c(1.0, 2.0))));
    assert_eq!(Err(EvalError::OperandNotNumber), extract_complex(&Token::Plus));
}

#[test]
fn add() {
    same(Some(c(3.0, 0.0)), apply(Operator::Plus, c(1.0, 1.0), c(2.0, -1.0)));
    same(None, apply(Operator::Plus, c(1.0, 1.0), c(2.0, f64::INFINITY)));
    same(None, apply(Operator::Plus, c(f64::NAN, 1.0), c(2.0, -1.0)));
    same(None, apply(Operator::Plus, c(1.0, 1.7e308), c(1.0, 1.7e308)));
}

#[test]
fn sub() {
    same(Some(c(-1.0, 2.0)), apply(Operator::Minus, c(1.0, 1.0), c(2.0, -1.0)));
    same(None, apply(Operator::Minus, c(1.0, 1.0), c(2.0, f64::INFINITY)));
    same(None, apply(Operator::Minus, c(f64::NAN, 1.0), c(2.0, -1.0)));
}

#[test]
fn mul() {
    same(Some(c(3.0, 1.0)), apply(Operator::Multiply, c(1.0, 1.0), c(2.0, -1.0)));
    same(None, apply(Operator::Multiply, c(1.1, 1.0), c(f64::MAX, -1.0)));
    same(None, apply(Operator::Multiply, c(1.0, 1.0), c(2.0, f64::INFINITY)));
    same(None, apply(Operator::Multiply, c(f64::NAN, 1.0), c(2.0, -1.0)));
}

#[test]
fn div() {
    same(Some(c(1.0, 1.0)), apply(Operator::Divide, c(3.0, 1.0), c(2.0, -1.0)));
    same(None, apply(Operator::Divide, c(1.1, 1.0), c(f64::MAX, -1.0)));
    same(None, apply(Operator::Divide, c(1.1, 1.0), c(0.0, 0.0)));
    same(None, apply(Operator::Divide, c(1.1, 1.0), c(-0.0, 0.0)));
    same(None, apply(Operator::Divide, c(1.0, 1.0), c(2.0, f64::INFINITY)));
    same(None, apply(Operator::Divide, c(f64::NAN, 1.0), c(2.0, -1.0)));
}

#[test]
fn the_guard_agrees_with_the_hardware() {
    let samples = [
        0.0, -0.0, 1.0, -1.0, 0.5, 3.0, 1e-300, -1e-300, 1e300, -1e300, f64::MAX, f64::MIN,
        f64::MIN_POSITIVE, 5e-324, f64::INFINITY, f64::NEG_INFINITY, f64::NAN,
    ];
    for operator in [Operator::Plus, Operator::Minus, Operator::Multiply, Operator::Divide] {
        for a in samples {
            for b in samples {
                for x in samples {
                    for y in samples {
                        let (left, right) = (c(a, b), c(x, y));
                        let raw = compute(operator, left, right);
                        let plain = finite_complex_or_none(raw.re, raw.im);
                        let guarded = checked_result(operator, left, right, raw);
                        assert_eq!(plain.is_some(), guarded.is_some());
                    }
                }
            }
        }
    }
}

#[test]
fn finite_complex_or_none_wants_both_parts_finite() {
    assert_eq!(Some(c(1.0, -2.0)), finite_complex_or_none(bits(1.0), bits(-2.0)));
    assert_eq!(None, finite_complex_or_none(bits(f64::INFINITY), bits(0.0)));
    assert_eq!(None, finite_complex_or_none(bits(0.0), bits(f64::NEG_INFINITY)));
    assert_eq!(None, finite_complex_or_none(bits(f64::NAN), bits(0.0)));
    assert!(finite_complex_or_none(bits(f64::MAX), bits(f64::MIN)).is_some());
}

#[test]
fn string() {
    assert_eq!("{1 + i}", show(c(1.0, 1.0)));
    assert_eq!("{1 + 1.5i}", show(c(1.0, 1.5)));
    assert_eq!("{1 - i}", show(c(1.0, -1.0)));
    assert_eq!("{1 - 7.999i}", show(c(1.0, -7.999)));
    assert_eq!("{-1.25}", show(c(-1.25, 0.0)));
    assert_eq!("{i}", show(c(0.0, 1.0)));
    assert_eq!("{-i}", show(c(0.0, -1.0)));
    assert_eq!("{-2.5i}", show(c(0.0, -2.5)));
    assert_eq!("{0}", show(c(0.0, 0.0)));
}

#[test]
fn string_formatted() {
    let value = c(0.00005, 50000.0);
    let re = rendering(0.00005, 6);
    let im = rendering(50000.0, 6);
    assert_eq!("{0.00005 + 50000i}", value.to_std_string(&re, &im, 6, 6));
}

#[test]
fn token_text() {
    let one = rendering(1.0, 6);
    let token = Token::ComplexNumber(c(1.0, -1.0));
    assert_eq!("{1 - i}", token.to_string(&one, &one));
    let token: Token<Complex> = Token::Function("pow".to_string(), "{1}, {10}".to_string());
    assert_eq!("pow({1}, {10})", token.to_string(&one, &one));
    assert_eq!("*", Token::<Complex>::Multiply.to_string(&one, &one));
    assert_eq!("#", Token::<Complex>::LeftParen.to_string(&one, &one));
}

fn digits(x: f64, magnitude: usize, precision: usize) -> String {
    complex::format::format_f64(bits(x), &rendering(x, precision), magnitude, precision)
}

#[test]
fn numbers_read_back_wherever_their_digits_do() {
    let samples = [0.0, 1.0, 10.0, 100.0, -1200.0, 1e10, 1e22, -3e15, 120.0, 7.0, 0.5, -0.125];
    let mut read_back = 0;
    for re in samples {
        for im in samples {
            for precision in [0, 1, 2, 6] {
                for magnitude in [1, 6, 12, 30] {
                    let number = c(re, im);
                    let shown_im = float(number.shown_imaginary());
                    let exact = digits(re, magnitude, precision).parse::<f64>() == Ok(re)
                        && digits(shown_im, magnitude, precision).parse::<f64>() == Ok(shown_im);
                    if !exact {
                        continue;
                    }
                    let shown = number.to_std_string(
                        &rendering(re, precision),
                        &rendering(shown_im, precision),
                        magnitude,
                        precision,
                    );
                    let read = value(&complex::parse_complex::from_str(&shown).unwrap());
                    assert_eq!(number, read, "{shown}");
                    read_back += 1;
                }
            }
        }
    }
    assert!(read_back > 1000);
    assert_eq!("{100}", show_within(c(100.0, 0.0), 6, 0));
    assert_eq!("{100 + 10i}", show_within(c(100.0, 10.0), 6, 0));
}

#[test]
fn pairs_read_back_wherever_their_digits_do() {
    let samples = [0.0, -0.0, 1.0, 100.0, -1200.0, 1e22, 0.5, -0.125, 1.5e-7, -2.5e300, 0.1];
    let mut read_back = 0;
    for re in samples {
        for im in samples {
            for precision in [0, 1, 3, 17] {
                for magnitude in [1, 6, 12, 400] {
                    let a = digits(re, magnitude, precision);
                    let b = digits(im, magnitude, precision);
                    if a.parse::<f64>() != Ok(re) || b.parse::<f64>() != Ok(im) {
                        continue;
                    }
                    let pair = format!("{{{}, {}}}", a, b);
                    let l = complex::parse_complex::from_str(&pair).unwrap();
                    assert_eq!((a.as_str(), b.as_str()), (l.re.as_str(), l.im.as_str()));
                    assert_eq!(c(re, im), value(&l), "{pair}");
                    read_back += 1;
                }
            }
        }
    }
    assert!(read_back > 500);
}

fn show_within(value: Complex, magnitude: usize, precision: usize) -> String {
    let re = rendering(float(value.re), precision);
    let im = rendering(float(value.shown_imaginary()), precision);
    value.to_std_string(&re, &im, magnitude, precision)
}

#[test]
fn formatting_then_reading_gives_the_number_back() {
    let samples = [
        0.0, 1.0, -1.0, 2.0, 0.5, -0.25, 1.5e-7, -3.25e10, 123456.789, 1e-300, -7e200, 0.1,
        1.0 / 3.0, f64::MAX, f64::MIN_POSITIVE, 5e-324,
    ];
    for re in samples {
        for im in samples {
            let number = c(re, im);
            let shown = number.to_std_string(
                &rendering(re, 17),
                &rendering(float(number.shown_imaginary()), 17),
                400,
                17,
            );
            let read = value(&complex::parse_complex::from_str(&shown).unwrap());
            assert_eq!(number, read, "{shown}");
        }
    }
}

fn reduce_from_the_left(tokens: &mut Vec<Token<Complex>>) -> Result<Complex, EvalError> {
    if tokens.len() == 1 {
        return match tokens.pop() {
            Some(Token::ComplexNumber(value)) => Ok(value),
            _ => Err(EvalError::SingleTokenNotNumber),
        };
    }
    let mut i = 0;
    while i < tokens.len() {
        match tokens[i].operator() {
            Some(operator) => {
                if i < 2 {
                    return Err(EvalError::MissingOperands);
                }
                let left = extract_complex(&tokens[i - 2])?;
                let right = extract_complex(&tokens[i - 1])?;
                let result = match operator {
                    Operator::Power => {
                        let raised = compute(operator, left, c(float(right.re), 0.0));
                        finite_complex_or_none(raised.re, raised.im)
                    }
                    _ => {
                        let raw = compute(operator, left, right);
                        finite_complex_or_none(raw.re, raw.im)
                    }
                };
                match result {
                    Some(value) => {
                        tokens.splice(i - 2..=i, [Token::ComplexNumber(value)]);
                    }
                    None => return Err(EvalError::NotFinite(operator)),
                }
                i = 0;
            }
            None => i += 1,
        }
    }
    match tokens.pop() {
        Some(Token::ComplexNumber(value)) => Ok(value),
        _ => Err(EvalError::ResultNotNumber),
    }
}

fn sample(code: usize) -> Token<Complex> {
    match code {
        0 => Token::ComplexNumber(c(3.0, -1.0)),
        1 => Token::ComplexNumber(c(0.0, 0.0)),
        2 => Token::ComplexNumber(c(1e200, 2.0)),
        3 => Token::Plus,
        4 => Token::Multiply,
        5 => Token::Divide,
        6 => Token::Minus,
        7 => Token::Power,
        _ => Token::LeftParen,
    }
}

#[test]
fn evaluation_agrees_with_reducing_in_one_loop() {
    let kinds = 9;
    for length in 0..=5 {
        let mut codes = vec![0usize; length];
        loop {
            let mut stepwise: Vec<Token<Complex>> = codes.iter().map(|k| sample(*k)).collect();
            let mut at_once = stepwise.clone();
            let expected = reduce_from_the_left(&mut at_once);
            let result = evaluate(&mut stepwise);
            match (expected, result) {
                (Ok(a), Ok(b)) => assert_eq!(
                    (a.re.to_bits(), a.im.to_bits()),
                    (b.re.to_bits(), b.im.to_bits()),
                    "{codes:?}"
                ),
                (Err(a), Err(b)) => assert_eq!(a, b, "{codes:?}"),
                (a, b) => panic!("{codes:?}: {a:?} {b:?}"),
            }
            let mut place = 0;
            while place < length && codes[place] == kinds - 1 {
                codes[place] = 0;
                place += 1;
            }
            if place == length {
                break;
            }
            codes[place] += 1;
        }
    }
}
