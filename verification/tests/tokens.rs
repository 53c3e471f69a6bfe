use complex::parse_complex::Literal;
use complex::shunting_yard::shunting_yard;
use complex::token::Token;
use complex::tokenize::tokenize;

fn spell(token: &Token<Literal>) -> String {
    match token {
        Token::ComplexNumber(l) => format!("<{},{}>", l.re, l.im),
        Token::Function(name, arguments) => format!("{}({})", name, arguments),
        Token::LeftParen => "(".to_string(),
        Token::RightParen => ")".to_string(),
        Token::Comma => ",".to_string(),
        Token::Power => "^".to_string(),
        Token::Conjugate => "~".to_string(),
        Token::Transpose => "`".to_string(),
        Token::OpenVector => "[".to_string(),
        Token::CloseVector => "]".to_string(),
        _ => token.to_symbol(),
    }
}

fn spell_all(tokens: &[Token<Literal>]) -> String {
    tokens.iter().map(spell).collect::<Vec<_>>().join(" ")
}

fn postfix(input: &str) -> String {
    spell_all(&shunting_yard(tokenize(input).unwrap()))
}

fn number(re: &str) -> Token<Literal> {
    Token::ComplexNumber(Literal { re: re.to_string(), im: "0".to_string() })
}

#[test]
fn tokenize_test() {
    let result = tokenize("{1} + inv(pow(fn({2}, {3}, {4})))");
    println!("result = {:?}", result.clone().unwrap());
    assert_eq!("<1,0> + inv(pow(fn({2}, {3}, {4})))", spell_all(&result.unwrap()));
}

#[test]
fn tokenize_punctuation() {
    let tokens = tokenize(" + - * / ( ) ~ ` [ ] , ").unwrap();
    assert_eq!("+ - * / ( ) ~ ` [ ] ,", spell_all(&tokens));
    assert_eq!(11, tokens.len());
}

#[test]
fn tokenize_literals_and_operators() {
    let tokens = tokenize("{1, 2} + {3} * {4, -1}").unwrap();
    assert_eq!("<1,2> + <3,0> * <4,-1>", spell_all(&tokens));
}

#[test]
fn tokenize_stops_at_a_bad_literal() {
    let e = tokenize("{1} + {1, 2, 3} * {4}").unwrap_err();
    assert_eq!(15, e.position);
    assert_eq!("{1, 2, 3}", e.text);
    let e = tokenize("@{2, 1}").unwrap_err();
    assert_eq!(7, e.position);
    assert_eq!("@{2, 1}", e.text);
}

#[test]
fn tokenize_error_message() {
    let e = tokenize("{1} + {1, 2, 3} * {4}").unwrap_err();
    assert_eq!("Error at char 15: Cannot parse '{1, 2, 3}' to a complex number", e.message());
    let e = tokenize("{x}").unwrap_err();
    assert_eq!("Error at char 3: Cannot parse '{x}' to a complex number", e.message());
    let long = format!("{}{{}}", " ".repeat(1234567));
    assert_eq!(
        "Error at char 1234569: Cannot parse '{}' to a complex number",
        tokenize(&long).unwrap_err().message()
    );
}

#[test]
fn tokenize_reads_what_is_left_as_a_literal() {
    assert_eq!("<2,+3>", spell_all(&tokenize("2 + 3i").unwrap()));
    assert_eq!("<1,0> + <0,1>", spell_all(&tokenize("{1} + i").unwrap()));
    assert_eq!("<1,0>", spell_all(&tokenize("f(1").unwrap()));
}

#[test]
fn tokenize_rejects_what_is_left_and_is_no_literal() {
    let e = tokenize("{2} + {i}}").unwrap_err();
    assert_eq!((10, "}"), (e.position, e.text.as_str()));
    let e = tokenize("abc").unwrap_err();
    assert_eq!((3, "abc"), (e.position, e.text.as_str()));
    let e = tokenize("{1} + {2").unwrap_err();
    assert_eq!((8, "{2"), (e.position, e.text.as_str()));
    let e = tokenize("{1} + f(x, (y)").unwrap_err();
    assert_eq!((14, "x, (y)"), (e.position, e.text.as_str()));
    assert_eq!("Error at char 14: Cannot parse 'x, (y)' to a complex number", e.message());
}

#[test]
fn tokenize_counts_parentheses_in_arguments() {
    let tokens = tokenize("f((a)(b)) g()").unwrap();
    assert_eq!("f((a)(b)) g()", spell_all(&tokens));
    match &tokens[0] {
        Token::Function(name, arguments) => {
            assert_eq!("f", name);
            assert_eq!("(a)(b)", arguments);
        }
        _ => panic!("not a function"),
    }
}

#[test]
fn tokenize_function_name_keeps_everything_up_to_the_parenthesis() {
    let tokens = tokenize("a b+c(x)").unwrap();
    assert_eq!(1, tokens.len());
    assert_eq!("a b+c(x)", spell_all(&tokens));
}

#[test]
fn precedence_table() {
    assert_eq!(1, Token::<Literal>::Minus.precedence());
    assert_eq!(2, Token::<Literal>::Plus.precedence());
    assert_eq!(2, Token::<Literal>::Multiply.precedence());
    assert_eq!(2, Token::<Literal>::Divide.precedence());
    assert_eq!(0, Token::<Literal>::Power.precedence());
    assert_eq!(0, Token::<Literal>::LeftParen.precedence());
    assert_eq!(0, number("1").precedence());
    assert!(Token::<Literal>::Power.is_left_associative());
    assert!(!Token::<Literal>::Plus.is_left_associative());
}

#[test]
fn symbols() {
    assert_eq!("+", Token::<Literal>::Plus.to_symbol());
    assert_eq!("-", Token::<Literal>::Minus.to_symbol());
    assert_eq!("*", Token::<Literal>::Multiply.to_symbol());
    assert_eq!("/", Token::<Literal>::Divide.to_symbol());
    assert_eq!(".", Token::<Literal>::Dot.to_symbol());
    assert_eq!("#", Token::<Literal>::Power.to_symbol());
    assert_eq!("#", number("1").to_symbol());
    assert_eq!("powx, y", Token::<Literal>::Function("pow".into(), "x, y".into()).to_symbol());
}

#[test]
fn shunting_simple_plus() {
    assert_eq!("<1,0> <2,0> +", postfix("{1} + {2}"));
}

#[test]
fn shunting_plus_then_times() {
    assert_eq!("<1,0> <2,0> <3,0> * +", postfix("{1} + {2} * {3}"));
}

#[test]
fn shunting_plus_then_times_then_minus() {
    assert_eq!("<1,0> <2,0> <3,0> * + <4,0> -", postfix("{1} + {2} * {3} - {4}"));
}

#[test]
fn shunting_equal_precedence_waits() {
    assert_eq!("<1,0> <2,0> <3,0> + *", postfix("{1} * {2} + {3}"));
    assert_eq!("<1,0> <2,0> <3,0> - -", postfix("{1} - {2} - {3}"));
}

#[test]
fn shunting_functions() {
    assert_eq!("z({1})", postfix("z({1})"));
    assert_eq!("pow({1}, {10})", postfix("pow({1}, {10})"));
    assert_eq!("sum({1}, {2}, {3}, {4})", postfix("sum({1}, {2}, {3}, {4})"));
    assert_eq!("<1,0> f(x) +", postfix("{1} + f(x)"));
}

#[test]
fn shunting_parentheses() {
    assert_eq!("<1,0> <2,0> - <3,0> *", postfix("({1} - {2}) * {3}"));
    assert_eq!("<1,0> <2,0> <3,0> - *", postfix("{1} * ({2} - {3})"));
}

#[test]
fn shunting_absorbs_unbalanced_parentheses() {
    assert_eq!("<1,0> <2,0> +", postfix("{1} + {2})"));
    assert_eq!("<1,0> <2,0> + (", postfix("({1} + {2}"));
    assert_eq!("", postfix(")"));
}

#[test]
fn shunting_comma_unwinds_to_the_parenthesis() {
    assert_eq!("<1,0> <2,0> + <3,0>", postfix("({1} + {2}, {3})"));
    assert_eq!("<1,0> <2,0> + <3,0>", postfix("{1} + {2}, {3}"));
}

#[test]
fn shunting_flushes_a_function_under_a_parenthesis() {
    let input = vec![
        Token::Function("f".to_string(), "x".to_string()),
        Token::LeftParen,
        number("1"),
        Token::Plus,
        number("2"),
        Token::RightParen,
        Token::Minus,
        number("3"),
    ];
    assert_eq!("<1,0> <2,0> + f(x) <3,0> -", spell_all(&shunting_yard(input)));
}

#[test]
fn shunting_power_yields_on_ties() {
    let input = vec![number("1"), Token::Power, number("2"), Token::Power, number("3")];
    assert_eq!("<1,0> <2,0> ^ <3,0> ^", spell_all(&shunting_yard(input)));
    let input = vec![number("1"), Token::Plus, number("2"), Token::Power, number("3")];
    assert_eq!("<1,0> <2,0> + <3,0> ^", spell_all(&shunting_yard(input)));
}

#[test]
fn shunting_uses_up_commas_and_right_parentheses() {
    for input in ["({1}, {2}) , ) + ({3}))", "f(x) , ( , ) )", "{1} + ({2} * ({3}, {4}))"] {
        let shunted = shunting_yard(tokenize(input).unwrap());
        assert!(shunted.iter().all(|t| !matches!(t, Token::RightParen | Token::Comma)), "{input}");
    }
}

#[test]
fn shunting_keeps_the_numbers_in_order() {
    let shunted = shunting_yard(tokenize("{1} - ({2} * {3} + {4}) / {5}").unwrap());
    let numbers: Vec<String> = shunted
        .iter()
        .filter(|t| matches!(t, Token::ComplexNumber(_)))
        .map(spell)
        .collect();
    assert_eq!(vec!["<1,0>", "<2,0>", "<3,0>", "<4,0>", "<5,0>"], numbers);
}
