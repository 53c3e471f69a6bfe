use complex::format::{trim_exponential, trim_fixed};
use complex::parse_complex::{from_str, Literal};
use complex::shunting_yard::shunting_yard;
use complex::token::Token;
use complex::tokenize::tokenize;

/// Every text of up to `length` characters over `alphabet`.
fn texts(alphabet: &[char], length: usize) -> Vec<String> {
    let mut all = vec![String::new()];
    let mut last = vec![String::new()];
    for _ in 0..length {
        let mut next = Vec::with_capacity(last.len() * alphabet.len());
        for text in &last {
            for c in alphabet {
                let mut longer = text.clone();
                longer.push(*c);
                next.push(longer);
            }
        }
        all.extend(next.iter().cloned());
        last = next;
    }
    all
}

fn real_by_replacing(term: &str) -> Option<String> {
    let text = term.replace("eM", "e-").replace("eP", "e+");
    text.parse::<f64>().ok().map(|_| text)
}

fn imaginary_by_replacing(term: &str) -> Option<String> {
    match term {
        "i" | "+i" => Some("1".to_string()),
        "-i" => Some("-1".to_string()),
        _ => real_by_replacing(term.strip_suffix('i')?),
    }
}

fn bracket_by_splitting(s: &str) -> Option<(String, String)> {
    let parts: Vec<&str> =
        s.trim().strip_prefix('{')?.strip_suffix('}')?.split(',').map(|p| p.trim()).collect();
    if parts.len() != 2 {
        return None;
    }
    parts[0].parse::<f64>().ok()?;
    parts[1].parse::<f64>().ok()?;
    Some((parts[0].to_string(), parts[1].to_string()))
}

fn standard_by_replacing(s: &str, every_alphabet: bool) -> Option<(String, String)> {
    let body = s.trim().strip_prefix('{').and_then(|rest| rest.strip_suffix('}')).unwrap_or(s);
    let lower = if every_alphabet { body.to_lowercase() } else { body.to_ascii_lowercase() };
    let cleanish: String = lower
        .replace("e-", "eM")
        .replace("e+", "eP")
        .chars()
        .filter(|c| !c.is_whitespace())
        .flat_map(|c| if c == '+' || c == '-' { vec![' ', c] } else { vec![c] })
        .collect();
    let cleaned = cleanish.replace("+ -", "-");
    let parts: Vec<&str> = cleaned.split(' ').filter(|p| !p.is_empty()).collect();
    if parts.len() == 1 {
        if parts[0].contains('i') {
            Some(("0".to_string(), imaginary_by_replacing(parts[0])?))
        } else {
            Some((real_by_replacing(parts[0])?, "0".to_string()))
        }
    } else if parts.len() == 2 {
        Some((real_by_replacing(parts[0])?, imaginary_by_replacing(parts[1])?))
    } else {
        None
    }
}

fn literal_by_replacing(s: &str, every_alphabet: bool) -> Option<(String, String)> {
    bracket_by_splitting(s).or_else(|| standard_by_replacing(s, every_alphabet))
}

fn literals_agree(alphabet: &[char], length: usize) {
    for text in texts(alphabet, length) {
        let read = from_str(&text).ok().map(|l| (l.re, l.im));
        assert_eq!(literal_by_replacing(&text, false), read, "{text:?}");
        assert_eq!(literal_by_replacing(&text, true), read, "{text:?}");
    }
}

#[test]
fn literals_agree_on_signs_and_exponents() {
    literals_agree(&['1', 'e', '+', '-', 'i', '.', ' '], 6);
}

#[test]
fn literals_agree_on_braces_and_commas() {
    literals_agree(&['{', '}', ',', '1', '-', 'i', ' ', 'e'], 6);
}

#[test]
fn literals_agree_on_letters() {
    literals_agree(&['i', 'n', 'f', 'a', 'I', 'N', 'E', 'M', 'P', 'e', '-', '2', 't', 'y'], 4);
    literals_agree(&['\u{a0}', '\t', '\u{2003}', '\u{130}', 'ü', '1', 'i', '+', '{', '}'], 4);
    literals_agree(&['\u{130}', '\u{212a}', 'Σ', 'Ä', 'I', 'i', 'E', 'e', '-', '1'], 4);
}

fn spell(token: &Token<Literal>) -> String {
    match token {
        Token::ComplexNumber(l) => format!("<{},{}>", l.re, l.im),
        Token::Function(name, arguments) => format!("{}({})", name, arguments),
        other => format!("{:?}", other),
    }
}

fn spell_all(tokens: &[Token<Literal>]) -> String {
    tokens.iter().map(spell).collect::<Vec<_>>().join(" ")
}

fn scan_with_flags(input: &str) -> Result<Vec<Token<Literal>>, (usize, String)> {
    let mut tokens = Vec::new();
    let mut buffer = String::new();
    let mut pos = 0;
    let mut capturing_complex = false;
    let mut capturing_function = false;
    let mut function = String::new();
    let mut capturing_function_args = false;
    let mut function_bracket_nesting: usize = 0;

    for c in input.chars() {
        pos += 1;

        if capturing_complex {
            buffer.push(c);
            if c == '}' {
                match from_str(buffer.as_str()) {
                    Ok(complex) => {
                        tokens.push(Token::ComplexNumber(complex));
                        buffer.clear();
                    }
                    Err(_) => return Err((pos, buffer)),
                }
                capturing_complex = false;
            }
        } else if capturing_function {
            if c == '(' {
                function = buffer.clone();
                buffer.clear();
                capturing_function = false;
                capturing_function_args = true;
                function_bracket_nesting = 1;
            } else {
                buffer.push(c);
            }
        } else if capturing_function_args {
            if c == ')' {
                function_bracket_nesting -= 1;
            } else if c == '(' {
                function_bracket_nesting += 1;
            }

            if function_bracket_nesting > 0 {
                buffer.push(c);
            } else {
                tokens.push(Token::Function(function.clone(), buffer.clone()));
                capturing_function_args = false;
                buffer.clear();
            }
        } else {
            match c {
                '{' | '@' => {
                    capturing_complex = true;
                    buffer.clear();
                    buffer.push(c);
                }
                '+' => tokens.push(Token::Plus),
                '-' => tokens.push(Token::Minus),
                '*' => tokens.push(Token::Multiply),
                '/' => tokens.push(Token::Divide),
                ')' => tokens.push(Token::RightParen),
                '(' => tokens.push(Token::LeftParen),
                '~' => tokens.push(Token::Conjugate),
                '`' => tokens.push(Token::Transpose),
                '[' => tokens.push(Token::OpenVector),
                ']' => tokens.push(Token::CloseVector),
                ',' => tokens.push(Token::Comma),
                _ => {
                    if !c.is_whitespace() {
                        capturing_function = true;
                        buffer.clear();
                        buffer.push(c);
                    }
                }
            }
        }
    }

    if !buffer.is_empty() {
        match from_str(buffer.as_str()) {
            Ok(c) => tokens.push(Token::ComplexNumber(c)),
            Err(_) => return Err((pos, buffer)),
        }
    }

    Ok(tokens)
}

fn scans_agree(alphabet: &[char], length: usize) {
    for text in texts(alphabet, length) {
        let expected = scan_with_flags(&text).map(|t| spell_all(&t));
        let scanned = tokenize(&text).map(|t| spell_all(&t)).map_err(|e| (e.position, e.text));
        assert_eq!(expected, scanned, "{text:?}");
    }
}

#[test]
fn scans_agree_on_literals_and_calls() {
    scans_agree(&['{', '}', '1', 'i', '+', '(', ')', 'f', ' '], 6);
}

#[test]
fn scans_agree_on_punctuation() {
    scans_agree(&['+', '-', '*', '/', '(', ')', '~', '`', '[', ']', ',', '@', '{', '}', '2', '\t'], 4);
}

fn strength(token: &Token<Literal>) -> u8 {
    match token {
        Token::Minus => 1,
        Token::Plus | Token::Multiply | Token::Divide => 2,
        _ => 0,
    }
}

fn reorder_with_loops(input: Vec<Token<Literal>>) -> Vec<Token<Literal>> {
    let mut operators: Vec<Token<Literal>> = Vec::new();
    let mut output: Vec<Token<Literal>> = Vec::new();

    for o1 in input {
        match o1 {
            Token::ComplexNumber(_) => output.push(o1),
            Token::Function(_, _) => operators.push(o1),
            Token::LeftParen => operators.push(o1),
            Token::Comma => loop {
                match operators.last() {
                    Some(Token::LeftParen) | None => break,
                    Some(_) => output.push(operators.pop().unwrap()),
                }
            },
            Token::RightParen => loop {
                match operators.last() {
                    Some(Token::LeftParen) => {
                        operators.pop();
                        if let Some(Token::Function(_, _)) = operators.last() {
                            output.push(operators.pop().unwrap());
                        }
                        break;
                    }
                    Some(_) => output.push(operators.pop().unwrap()),
                    None => break,
                }
            },
            _ => {
                loop {
                    match operators.last() {
                        Some(o2) => {
                            if !matches!(o2, Token::LeftParen)
                                && (strength(o2) > strength(&o1)
                                    || (matches!(o1, Token::Power)
                                        && strength(o2) == strength(&o1)))
                            {
                                output.push(operators.pop().unwrap());
                            } else {
                                break;
                            }
                        }
                        None => break,
                    }
                }
                operators.push(o1);
            }
        }
    }

    while let Some(o) = operators.pop() {
        output.push(o);
    }

    output
}

fn token_of(code: usize, place: usize) -> Token<Literal> {
    match code {
        0 => Token::ComplexNumber(Literal { re: place.to_string(), im: "0".to_string() }),
        1 => Token::Plus,
        2 => Token::Minus,
        3 => Token::Multiply,
        4 => Token::Power,
        5 => Token::LeftParen,
        6 => Token::RightParen,
        7 => Token::Comma,
        8 => Token::Function("f".to_string(), place.to_string()),
        _ => Token::Conjugate,
    }
}

#[test]
fn reorderings_agree() {
    let kinds = 10;
    for length in 0..=5 {
        let mut codes = vec![0usize; length];
        loop {
            let input: Vec<Token<Literal>> =
                codes.iter().enumerate().map(|(place, code)| token_of(*code, place)).collect();
            let expected = spell_all(&reorder_with_loops(input.clone()));
            assert_eq!(expected, spell_all(&shunting_yard(input)), "{codes:?}");
            let mut place = 0;
            while place < length && codes[place] == kinds - 1 {
                codes[place] = 0;
                place += 1;
            }
            if place == length {
                break;
            }
            codes[place] += 1;
        }
    }
}

#[test]
fn trimming_agrees() {
    let tidy = |digits: &str| {
        if digits.contains('.') {
            digits.trim_end_matches('0').trim_end_matches('.').to_string()
        } else {
            digits.to_string()
        }
    };
    for text in texts(&['0', '.', '1', 'e', ' ', '-'], 6) {
        let fixed = tidy(&text).trim().to_string();
        assert_eq!(fixed, trim_fixed(&text), "{text:?}");
        let parts: Vec<&str> = text.split('e').collect();
        let mantissa = tidy(parts[0]);
        let exponential = match parts.get(1) {
            Some(exponent) => format!("{}e{}", mantissa, exponent),
            None => mantissa.to_string(),
        };
        assert_eq!(exponential, trim_exponential(&text), "{text:?}");
    }
}
