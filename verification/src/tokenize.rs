//! Scanning of an expression into tokens.
//!
//! The scanner reads the text once, from left to right, and never looks
//! ahead. It is in one of four modes: between tokens, inside a literal,
//! inside the name of a function, or inside the arguments of a function
//! call.

use vstd::prelude::*;
use crate::parse_complex::{literal, literal_of, Literal, LiteralView, ParseError};
use crate::text::{char_is_whitespace, chars_of, decimal, is_whitespace, push_decimal, string_of};
use crate::token::{views, Token, TokenView};

verus! {

/// What the scanner is in the middle of.
#[derive(Copy, Clone, Debug, PartialEq, Eq, Structural)]
pub enum Mode {
    /// Between tokens.
    Normal,
    /// Inside a literal, after `{` or `@`.
    Literal,
    /// Inside the name of a function, before its `(`.
    FunctionName,
    /// Inside the arguments of a function call, before the matching `)`.
    FunctionArguments,
}

/// The state of the scanner.
pub struct Scan {
    pub mode: Mode,
    /// The characters of the literal, name or argument text read so far.
    pub buffer: Seq<char>,
    /// The name of the function whose arguments are being read.
    pub function: Seq<char>,
    /// How many parentheses are open inside a function call, counting the
    /// one after the name.
    pub nesting: nat,
    pub tokens: Seq<TokenView<LiteralView>>,
}

/// A literal inside the expression that is none.
#[derive(Clone, Debug)]
pub struct TokenizeError {
    /// The number of characters read when the literal ended, its closing
    /// brace included.
    pub position: usize,
    /// The text that was to be a literal, braces included.
    pub text: String,
}

impl TokenizeError {
    pub open spec fn message_text(self) -> Seq<char> {
        "Error at char "@ + decimal(self.position as nat) + ": "@ + (ParseError {
            text: self.text,
        }).message_text()
    }

    /// Says in words where scanning stopped and on which text.
    pub fn message(&self) -> (text: String)
        ensures
            text@ == self.message_text(),
    {
        let mut text = "Error at char ".to_owned();
        push_decimal(&mut text, self.position);
        text.append(": ");
        text.append("Cannot parse '");
        text.append(self.text.as_str());
        text.append("' to a complex number");
        proof {
            assert(text@ =~= self.message_text());
        }
        text
    }
}

/// The token that a punctuation character stands for on its own.
pub open spec fn punctuation(c: char) -> Option<TokenView<LiteralView>> {
    if c == '+' {
        Some(TokenView::Plus)
    } else if c == '-' {
        Some(TokenView::Minus)
    } else if c == '*' {
        Some(TokenView::Multiply)
    } else if c == '/' {
        Some(TokenView::Divide)
    } else if c == ')' {
        Some(TokenView::RightParen)
    } else if c == '(' {
        Some(TokenView::LeftParen)
    } else if c == '~' {
        Some(TokenView::Conjugate)
    } else if c == '`' {
        Some(TokenView::Transpose)
    } else if c == '[' {
        Some(TokenView::OpenVector)
    } else if c == ']' {
        Some(TokenView::CloseVector)
    } else if c == ',' {
        Some(TokenView::Comma)
    } else {
        None
    }
}

impl Scan {
    pub open spec fn start() -> Scan {
        Scan {
            mode: Mode::Normal,
            buffer: Seq::empty(),
            function: Seq::empty(),
            nesting: 0,
            tokens: Seq::empty(),
        }
    }

    /// The state after one more character, or the text of the literal that
    /// this character ends and that is none.
    ///
    /// Between tokens, `{` and `@` open a literal, a punctuation character
    /// is a token, white space is skipped and anything else opens a function
    /// name. A literal runs up to the next `}`. A function name runs up to
    /// the next `(`. The arguments run up to the parenthesis that closes
    /// that one, parentheses inside them being counted.
    pub open spec fn step(self, c: char) -> Result<Scan, Seq<char>> {
        match self.mode {
            Mode::Literal => {
                let text = self.buffer.push(c);
                if c != '}' {
                    Ok(Scan { buffer: text, ..self })
                } else {
                    match literal(text) {
                        Some(l) => Ok(
                            Scan {
                                mode: Mode::Normal,
                                buffer: Seq::empty(),
                                tokens: self.tokens.push(TokenView::ComplexNumber(l)),
                                ..self
                            },
                        ),
                        None => Err(text),
                    }
                }
            },
            Mode::FunctionName => {
                if c == '(' {
                    Ok(
                        Scan {
                            mode: Mode::FunctionArguments,
                            buffer: Seq::empty(),
                            function: self.buffer,
                            nesting: 1,
                            ..self
                        },
                    )
                } else {
                    Ok(Scan { buffer: self.buffer.push(c), ..self })
                }
            },
            Mode::FunctionArguments => {
                let nesting: nat = if c == ')' {
                    (self.nesting - 1) as nat
                } else if c == '(' {
                    self.nesting + 1
                } else {
                    self.nesting
                };
                if nesting > 0 {
                    Ok(Scan { buffer: self.buffer.push(c), nesting, ..self })
                } else {
                    Ok(
                        Scan {
                            mode: Mode::Normal,
                            buffer: Seq::empty(),
                            nesting: 0,
                            tokens: self.tokens.push(
                                TokenView::Function(self.function, self.buffer),
                            ),
                            ..self
                        },
                    )
                }
            },
            Mode::Normal => {
                if c == '{' || c == '@' {
                    Ok(Scan { mode: Mode::Literal, buffer: seq![c], ..self })
                } else if punctuation(c) is Some {
                    Ok(Scan { tokens: self.tokens.push(punctuation(c)->0), ..self })
                } else if is_whitespace(c) {
                    Ok(self)
                } else {
                    Ok(Scan { mode: Mode::FunctionName, buffer: seq![c], ..self })
                }
            },
        }
    }

    /// The tokens at the end of the text: what the scanner still holds, be
    /// it of a literal, of a name or of arguments, is read as one last
    /// literal, and is handed back if it is none.
    pub open spec fn finish(self) -> Result<Seq<TokenView<LiteralView>>, Seq<char>> {
        if self.buffer.len() > 0 {
            match literal(self.buffer) {
                Some(l) => Ok(self.tokens.push(TokenView::ComplexNumber(l))),
                None => Err(self.buffer),
            }
        } else {
            Ok(self.tokens)
        }
    }
}

/// The state after the first `n` characters of the text, or the count of
/// characters read and the text of the literal at which scanning stopped.
pub open spec fn scanned(s: Seq<char>, n: nat) -> Result<Scan, (nat, Seq<char>)>
    recommends
        n <= s.len(),
    decreases n,
{
    if n == 0 {
        Ok(Scan::start())
    } else {
        match scanned(s, (n - 1) as nat) {
            Err(e) => Err(e),
            Ok(scan) => match scan.step(s[n - 1]) {
                Ok(next) => Ok(next),
                Err(text) => Err((n, text)),
            },
        }
    }
}

/// The tokens of an expression, or where and on which literal scanning
/// stopped.
pub open spec fn tokenized(s: Seq<char>) -> Result<
    Seq<TokenView<LiteralView>>,
    (nat, Seq<char>),
> {
    match scanned(s, s.len()) {
        Ok(scan) => match scan.finish() {
            Ok(tokens) => Ok(tokens),
            Err(text) => Err((s.len(), text)),
        },
        Err(e) => Err(e),
    }
}

/// The token of a punctuation character.
fn punctuation_token(c: char) -> (r: Option<Token<Literal>>)
    ensures
        match r {
            Some(t) => punctuation(c) == Some(t@),
            None => punctuation(c) is None,
        },
{
    match c {
        '+' => Some(Token::Plus),
        '-' => Some(Token::Minus),
        '*' => Some(Token::Multiply),
        '/' => Some(Token::Divide),
        ')' => Some(Token::RightParen),
        '(' => Some(Token::LeftParen),
        '~' => Some(Token::Conjugate),
        '`' => Some(Token::Transpose),
        '[' => Some(Token::OpenVector),
        ']' => Some(Token::CloseVector),
        ',' => Some(Token::Comma),
        _ => None,
    }
}

/// Scans an expression into its tokens.
///
/// A literal that ends in `}` and does not read as one stops the scan: the
/// error tells how many characters had been read and shows the text. What
/// is left unfinished at the end of the input, be it a literal, a function
/// name or the arguments of a call, has to read as one last literal, or the
/// error shows it.
pub fn tokenize(input: &str) -> (r: Result<Vec<Token<Literal>>, TokenizeError>)
    ensures
        match r {
            Ok(tokens) => tokenized(input@) == Ok::<_, (nat, Seq<char>)>(views(tokens@)),
            Err(e) => tokenized(input@) == Err::<Seq<TokenView<LiteralView>>, _>(
                (e.position as nat, e.text@),
            ),
        },
{
    let chars = chars_of(input);
    let mut tokens: Vec<Token<Literal>> = Vec::new();
    let mut buffer: Vec<char> = Vec::new();
    let mut function: Vec<char> = Vec::new();
    let mut mode = Mode::Normal;
    let mut nesting: usize = 0;
    let mut pos: usize = 0;
    proof {
        assert(views(tokens@) =~= Seq::empty());
    }

    while pos < chars.len()
        invariant
            pos <= chars@.len(),
            chars@ == input@,
            nesting <= pos,
            mode == Mode::FunctionArguments ==> nesting >= 1,
            scanned(input@, pos as nat) == Ok::<_, (nat, Seq<char>)>(
                Scan {
                    mode,
                    buffer: buffer@,
                    function: function@,
                    nesting: nesting as nat,
                    tokens: views(tokens@),
                },
            ),
        decreases chars@.len() - pos,
    {
        let c = chars[pos];
        let ghost before = Scan {
            mode,
            buffer: buffer@,
            function: function@,
            nesting: nesting as nat,
            tokens: views(tokens@),
        };
        pos += 1;
        match mode {
            Mode::Literal => {
                buffer.push(c);
                if c == '}' {
                    match literal_of(&buffer) {
                        Some(l) => {
                            proof {
                                assert(views(tokens@.push(Token::ComplexNumber(l)))
                                    =~= views(tokens@).push(TokenView::ComplexNumber(l@)));
                            }
                            tokens.push(Token::ComplexNumber(l));
                            buffer = Vec::new();
                            mode = Mode::Normal;
                        },
                        None => {
                            proof {
                                assert(before.step(c) == Err::<Scan, _>(buffer@));
                                scanned_failure_stays(input@, pos as nat, input@.len());
                            }
                            let text = string_of(&buffer, 0, buffer.len());
                            proof {
                                assert(text@ =~= buffer@);
                            }
                            return Err(TokenizeError { position: pos, text });
                        },
                    }
                }
            },
            Mode::FunctionName => {
                if c == '(' {
                    function = buffer;
                    buffer = Vec::new();
                    mode = Mode::FunctionArguments;
                    nesting = 1;
                } else {
                    buffer.push(c);
                }
            },
            Mode::FunctionArguments => {
                if c == ')' {
                    nesting -= 1;
                } else if c == '(' {
                    nesting += 1;
                }
                if nesting > 0 {
                    buffer.push(c);
                } else {
                    let name = string_of(&function, 0, function.len());
                    let arguments = string_of(&buffer, 0, buffer.len());
                    proof {
                        assert(name@ =~= function@);
                        assert(arguments@ =~= buffer@);
                        assert(views(tokens@.push(Token::Function(name, arguments)))
                            =~= views(tokens@).push(TokenView::Function(name@, arguments@)));
                    }
                    tokens.push(Token::Function(name, arguments));
                    buffer = Vec::new();
                    mode = Mode::Normal;
                }
            },
            Mode::Normal => {
                if c == '{' || c == '@' {
                    buffer = Vec::new();
                    buffer.push(c);
                    mode = Mode::Literal;
                    proof {
                        assert(buffer@ =~= seq![c]);
                    }
                } else {
                    match punctuation_token(c) {
                        Some(token) => {
                            proof {
                                assert(views(tokens@.push(token)) =~= views(tokens@).push(token@));
                            }
                            tokens.push(token);
                        },
                        None => {
                            if !char_is_whitespace(c) {
                                buffer = Vec::new();
                                buffer.push(c);
                                mode = Mode::FunctionName;
                                proof {
                                    assert(buffer@ =~= seq![c]);
                                }
                            }
                        },
                    }
                }
            },
        }
        proof {
            assert(before.step(c) == Ok::<Scan, Seq<char>>(
                Scan {
                    mode,
                    buffer: buffer@,
                    function: function@,
                    nesting: nesting as nat,
                    tokens: views(tokens@),
                },
            ));
        }
    }

    if buffer.len() > 0 {
        match literal_of(&buffer) {
            Some(l) => {
                proof {
                    assert(views(tokens@.push(Token::ComplexNumber(l))) =~= views(tokens@).push(
                        TokenView::ComplexNumber(l@),
                    ));
                }
                tokens.push(Token::ComplexNumber(l));
            },
            None => {
                let text = string_of(&buffer, 0, buffer.len());
                proof {
                    assert(text@ =~= buffer@);
                }
                return Err(TokenizeError { position: pos, text });
            },
        }
    }
    Ok(tokens)
}

/// Before the end of the text, scanning stops nowhere but at a closing
/// brace, and on no text that is a literal.
pub proof fn scanning_stops_only_at_a_literal(s: Seq<char>, n: nat)
    requires
        n <= s.len(),
    ensures
        match scanned(s, n) {
            Ok(_) => true,
            Err((position, text)) => {
                &&& 1 <= position <= n
                &&& s[position - 1] == '}'
                &&& literal(text) is None
            },
        },
    decreases n,
{
    if n > 0 {
        scanning_stops_only_at_a_literal(s, (n - 1) as nat);
    }
}

/// Once scanning has stopped at a literal, it has stopped for good.
proof fn scanned_failure_stays(s: Seq<char>, n: nat, m: nat)
    requires
        n <= m,
        scanned(s, n) is Err,
    ensures
        scanned(s, m) == scanned(s, n),
    decreases m,
{
    if n < m {
        scanned_failure_stays(s, n, (m - 1) as nat);
    }
}

} // verus!
