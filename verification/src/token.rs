//! The tokens of an expression and their static properties.

use vstd::prelude::*;
use crate::complex::{standard_text, Complex};
use crate::format::{formatted, Rendering, DEFAULT_MAGNITUDE, DEFAULT_PRECISION};

verus! {

/// One lexical element of an expression. `N` is the payload of a number
/// literal: its validated source text straight after scanning, its binary
/// value once converted.
#[derive(Debug, Clone)]
pub enum Token<N> {
    Plus,
    Minus,
    Divide,
    Multiply,
    Power,
    LeftParen,
    RightParen,
    Conjugate,
    Transpose,
    OpenVector,
    CloseVector,
    Comma,
    Dot,
    ComplexNumber(N),
    Function(String, String),
}

/// The mathematical content of a [`Token`]: names and argument text are
/// sequences of characters, the number payload is its own view.
pub enum TokenView<V> {
    Plus,
    Minus,
    Divide,
    Multiply,
    Power,
    LeftParen,
    RightParen,
    Conjugate,
    Transpose,
    OpenVector,
    CloseVector,
    Comma,
    Dot,
    ComplexNumber(V),
    Function(Seq<char>, Seq<char>),
}

impl<N: View> View for Token<N> {
    type V = TokenView<N::V>;

    open spec fn view(&self) -> TokenView<N::V> {
        match self {
            Token::Plus => TokenView::Plus,
            Token::Minus => TokenView::Minus,
            Token::Divide => TokenView::Divide,
            Token::Multiply => TokenView::Multiply,
            Token::Power => TokenView::Power,
            Token::LeftParen => TokenView::LeftParen,
            Token::RightParen => TokenView::RightParen,
            Token::Conjugate => TokenView::Conjugate,
            Token::Transpose => TokenView::Transpose,
            Token::OpenVector => TokenView::OpenVector,
            Token::CloseVector => TokenView::CloseVector,
            Token::Comma => TokenView::Comma,
            Token::Dot => TokenView::Dot,
            Token::ComplexNumber(n) => TokenView::ComplexNumber(n@),
            Token::Function(name, arguments) => TokenView::Function(name@, arguments@),
        }
    }
}

/// The five binary operators that evaluation knows.
#[derive(Copy, Clone, Debug, PartialEq, Eq, Structural)]
pub enum Operator {
    Plus,
    Minus,
    Multiply,
    Divide,
    Power,
}

/// The views of a sequence of tokens.
pub open spec fn views<N: View>(tokens: Seq<Token<N>>) -> Seq<TokenView<N::V>> {
    tokens.map_values(|t: Token<N>| t@)
}

impl<V> TokenView<V> {
    /// The binary operator that this token stands for, if it is one.
    pub open spec fn operator(self) -> Option<Operator> {
        match self {
            TokenView::Plus => Some(Operator::Plus),
            TokenView::Minus => Some(Operator::Minus),
            TokenView::Multiply => Some(Operator::Multiply),
            TokenView::Divide => Some(Operator::Divide),
            TokenView::Power => Some(Operator::Power),
            _ => None,
        }
    }

    /// Binding strength used when reordering: subtraction binds loosest among
    /// the arithmetic operators, then addition, multiplication and division
    /// together; everything else has strength zero.
    pub open spec fn precedence(self) -> nat {
        match self {
            TokenView::Minus => 1,
            TokenView::Plus | TokenView::Multiply | TokenView::Divide => 2,
            _ => 0,
        }
    }

    /// The same token over another kind of number; a number literal has
    /// none.
    pub open spec fn retyped<W>(self) -> Option<TokenView<W>> {
        match self {
            TokenView::Plus => Some(TokenView::Plus),
            TokenView::Minus => Some(TokenView::Minus),
            TokenView::Divide => Some(TokenView::Divide),
            TokenView::Multiply => Some(TokenView::Multiply),
            TokenView::Power => Some(TokenView::Power),
            TokenView::LeftParen => Some(TokenView::LeftParen),
            TokenView::RightParen => Some(TokenView::RightParen),
            TokenView::Conjugate => Some(TokenView::Conjugate),
            TokenView::Transpose => Some(TokenView::Transpose),
            TokenView::OpenVector => Some(TokenView::OpenVector),
            TokenView::CloseVector => Some(TokenView::CloseVector),
            TokenView::Comma => Some(TokenView::Comma),
            TokenView::Dot => Some(TokenView::Dot),
            TokenView::ComplexNumber(_) => None,
            TokenView::Function(name, arguments) => Some(TokenView::Function(name, arguments)),
        }
    }

    /// The sign that stands for the token: its own for the four basic
    /// operators and the dot, name and arguments run together for a function
    /// call, and `#` for everything else.
    pub open spec fn symbol(self) -> Seq<char> {
        match self {
            TokenView::Plus => seq!['+'],
            TokenView::Minus => seq!['-'],
            TokenView::Multiply => seq!['*'],
            TokenView::Divide => seq!['/'],
            TokenView::Dot => seq!['.'],
            TokenView::Function(name, arguments) => name + arguments,
            _ => seq!['#'],
        }
    }

    /// Only exponentiation yields to an operator of equal strength on its left.
    pub open spec fn is_left_associative(self) -> bool {
        self is Power
    }
}

impl<N: View> Token<N> {
    pub fn precedence(&self) -> (p: u8)
        ensures
            p == self@.precedence(),
    {
        match self {
            Token::Minus => 1,
            Token::Plus | Token::Multiply | Token::Divide => 2,
            _ => 0,
        }
    }

    /// Hands out the payload of a number literal, for the caller to turn it
    /// into a payload of another kind; any other token comes back as the
    /// same token over that kind.
    pub fn retyped<M: View>(self) -> (r: Result<Token<M>, N>)
        ensures
            match r {
                Ok(token) => self@.retyped::<M::V>() == Some(token@),
                Err(number) => self@ == TokenView::<N::V>::ComplexNumber(number@),
            },
    {
        match self {
            Token::ComplexNumber(number) => Err(number),
            Token::Function(name, arguments) => Ok(Token::Function(name, arguments)),
            Token::Plus => Ok(Token::Plus),
            Token::Minus => Ok(Token::Minus),
            Token::Divide => Ok(Token::Divide),
            Token::Multiply => Ok(Token::Multiply),
            Token::Power => Ok(Token::Power),
            Token::LeftParen => Ok(Token::LeftParen),
            Token::RightParen => Ok(Token::RightParen),
            Token::Conjugate => Ok(Token::Conjugate),
            Token::Transpose => Ok(Token::Transpose),
            Token::OpenVector => Ok(Token::OpenVector),
            Token::CloseVector => Ok(Token::CloseVector),
            Token::Comma => Ok(Token::Comma),
            Token::Dot => Ok(Token::Dot),
        }
    }

    pub fn to_symbol(&self) -> (text: String)
        ensures
            text@ == self@.symbol(),
    {
        let mut text = String::new();
        match self {
            Token::Plus => text.push('+'),
            Token::Minus => text.push('-'),
            Token::Multiply => text.push('*'),
            Token::Divide => text.push('/'),
            Token::Dot => text.push('.'),
            Token::Function(name, arguments) => {
                text.append(name.as_str());
                text.append(arguments.as_str());
            },
            _ => text.push('#'),
        }
        proof {
            assert(text@ =~= self@.symbol());
        }
        text
    }

    pub fn operator(&self) -> (op: Option<Operator>)
        ensures
            op == self@.operator(),
    {
        match self {
            Token::Plus => Some(Operator::Plus),
            Token::Minus => Some(Operator::Minus),
            Token::Multiply => Some(Operator::Multiply),
            Token::Divide => Some(Operator::Divide),
            Token::Power => Some(Operator::Power),
            _ => None,
        }
    }

    pub fn is_left_associative(&self) -> (b: bool)
        ensures
            b == self@.is_left_associative(),
    {
        matches!(self, Token::Power)
    }
}

/// How a token is written: a number in standard notation within the
/// default budgets, a function call as its name with the arguments in
/// parentheses, anything else by its symbol.
pub open spec fn token_text(token: TokenView<Complex>, re: Rendering, im: Rendering) -> Seq<char> {
    match token {
        TokenView::ComplexNumber(c) => standard_text(
            c,
            formatted(c.re, re, DEFAULT_MAGNITUDE, DEFAULT_PRECISION),
            formatted(c.shown_imaginary(), im, DEFAULT_MAGNITUDE, DEFAULT_PRECISION),
        ),
        TokenView::Function(name, arguments) => name + seq!['('] + arguments + seq![')'],
        _ => token.symbol(),
    }
}

impl Token<Complex> {
    /// Writes the token. `re` and `im` are the renderings of a number's real
    /// part and of its imaginary part as shown; they are not read for other
    /// tokens.
    pub fn to_string(&self, re: &Rendering, im: &Rendering) -> (text: String)
        ensures
            text@ == token_text(self@, *re, *im),
    {
        match self {
            Token::ComplexNumber(c) => c.to_std_string(
                re,
                im,
                DEFAULT_MAGNITUDE,
                DEFAULT_PRECISION,
            ),
            Token::Function(name, arguments) => {
                let mut text = String::new();
                text.append(name.as_str());
                text.push('(');
                text.append(arguments.as_str());
                text.push(')');
                proof {
                    assert(text@ =~= name@ + seq!['('] + arguments@ + seq![')']);
                }
                text
            },
            _ => self.to_symbol(),
        }
    }
}

} // verus!
