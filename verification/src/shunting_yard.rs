//! Reordering of an infix token sequence into postfix order.

use vstd::prelude::*;
use crate::token::{views, Token, TokenView};

verus! {

/// The two stacks of the reordering: what has been emitted so far, and the
/// operators that still wait, the top being the last element.
pub struct Yard<V> {
    pub output: Seq<TokenView<V>>,
    pub operators: Seq<TokenView<V>>,
}

impl<V> Yard<V> {
    pub open spec fn empty() -> Yard<V> {
        Yard { output: Seq::empty(), operators: Seq::empty() }
    }

    /// The top operator moves to the output.
    pub open spec fn emit_top(self) -> Yard<V>
        recommends
            self.operators.len() > 0,
    {
        Yard {
            output: self.output.push(self.operators.last()),
            operators: self.operators.drop_last(),
        }
    }

    /// The top operator is thrown away.
    pub open spec fn discard_top(self) -> Yard<V>
        recommends
            self.operators.len() > 0,
    {
        Yard { output: self.output, operators: self.operators.drop_last() }
    }

    /// A waiting operator is placed on top.
    pub open spec fn hold(self, token: TokenView<V>) -> Yard<V> {
        Yard { output: self.output, operators: self.operators.push(token) }
    }

    /// Every waiting operator that yields to `incoming` moves to the output,
    /// topmost first.
    pub open spec fn emit_yielding(self, incoming: TokenView<V>) -> Yard<V>
        decreases self.operators.len(),
    {
        if self.operators.len() > 0 && yields_to(self.operators.last(), incoming) {
            self.emit_top().emit_yielding(incoming)
        } else {
            self
        }
    }

    /// Waiting operators move to the output, topmost first, until a left
    /// parenthesis is on top or none is left.
    pub open spec fn emit_to_paren(self) -> Yard<V>
        decreases self.operators.len(),
    {
        if self.operators.len() > 0 && !(self.operators.last() is LeftParen) {
            self.emit_top().emit_to_paren()
        } else {
            self
        }
    }

    /// The effect of a right parenthesis: everything above the nearest left
    /// parenthesis is emitted, that parenthesis is dropped, and a function
    /// call found directly beneath it is emitted too. Without a left
    /// parenthesis the stack simply empties into the output.
    pub open spec fn close_paren(self) -> Yard<V> {
        let unwound = self.emit_to_paren();
        if unwound.operators.len() == 0 {
            unwound
        } else {
            let opened = unwound.discard_top();
            if opened.operators.len() > 0 && opened.operators.last() is Function {
                opened.emit_top()
            } else {
                opened
            }
        }
    }

    /// The effect of one input token.
    pub open spec fn feed(self, token: TokenView<V>) -> Yard<V> {
        match token {
            TokenView::ComplexNumber(_) => Yard {
                output: self.output.push(token),
                operators: self.operators,
            },
            TokenView::Function(_, _) | TokenView::LeftParen => self.hold(token),
            TokenView::Comma => self.emit_to_paren(),
            TokenView::RightParen => self.close_paren(),
            _ => self.emit_yielding(token).hold(token),
        }
    }

    /// The state after the first `n` tokens of `tokens`.
    pub open spec fn fed(tokens: Seq<TokenView<V>>, n: nat) -> Yard<V>
        recommends
            n <= tokens.len(),
        decreases n,
    {
        if n == 0 {
            Yard::empty()
        } else {
            Yard::fed(tokens, (n - 1) as nat).feed(tokens[n - 1])
        }
    }

    /// The output followed by the waiting operators, topmost first.
    pub open spec fn flush(self) -> Seq<TokenView<V>> {
        self.output + self.operators.reverse()
    }
}

/// Whether `top`, waiting on the operator stack, leaves it when `incoming`
/// arrives: a left parenthesis never does; any other token does if it binds
/// tighter, or equally tight while `incoming` is left-associative.
pub open spec fn yields_to<V>(top: TokenView<V>, incoming: TokenView<V>) -> bool {
    &&& !(top is LeftParen)
    &&& (top.precedence() > incoming.precedence() || (incoming.is_left_associative()
        && top.precedence() == incoming.precedence()))
}

/// The postfix order of an infix token sequence.
pub open spec fn postfix<V>(tokens: Seq<TokenView<V>>) -> Seq<TokenView<V>> {
    Yard::fed(tokens, tokens.len()).flush()
}

/// The number literals of a sequence, in their order.
pub open spec fn numbers<V>(tokens: Seq<TokenView<V>>) -> Seq<TokenView<V>>
    decreases tokens.len(),
{
    if tokens.len() == 0 {
        tokens
    } else if tokens.last() is ComplexNumber {
        numbers(tokens.drop_last()).push(tokens.last())
    } else {
        numbers(tokens.drop_last())
    }
}

/// Neither a number literal nor a token that reordering uses up.
pub open spec fn waits<V>(token: TokenView<V>) -> bool {
    !(token is ComplexNumber) && !(token is RightParen) && !(token is Comma)
}

impl<V> Yard<V> {
    /// What holds of the two stacks at every moment: only tokens that may
    /// wait are on the operator stack, and neither a right parenthesis nor a
    /// comma has been emitted.
    pub open spec fn tidy(self) -> bool {
        &&& forall|i: int| 0 <= i < self.operators.len() ==> waits(#[trigger] self.operators[i])
        &&& forall|i: int|
            0 <= i < self.output.len() ==> !((#[trigger] self.output[i]) is RightParen)
                && !(self.output[i] is Comma)
    }
}

proof fn numbers_push<V>(tokens: Seq<TokenView<V>>, token: TokenView<V>)
    ensures
        numbers(tokens.push(token)) == if token is ComplexNumber {
            numbers(tokens).push(token)
        } else {
            numbers(tokens)
        },
{
    assert(tokens.push(token).drop_last() =~= tokens);
}

proof fn emit_top_keeps<V>(y: Yard<V>)
    requires
        y.tidy(),
        y.operators.len() > 0,
    ensures
        y.emit_top().tidy(),
        y.emit_top().flush().len() == y.flush().len(),
        numbers(y.emit_top().output) == numbers(y.output),
{
    assert(waits(y.operators.last()));
    numbers_push(y.output, y.operators.last());
}

proof fn emit_yielding_keeps<V>(y: Yard<V>, incoming: TokenView<V>)
    requires
        y.tidy(),
    ensures
        y.emit_yielding(incoming).tidy(),
        y.emit_yielding(incoming).flush().len() == y.flush().len(),
        numbers(y.emit_yielding(incoming).output) == numbers(y.output),
    decreases y.operators.len(),
{
    if y.operators.len() > 0 && yields_to(y.operators.last(), incoming) {
        emit_top_keeps(y);
        emit_yielding_keeps(y.emit_top(), incoming);
    }
}

proof fn emit_to_paren_keeps<V>(y: Yard<V>)
    requires
        y.tidy(),
    ensures
        y.emit_to_paren().tidy(),
        y.emit_to_paren().flush().len() == y.flush().len(),
        numbers(y.emit_to_paren().output) == numbers(y.output),
    decreases y.operators.len(),
{
    if y.operators.len() > 0 && !(y.operators.last() is LeftParen) {
        emit_top_keeps(y);
        emit_to_paren_keeps(y.emit_top());
    }
}

proof fn feed_keeps<V>(y: Yard<V>, token: TokenView<V>)
    requires
        y.tidy(),
    ensures
        y.feed(token).tidy(),
        y.feed(token).flush().len() <= y.flush().len() + 1,
        numbers(y.feed(token).output) == if token is ComplexNumber {
            numbers(y.output).push(token)
        } else {
            numbers(y.output)
        },
{
    match token {
        TokenView::ComplexNumber(_) => {
            numbers_push(y.output, token);
        },
        TokenView::Function(_, _) | TokenView::LeftParen => {},
        TokenView::Comma => {
            emit_to_paren_keeps(y);
        },
        TokenView::RightParen => {
            emit_to_paren_keeps(y);
            let unwound = y.emit_to_paren();
            if unwound.operators.len() > 0 {
                let opened = unwound.discard_top();
                if opened.operators.len() > 0 && opened.operators.last() is Function {
                    emit_top_keeps(opened);
                }
            }
        },
        _ => {
            emit_yielding_keeps(y, token);
        },
    }
}

proof fn fed_keeps<V>(tokens: Seq<TokenView<V>>, n: nat)
    requires
        n <= tokens.len(),
    ensures
        Yard::fed(tokens, n).tidy(),
        Yard::fed(tokens, n).flush().len() <= n,
        numbers(Yard::fed(tokens, n).output) == numbers(tokens.take(n as int)),
    decreases n,
{
    if n > 0 {
        fed_keeps(tokens, (n - 1) as nat);
        feed_keeps(Yard::fed(tokens, (n - 1) as nat), tokens[n - 1]);
        assert(tokens.take(n as int) =~= tokens.take(n - 1).push(tokens[n - 1]));
        numbers_push(tokens.take(n - 1), tokens[n - 1]);
    }
}

proof fn numbers_of_waiting<V>(output: Seq<TokenView<V>>, waiting: Seq<TokenView<V>>)
    requires
        forall|i: int| 0 <= i < waiting.len() ==> !((#[trigger] waiting[i]) is ComplexNumber),
    ensures
        numbers(output + waiting) == numbers(output),
    decreases waiting.len(),
{
    if waiting.len() == 0 {
        assert(output + waiting =~= output);
    } else {
        numbers_of_waiting(output, waiting.drop_last());
        assert((output + waiting).drop_last() =~= output + waiting.drop_last());
    }
}

/// Reordering leaves the number literals in the order in which they came.
pub proof fn postfix_keeps_the_numbers_in_order<V>(tokens: Seq<TokenView<V>>)
    ensures
        numbers(postfix(tokens)) == numbers(tokens),
{
    fed_keeps(tokens, tokens.len());
    let y = Yard::fed(tokens, tokens.len());
    numbers_of_waiting(y.output, y.operators.reverse());
    assert(tokens.take(tokens.len() as int) =~= tokens);
}

/// Reordering adds no token: the postfix sequence is at most as long as the
/// sequence it was made from.
pub proof fn postfix_is_no_longer<V>(tokens: Seq<TokenView<V>>)
    ensures
        postfix(tokens).len() <= tokens.len(),
{
    fed_keeps(tokens, tokens.len());
}

/// Reordering uses up every right parenthesis and every comma: none is left
/// in the postfix sequence.
pub proof fn postfix_has_no_separators<V>(tokens: Seq<TokenView<V>>, i: int)
    requires
        0 <= i < postfix(tokens).len(),
    ensures
        !(postfix(tokens)[i] is RightParen),
        !(postfix(tokens)[i] is Comma),
{
    fed_keeps(tokens, tokens.len());
    let y = Yard::fed(tokens, tokens.len());
    if i >= y.output.len() {
        let j = i - y.output.len();
        assert(postfix(tokens)[i] == y.operators[y.operators.len() - 1 - j]);
    }
}

/// The two stacks as the reordering holds them at run time.
pub open spec fn yard_of<N: View>(output: Seq<Token<N>>, operators: Seq<Token<N>>) -> Yard<N::V> {
    Yard { output: views(output), operators: views(operators) }
}

proof fn views_push<N: View>(tokens: Seq<Token<N>>, token: Token<N>)
    ensures
        views(tokens.push(token)) == views(tokens).push(token@),
{
    assert(views(tokens.push(token)) =~= views(tokens).push(token@));
}

proof fn views_drop_last<N: View>(tokens: Seq<Token<N>>)
    requires
        tokens.len() > 0,
    ensures
        views(tokens.drop_last()) == views(tokens).drop_last(),
        views(tokens).last() == tokens.last()@,
{
    assert(views(tokens.drop_last()) =~= views(tokens).drop_last());
}

/// Moves the top of `operators` to `output`.
fn emit_top<N: View>(output: &mut Vec<Token<N>>, operators: &mut Vec<Token<N>>)
    requires
        old(operators)@.len() > 0,
    ensures
        final(operators)@ == old(operators)@.drop_last(),
        final(output)@ == old(output)@.push(old(operators)@.last()),
        yard_of(final(output)@, final(operators)@) == yard_of(
            old(output)@,
            old(operators)@,
        ).emit_top(),
{
    proof {
        views_drop_last(operators@);
    }
    let top = operators.pop().unwrap();
    proof {
        views_push(output@, top);
    }
    output.push(top);
}

fn emit_to_paren<N: View>(output: &mut Vec<Token<N>>, operators: &mut Vec<Token<N>>)
    ensures
        yard_of(final(output)@, final(operators)@) == yard_of(
            old(output)@,
            old(operators)@,
        ).emit_to_paren(),
{
    while operators.len() > 0 && !matches!(operators[operators.len() - 1], Token::LeftParen)
        invariant
            yard_of(output@, operators@).emit_to_paren() == yard_of(
                old(output)@,
                old(operators)@,
            ).emit_to_paren(),
        decreases operators.len(),
    {
        proof {
            views_drop_last(operators@);
        }
        emit_top(output, operators);
    }
    proof {
        if operators@.len() > 0 {
            views_drop_last(operators@);
        }
    }
}

fn emit_yielding<N: View>(
    output: &mut Vec<Token<N>>,
    operators: &mut Vec<Token<N>>,
    incoming: &Token<N>,
)
    ensures
        yard_of(final(output)@, final(operators)@) == yard_of(
            old(output)@,
            old(operators)@,
        ).emit_yielding(incoming@),
{
    loop
        invariant
            yard_of(output@, operators@).emit_yielding(incoming@) == yard_of(
                old(output)@,
                old(operators)@,
            ).emit_yielding(incoming@),
        ensures
            yard_of(output@, operators@) == yard_of(old(output)@, old(operators)@).emit_yielding(
                incoming@,
            ),
        decreases operators.len(),
    {
        if operators.len() == 0 {
            break;
        }
        proof {
            views_drop_last(operators@);
        }
        let top = &operators[operators.len() - 1];
        let yields = !matches!(top, Token::LeftParen) && (top.precedence() > incoming.precedence()
            || (incoming.is_left_associative() && top.precedence() == incoming.precedence()));
        if !yields {
            break;
        }
        emit_top(output, operators);
    }
}

fn close_paren<N: View>(output: &mut Vec<Token<N>>, operators: &mut Vec<Token<N>>)
    ensures
        yard_of(final(output)@, final(operators)@) == yard_of(
            old(output)@,
            old(operators)@,
        ).close_paren(),
{
    emit_to_paren(output, operators);
    if operators.len() > 0 {
        proof {
            views_drop_last(operators@);
        }
        operators.pop();
        if operators.len() > 0 {
            proof {
                views_drop_last(operators@);
            }
            if matches!(operators[operators.len() - 1], Token::Function(_, _)) {
                emit_top(output, operators);
            }
        }
    }
}

/// Reorders an infix token sequence into postfix order. Number literals go
/// straight to the output; function calls and left parentheses wait on the
/// operator stack; a comma and a right parenthesis unwind it; any other
/// token first lets the operators that yield to it pass, then waits itself.
/// At the end the waiting operators follow, topmost first. Unbalanced
/// parentheses are absorbed, never rejected.
pub fn shunting_yard<N: View>(input: Vec<Token<N>>) -> (postfixed: Vec<Token<N>>)
    ensures
        views(postfixed@) == postfix(views(input@)),
{
    let mut operators: Vec<Token<N>> = Vec::new();
    let mut output: Vec<Token<N>> = Vec::new();
    let ghost tokens = views(input@);
    proof {
        assert(views(output@) =~= Seq::empty());
        assert(views(operators@) =~= Seq::empty());
    }

    for o1 in it: input
        invariant
            it.seq() == input@,
            tokens == views(input@),
            yard_of(output@, operators@) == Yard::fed(tokens, it.index() as nat),
    {
        proof {
            views_push(output@, o1);
            views_push(operators@, o1);
        }
        match o1 {
            Token::ComplexNumber(_) => {
                output.push(o1);
            },
            Token::Function(_, _) => {
                operators.push(o1);
            },
            Token::LeftParen => {
                operators.push(o1);
            },
            Token::Comma => {
                emit_to_paren(&mut output, &mut operators);
            },
            Token::RightParen => {
                close_paren(&mut output, &mut operators);
            },
            _ => {
                emit_yielding(&mut output, &mut operators, &o1);
                proof {
                    views_push(operators@, o1);
                }
                operators.push(o1);
            },
        }
    }

    while operators.len() > 0
        invariant
            yard_of(output@, operators@).flush() == postfix(tokens),
        decreases operators.len(),
    {
        proof {
            let y = yard_of(output@, operators@);
            assert(y.emit_top().flush() =~= y.flush());
        }
        emit_top(&mut output, &mut operators);
    }
    proof {
        assert(yard_of(output@, operators@).flush() =~= views(output@));
    }
    output
}

} // verus!
