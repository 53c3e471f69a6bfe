//! Evaluation of a postfix token sequence, one reduction at a time.
//!
//! The sequence shrinks in place. Whenever an operator has to be applied,
//! [`process`] names the operation and stops; the caller computes it on its
//! hardware and calls again with what came out. No number that is not
//! finite ever enters the sequence this way.

use vstd::prelude::*;
use crate::binary64::Binary64;
use crate::complex::{checked_result, outcome, Complex};
use crate::token::{views, Operator, Token, TokenView};

verus! {

/// What evaluation needs next.
#[derive(Copy, Clone, Debug)]
pub enum Step {
    /// The sequence has been reduced to this value.
    Finished(Complex),
    /// The caller is to compute `left operator right` and hand the value in.
    /// For a power, `right` is the exponent: a real number.
    Apply { operator: Operator, left: Complex, right: Complex },
}

/// Why a token sequence cannot be evaluated.
#[derive(Copy, Clone, Debug, PartialEq, Eq, Structural)]
pub enum EvalError {
    /// The only token left is not a number.
    SingleTokenNotNumber,
    /// No operator is left, and the sequence is empty or does not end in a
    /// number.
    ResultNotNumber,
    /// An operator has fewer than two tokens before it.
    MissingOperands,
    /// One of the two tokens before an operator is not a number.
    OperandNotNumber,
    /// The operation has no finite result.
    NotFinite(Operator),
    /// A computed value was handed in while no operation was asked for.
    NothingPending,
}

impl EvalError {
    pub open spec fn message_text(self) -> Seq<char> {
        match self {
            EvalError::SingleTokenNotNumber => "Single remaining token must be a complex number"@,
            EvalError::ResultNotNumber => "Evaluation did not end in a complex number"@,
            EvalError::MissingOperands => "Need two operands for + - * / or ^"@,
            EvalError::OperandNotNumber => "Token does not contain a complex number"@,
            EvalError::NotFinite(Operator::Plus) => "Sum is not a finite number"@,
            EvalError::NotFinite(Operator::Minus) => "Difference is not a finite number"@,
            EvalError::NotFinite(Operator::Multiply) => "Product is not a finite number"@,
            EvalError::NotFinite(Operator::Divide) => "Quotient is not a finite number"@,
            EvalError::NotFinite(Operator::Power) => "Power is not a finite number"@,
            EvalError::NothingPending => "No operation is waiting for a result"@,
        }
    }

    /// Says in words why evaluation failed.
    pub fn message(&self) -> (text: String)
        ensures
            text@ == self.message_text(),
    {
        match self {
            EvalError::SingleTokenNotNumber => {
                "Single remaining token must be a complex number".to_owned()
            },
            EvalError::ResultNotNumber => "Evaluation did not end in a complex number".to_owned(),
            EvalError::MissingOperands => "Need two operands for + - * / or ^".to_owned(),
            EvalError::OperandNotNumber => "Token does not contain a complex number".to_owned(),
            EvalError::NotFinite(Operator::Plus) => "Sum is not a finite number".to_owned(),
            EvalError::NotFinite(Operator::Minus) => "Difference is not a finite number".to_owned(),
            EvalError::NotFinite(Operator::Multiply) => "Product is not a finite number".to_owned(),
            EvalError::NotFinite(Operator::Divide) => "Quotient is not a finite number".to_owned(),
            EvalError::NotFinite(Operator::Power) => "Power is not a finite number".to_owned(),
            EvalError::NothingPending => "No operation is waiting for a result".to_owned(),
        }
    }
}

/// The position of the first operator at or after `from`, or the length of
/// the sequence if there is none.
pub open spec fn first_operator(tokens: Seq<TokenView<Complex>>, from: int) -> int
    decreases tokens.len() - from,
{
    if from < 0 || from >= tokens.len() {
        tokens.len() as int
    } else if tokens[from].operator() is Some {
        from
    } else {
        first_operator(tokens, from + 1)
    }
}

/// The operation that the sequence asks for: position and kind of its first
/// operator, and the two numbers right before it. There is none if the
/// sequence has exactly one token, holds no operator, or the operator lacks
/// its two numbers.
pub open spec fn request(tokens: Seq<TokenView<Complex>>) -> Option<
    (int, Operator, Complex, Complex),
> {
    let at = first_operator(tokens, 0);
    if tokens.len() != 1 && 2 <= at < tokens.len() {
        match (tokens[at - 2], tokens[at - 1]) {
            (TokenView::ComplexNumber(left), TokenView::ComplexNumber(right)) => Some(
                (at, tokens[at].operator()->0, left, right),
            ),
            _ => None,
        }
    } else {
        None
    }
}

/// The right operand as the operation takes it: a number is raised to the
/// real part of what follows it, any other operation takes the whole number.
pub open spec fn right_operand(operator: Operator, right: Complex) -> Complex {
    if operator == Operator::Power {
        Complex { re: right.re, im: Binary64 { bits: 0 } }
    } else {
        right
    }
}

/// The sequence with the operator at `at` and its two operands replaced by
/// `value`.
pub open spec fn reduced(tokens: Seq<TokenView<Complex>>, at: int, value: Complex) -> Seq<
    TokenView<Complex>,
>
    recommends
        2 <= at < tokens.len(),
{
    tokens.subrange(0, at - 2).push(TokenView::ComplexNumber(value)) + tokens.subrange(
        at + 1,
        tokens.len() as int,
    )
}

/// What a sequence asks for as it stands, and what is left of it afterwards.
///
/// A single token is taken off and is the result if it is a number. Else the
/// first operator decides: it needs two tokens before it, both numbers, and
/// is then to be applied to them, a power to the real part of the second.
/// With no operator at all, the last token is taken off and is the result if
/// it is a number.
pub open spec fn decision(tokens: Seq<TokenView<Complex>>) -> (
    Result<Step, EvalError>,
    Seq<TokenView<Complex>>,
) {
    let at = first_operator(tokens, 0);
    if tokens.len() == 1 {
        (
            match tokens[0] {
                TokenView::ComplexNumber(c) => Ok(Step::Finished(c)),
                _ => Err(EvalError::SingleTokenNotNumber),
            },
            Seq::empty(),
        )
    } else if tokens.len() == 0 {
        (Err(EvalError::ResultNotNumber), tokens)
    } else if at == tokens.len() {
        (
            match tokens.last() {
                TokenView::ComplexNumber(c) => Ok(Step::Finished(c)),
                _ => Err(EvalError::ResultNotNumber),
            },
            tokens.drop_last(),
        )
    } else if at < 2 {
        (Err(EvalError::MissingOperands), tokens)
    } else {
        match request(tokens) {
            Some((_, operator, left, right)) => (
                Ok(Step::Apply { operator, left, right: right_operand(operator, right) }),
                tokens,
            ),
            None => (Err(EvalError::OperandNotNumber), tokens),
        }
    }
}

/// One call of [`process`]: without a computed value, the decision on the
/// sequence as it stands; with one, the requested operation is completed
/// first, provided its outcome is a finite number, and the decision is
/// taken on the shorter sequence.
pub open spec fn progress(tokens: Seq<TokenView<Complex>>, computed: Option<Complex>) -> (
    Result<Step, EvalError>,
    Seq<TokenView<Complex>>,
) {
    match computed {
        None => decision(tokens),
        Some(raw) => match request(tokens) {
            None => (Err(EvalError::NothingPending), tokens),
            Some((at, operator, left, right)) => match outcome(operator, left, right, raw) {
                None => (Err(EvalError::NotFinite(operator)), tokens),
                Some(value) => decision(reduced(tokens, at, value)),
            },
        },
    }
}

/// The value of a postfix sequence when `compute` stands for the
/// arithmetic: the first operator is applied to the two numbers before it,
/// the result takes their place, and so on from the left until one token is
/// left or something is in the way.
pub open spec fn evaluation(
    tokens: Seq<TokenView<Complex>>,
    compute: spec_fn(Operator, Complex, Complex) -> Complex,
) -> Result<Complex, EvalError>
    decreases tokens.len(),
{
    match decision(tokens).0 {
        Err(e) => Err(e),
        Ok(Step::Finished(c)) => Ok(c),
        Ok(Step::Apply { operator, left, right }) => {
            match outcome(operator, left, right, compute(operator, left, right)) {
                None => Err(EvalError::NotFinite(operator)),
                Some(value) => evaluation(
                    reduced(tokens, first_operator(tokens, 0), value),
                    compute,
                ),
            }
        },
    }
}

/// What a caller arrives at who calls [`process`] again and again, first
/// without a value and then each time with what `compute` gives for the
/// operation asked for.
pub open spec fn driven(
    tokens: Seq<TokenView<Complex>>,
    computed: Option<Complex>,
    compute: spec_fn(Operator, Complex, Complex) -> Complex,
) -> Result<Complex, EvalError>
    decreases tokens.len(), (if computed is None { 1nat } else { 0nat }),
{
    match progress(tokens, computed).0 {
        Err(e) => Err(e),
        Ok(Step::Finished(c)) => Ok(c),
        Ok(Step::Apply { operator, left, right }) => driven(
            progress(tokens, computed).1,
            Some(compute(operator, left, right)),
            compute,
        ),
    }
}

/// The first operator lies within the sequence or at its end.
pub proof fn first_operator_bounds(tokens: Seq<TokenView<Complex>>, from: int)
    requires
        0 <= from <= tokens.len(),
    ensures
        from <= first_operator(tokens, from) <= tokens.len(),
        first_operator(tokens, from) < tokens.len() ==> tokens[first_operator(
            tokens,
            from,
        )].operator() is Some,
        forall|j: int|
            from <= j < first_operator(tokens, from) ==> (#[trigger] tokens[j]).operator() is None,
    decreases tokens.len() - from,
{
    if from < tokens.len() && tokens[from].operator() is None {
        first_operator_bounds(tokens, from + 1);
    }
}

/// An operation is asked for exactly where the decision says so, and then
/// the operator has its two operands within the sequence, which is left
/// untouched.
pub proof fn request_is_in_range(tokens: Seq<TokenView<Complex>>)
    ensures
        match decision(tokens).0 {
            Ok(Step::Apply { operator, left, right }) => match request(tokens) {
                Some((at, asked, first, second)) => {
                    &&& at == first_operator(tokens, 0)
                    &&& asked == operator
                    &&& first == left
                    &&& right_operand(operator, second) == right
                    &&& 2 <= at < tokens.len()
                    &&& decision(tokens).1 == tokens
                },
                None => false,
            },
            _ => request(tokens) is None,
        },
{
    first_operator_bounds(tokens, 0);
}

/// Calling [`process`] until it is finished, with `compute` for the
/// arithmetic, gives the value of the sequence.
pub proof fn driving_computes_the_evaluation(
    tokens: Seq<TokenView<Complex>>,
    compute: spec_fn(Operator, Complex, Complex) -> Complex,
)
    ensures
        driven(tokens, None, compute) == evaluation(tokens, compute),
    decreases tokens.len(),
{
    request_is_in_range(tokens);
    match decision(tokens).0 {
        Ok(Step::Apply { operator, left, right }) => {
            let raw = compute(operator, left, right);
            let at = first_operator(tokens, 0);
            match outcome(operator, left, right, raw) {
                Some(value) => {
                    let shorter = reduced(tokens, at, value);
                    request_is_in_range(shorter);
                    driving_computes_the_evaluation(shorter, compute);
                    driven_resumes(tokens, shorter, raw, compute);
                },
                None => {},
            }
        },
        _ => {},
    }
}

/// Handing in a value for the operation asked for continues as a fresh start
/// on the shorter sequence does.
proof fn driven_resumes(
    tokens: Seq<TokenView<Complex>>,
    shorter: Seq<TokenView<Complex>>,
    raw: Complex,
    compute: spec_fn(Operator, Complex, Complex) -> Complex,
)
    requires
        match request(tokens) {
            Some((at, operator, left, right)) => outcome(operator, left, right, raw) is Some
                && shorter == reduced(tokens, at, outcome(operator, left, right, raw)->0),
            None => false,
        },
    ensures
        driven(tokens, Some(raw), compute) == driven(shorter, None, compute),
{
    request_is_in_range(shorter);
    assert(progress(tokens, Some(raw)) == decision(shorter));
    assert(progress(shorter, None) == decision(shorter));
}

/// No number that is not finite enters a sequence: whatever is handed in,
/// the numbers of the sequence afterwards are those it held before and, at
/// most, one finite number more.
pub proof fn only_finite_numbers_enter(
    tokens: Seq<TokenView<Complex>>,
    computed: Option<Complex>,
    i: int,
)
    requires
        0 <= i < progress(tokens, computed).1.len(),
    ensures
        match progress(tokens, computed).1[i] {
            TokenView::ComplexNumber(c) => c.is_finite() || tokens.contains(
                TokenView::ComplexNumber(c),
            ),
            _ => true,
        },
{
    first_operator_bounds(tokens, 0);
    let after = progress(tokens, computed).1;
    match (computed, request(tokens)) {
        (Some(raw), Some((at, operator, left, right))) => {
            match outcome(operator, left, right, raw) {
                Some(value) => {
                    let shorter = reduced(tokens, at, value);
                    first_operator_bounds(shorter, 0);
                    assert(after == decision(shorter).1);
                    assert(after.len() <= shorter.len());
                    assert(after[i] == shorter[i]);
                    if i < at - 2 {
                        assert(shorter[i] == tokens[i]);
                    } else if i > at - 2 {
                        assert(shorter[i] == tokens[i + 2]);
                    }
                },
                None => {},
            }
        },
        _ => {
            assert(after.len() <= tokens.len());
            assert(after[i] == tokens[i]);
        },
    }
}

/// The first operator lies where a search from the left finds it.
proof fn first_operator_found(tokens: Seq<TokenView<Complex>>, from: int, at: int)
    requires
        0 <= from <= at <= tokens.len(),
        forall|j: int| from <= j < at ==> (#[trigger] tokens[j]).operator() is None,
        at < tokens.len() ==> tokens[at].operator() is Some,
    ensures
        first_operator(tokens, from) == at,
    decreases at - from,
{
    if from < at {
        first_operator_found(tokens, from + 1, at);
    }
}

/// The number that a token holds.
pub fn extract_complex(token: &Token<Complex>) -> (r: Result<Complex, EvalError>)
    ensures
        r == match token@ {
            TokenView::ComplexNumber(c) => Ok::<Complex, EvalError>(c),
            _ => Err(EvalError::OperandNotNumber),
        },
{
    match token {
        Token::ComplexNumber(c) => Ok(*c),
        _ => Err(EvalError::OperandNotNumber),
    }
}

/// Finds the first operator.
fn find_operator(tokens: &Vec<Token<Complex>>) -> (at: usize)
    ensures
        at == first_operator(views(tokens@), 0),
        at <= tokens@.len(),
        at < tokens@.len() ==> views(tokens@)[at as int].operator() is Some,
{
    let mut i: usize = 0;
    while i < tokens.len() && tokens[i].operator().is_none()
        invariant
            i <= tokens@.len(),
            forall|j: int| 0 <= j < i ==> (#[trigger] views(tokens@)[j]).operator() is None,
        decreases tokens@.len() - i,
    {
        i += 1;
    }
    proof {
        first_operator_found(views(tokens@), 0, i as int);
    }
    i
}

/// Finds the requested operation.
fn find_request(tokens: &Vec<Token<Complex>>) -> (r: Option<(usize, Operator, Complex, Complex)>)
    ensures
        match r {
            Some((at, operator, left, right)) => request(views(tokens@)) == Some(
                (at as int, operator, left, right),
            ) && 2 <= at < tokens@.len(),
            None => request(views(tokens@)) is None,
        },
{
    let at = find_operator(tokens);
    if tokens.len() != 1 && 2 <= at && at < tokens.len() {
        match (&tokens[at - 2], &tokens[at - 1], tokens[at].operator()) {
            (Token::ComplexNumber(left), Token::ComplexNumber(right), Some(operator)) => Some(
                (at, operator, *left, *right),
            ),
            _ => None,
        }
    } else {
        None
    }
}

/// Takes the decision on the sequence as it stands.
fn decide(tokens: &mut Vec<Token<Complex>>) -> (r: Result<Step, EvalError>)
    ensures
        (r, views(final(tokens)@)) == decision(views(old(tokens)@)),
{
    let at = find_operator(tokens);
    if tokens.len() == 1 {
        let last = tokens.pop();
        proof {
            assert(views(tokens@) =~= Seq::empty());
        }
        match last {
            Some(Token::ComplexNumber(c)) => Ok(Step::Finished(c)),
            _ => Err(EvalError::SingleTokenNotNumber),
        }
    } else if tokens.len() == 0 {
        Err(EvalError::ResultNotNumber)
    } else if at == tokens.len() {
        let last = tokens.pop();
        proof {
            assert(views(tokens@) =~= views(old(tokens)@).drop_last());
        }
        match last {
            Some(Token::ComplexNumber(c)) => Ok(Step::Finished(c)),
            _ => Err(EvalError::ResultNotNumber),
        }
    } else if at < 2 {
        Err(EvalError::MissingOperands)
    } else {
        match find_request(tokens) {
            Some((_, operator, left, right)) => {
                let right = match operator {
                    Operator::Power => Complex::new(right.re, Binary64::zero()),
                    _ => right,
                };
                Ok(Step::Apply { operator, left, right })
            },
            None => Err(EvalError::OperandNotNumber),
        }
    }
}

/// Carries evaluation one step further.
///
/// `computed` is the value that the caller computed for the operation that
/// the previous call asked for, and is absent on the first call. The value
/// is accepted only as [`outcome`] allows; it then replaces the operator and
/// its operands. After that the sequence is inspected afresh: the answer is
/// its result, the next operation to compute, or the reason why it cannot be
/// evaluated. On an error that concerns an operator the sequence is left as
/// it was.
pub fn process(tokens: &mut Vec<Token<Complex>>, computed: Option<Complex>) -> (r: Result<
    Step,
    EvalError,
>)
    ensures
        (r, views(final(tokens)@)) == progress(views(old(tokens)@), computed),
{
    match computed {
        None => decide(tokens),
        Some(raw) => match find_request(tokens) {
            None => Err(EvalError::NothingPending),
            Some((at, operator, left, right)) => match checked_result(operator, left, right, raw) {
                None => Err(EvalError::NotFinite(operator)),
                Some(value) => {
                    tokens.remove(at);
                    tokens.remove(at - 1);
                    tokens.set(at - 2, Token::ComplexNumber(value));
                    proof {
                        assert(views(tokens@) =~= reduced(views(old(tokens)@), at as int, value));
                    }
                    decide(tokens)
                },
            },
        },
    }
}

} // verus!
