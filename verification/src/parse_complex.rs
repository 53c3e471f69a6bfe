//! The grammar of a complex-number literal.
//!
//! A literal is read from text either in bracket form, `{re, im}`, or in
//! standard form, `a`, `bi`, `i`, `a + bi`, `a - bi`, which may itself stand
//! in braces. Reading decides which characters spell the real part and which
//! the imaginary part, and that both spell a decimal number; turning those
//! digits into binary numbers is left to the caller.

use vstd::prelude::*;
use crate::text::{
    char_is_digit, char_is_whitespace, char_lower, chars_of, find, find_char, is_digit, lower,
    lowered, slice, squeezed, string_of, trim_bounds, trimmed, word,
};

verus! {

/// A literal as read: the spelling of its real and of its imaginary part,
/// each a decimal number by [`is_number`].
#[derive(Clone, Debug)]
pub struct Literal {
    pub re: String,
    pub im: String,
}

/// The mathematical content of a [`Literal`].
pub struct LiteralView {
    pub re: Seq<char>,
    pub im: Seq<char>,
}

impl View for Literal {
    type V = LiteralView;

    open spec fn view(&self) -> LiteralView {
        LiteralView { re: self.re@, im: self.im@ }
    }
}

/// A text that is not a literal.
#[derive(Clone, Debug)]
pub struct ParseError {
    pub text: String,
}

impl ParseError {
    pub open spec fn message_text(self) -> Seq<char> {
        "Cannot parse '"@ + self.text@ + "' to a complex number"@
    }

    /// Says in words which text could not be read.
    pub fn message(&self) -> (text: String)
        ensures
            text@ == self.message_text(),
    {
        let mut text = "Cannot parse '".to_owned();
        text.append(self.text.as_str());
        text.append("' to a complex number");
        text
    }
}

pub open spec fn is_sign(c: char) -> bool {
    c == '+' || c == '-'
}

/// The first position at or after `from` that holds no digit, or the length
/// of the text.
pub open spec fn skip_digits(s: Seq<char>, from: int) -> int
    decreases s.len() - from,
{
    if from < 0 || from >= s.len() {
        s.len() as int
    } else if is_digit(s[from]) {
        skip_digits(s, from + 1)
    } else {
        from
    }
}

/// The first position at or after `from` that holds a sign, or the length of
/// the text.
pub open spec fn next_sign(s: Seq<char>, from: int) -> int
    decreases s.len() - from,
{
    if from < 0 || from >= s.len() {
        s.len() as int
    } else if is_sign(s[from]) {
        from
    } else {
        next_sign(s, from + 1)
    }
}

/// An unsigned decimal number: digits with at most one point among them and
/// at least one digit in all, optionally followed by the letter `e` in
/// either case, an optional sign and at least one digit.
pub open spec fn is_decimal(s: Seq<char>) -> bool {
    let point = skip_digits(s, 0);
    let has_point = point < s.len() && s[point] == '.';
    let mantissa_end = if has_point {
        skip_digits(s, point + 1)
    } else {
        point
    };
    let digits = if has_point {
        mantissa_end - 1
    } else {
        mantissa_end
    };
    if digits < 1 {
        false
    } else if mantissa_end == s.len() {
        true
    } else if lower(s[mantissa_end]) == 'e' {
        let exponent = if mantissa_end + 1 < s.len() && is_sign(s[mantissa_end + 1]) {
            mantissa_end + 2
        } else {
            mantissa_end + 1
        };
        exponent < s.len() && skip_digits(s, exponent) == s.len()
    } else {
        false
    }
}

/// The text without a leading sign.
pub open spec fn unsigned(s: Seq<char>) -> Seq<char> {
    if s.len() > 0 && is_sign(s[0]) {
        s.drop_first()
    } else {
        s
    }
}

/// A decimal number as the conversion to binary accepts it: an optional
/// sign, then a decimal by [`is_decimal`] or one of the words `inf`,
/// `infinity`, `nan` in any mix of cases.
pub open spec fn is_number(s: Seq<char>) -> bool {
    let body = unsigned(s);
    let word = lowered(body);
    ||| is_decimal(body)
    ||| word == seq!['i', 'n', 'f']
    ||| word == seq!['i', 'n', 'f', 'i', 'n', 'i', 't', 'y']
    ||| word == seq!['n', 'a', 'n']
}

/// What stands between the braces, if the text, white space at its ends
/// aside, is enclosed in a pair of them.
pub open spec fn braced(s: Seq<char>) -> Option<Seq<char>> {
    let t = trimmed(s);
    if t.len() >= 2 && t[0] == '{' && t.last() == '}' {
        Some(t.subrange(1, t.len() - 1))
    } else {
        None
    }
}

/// Bracket form: braces around exactly two numbers with a comma between
/// them, white space allowed around each.
pub open spec fn bracket_form(s: Seq<char>) -> Option<LiteralView> {
    match braced(s) {
        None => None,
        Some(inner) => {
            let comma = find(inner, ',', 0);
            let re = trimmed(inner.subrange(0, comma));
            let im = trimmed(inner.subrange(comma + 1, inner.len() as int));
            if comma < inner.len() && find(inner, ',', comma + 1) == inner.len() && is_number(re)
                && is_number(im) {
                Some(LiteralView { re, im })
            } else {
                None
            }
        },
    }
}

/// The text with every sign of an exponent, that is every sign that the
/// letter `e` directly precedes, replaced by a letter that a lower-case text
/// cannot hold: `M` for minus, `P` for plus. The signs that remain separate
/// terms.
pub open spec fn marked(s: Seq<char>) -> Seq<char> {
    Seq::new(
        s.len(),
        |k: int|
            if k > 0 && s[k - 1] == 'e' && s[k] == '-' {
                'M'
            } else if k > 0 && s[k - 1] == 'e' && s[k] == '+' {
                'P'
            } else {
                s[k]
            },
    )
}

/// The exponent signs put back.
pub open spec fn restored(s: Seq<char>) -> Seq<char> {
    Seq::new(
        s.len(),
        |k: int|
            if s[k] == 'M' {
                '-'
            } else if s[k] == 'P' {
                '+'
            } else {
                s[k]
            },
    )
}

/// The first `n` characters of the text, without each plus sign that a minus
/// sign directly follows: `a + -b` reads as `a - b`.
pub open spec fn joined(s: Seq<char>, n: int) -> Seq<char>
    decreases n,
{
    if n <= 0 || n > s.len() {
        Seq::empty()
    } else if s[n - 1] == '+' && n < s.len() && s[n] == '-' {
        joined(s, n - 1)
    } else {
        joined(s, n - 1).push(s[n - 1])
    }
}

/// The text of a standard-form literal made ready for splitting: in lower
/// case, exponent signs marked, white space removed, redundant plus signs
/// dropped.
pub open spec fn normalized(s: Seq<char>) -> Seq<char> {
    let squeezed = squeezed(marked(lowered(s)));
    joined(squeezed, squeezed.len() as int)
}

/// The spelling of the number that a real term stands for.
pub open spec fn real_text(term: Seq<char>) -> Option<Seq<char>> {
    if is_number(restored(term)) {
        Some(restored(term))
    } else {
        None
    }
}

/// The spelling of the number that an imaginary term stands for: the term
/// without its final `i`, and one or minus one where nothing but a sign is
/// left.
pub open spec fn imaginary_text(term: Seq<char>) -> Option<Seq<char>> {
    if term == seq!['i'] || term == seq!['+', 'i'] {
        Some(seq!['1'])
    } else if term == seq!['-', 'i'] {
        Some(seq!['-', '1'])
    } else if term.len() > 0 && term.last() == 'i' {
        real_text(term.drop_last())
    } else {
        None
    }
}

/// Standard form: one term, real or imaginary, or a real term followed by
/// an imaginary one. A term reaches from one separating sign to the next;
/// an imaginary term ends in `i`. A missing part is zero.
pub open spec fn standard_form(s: Seq<char>) -> Option<LiteralView> {
    let body = match braced(s) {
        Some(inner) => inner,
        None => s,
    };
    let text = normalized(body);
    let second = next_sign(text, 1);
    if text.len() == 0 {
        None
    } else if second >= text.len() {
        if find(text, 'i', 0) < text.len() {
            match imaginary_text(text) {
                Some(im) => Some(LiteralView { re: seq!['0'], im }),
                None => None,
            }
        } else {
            match real_text(text) {
                Some(re) => Some(LiteralView { re, im: seq!['0'] }),
                None => None,
            }
        }
    } else if next_sign(text, second + 1) >= text.len() {
        match (
            real_text(text.subrange(0, second)),
            imaginary_text(text.subrange(second, text.len() as int)),
        ) {
            (Some(re), Some(im)) => Some(LiteralView { re, im }),
            _ => None,
        }
    } else {
        None
    }
}

/// The literal that a text spells, if it spells one: bracket form is tried
/// first, standard form second.
pub open spec fn literal(s: Seq<char>) -> Option<LiteralView> {
    match bracket_form(s) {
        Some(l) => Some(l),
        None => standard_form(s),
    }
}

/// Both parts of a literal spell a decimal number.
pub proof fn literal_parts_are_numbers(s: Seq<char>)
    ensures
        literal(s) is Some ==> is_number(literal(s)->0.re) && is_number(literal(s)->0.im),
{
    reveal_with_fuel(skip_digits, 3);
    let zero = seq!['0'];
    let one = seq!['1'];
    let minus_one = seq!['-', '1'];
    assert(unsigned(zero) == zero);
    assert(unsigned(one) == one);
    assert(unsigned(minus_one) =~= one);
    assert(is_decimal(zero));
    assert(is_decimal(one));
}

/// A copy of the characters from `from` up to `until`, white space at both
/// ends left off.
fn trimmed_slice(chars: &Vec<char>, from: usize, until: usize) -> (part: Vec<char>)
    requires
        from <= until <= chars@.len(),
    ensures
        part@ == trimmed(chars@.subrange(from as int, until as int)),
{
    let whole = slice(chars, from, until);
    let (start, end) = trim_bounds(&whole);
    slice(&whole, start, end)
}

/// Finds the first character at or after `from` that is no digit.
pub fn scan_digits(chars: &Vec<char>, from: usize) -> (end: usize)
    requires
        from <= chars@.len(),
    ensures
        end == skip_digits(chars@, from as int),
        from <= end <= chars@.len(),
{
    let mut i = from;
    while i < chars.len() && char_is_digit(chars[i])
        invariant
            from <= i <= chars@.len(),
            skip_digits(chars@, i as int) == skip_digits(chars@, from as int),
        decreases chars@.len() - i,
    {
        i += 1;
    }
    i
}

fn find_sign(chars: &Vec<char>, from: usize) -> (at: usize)
    requires
        from <= chars@.len(),
    ensures
        at == next_sign(chars@, from as int),
        from <= at <= chars@.len(),
{
    let mut i = from;
    while i < chars.len() && chars[i] != '+' && chars[i] != '-'
        invariant
            from <= i <= chars@.len(),
            next_sign(chars@, i as int) == next_sign(chars@, from as int),
        decreases chars@.len() - i,
    {
        i += 1;
    }
    i
}

fn check_decimal(chars: &Vec<char>) -> (b: bool)
    ensures
        b == is_decimal(chars@),
{
    let n = chars.len();
    let point = scan_digits(chars, 0);
    let has_point = point < n && chars[point] == '.';
    let mantissa_end = if has_point {
        scan_digits(chars, point + 1)
    } else {
        point
    };
    let digits = if has_point {
        mantissa_end - 1
    } else {
        mantissa_end
    };
    if digits < 1 {
        false
    } else if mantissa_end == n {
        true
    } else if char_lower(chars[mantissa_end]) == 'e' {
        let exponent = if mantissa_end + 1 < n && (chars[mantissa_end + 1] == '+'
            || chars[mantissa_end + 1] == '-') {
            mantissa_end + 2
        } else {
            mantissa_end + 1
        };
        exponent < n && scan_digits(chars, exponent) == n
    } else {
        false
    }
}

/// Whether the text, in lower case, is the given word.
fn is_word(chars: &Vec<char>, word: &Vec<char>) -> (b: bool)
    ensures
        b == (lowered(chars@) == word@),
{
    if chars.len() != word.len() {
        return false;
    }
    let mut i: usize = 0;
    while i < chars.len()
        invariant
            i <= chars@.len(),
            chars@.len() == word@.len(),
            forall|j: int| 0 <= j < i ==> lower(chars@[j]) == word@[j],
        decreases chars@.len() - i,
    {
        if char_lower(chars[i]) != word[i] {
            proof {
                assert(lowered(chars@)[i as int] != word@[i as int]);
            }
            return false;
        }
        i += 1;
    }
    proof {
        assert(lowered(chars@) =~= word@);
    }
    true
}

/// Decides whether a text spells a decimal number.
pub fn check_number(chars: &Vec<char>) -> (b: bool)
    ensures
        b == is_number(chars@),
{
    let start: usize = if chars.len() > 0 && (chars[0] == '+' || chars[0] == '-') {
        1
    } else {
        0
    };
    let body = slice(chars, start, chars.len());
    proof {
        assert(body@ =~= unsigned(chars@));
    }
    check_decimal(&body) || is_word(&body, &vec!['i', 'n', 'f']) || is_word(
        &body,
        &vec!['i', 'n', 'f', 'i', 'n', 'i', 't', 'y'],
    ) || is_word(&body, &vec!['n', 'a', 'n'])
}

/// Where the text between a pair of enclosing braces begins and ends.
fn brace_bounds(chars: &Vec<char>) -> (bounds: Option<(usize, usize)>)
    ensures
        match bounds {
            Some((from, until)) => from <= until <= chars@.len() && braced(chars@) == Some(
                chars@.subrange(from as int, until as int),
            ),
            None => braced(chars@) is None,
        },
{
    let (start, end) = trim_bounds(chars);
    if end - start >= 2 && chars[start] == '{' && chars[end - 1] == '}' {
        proof {
            let t = trimmed(chars@);
            assert(t.subrange(1, t.len() - 1) =~= chars@.subrange(start + 1, end - 1));
        }
        Some((start + 1, end - 1))
    } else {
        None
    }
}

fn normalize(body: &Vec<char>) -> (text: Vec<char>)
    ensures
        text@ == normalized(body@),
{
    let n = body.len();
    let mut marks: Vec<char> = Vec::new();
    let mut i: usize = 0;
    while i < n
        invariant
            i <= n == body@.len(),
            marks@.len() == i,
            forall|j: int| 0 <= j < i ==> marks@[j] == marked(lowered(body@))[j],
        decreases n - i,
    {
        let c = char_lower(body[i]);
        let after_e = i > 0 && char_lower(body[i - 1]) == 'e';
        if after_e && c == '-' {
            marks.push('M');
        } else if after_e && c == '+' {
            marks.push('P');
        } else {
            marks.push(c);
        }
        i += 1;
    }
    proof {
        assert(marks@ =~= marked(lowered(body@)));
    }
    let mut dense: Vec<char> = Vec::new();
    i = 0;
    while i < n
        invariant
            i <= n == marks@.len(),
            dense@ == squeezed(marks@.take(i as int)),
        decreases n - i,
    {
        proof {
            assert(marks@.take(i + 1).drop_last() =~= marks@.take(i as int));
        }
        if !char_is_whitespace(marks[i]) {
            dense.push(marks[i]);
        }
        i += 1;
    }
    proof {
        assert(marks@.take(n as int) =~= marks@);
    }
    let m = dense.len();
    let mut text: Vec<char> = Vec::new();
    i = 0;
    while i < m
        invariant
            i <= m == dense@.len(),
            text@ == joined(dense@, i as int),
        decreases m - i,
    {
        if !(dense[i] == '+' && i + 1 < m && dense[i + 1] == '-') {
            text.push(dense[i]);
        }
        i += 1;
    }
    text
}

fn restore(term: &Vec<char>) -> (text: Vec<char>)
    ensures
        text@ == restored(term@),
{
    let mut text: Vec<char> = Vec::new();
    let mut i: usize = 0;
    while i < term.len()
        invariant
            i <= term@.len(),
            text@.len() == i,
            forall|j: int| 0 <= j < i ==> text@[j] == restored(term@)[j],
        decreases term@.len() - i,
    {
        let c = term[i];
        if c == 'M' {
            text.push('-');
        } else if c == 'P' {
            text.push('+');
        } else {
            text.push(c);
        }
        i += 1;
    }
    proof {
        assert(text@ =~= restored(term@));
    }
    text
}

/// The spelling of the number that a real term stands for.
fn real_value(term: &Vec<char>) -> (r: Option<String>)
    ensures
        match r {
            Some(text) => real_text(term@) == Some(text@),
            None => real_text(term@) is None,
        },
{
    let text = restore(term);
    if check_number(&text) {
        Some(string_of(&text, 0, text.len()))
    } else {
        None
    }
}

/// The spelling of the number that an imaginary term stands for.
fn imaginary_value(term: &Vec<char>) -> (r: Option<String>)
    ensures
        match r {
            Some(text) => imaginary_text(term@) == Some(text@),
            None => imaginary_text(term@) is None,
        },
{
    let n = term.len();
    if n == 0 || term[n - 1] != 'i' {
        proof {
            assert(seq!['i'].last() == 'i');
            assert(seq!['+', 'i'].last() == 'i');
            assert(seq!['-', 'i'].last() == 'i');
        }
        None
    } else if n == 1 || (n == 2 && term[0] == '+') {
        proof {
            if n == 1 {
                assert(term@ =~= seq!['i']);
            } else {
                assert(term@ =~= seq!['+', 'i']);
            }
        }
        Some(word(vec!['1']))
    } else if n == 2 && term[0] == '-' {
        proof {
            assert(term@ =~= seq!['-', 'i']);
        }
        Some(word(vec!['-', '1']))
    } else {
        proof {
            assert(term@ != seq!['i']) by {
                assert(seq!['i'].len() == 1);
            }
            assert(term@ != seq!['+', 'i']) by {
                assert(seq!['+', 'i'][0] == '+');
            }
            assert(term@ != seq!['-', 'i']) by {
                assert(seq!['-', 'i'][0] == '-');
            }
        }
        let rest = slice(term, 0, n - 1);
        proof {
            assert(rest@ =~= term@.drop_last());
        }
        real_value(&rest)
    }
}

/// Reads a literal in bracket form from its characters.
fn bracket_of(chars: &Vec<char>) -> (r: Option<Literal>)
    ensures
        match r {
            Some(l) => bracket_form(chars@) == Some(l@),
            None => bracket_form(chars@) is None,
        },
{
    match brace_bounds(chars) {
        None => None,
        Some((from, until)) => {
            let inner = slice(chars, from, until);
            let comma = find_char(&inner, ',', 0);
            if comma < inner.len() && find_char(&inner, ',', comma + 1) == inner.len() {
                let re = trimmed_slice(&inner, 0, comma);
                let im = trimmed_slice(&inner, comma + 1, inner.len());
                if check_number(&re) && check_number(&im) {
                    Some(Literal { re: word(re), im: word(im) })
                } else {
                    None
                }
            } else {
                None
            }
        },
    }
}

/// Reads a literal in standard form from its characters.
fn standard_of(chars: &Vec<char>) -> (r: Option<Literal>)
    ensures
        match r {
            Some(l) => standard_form(chars@) == Some(l@),
            None => standard_form(chars@) is None,
        },
{
    let text = match brace_bounds(chars) {
        Some((from, until)) => normalize(&slice(chars, from, until)),
        None => normalize(chars),
    };
    let n = text.len();
    if n == 0 {
        return None;
    }
    let second = find_sign(&text, 1);
    if second >= n {
        let zero = word(vec!['0']);
        proof {
            assert(zero@ == seq!['0']);
        }
        if find_char(&text, 'i', 0) < n {
            match imaginary_value(&text) {
                Some(im) => Some(Literal { re: zero, im }),
                None => None,
            }
        } else {
            match real_value(&text) {
                Some(re) => Some(Literal { re, im: zero }),
                None => None,
            }
        }
    } else if find_sign(&text, second + 1) >= n {
        let first = slice(&text, 0, second);
        let last = slice(&text, second, n);
        match (real_value(&first), imaginary_value(&last)) {
            (Some(re), Some(im)) => Some(Literal { re, im }),
            _ => None,
        }
    } else {
        None
    }
}

/// Reads a literal from its characters.
pub fn literal_of(chars: &Vec<char>) -> (r: Option<Literal>)
    ensures
        match r {
            Some(l) => literal(chars@) == Some(l@),
            None => literal(chars@) is None,
        },
{
    match bracket_of(chars) {
        Some(l) => Some(l),
        None => standard_of(chars),
    }
}

/// Reads a literal in bracket form, `{re, im}`.
pub fn from_bracket_form(s: &str) -> (r: Option<Literal>)
    ensures
        match r {
            Some(l) => bracket_form(s@) == Some(l@),
            None => bracket_form(s@) is None,
        },
{
    bracket_of(&chars_of(s))
}

/// Reads a literal in standard form, with or without braces around it.
pub fn from_standard_form(s: &str) -> (r: Option<Literal>)
    ensures
        match r {
            Some(l) => standard_form(s@) == Some(l@),
            None => standard_form(s@) is None,
        },
{
    standard_of(&chars_of(s))
}

/// Reads a literal: bracket form first, standard form if that fails. A text
/// that is neither is handed back in the error.
pub fn from_str(s: &str) -> (r: Result<Literal, ParseError>)
    ensures
        match r {
            Ok(l) => literal(s@) == Some(l@) && is_number(l.re@) && is_number(l.im@),
            Err(e) => literal(s@) is None && e.text@ == s@,
        },
{
    proof {
        literal_parts_are_numbers(s@);
    }
    match literal_of(&chars_of(s)) {
        Some(l) => Ok(l),
        None => Err(ParseError { text: s.to_owned() }),
    }
}

} // verus!
