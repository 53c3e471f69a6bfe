//! Reading back what was written: the notation that shows a complex number
//! is a literal, and reading it gives the digits back, and with them the
//! number, whatever turns digits into numbers so long as it gives each part
//! back from its own digits. The same holds of the bracket form.

use vstd::prelude::*;
use crate::binary64::{Binary64, ONE_BITS, SIGN_BIT};
use crate::complex::{imaginary_text, standard_text, Complex};
use crate::format::{
    exponential_form, formatted, strip_end, stripped_is_a_prefix, tidied, Rendering,
};
use crate::parse_complex::{
    braced, bracket_form, imaginary_text as imaginary_digits, is_decimal, is_number, is_sign,
    joined, literal, marked, next_sign, normalized, real_text, restored, scan_digits,
    skip_digits, unsigned, LiteralView,
};
use crate::text::{
    chars_of, find, find_char, is_digit, is_whitespace, lower, lowered, skip_whitespace,
    skip_whitespace_back, slice, squeezed, trimmed,
};

verus! {

/// The digits of a number as a machine prints them: a decimal without sign,
/// the letter of its exponent in lower case.
pub open spec fn is_plain(s: Seq<char>) -> bool {
    is_decimal(s) && forall|k: int| 0 <= k < s.len() ==> s[k] != 'E'
}

/// A character that the digits of a number can hold at position `k`: a
/// digit, the point, the letter of the exponent, or a sign right behind
/// that letter.
spec fn plain_char(s: Seq<char>, k: int) -> bool {
    is_digit(s[k]) || s[k] == '.' || s[k] == 'e' || (k > 0 && s[k - 1] == 'e' && is_sign(s[k]))
}

/// A character of digits whose exponent sign is marked.
spec fn marked_char(c: char) -> bool {
    is_digit(c) || c == '.' || c == 'e' || c == 'M' || c == 'P'
}

proof fn skip_digits_range(s: Seq<char>, from: int)
    requires
        0 <= from <= s.len(),
    ensures
        from <= skip_digits(s, from) <= s.len(),
        forall|k: int| from <= k < skip_digits(s, from) ==> is_digit(#[trigger] s[k]),
    decreases s.len() - from,
{
    if from < s.len() && is_digit(s[from]) {
        skip_digits_range(s, from + 1);
    }
}

/// Plain digits begin with a digit or a point and hold nothing but digits,
/// a point, the letter `e` and a sign right behind it.
proof fn plain_shape(s: Seq<char>)
    requires
        is_plain(s),
    ensures
        s.len() > 0,
        is_digit(s[0]) || s[0] == '.',
        forall|k: int| 0 <= k < s.len() ==> plain_char(s, k),
{
    skip_digits_range(s, 0);
    let point = skip_digits(s, 0);
    let has_point = point < s.len() && s[point] == '.';
    if has_point {
        skip_digits_range(s, point + 1);
    }
    let mantissa_end = if has_point {
        skip_digits(s, point + 1)
    } else {
        point
    };
    if mantissa_end < s.len() {
        let exponent = if mantissa_end + 1 < s.len() && is_sign(s[mantissa_end + 1]) {
            mantissa_end + 2
        } else {
            mantissa_end + 1
        };
        skip_digits_range(s, exponent);
        assert(s[mantissa_end] == 'e');
    }
    assert forall|k: int| 0 <= k < s.len() implies plain_char(s, k) by {
        if k < point {
        } else if has_point && k == point {
        } else if k < mantissa_end {
        } else if k == mantissa_end {
        } else if k == mantissa_end + 1 {
        } else {
        }
    }
}

proof fn find_absent(s: Seq<char>, c: char, from: int)
    requires
        0 <= from <= s.len(),
        forall|k: int| from <= k < s.len() ==> s[k] != c,
    ensures
        find(s, c, from) == s.len(),
    decreases s.len() - from,
{
    if from < s.len() {
        find_absent(s, c, from + 1);
    }
}

proof fn find_present(s: Seq<char>, c: char, from: int, at: int)
    requires
        0 <= from <= at < s.len(),
        s[at] == c,
    ensures
        find(s, c, from) <= at,
    decreases s.len() - from,
{
    if from < at && s[from] != c {
        find_present(s, c, from + 1, at);
    }
}

proof fn next_sign_at(s: Seq<char>, from: int, at: int)
    requires
        0 <= from <= at <= s.len(),
        forall|k: int| from <= k < at ==> !is_sign(#[trigger] s[k]),
        at < s.len() ==> is_sign(s[at]),
    ensures
        next_sign(s, from) == at,
    decreases at - from,
{
    if from < at {
        next_sign_at(s, from + 1, at);
    }
}

proof fn squeezed_concat(a: Seq<char>, b: Seq<char>)
    ensures
        squeezed(a + b) == squeezed(a) + squeezed(b),
    decreases b.len(),
{
    if b.len() == 0 {
        assert(a + b =~= a);
        assert(squeezed(a) + squeezed(b) =~= squeezed(a));
    } else {
        squeezed_concat(a, b.drop_last());
        assert((a + b).drop_last() =~= a + b.drop_last());
        assert((a + b).last() == b.last());
        if !is_whitespace(b.last()) {
            assert((squeezed(a) + squeezed(b.drop_last())).push(b.last()) =~= squeezed(a)
                + squeezed(b.drop_last()).push(b.last()));
        }
    }
}

proof fn squeezed_clean(s: Seq<char>)
    requires
        forall|k: int| 0 <= k < s.len() ==> !is_whitespace(#[trigger] s[k]),
    ensures
        squeezed(s) == s,
    decreases s.len(),
{
    if s.len() > 0 {
        squeezed_clean(s.drop_last());
        assert(s.drop_last().push(s.last()) =~= s);
    }
}

proof fn joined_clean(s: Seq<char>, n: int)
    requires
        0 <= n <= s.len(),
        forall|k: int| 0 <= k < s.len() - 1 ==> !(#[trigger] s[k] == '+' && s[k + 1] == '-'),
    ensures
        joined(s, n) == s.take(n),
    decreases n,
{
    if n > 0 {
        joined_clean(s, n - 1);
        assert(s.take(n - 1).push(s[n - 1]) =~= s.take(n));
    } else {
        assert(s.take(0) =~= Seq::<char>::empty());
    }
}

/// The sign that may stand before the digits of a term: none, or one sign.
spec fn is_sign_part(s: Seq<char>) -> bool {
    s.len() == 0 || (s.len() == 1 && is_sign(s[0]))
}

/// The operator between two terms with a blank on either side, or nothing.
spec fn is_gap(s: Seq<char>) -> bool {
    s.len() == 0 || (s.len() == 3 && s[0] == ' ' && is_sign(s[1]) && s[2] == ' ')
}

/// The final `i` of an imaginary term, or nothing.
spec fn is_tail(s: Seq<char>) -> bool {
    s.len() == 0 || s == seq!['i']
}

/// Plain digits, or none at all.
spec fn is_body(s: Seq<char>) -> bool {
    s.len() == 0 || is_plain(s)
}

/// Marking leaves plain digits as long as they were, touches nothing but
/// the sign of their exponent, and is undone by restoring.
proof fn marked_body(body: Seq<char>)
    requires
        is_body(body),
    ensures
        lowered(body) == body,
        marked(body).len() == body.len(),
        forall|k: int| 0 <= k < body.len() ==> marked_char(#[trigger] marked(body)[k]),
        body.len() > 0 ==> marked(body)[0] == body[0] && (is_digit(body[0]) || body[0] == '.'),
        restored(marked(body)) == body,
{
    if body.len() > 0 {
        plain_shape(body);
        assert forall|k: int| 0 <= k < body.len() implies marked_char(#[trigger] marked(body)[k])
            && restored(marked(body))[k] == body[k] by {
            assert(plain_char(body, k));
        }
        assert forall|k: int| 0 <= k < body.len() implies #[trigger] lowered(body)[k]
            == body[k] by {
            assert(plain_char(body, k));
        }
    }
    assert(lowered(body) =~= body);
    assert(restored(marked(body)) =~= body);
}

/// What is left of a gap without its blanks.
spec fn operator_of(gap: Seq<char>) -> Seq<char> {
    if gap.len() == 0 {
        gap
    } else {
        seq![gap[1]]
    }
}

proof fn squeezed_gap(gap: Seq<char>)
    requires
        is_gap(gap),
    ensures
        squeezed(gap) == operator_of(gap),
{
    reveal_with_fuel(squeezed, 4);
    if gap.len() > 0 {
        assert(is_whitespace(' '));
        assert(!is_whitespace(gap[1]));
        assert(gap.drop_last().drop_last().drop_last() =~= Seq::<char>::empty());
        assert(squeezed(gap) =~= seq![gap[1]]);
    }
}

/// The text of one or two terms as it is written, from its five parts.
spec fn written(
    sign: Seq<char>,
    body: Seq<char>,
    gap: Seq<char>,
    second: Seq<char>,
    tail: Seq<char>,
) -> Seq<char> {
    sign + body + gap + second + tail
}

/// The same text made ready for splitting.
spec fn readied(
    sign: Seq<char>,
    body: Seq<char>,
    gap: Seq<char>,
    second: Seq<char>,
    tail: Seq<char>,
) -> Seq<char> {
    sign + marked(body) + operator_of(gap) + marked(second) + tail
}

/// Making a written text ready for splitting marks the exponent signs of
/// its digits, drops the blanks around the operator and changes nothing
/// else.
#[verifier::spinoff_prover]
#[verifier::rlimit(40)]
proof fn normalized_written(
    sign: Seq<char>,
    body: Seq<char>,
    gap: Seq<char>,
    second: Seq<char>,
    tail: Seq<char>,
)
    requires
        is_sign_part(sign),
        is_body(body),
        is_gap(gap),
        is_body(second),
        is_tail(tail),
        gap.len() > 0 ==> body.len() > 0,
        gap.len() == 0 ==> second.len() == 0,
    ensures
        normalized(written(sign, body, gap, second, tail)) == readied(sign, body, gap, second, tail),
{
    let x = written(sign, body, gap, second, tail);
    let a = sign.len() as int;
    let b = a + body.len();
    let c = b + gap.len();
    let d = c + second.len();
    marked_body(body);
    marked_body(second);
    if body.len() > 0 {
        plain_shape(body);
    }
    if second.len() > 0 {
        plain_shape(second);
    }
    let m = sign + marked(body) + gap + marked(second) + tail;
    assert(x.len() == d + tail.len());
    assert forall|k: int| 0 <= k < x.len() implies lower(#[trigger] x[k]) == x[k] by {
        if k < a {
        } else if k < b {
            assert(x[k] == body[k - a]);
            assert(plain_char(body, k - a));
        } else if k < c {
            assert(x[k] == gap[k - b]);
        } else if k < d {
            assert(x[k] == second[k - c]);
            assert(plain_char(second, k - c));
        } else {
            assert(x[k] == tail[k - d]);
        }
    }
    assert(lowered(x) =~= x);
    assert forall|k: int| 0 <= k < x.len() implies marked(x)[k] == m[k] by {
        if k < a {
        } else if k < b {
            assert(x[k] == body[k - a]);
            assert(m[k] == marked(body)[k - a]);
            if k > a {
                assert(x[k - 1] == body[k - a - 1]);
            }
        } else if k < c {
            assert(x[k] == gap[k - b]);
            if k > b {
                assert(x[k - 1] == gap[k - b - 1]);
            }
        } else if k < d {
            assert(x[k] == second[k - c]);
            assert(m[k] == marked(second)[k - c]);
            if k > c {
                assert(x[k - 1] == second[k - c - 1]);
            }
        } else {
            assert(x[k] == tail[k - d]);
        }
    }
    assert(marked(x) =~= m);
    squeezed_concat(sign + marked(body) + gap + marked(second), tail);
    squeezed_concat(sign + marked(body) + gap, marked(second));
    squeezed_concat(sign + marked(body), gap);
    squeezed_concat(sign, marked(body));
    squeezed_clean(sign);
    squeezed_clean(marked(body));
    squeezed_clean(marked(second));
    squeezed_clean(tail);
    squeezed_gap(gap);
    let t = readied(sign, body, gap, second, tail);
    assert(squeezed(m) == t);
    let o = operator_of(gap);
    let b2 = a + body.len();
    let c2 = b2 + o.len();
    let d2 = c2 + second.len();
    assert forall|k: int| 0 <= k < t.len() - 1 implies !(#[trigger] t[k] == '+' && t[k + 1] == '-') by {
        if k < a {
            if body.len() > 0 {
                assert(t[k + 1] == marked(body)[0]);
            } else {
                assert(t[k + 1] == tail[0]);
            }
        } else if k < b2 {
            assert(t[k] == marked(body)[k - a]);
        } else if k < c2 {
            if second.len() > 0 {
                assert(t[k + 1] == marked(second)[0]);
            } else {
                assert(t[k + 1] == tail[0]);
            }
        } else if k < d2 {
            assert(t[k] == marked(second)[k - c2]);
        } else {
        }
    }
    joined_clean(t, t.len() as int);
    assert(t.take(t.len() as int) =~= t);
}

/// A text in braces, with no white space outside them, is what stands
/// between them.
proof fn braces_around(x: Seq<char>)
    ensures
        braced(seq!['{'] + x + seq!['}']) == Some(x),
{
    let s = seq!['{'] + x + seq!['}'];
    assert(!is_whitespace('{') && !is_whitespace('}'));
    assert(s[0] == '{');
    assert(s.last() == '}');
    assert(skip_whitespace(s, 0) == 0);
    assert(skip_whitespace_back(s, 0, s.len() as int) == s.len());
    assert(trimmed(s) =~= s);
    assert(s.subrange(1, s.len() - 1) =~= x);
}

/// A signed run of plain digits is a number, and taking the mark off its
/// exponent sign gives it back.
proof fn restored_term(sign: Seq<char>, body: Seq<char>)
    requires
        is_sign_part(sign),
        is_plain(body),
    ensures
        real_text(sign + marked(body)) == Some(sign + body),
{
    marked_body(body);
    plain_shape(body);
    let t = sign + marked(body);
    assert forall|k: int| 0 <= k < t.len() implies #[trigger] restored(t)[k] == (sign + body)[k] by {
        if k >= sign.len() {
            assert(t[k] == marked(body)[k - sign.len()]);
            assert(restored(marked(body))[k - sign.len()] == body[k - sign.len()]);
        }
    }
    assert(restored(t) =~= sign + body);
    assert(unsigned(sign + body) =~= body);
}

/// No sign stands in a term behind its first character.
proof fn term_has_no_inner_sign(sign: Seq<char>, body: Seq<char>, tail: Seq<char>, from: int)
    requires
        is_sign_part(sign),
        is_body(body),
        is_tail(tail),
        sign.len() <= from <= (sign + marked(body) + tail).len(),
    ensures
        next_sign(sign + marked(body) + tail, from) == (sign + marked(body) + tail).len(),
{
    marked_body(body);
    let t = sign + marked(body) + tail;
    assert forall|k: int| from <= k < t.len() implies !is_sign(#[trigger] t[k]) by {
        if k < sign.len() + body.len() {
            assert(t[k] == marked(body)[k - sign.len()]);
        } else {
            assert(t[k] == tail[k - sign.len() - body.len()]);
        }
    }
    next_sign_at(t, from, t.len() as int);
}

/// The digits that reading finds in an imaginary term: one where the term
/// is the bare letter, the signed digits where there are some.
spec fn imaginary_read(sign: Seq<char>, body: Seq<char>) -> Seq<char> {
    if body.len() > 0 {
        sign + body
    } else if sign == seq!['-'] {
        seq!['-', '1']
    } else {
        seq!['1']
    }
}

proof fn reads_imaginary_term(sign: Seq<char>, body: Seq<char>)
    requires
        is_sign_part(sign),
        is_body(body),
    ensures
        imaginary_digits(sign + marked(body) + seq!['i']) == Some(imaginary_read(sign, body)),
{
    marked_body(body);
    let t = sign + marked(body) + seq!['i'];
    assert(t.last() == 'i');
    if body.len() > 0 {
        restored_term(sign, body);
        assert(t.drop_last() =~= sign + marked(body));
        assert(t != seq!['i']) by {
            assert(seq!['i'].len() == 1);
        }
        if sign.len() > 0 {
            assert(t.len() >= 3);
            assert(seq!['+', 'i'].len() == 2);
            assert(seq!['-', 'i'].len() == 2);
        } else {
            assert(t[0] == marked(body)[0]);
            assert(seq!['+', 'i'][0] == '+');
            assert(seq!['-', 'i'][0] == '-');
        }
    } else {
        assert(marked(body) =~= Seq::<char>::empty());
        if sign.len() == 0 {
            assert(t =~= seq!['i']);
        } else if sign[0] == '-' {
            assert(t =~= seq!['-', 'i']);
            assert(sign =~= seq!['-']);
            assert(seq!['-', 'i'] != seq!['i']) by {
                assert(seq!['i'].len() == 1);
            }
            assert(seq!['-', 'i'] != seq!['+', 'i']) by {
                assert(seq!['+', 'i'][0] == '+');
            }
        } else {
            assert(t =~= seq!['+', 'i']);
            assert(sign != seq!['-']) by {
                assert(seq!['-'][0] == '-');
            }
        }
    }
}

/// What reading finds in a written text: in a single term, real or
/// imaginary, its digits and zero for the other part; in two terms, the
/// digits of each, those of the second under the sign of the operator.
spec fn read(
    sign: Seq<char>,
    body: Seq<char>,
    gap: Seq<char>,
    second: Seq<char>,
    tail: Seq<char>,
) -> LiteralView {
    if gap.len() > 0 {
        LiteralView { re: sign + body, im: imaginary_read(operator_of(gap), second) }
    } else if tail.len() > 0 {
        LiteralView { re: seq!['0'], im: imaginary_read(sign, body) }
    } else {
        LiteralView { re: sign + body, im: seq!['0'] }
    }
}

/// No comma stands in a written text.
proof fn written_has_no_comma(
    sign: Seq<char>,
    body: Seq<char>,
    gap: Seq<char>,
    second: Seq<char>,
    tail: Seq<char>,
)
    requires
        is_sign_part(sign),
        is_body(body),
        is_gap(gap),
        is_body(second),
        is_tail(tail),
    ensures
        find(written(sign, body, gap, second, tail), ',', 0) == written(
            sign,
            body,
            gap,
            second,
            tail,
        ).len(),
{
    let x = written(sign, body, gap, second, tail);
    if body.len() > 0 {
        plain_shape(body);
    }
    if second.len() > 0 {
        plain_shape(second);
    }
    let a = sign.len() as int;
    let b = a + body.len();
    let c = b + gap.len();
    let d = c + second.len();
    assert forall|k: int| 0 <= k < x.len() implies x[k] != ',' by {
        if k < a {
        } else if k < b {
            assert(x[k] == body[k - a]);
            assert(plain_char(body, k - a));
        } else if k < c {
            assert(x[k] == gap[k - b]);
        } else if k < d {
            assert(x[k] == second[k - c]);
            assert(plain_char(second, k - c));
        } else {
            assert(x[k] == tail[k - d]);
        }
    }
    find_absent(x, ',', 0);
}

/// A text of two terms splits at its operator, and each term reads as its
/// digits.
#[verifier::spinoff_prover]
#[verifier::rlimit(40)]
proof fn splits_in_two(sign: Seq<char>, body: Seq<char>, operator: char, second: Seq<char>)
    requires
        is_sign_part(sign),
        is_plain(body),
        is_sign(operator),
        is_body(second),
    ensures
        ({
            let t = sign + marked(body) + seq![operator] + marked(second) + seq!['i'];
            let at = (sign.len() + body.len()) as int;
            &&& next_sign(t, 1) == at
            &&& at < t.len()
            &&& next_sign(t, at + 1) == t.len()
            &&& real_text(t.subrange(0, at)) == Some(sign + body)
            &&& imaginary_digits(t.subrange(at, t.len() as int)) == Some(
                imaginary_read(seq![operator], second),
            )
        }),
{
    let o = seq![operator];
    let i = seq!['i'];
    let t = sign + marked(body) + o + marked(second) + i;
    let head = sign + marked(body);
    let rest = o + marked(second) + i;
    let a = sign.len() as int;
    let b = a + body.len();
    marked_body(body);
    marked_body(second);
    assert(t =~= head + rest);
    assert forall|k: int| 1 <= k < b implies !is_sign(#[trigger] t[k]) by {
        if k >= a {
            assert(t[k] == marked(body)[k - a]);
        }
    }
    assert(t[b] == operator);
    next_sign_at(t, 1, b);
    assert forall|k: int| b + 1 <= k < t.len() implies !is_sign(#[trigger] t[k]) by {
        assert(t[k] == rest[k - b]);
        if k - b < 1 + second.len() {
            assert(rest[k - b] == marked(second)[k - b - 1]);
        } else {
            assert(rest[k - b] == i[k - b - 1 - second.len()]);
        }
    }
    next_sign_at(t, b + 1, t.len() as int);
    assert(t.subrange(0, b) =~= head);
    assert(t.subrange(b, t.len() as int) =~= rest);
    restored_term(sign, body);
    reads_imaginary_term(o, second);
}

/// A single imaginary term reads as its digits.
proof fn imaginary_alone(sign: Seq<char>, body: Seq<char>)
    requires
        is_sign_part(sign),
        is_body(body),
    ensures
        ({
            let t = sign + marked(body) + seq!['i'];
            &&& next_sign(t, 1) >= t.len()
            &&& find(t, 'i', 0) < t.len()
            &&& imaginary_digits(t) == Some(imaginary_read(sign, body))
        }),
{
    let t = sign + marked(body) + seq!['i'];
    term_has_no_inner_sign(sign, body, seq!['i'], 1);
    find_present(t, 'i', 0, t.len() - 1);
    reads_imaginary_term(sign, body);
}

/// A single real term reads as its digits.
proof fn real_alone(sign: Seq<char>, body: Seq<char>)
    requires
        is_sign_part(sign),
        is_plain(body),
    ensures
        ({
            let t = sign + marked(body);
            &&& t.len() > 0
            &&& next_sign(t, 1) >= t.len()
            &&& find(t, 'i', 0) == t.len()
            &&& real_text(t) == Some(sign + body)
        }),
{
    let t = sign + marked(body);
    let nothing = Seq::<char>::empty();
    marked_body(body);
    plain_shape(body);
    assert(t =~= sign + marked(body) + nothing);
    term_has_no_inner_sign(sign, body, nothing, 1);
    assert forall|k: int| 0 <= k < t.len() implies t[k] != 'i' by {
        if k >= sign.len() {
            assert(t[k] == marked(body)[k - sign.len()]);
        }
    }
    find_absent(t, 'i', 0);
    restored_term(sign, body);
}

/// A written text in braces is a literal, and reading finds in it what
/// [`read`] says.
#[verifier::spinoff_prover]
#[verifier::rlimit(40)]
proof fn reads_written(
    sign: Seq<char>,
    body: Seq<char>,
    gap: Seq<char>,
    second: Seq<char>,
    tail: Seq<char>,
)
    requires
        is_sign_part(sign),
        is_body(body),
        is_gap(gap),
        is_body(second),
        is_tail(tail),
        gap.len() > 0 ==> body.len() > 0 && tail.len() > 0,
        gap.len() == 0 ==> second.len() == 0,
        tail.len() == 0 ==> body.len() > 0,
    ensures
        literal(seq!['{'] + written(sign, body, gap, second, tail) + seq!['}']) == Some(
            read(sign, body, gap, second, tail),
        ),
{
    let x = written(sign, body, gap, second, tail);
    let s = seq!['{'] + x + seq!['}'];
    let t = readied(sign, body, gap, second, tail);
    braces_around(x);
    normalized_written(sign, body, gap, second, tail);
    written_has_no_comma(sign, body, gap, second, tail);
    assert(bracket_form(s) is None);
    if gap.len() > 0 {
        assert(tail =~= seq!['i']);
        assert(operator_of(gap) =~= seq![gap[1]]);
        splits_in_two(sign, body, gap[1], second);
        assert(t =~= sign + marked(body) + seq![gap[1]] + marked(second) + seq!['i']);
    } else if tail.len() > 0 {
        assert(tail =~= seq!['i']);
        assert(marked(second) =~= Seq::<char>::empty());
        imaginary_alone(sign, body);
        assert(t =~= sign + marked(body) + seq!['i']);
    } else {
        assert(marked(second) =~= Seq::<char>::empty());
        real_alone(sign, body);
        assert(t =~= sign + marked(body));
    }
}

/// The digits of a finite number as a machine prints them: plain digits,
/// with a minus sign before them if the number is negative.
pub open spec fn is_printed(s: Seq<char>) -> bool {
    is_plain(unsigned(s)) && s[0] != '+'
}

/// The sign before printed digits.
spec fn sign_of(s: Seq<char>) -> Seq<char> {
    if s.len() > 0 && is_sign(s[0]) {
        seq![s[0]]
    } else {
        Seq::empty()
    }
}

/// What reading finds in the standard notation of `c`, written with the
/// digits `re` for the real part and `im` for the imaginary part as shown:
/// the digits of a part that is written, zero for one that is not, one for
/// a bare `i`; and where both parts are written, the digits of the
/// imaginary part under the sign that stood between the two.
pub open spec fn read_back(c: Complex, re: Seq<char>, im: Seq<char>) -> LiteralView {
    if c.im.is_zero() {
        LiteralView { re, im: seq!['0'] }
    } else if c.re.is_zero() {
        LiteralView {
            re: seq!['0'],
            im: if c.im.bits == ONE_BITS {
                seq!['1']
            } else if c.im.bits == ONE_BITS + SIGN_BIT {
                seq!['-', '1']
            } else {
                im
            },
        }
    } else if c.im.is_negative() {
        LiteralView {
            re,
            im: if c.shown_imaginary().bits == ONE_BITS {
                seq!['-', '1']
            } else {
                seq!['-'] + im
            },
        }
    } else {
        LiteralView {
            re,
            im: if c.shown_imaginary().bits == ONE_BITS {
                seq!['1']
            } else {
                seq!['+'] + im
            },
        }
    }
}

proof fn printed_parts(s: Seq<char>)
    requires
        is_printed(s),
    ensures
        is_sign_part(sign_of(s)),
        is_plain(unsigned(s)),
        s == sign_of(s) + unsigned(s),
        sign_of(s).len() > 0 ==> sign_of(s) == seq!['-'],
        !is_sign(s[0]) ==> unsigned(s) == s,
{
    plain_shape(unsigned(s));
    assert(s =~= sign_of(s) + unsigned(s));
    if sign_of(s).len() > 0 {
        assert(sign_of(s) =~= seq!['-']);
    }
}

proof fn real_alone_reads_back(c: Complex, re: Seq<char>, im: Seq<char>)
    requires
        is_printed(re),
        c.im.is_zero(),
    ensures
        literal(standard_text(c, re, im)) == Some(LiteralView { re, im: seq!['0'] }),
{
    let nothing = Seq::<char>::empty();
    printed_parts(re);
    let w = written(sign_of(re), unsigned(re), nothing, nothing, nothing);
    reads_written(sign_of(re), unsigned(re), nothing, nothing, nothing);
    assert(w =~= re);
    assert(standard_text(c, re, im) =~= seq!['{'] + w + seq!['}']);
}

proof fn imaginary_alone_reads_back(c: Complex, re: Seq<char>, im: Seq<char>)
    requires
        is_printed(im),
        !c.im.is_zero(),
        c.re.is_zero(),
    ensures
        literal(standard_text(c, re, im)) == Some(read_back(c, re, im)),
{
    let nothing = Seq::<char>::empty();
    let i = seq!['i'];
    let shown = imaginary_text(c.im, im);
    assert(standard_text(c, re, im) == seq!['{'] + shown + seq!['}']);
    if c.im.bits == ONE_BITS {
        let w = written(nothing, nothing, nothing, nothing, i);
        reads_written(nothing, nothing, nothing, nothing, i);
        assert(w =~= shown);
        assert(nothing != seq!['-']) by {
            assert(seq!['-'].len() == 1);
        }
    } else if c.im.bits == ONE_BITS + SIGN_BIT {
        let minus = seq!['-'];
        let w = written(minus, nothing, nothing, nothing, i);
        reads_written(minus, nothing, nothing, nothing, i);
        assert(w =~= shown);
    } else {
        printed_parts(im);
        let w = written(sign_of(im), unsigned(im), nothing, nothing, i);
        reads_written(sign_of(im), unsigned(im), nothing, nothing, i);
        assert(w =~= shown);
    }
}

proof fn both_read_back(re: Seq<char>, im: Seq<char>, operator: char, unit: bool)
    requires
        is_printed(re),
        is_printed(im),
        !is_sign(im[0]),
        is_sign(operator),
    ensures
        literal(
            seq!['{'] + re + seq![' ', operator, ' '] + (if unit {
                seq!['i']
            } else {
                im.push('i')
            }) + seq!['}'],
        ) == Some(
            LiteralView {
                re,
                im: if !unit {
                    seq![operator] + im
                } else if operator == '-' {
                    seq!['-', '1']
                } else {
                    seq!['1']
                },
            },
        ),
{
    let nothing = Seq::<char>::empty();
    let i = seq!['i'];
    let gap = seq![' ', operator, ' '];
    printed_parts(re);
    printed_parts(im);
    assert(operator_of(gap) =~= seq![operator]);
    let second = if unit {
        nothing
    } else {
        im
    };
    let w = written(sign_of(re), unsigned(re), gap, second, i);
    reads_written(sign_of(re), unsigned(re), gap, second, i);
    let shown = if unit {
        seq!['i']
    } else {
        im.push('i')
    };
    assert(w =~= re + gap + shown);
    assert(seq!['{'] + re + gap + shown + seq!['}'] =~= seq!['{'] + w + seq!['}']);
    if operator == '-' {
        assert(seq![operator] =~= seq!['-']);
    } else {
        assert(seq![operator] != seq!['-']) by {
            assert(seq![operator][0] == '+');
        }
    }
}

/// The standard notation of a complex number is a literal, and reading it
/// gives the digits back from which it was written. The digits are taken as
/// a machine prints those of finite numbers; where both parts are written,
/// those of the imaginary part carry no sign of their own, its sign being
/// the operator between the parts.
pub proof fn written_reads_back(c: Complex, re: Seq<char>, im: Seq<char>)
    requires
        is_printed(re),
        is_printed(im),
        !c.re.is_zero() && !c.im.is_zero() ==> !is_sign(im[0]),
    ensures
        literal(standard_text(c, re, im)) == Some(read_back(c, re, im)),
{
    if c.im.is_zero() {
        real_alone_reads_back(c, re, im);
    } else if c.re.is_zero() {
        imaginary_alone_reads_back(c, re, im);
    } else if c.im.is_negative() {
        both_read_back(re, im, '-', c.shown_imaginary().bits == ONE_BITS);
    } else {
        both_read_back(re, im, '+', c.shown_imaginary().bits == ONE_BITS);
    }
}

/// A decimal, with its exponent letter in either case, holds nothing but
/// digits, a point, that letter and a sign.
proof fn decimal_chars(s: Seq<char>)
    requires
        is_decimal(s),
    ensures
        s.len() > 0,
        forall|k: int|
            0 <= k < s.len() ==> is_digit(#[trigger] s[k]) || s[k] == '.' || s[k] == 'e' || s[k]
                == 'E' || is_sign(s[k]),
{
    skip_digits_range(s, 0);
    let point = skip_digits(s, 0);
    let has_point = point < s.len() && s[point] == '.';
    if has_point {
        skip_digits_range(s, point + 1);
    }
    let mantissa_end = if has_point {
        skip_digits(s, point + 1)
    } else {
        point
    };
    if mantissa_end < s.len() {
        let exponent = if mantissa_end + 1 < s.len() && is_sign(s[mantissa_end + 1]) {
            mantissa_end + 2
        } else {
            mantissa_end + 1
        };
        skip_digits_range(s, exponent);
        assert(lower(s[mantissa_end]) == 'e');
    }
    assert forall|k: int| 0 <= k < s.len() implies is_digit(#[trigger] s[k]) || s[k] == '.'
        || s[k] == 'e' || s[k] == 'E' || is_sign(s[k]) by {
        if k < point {
        } else if has_point && k == point {
        } else if k < mantissa_end {
        } else if k == mantissa_end {
        } else if k == mantissa_end + 1 {
        } else {
        }
    }
}

/// The spelling of a number is not empty and holds neither white space nor
/// a comma.
#[verifier::spinoff_prover]
#[verifier::rlimit(40)]
proof fn number_chars(s: Seq<char>)
    requires
        is_number(s),
    ensures
        s.len() > 0,
        forall|k: int| 0 <= k < s.len() ==> !is_whitespace(#[trigger] s[k]) && s[k] != ',',
{
    let body = unsigned(s);
    let word = lowered(body);
    if is_decimal(body) {
        decimal_chars(body);
    }
    assert(seq!['i', 'n', 'f'].len() == 3);
    assert(seq!['i', 'n', 'f', 'i', 'n', 'i', 't', 'y'].len() == 8);
    assert(seq!['n', 'a', 'n'].len() == 3);
    assert forall|j: int| 0 <= j < body.len() implies !is_whitespace(#[trigger] body[j])
        && body[j] != ',' by {
        if !is_decimal(body) {
            assert(word[j] == lower(body[j]));
            assert('a' <= word[j] <= 'z');
        }
    }
    assert forall|k: int| 0 <= k < s.len() implies !is_whitespace(#[trigger] s[k]) && s[k]
        != ',' by {
        if body.len() == s.len() {
            assert(s[k] == body[k]);
        } else if k > 0 {
            assert(s[k] == body[k - 1]);
        }
    }
}

/// A text without white space at its ends is trimmed already.
proof fn trimmed_clean(s: Seq<char>)
    requires
        s.len() > 0,
        !is_whitespace(s[0]),
        !is_whitespace(s.last()),
    ensures
        trimmed(s) == s,
{
    assert(skip_whitespace(s, 0) == 0);
    assert(skip_whitespace_back(s, 0, s.len() as int) == s.len());
    assert(s.subrange(0, s.len() as int) =~= s);
}

proof fn find_at(s: Seq<char>, c: char, from: int, at: int)
    requires
        0 <= from <= at < s.len(),
        forall|k: int| from <= k < at ==> s[k] != c,
        s[at] == c,
    ensures
        find(s, c, from) == at,
    decreases at - from,
{
    if from < at {
        find_at(s, c, from + 1, at);
    }
}

/// Two numbers in braces, with a comma and a blank between them, are a
/// literal in bracket form, and reading it gives both spellings back as
/// they stand.
#[verifier::spinoff_prover]
#[verifier::rlimit(40)]
pub proof fn pair_reads_back(re: Seq<char>, im: Seq<char>)
    requires
        is_number(re),
        is_number(im),
    ensures
        literal(seq!['{'] + re + seq![',', ' '] + im + seq!['}']) == Some(LiteralView { re, im }),
{
    number_chars(re);
    number_chars(im);
    let x = re + seq![',', ' '] + im;
    let s = seq!['{'] + x + seq!['}'];
    assert(s =~= seq!['{'] + re + seq![',', ' '] + im + seq!['}']);
    braces_around(x);
    let comma = re.len() as int;
    assert forall|k: int| 0 <= k < comma implies x[k] != ',' by {
        assert(x[k] == re[k]);
    }
    assert(x[comma] == ',');
    find_at(x, ',', 0, comma);
    assert forall|k: int| comma + 1 <= k < x.len() implies x[k] != ',' by {
        if k > comma + 1 {
            assert(x[k] == im[k - comma - 2]);
        }
    }
    find_absent(x, ',', comma + 1);
    assert(x.subrange(0, comma) =~= re);
    trimmed_clean(re);
    let second = x.subrange(comma + 1, x.len() as int);
    assert(second =~= seq![' '] + im);
    assert(is_whitespace(' '));
    assert(second[0] == ' ');
    assert(second[1] == im[0]);
    assert(second.last() == im.last());
    reveal_with_fuel(skip_whitespace, 3);
    assert(skip_whitespace(second, 0) == 1);
    assert(skip_whitespace_back(second, 1, second.len() as int) == second.len());
    assert(second.subrange(1, second.len() as int) =~= im);
    assert(trimmed(second) == im);
}

/// Reading gives the number back. Let `denote` be any way of turning digits
/// into numbers that gives each part of `c` back from the digits it was
/// written with, reads a sign before those digits as the sign of the
/// number, and reads `0`, `1` and `-1` as what they are. Then the standard
/// notation of `c` is a literal, and its two parts denote the parts of `c`.
/// The digits are taken as a machine prints those of finite numbers, those
/// of the imaginary part as it is shown.
pub proof fn number_reads_back(
    c: Complex,
    re: Seq<char>,
    im: Seq<char>,
    denote: spec_fn(Seq<char>) -> Binary64,
)
    requires
        is_printed(re),
        is_printed(im),
        !c.re.is_zero() && !c.im.is_zero() ==> !is_sign(im[0]),
        denote(re).equals(c.re),
        denote(im).equals(c.shown_imaginary()),
        denote(seq!['-'] + im) == denote(im).negated(),
        denote(seq!['+'] + im) == denote(im),
        denote(seq!['0']).is_zero(),
        denote(seq!['1']).bits == ONE_BITS,
        denote(seq!['-', '1']).bits == ONE_BITS + SIGN_BIT,
    ensures
        match literal(standard_text(c, re, im)) {
            Some(l) => denote(l.re).equals(c.re) && denote(l.im).equals(c.im),
            None => false,
        },
{
    written_reads_back(c, re, im);
}

/// The same for the bracket form: the literal that holds the digits of both
/// parts with a comma between them has parts that denote the parts of `c`,
/// whenever the digits themselves do.
pub proof fn pair_of_numbers_reads_back(
    c: Complex,
    re: Seq<char>,
    im: Seq<char>,
    denote: spec_fn(Seq<char>) -> Binary64,
)
    requires
        is_number(re),
        is_number(im),
        denote(re).equals(c.re),
        denote(im).equals(c.im),
    ensures
        match literal(seq!['{'] + re + seq![',', ' '] + im + seq!['}']) {
            Some(l) => denote(l.re).equals(c.re) && denote(l.im).equals(c.im),
            None => false,
        },
{
    pair_reads_back(re, im);
}

/// A number as a machine prints it in fixed-point notation: a minus sign
/// if it is negative, at least one digit, and then nothing more or a point
/// with at least one digit behind it.
pub open spec fn is_fixed_print(s: Seq<char>) -> bool {
    let digits = unsigned(s);
    let point = skip_digits(digits, 0);
    &&& s.len() > 0
    &&& s[0] != '+'
    &&& point >= 1
    &&& (point == digits.len() || (digits[point] == '.' && point + 1 < digits.len()
        && skip_digits(digits, point + 1) == digits.len()))
}

/// A number as a machine prints it in exponential notation: a mantissa in
/// fixed-point notation, the letter `e`, and the exponent, which is a minus
/// sign if it is negative and at least one digit.
pub open spec fn is_exponential_print(s: Seq<char>) -> bool {
    let mark = find(s, 'e', 0);
    let exponent = if mark + 1 < s.len() && s[mark + 1] == '-' {
        mark + 2
    } else {
        mark + 1
    };
    &&& mark < s.len()
    &&& is_fixed_print(s.subrange(0, mark))
    &&& exponent < s.len()
    &&& skip_digits(s, exponent) == s.len()
}

/// What a machine prints of the number `f`: both notations, each with a
/// minus sign exactly if the sign of `f` is set.
pub open spec fn is_print_of(f: Binary64, r: Rendering) -> bool {
    &&& is_fixed_print(r.fixed@)
    &&& is_exponential_print(r.exponential@)
    &&& (r.fixed@[0] == '-') == f.sign()
    &&& (r.exponential@[0] == '-') == f.sign()
}

proof fn skip_digits_at(s: Seq<char>, from: int, at: int)
    requires
        0 <= from <= at <= s.len(),
        forall|k: int| from <= k < at ==> is_digit(#[trigger] s[k]),
        at < s.len() ==> !is_digit(s[at]),
    ensures
        skip_digits(s, from) == at,
    decreases at - from,
{
    if from < at {
        skip_digits_at(s, from + 1, at);
    }
}

/// A text put together as a decimal is one: digits, then perhaps a point
/// and digits up to `end`, then nothing more or the letter `e`, perhaps a
/// sign, and digits from `exponent` to the end.
proof fn decimal_by_parts(v: Seq<char>, point: int, end: int, exponent: int)
    requires
        1 <= point <= end <= v.len(),
        forall|k: int| 0 <= k < point ==> is_digit(#[trigger] v[k]),
        point < end ==> v[point] == '.',
        forall|k: int| point < k < end ==> is_digit(#[trigger] v[k]),
        end < v.len() ==> v[end] == 'e' && end < exponent < v.len() && (exponent == end + 1 || (
        exponent == end + 2 && is_sign(v[end + 1]))),
        forall|k: int| end < exponent <= k < v.len() ==> is_digit(#[trigger] v[k]),
    ensures
        is_plain(v),
{
    skip_digits_at(v, 0, point);
    if point < end {
        skip_digits_at(v, point + 1, end);
    }
    if end < v.len() {
        skip_digits_at(v, exponent, v.len() as int);
        if exponent == end + 1 {
            assert(is_digit(v[end + 1]));
        }
    }
    assert forall|k: int| 0 <= k < v.len() implies v[k] != 'E' by {
        if k < point {
        } else if k < end {
            if k > point {
                assert(is_digit(v[k]));
            }
        } else if k == end {
        } else if k < exponent {
        } else {
            assert(is_digit(v[k]));
        }
    }
}

/// How far a fixed-point print reaches once it is tidied: up to its point,
/// or beyond the first digit behind it.
#[verifier::spinoff_prover]
#[verifier::rlimit(40)]
proof fn tidied_print(s: Seq<char>)
    requires
        is_fixed_print(s),
    ensures
        ({
            let sign = s.len() - unsigned(s).len();
            let point = sign + skip_digits(unsigned(s), 0);
            let n = tidied(s).len() as int;
            &&& tidied(s) == s.take(n)
            &&& sign < point <= n <= s.len()
            &&& (sign == 0 || (sign == 1 && s[0] == '-'))
            &&& forall|k: int| sign <= k < point ==> is_digit(#[trigger] s[k])
            &&& (n > point ==> s[point] == '.' && n > point + 1)
            &&& forall|k: int| point < k < n ==> is_digit(#[trigger] s[k])
        }),
{
    let digits = unsigned(s);
    let sign = s.len() - digits.len();
    let local = skip_digits(digits, 0);
    let point = sign + local;
    skip_digits_range(digits, 0);
    assert forall|k: int| sign <= k < point implies is_digit(#[trigger] s[k]) by {
        assert(s[k] == digits[k - sign]);
    }
    if local == digits.len() {
        assert forall|k: int| 0 <= k < s.len() implies s[k] != '.' by {
            if k >= sign {
                assert(is_digit(s[k]));
            }
        }
        find_absent(s, '.', 0);
        assert(s.take(s.len() as int) =~= s);
    } else {
        skip_digits_range(digits, local + 1);
        assert(s[point] == digits[local]);
        find_present(s, '.', 0, point);
        assert forall|k: int| point < k < s.len() implies is_digit(#[trigger] s[k]) by {
            assert(s[k] == digits[k - sign]);
        }
        let zeros = strip_end(s, '0');
        stripped_is_a_prefix(s, '0');
        let n1 = zeros.len() as int;
        assert(n1 > point) by {
            if n1 <= point {
                assert(s[point] == '0');
            }
        }
        stripped_is_a_prefix(zeros, '.');
        let n = strip_end(zeros, '.').len() as int;
        assert(zeros.take(n) =~= s.take(n));
        assert(n >= point) by {
            if n < point {
                assert(zeros[point - 1] == '.');
                assert(zeros[point - 1] == s[point - 1]);
                assert(is_digit(s[point - 1]));
            }
        }
        if n1 > point + 1 {
            assert(zeros.last() == s[n1 - 1]);
            assert(is_digit(s[n1 - 1]));
            assert(n == n1) by {
                if n < n1 {
                    assert(zeros[n1 - 1] == '.');
                }
            }
        } else {
            assert(zeros.last() == '.');
            assert(n < n1) by {
                if n == n1 {
                    assert(strip_end(zeros, '.').last() == zeros.last());
                }
            }
        }
    }
}

/// A tidied fixed-point print is made of printed digits, keeps its sign
/// and holds neither white space nor the letter `e`.
proof fn tidied_print_is_printed(s: Seq<char>)
    requires
        is_fixed_print(s),
    ensures
        is_printed(tidied(s)),
        tidied(s)[0] == s[0],
        forall|k: int|
            0 <= k < tidied(s).len() ==> !is_whitespace(#[trigger] tidied(s)[k]) && tidied(s)[k]
                != 'e',
{
    tidied_print(s);
    let t = tidied(s);
    let sign = s.len() - unsigned(s).len();
    let point = sign + skip_digits(unsigned(s), 0);
    let n = t.len() as int;
    let v = unsigned(t);
    assert(t[0] == s[0]);
    assert(v =~= s.subrange(sign, n));
    assert forall|k: int| 0 <= k < v.len() implies v[k] == s[k + sign] by {}
    assert forall|k: int| 0 <= k < point - sign implies is_digit(#[trigger] v[k]) by {
        assert(is_digit(s[k + sign]));
    }
    assert forall|k: int| point - sign < k < n - sign implies is_digit(#[trigger] v[k]) by {
        assert(is_digit(s[k + sign]));
    }
    decimal_by_parts(v, point - sign, n - sign, 0);
    assert forall|k: int| 0 <= k < t.len() implies !is_whitespace(#[trigger] t[k]) && t[k]
        != 'e' by {
        assert(t[k] == s[k]);
        if sign <= k < point {
            assert(is_digit(s[k]));
        } else if k > point {
            assert(is_digit(s[k]));
        }
    }
}

proof fn find_holds(s: Seq<char>, c: char, from: int)
    requires
        0 <= from <= s.len(),
    ensures
        from <= find(s, c, from) <= s.len(),
        find(s, c, from) < s.len() ==> s[find(s, c, from)] == c,
    decreases s.len() - from,
{
    if from < s.len() && s[from] != c {
        find_holds(s, c, from + 1);
    }
}

/// An exponential print with its mantissa tidied is made of printed digits,
/// keeps its sign and holds no white space.
#[verifier::spinoff_prover]
#[verifier::rlimit(40)]
proof fn exponential_form_is_printed(s: Seq<char>)
    requires
        is_exponential_print(s),
    ensures
        is_printed(exponential_form(s)),
        exponential_form(s)[0] == s[0],
        forall|k: int|
            0 <= k < exponential_form(s).len() ==> !is_whitespace(
                #[trigger] exponential_form(s)[k],
            ),
{
    let mark = find(s, 'e', 0);
    find_holds(s, 'e', 0);
    let mantissa = s.subrange(0, mark);
    let exponent = if mark + 1 < s.len() && s[mark + 1] == '-' {
        mark + 2
    } else {
        mark + 1
    };
    skip_digits_range(s, exponent);
    assert forall|k: int| mark + 1 <= k < s.len() implies s[k] != 'e' by {
        if k >= exponent {
            assert(is_digit(s[k]));
        }
    }
    find_absent(s, 'e', mark + 1);
    tidied_print(mantissa);
    tidied_print_is_printed(mantissa);
    let head = tidied(mantissa);
    let tail = s.subrange(mark, s.len() as int);
    let r = exponential_form(s);
    assert(r == head + tail);
    let n = head.len() as int;
    let sign = mantissa.len() - unsigned(mantissa).len();
    let point = sign + skip_digits(unsigned(mantissa), 0);
    assert(r[0] == head[0]);
    assert(mantissa[0] == s[0]);
    let v = unsigned(r);
    assert(v =~= r.subrange(sign, r.len() as int));
    assert forall|k: int| 0 <= k < n - sign implies #[trigger] v[k] == mantissa[k + sign] by {
        assert(r[k + sign] == head[k + sign]);
    }
    assert forall|k: int| n - sign <= k < v.len() implies #[trigger] v[k] == s[mark + k + sign
        - n] by {
        assert(r[k + sign] == tail[k + sign - n]);
    }
    assert forall|k: int| 0 <= k < point - sign implies is_digit(#[trigger] v[k]) by {
        assert(is_digit(mantissa[k + sign]));
    }
    assert forall|k: int| point - sign < k < n - sign implies is_digit(#[trigger] v[k]) by {
        assert(is_digit(mantissa[k + sign]));
    }
    let start = n - sign + (exponent - mark);
    assert forall|k: int| start <= k < v.len() implies is_digit(#[trigger] v[k]) by {
        assert(is_digit(s[mark + k + sign - n]));
    }
    assert(v[n - sign] == s[mark]);
    if exponent == mark + 2 {
        assert(v[n - sign + 1] == s[mark + 1]);
    }
    if n > point {
        assert(v[point - sign] == mantissa[point]);
    }
    decimal_by_parts(v, point - sign, n - sign, start);
    assert forall|k: int| 0 <= k < r.len() implies !is_whitespace(#[trigger] r[k]) by {
        if k < n {
            assert(r[k] == head[k]);
        } else {
            assert(r[k] == s[mark + k - n]);
            if mark + k - n >= exponent {
                assert(is_digit(s[mark + k - n]));
            }
        }
    }
}

/// What is shown of a number is made of printed digits, whichever notation
/// the budgets choose, and begins with a minus sign exactly if the sign of
/// the number is set.
pub proof fn shown_digits_are_printed(
    f: Binary64,
    r: Rendering,
    max_digit_magnitude: usize,
    max_precision: usize,
)
    requires
        is_print_of(f, r),
    ensures
        is_printed(formatted(f, r, max_digit_magnitude, max_precision)),
        is_number(formatted(f, r, max_digit_magnitude, max_precision)),
        (formatted(f, r, max_digit_magnitude, max_precision)[0] == '-') == f.sign(),
{
    tidied_print_is_printed(r.fixed@);
    tidied_print(r.fixed@);
    trimmed_clean(tidied(r.fixed@));
    exponential_form_is_printed(r.exponential@);
}

/// Reading gives back the number that was shown. Let the renderings be what
/// a machine prints of the parts of `c`, the imaginary part as it is shown,
/// and let `denote` be any way of turning digits into numbers that gives
/// each part back from the digits shown of it, which is to say that the
/// budgets needed no rounding, that reads a sign before those digits as the
/// sign of the number, and that reads `0`, `1` and `-1` as what they are.
/// Then what [`Complex::to_std_string`] writes is a literal, and its two
/// parts denote the parts of `c`.
pub proof fn shown_number_reads_back(
    c: Complex,
    re: Rendering,
    im: Rendering,
    magnitude: usize,
    precision: usize,
    denote: spec_fn(Seq<char>) -> Binary64,
)
    requires
        is_print_of(c.re, re),
        is_print_of(c.shown_imaginary(), im),
        denote(formatted(c.re, re, magnitude, precision)).equals(c.re),
        denote(formatted(c.shown_imaginary(), im, magnitude, precision)).equals(
            c.shown_imaginary(),
        ),
        denote(seq!['-'] + formatted(c.shown_imaginary(), im, magnitude, precision)) == denote(
            formatted(c.shown_imaginary(), im, magnitude, precision),
        ).negated(),
        denote(seq!['+'] + formatted(c.shown_imaginary(), im, magnitude, precision)) == denote(
            formatted(c.shown_imaginary(), im, magnitude, precision),
        ),
        denote(seq!['0']).is_zero(),
        denote(seq!['1']).bits == ONE_BITS,
        denote(seq!['-', '1']).bits == ONE_BITS + SIGN_BIT,
    ensures
        match literal(
            standard_text(
                c,
                formatted(c.re, re, magnitude, precision),
                formatted(c.shown_imaginary(), im, magnitude, precision),
            ),
        ) {
            Some(l) => denote(l.re).equals(c.re) && denote(l.im).equals(c.im),
            None => false,
        },
{
    shown_digits_are_printed(c.re, re, magnitude, precision);
    shown_digits_are_printed(c.shown_imaginary(), im, magnitude, precision);
    number_reads_back(
        c,
        formatted(c.re, re, magnitude, precision),
        formatted(c.shown_imaginary(), im, magnitude, precision),
        denote,
    );
}

/// The same for the bracket form: the digits shown of both parts, in braces
/// with a comma between them, are a literal whose parts denote the parts of
/// `c`, whenever the digits shown denote them.
pub proof fn shown_pair_reads_back(
    c: Complex,
    re: Rendering,
    im: Rendering,
    magnitude: usize,
    precision: usize,
    denote: spec_fn(Seq<char>) -> Binary64,
)
    requires
        is_print_of(c.re, re),
        is_print_of(c.im, im),
        denote(formatted(c.re, re, magnitude, precision)).equals(c.re),
        denote(formatted(c.im, im, magnitude, precision)).equals(c.im),
    ensures
        match literal(
            seq!['{'] + formatted(c.re, re, magnitude, precision) + seq![',', ' '] + formatted(
                c.im,
                im,
                magnitude,
                precision,
            ) + seq!['}'],
        ) {
            Some(l) => denote(l.re).equals(c.re) && denote(l.im).equals(c.im),
            None => false,
        },
{
    shown_digits_are_printed(c.re, re, magnitude, precision);
    shown_digits_are_printed(c.im, im, magnitude, precision);
    pair_of_numbers_reads_back(
        c,
        formatted(c.re, re, magnitude, precision),
        formatted(c.im, im, magnitude, precision),
        denote,
    );
}

fn fixed_print(chars: &Vec<char>) -> (b: bool)
    ensures
        b == is_fixed_print(chars@),
{
    let n = chars.len();
    if n == 0 || chars[0] == '+' {
        return false;
    }
    let start: usize = if chars[0] == '-' {
        1
    } else {
        0
    };
    let digits = slice(chars, start, n);
    proof {
        assert(digits@ =~= unsigned(chars@));
    }
    let point = scan_digits(&digits, 0);
    point >= 1 && (point == digits.len() || (digits[point] == '.' && point + 1 < digits.len()
        && scan_digits(&digits, point + 1) == digits.len()))
}

fn exponential_print(chars: &Vec<char>) -> (b: bool)
    ensures
        b == is_exponential_print(chars@),
{
    let n = chars.len();
    let mark = find_char(chars, 'e', 0);
    if mark >= n {
        return false;
    }
    let exponent = if mark + 1 < n && chars[mark + 1] == '-' {
        mark + 2
    } else {
        mark + 1
    };
    fixed_print(&slice(chars, 0, mark)) && exponent < n && scan_digits(chars, exponent) == n
}

/// Decides whether a rendering has the shape of what a machine prints of
/// the number `f`.
pub fn has_print_shape(f: Binary64, r: &Rendering) -> (b: bool)
    ensures
        b == is_print_of(f, *r),
{
    let fixed = chars_of(r.fixed.as_str());
    let exponential = chars_of(r.exponential.as_str());
    if !fixed_print(&fixed) || !exponential_print(&exponential) {
        return false;
    }
    let minus = f.bits >= SIGN_BIT;
    (fixed[0] == '-') == minus && exponential.len() > 0 && (exponential[0] == '-') == minus
}

} // verus!
