//! Characters and character sequences: the few text operations that the
//! scanner, the literal grammar and the number formatter share.

use vstd::prelude::*;

verus! {

/// Appending one character to a `String` (`String::push` of the standard
/// library): the text afterwards is the text before, followed by `c`.
pub assume_specification[ String::push ](s: &mut String, c: char)
    ensures
        final(s)@ == old(s)@.push(c),
;

/// The characters that count as white space: those with the Unicode
/// property `White_Space`.
pub open spec fn is_whitespace(c: char) -> bool {
    let n = c as u32;
    ||| 0x09 <= n <= 0x0D
    ||| n == 0x20
    ||| n == 0x85
    ||| n == 0xA0
    ||| n == 0x1680
    ||| 0x2000 <= n <= 0x200A
    ||| n == 0x2028
    ||| n == 0x2029
    ||| n == 0x202F
    ||| n == 0x205F
    ||| n == 0x3000
}

/// One of the ten decimal digits.
pub open spec fn is_digit(c: char) -> bool {
    '0' <= c <= '9'
}

/// The lower-case form of an upper-case letter of the basic Latin alphabet;
/// any other character is left alone.
pub open spec fn lower(c: char) -> char {
    if 'A' <= c <= 'Z' {
        ((c as u8) + 32) as char
    } else {
        c
    }
}

/// A text with every character in lower case.
pub open spec fn lowered(s: Seq<char>) -> Seq<char> {
    Seq::new(s.len(), |i: int| lower(s[i]))
}

/// The first position at or after `from` that holds no white space, or the
/// length of the text.
pub open spec fn skip_whitespace(s: Seq<char>, from: int) -> int
    decreases s.len() - from,
{
    if from < 0 || from >= s.len() {
        s.len() as int
    } else if is_whitespace(s[from]) {
        skip_whitespace(s, from + 1)
    } else {
        from
    }
}

/// The end of the text once trailing white space is left off: the least
/// position from `from` on behind which only white space follows up to
/// `until`.
pub open spec fn skip_whitespace_back(s: Seq<char>, from: int, until: int) -> int
    decreases until - from,
{
    if until <= from || until > s.len() || from < 0 {
        from
    } else if is_whitespace(s[until - 1]) {
        skip_whitespace_back(s, from, until - 1)
    } else {
        until
    }
}

/// The text without white space at either end.
pub open spec fn trimmed(s: Seq<char>) -> Seq<char> {
    let start = skip_whitespace(s, 0);
    s.subrange(start, skip_whitespace_back(s, start, s.len() as int))
}

/// The first position at or after `from` that holds `c`, or the length of
/// the text.
pub open spec fn find(s: Seq<char>, c: char, from: int) -> int
    decreases s.len() - from,
{
    if from < 0 || from >= s.len() {
        s.len() as int
    } else if s[from] == c {
        from
    } else {
        find(s, c, from + 1)
    }
}

/// The character of a digit's value.
pub open spec fn digit_char(d: nat) -> char
    recommends
        d < 10,
{
    (('0' as u8) + d) as char
}

/// A natural number in decimal notation, without leading zeros.
pub open spec fn decimal(n: nat) -> Seq<char>
    decreases n,
{
    if n < 10 {
        seq![digit_char(n)]
    } else {
        decimal(n / 10).push(digit_char(n % 10))
    }
}

/// The text without any white space.
pub open spec fn squeezed(s: Seq<char>) -> Seq<char>
    decreases s.len(),
{
    if s.len() == 0 {
        s
    } else if is_whitespace(s.last()) {
        squeezed(s.drop_last())
    } else {
        squeezed(s.drop_last()).push(s.last())
    }
}

pub fn char_is_whitespace(c: char) -> (b: bool)
    ensures
        b == is_whitespace(c),
{
    let n = c as u32;
    (0x09 <= n && n <= 0x0D) || n == 0x20 || n == 0x85 || n == 0xA0 || n == 0x1680 || (0x2000 <= n
        && n <= 0x200A) || n == 0x2028 || n == 0x2029 || n == 0x202F || n == 0x205F || n == 0x3000
}

pub fn char_is_digit(c: char) -> (b: bool)
    ensures
        b == is_digit(c),
{
    '0' <= c && c <= '9'
}

pub fn char_lower(c: char) -> (l: char)
    ensures
        l == lower(c),
{
    if 'A' <= c && c <= 'Z' {
        ((c as u8) + 32) as char
    } else {
        c
    }
}

/// Appends a number in decimal notation.
pub fn push_decimal(s: &mut String, n: usize)
    ensures
        final(s)@ == old(s)@ + decimal(n as nat),
    decreases n,
{
    if n >= 10 {
        push_decimal(s, n / 10);
    }
    let d = (n % 10) as u8;
    s.push((48u8 + d) as char);
    proof {
        assert(('0' as u8) == 48u8);
        assert(s@ =~= old(s)@ + decimal(n as nat));
    }
}

/// The characters of a string slice.
pub fn chars_of(s: &str) -> (chars: Vec<char>)
    ensures
        chars@ == s@,
{
    let mut chars: Vec<char> = Vec::new();
    for c in it: s.chars()
        invariant
            it.seq() == s@,
            chars@ == s@.take(it.index() as int),
    {
        chars.push(c);
        proof {
            assert(chars@ =~= s@.take(it.index() + 1));
        }
    }
    proof {
        assert(chars@ =~= s@);
    }
    chars
}

/// The string made of the characters of `chars` from `from` up to `until`.
pub fn string_of(chars: &Vec<char>, from: usize, until: usize) -> (s: String)
    requires
        from <= until <= chars@.len(),
    ensures
        s@ == chars@.subrange(from as int, until as int),
{
    let mut s = String::new();
    let mut i = from;
    while i < until
        invariant
            from <= i <= until <= chars@.len(),
            s@ == chars@.subrange(from as int, i as int),
        decreases until - i,
    {
        s.push(chars[i]);
        i += 1;
        proof {
            assert(s@ =~= chars@.subrange(from as int, i as int));
        }
    }
    s
}

/// Where the text begins and ends once white space at both ends is left
/// off.
pub fn trim_bounds(chars: &Vec<char>) -> (bounds: (usize, usize))
    ensures
        bounds.0 == skip_whitespace(chars@, 0),
        bounds.1 == skip_whitespace_back(chars@, bounds.0 as int, chars@.len() as int),
        bounds.0 <= bounds.1 <= chars@.len(),
        chars@.subrange(bounds.0 as int, bounds.1 as int) == trimmed(chars@),
{
    let mut start: usize = 0;
    while start < chars.len() && char_is_whitespace(chars[start])
        invariant
            start <= chars@.len(),
            skip_whitespace(chars@, start as int) == skip_whitespace(chars@, 0),
        decreases chars@.len() - start,
    {
        start += 1;
    }
    let mut end: usize = chars.len();
    while end > start && char_is_whitespace(chars[end - 1])
        invariant
            start <= end <= chars@.len(),
            skip_whitespace_back(chars@, start as int, end as int) == skip_whitespace_back(
                chars@,
                start as int,
                chars@.len() as int,
            ),
        decreases end,
    {
        end -= 1;
    }
    (start, end)
}

/// A copy of the characters from `from` up to `until`.
pub fn slice(chars: &Vec<char>, from: usize, until: usize) -> (part: Vec<char>)
    requires
        from <= until <= chars@.len(),
    ensures
        part@ == chars@.subrange(from as int, until as int),
{
    let mut part: Vec<char> = Vec::new();
    let mut i = from;
    while i < until
        invariant
            from <= i <= until <= chars@.len(),
            part@ == chars@.subrange(from as int, i as int),
        decreases until - i,
    {
        part.push(chars[i]);
        i += 1;
        proof {
            assert(part@ =~= chars@.subrange(from as int, i as int));
        }
    }
    part
}

/// Finds the first `c` at or after `from`.
pub fn find_char(chars: &Vec<char>, c: char, from: usize) -> (at: usize)
    requires
        from <= chars@.len(),
    ensures
        at == find(chars@, c, from as int),
        from <= at <= chars@.len(),
{
    let mut i = from;
    while i < chars.len() && chars[i] != c
        invariant
            from <= i <= chars@.len(),
            find(chars@, c, i as int) == find(chars@, c, from as int),
        decreases chars@.len() - i,
    {
        i += 1;
    }
    i
}

/// The text made of the given characters.
pub fn word(chars: Vec<char>) -> (s: String)
    ensures
        s@ == chars@,
{
    string_of(&chars, 0, chars.len())
}

} // verus!
