//! Text building blocks: concatenation, decimal numerals, character classes
//! and trimming.
use vstd::prelude::*;
use vstd::string::StringExecFns;

verus! {

broadcast use vstd::seq_lib::group_seq_properties;

/// Trusted: `str`'s `==` holds exactly when both texts have the same characters.
pub assume_specification[ <str as PartialEq>::eq ](a: &str, b: &str) -> (r: bool)
    ensures
        r == (a@ == b@),
;

/// Trusted: `String::push` appends one character.
pub assume_specification[ std::string::String::push ](s: &mut std::string::String, c: char)
    ensures
        final(s)@ == old(s)@.push(c),
;

/// Trusted: `String::with_capacity` makes an empty text; what it reserves is
/// not stated. It panics where more than `isize::MAX` bytes are asked for.
pub assume_specification[ std::string::String::with_capacity ](
    capacity: usize,
) -> (s: std::string::String)
    requires
        capacity <= isize::MAX,
    ensures
        s@ == Seq::<char>::empty(),
;

/// Whether two texts are equal.
pub fn text_eq(a: &str, b: &str) -> (same: bool)
    ensures
        same == (a@ == b@),
{
    *a == *b
}

pub fn cat2(a: &str, b: &str) -> (r: String)
    ensures
        r@ == a@ + b@,
{
    let mut s = String::new();
    s.append(a);
    s.append(b);
    s
}

pub fn cat3(a: &str, b: &str, c: &str) -> (r: String)
    ensures
        r@ == a@ + b@ + c@,
{
    let mut s = cat2(a, b);
    s.append(c);
    s
}

pub fn cat4(a: &str, b: &str, c: &str, d: &str) -> (r: String)
    ensures
        r@ == a@ + b@ + c@ + d@,
{
    let mut s = cat3(a, b, c);
    s.append(d);
    s
}

pub fn cat5(a: &str, b: &str, c: &str, d: &str, e: &str) -> (r: String)
    ensures
        r@ == a@ + b@ + c@ + d@ + e@,
{
    let mut s = cat4(a, b, c, d);
    s.append(e);
    s
}

pub fn cat6(a: &str, b: &str, c: &str, d: &str, e: &str, f: &str) -> (r: String)
    ensures
        r@ == a@ + b@ + c@ + d@ + e@ + f@,
{
    let mut s = cat5(a, b, c, d, e);
    s.append(f);
    s
}

/// The characters of a text.
pub fn chars_of(s: &str) -> (r: Vec<char>)
    ensures
        r@ == s@,
{
    let mut out: Vec<char> = Vec::new();
    for c in it: s.chars()
        invariant
            it.seq() == s@,
            out@ == s@.take(it.index() as int),
    {
        out.push(c);
        assert(s@.take(it.index() + 1) == s@.take(it.index() as int).push(c));
    }
    assert(s@.take(s@.len() as int) == s@);
    out
}

/// The text made of `chars[from..to]`.
pub fn text_of(chars: &[char], from: usize, to: usize) -> (r: String)
    requires
        from <= to <= chars@.len(),
    ensures
        r@ == chars@.subrange(from as int, to as int),
{
    let mut out = String::new();
    let mut i: usize = from;
    while i < to
        invariant
            from <= i <= to <= chars@.len(),
            out@ == chars@.subrange(from as int, i as int),
        decreases to - i,
    {
        out.push(chars[i]);
        assert(chars@.subrange(from as int, i + 1) == chars@.subrange(from as int, i as int).push(
            chars@[i as int],
        ));
        i += 1;
    }
    out
}

/// The decimal digit `d`.
pub open spec fn digit(d: int) -> char
    recommends
        0 <= d < 10,
{
    if d == 0 {
        '0'
    } else if d == 1 {
        '1'
    } else if d == 2 {
        '2'
    } else if d == 3 {
        '3'
    } else if d == 4 {
        '4'
    } else if d == 5 {
        '5'
    } else if d == 6 {
        '6'
    } else if d == 7 {
        '7'
    } else if d == 8 {
        '8'
    } else {
        '9'
    }
}

/// The decimal numeral of a natural number, without leading zeros.
pub open spec fn digits(n: nat) -> Seq<char>
    decreases n,
{
    if n < 10 {
        seq![digit(n as int)]
    } else {
        digits(n / 10).push(digit((n % 10) as int))
    }
}

/// The decimal numeral of an integer.
pub open spec fn decimal(n: int) -> Seq<char> {
    if n < 0 {
        "-"@ + digits((-n) as nat)
    } else {
        digits(n as nat)
    }
}

fn digit_char(d: u128) -> (c: char)
    requires
        d < 10,
    ensures
        c == digit(d as int),
{
    if d == 0 {
        '0'
    } else if d == 1 {
        '1'
    } else if d == 2 {
        '2'
    } else if d == 3 {
        '3'
    } else if d == 4 {
        '4'
    } else if d == 5 {
        '5'
    } else if d == 6 {
        '6'
    } else if d == 7 {
        '7'
    } else if d == 8 {
        '8'
    } else {
        '9'
    }
}

fn push_digits(out: &mut String, n: u128)
    ensures
        final(out)@ == old(out)@ + digits(n as nat),
    decreases n,
{
    if n >= 10 {
        push_digits(out, n / 10);
    }
    out.push(digit_char(n % 10));
    proof {
        let before = old(out)@;
        if n < 10 {
            assert(before.push(digit(n as int)) =~= before + digits(n as nat));
        } else {
            assert((before + digits(n as nat / 10)).push(digit((n % 10) as int)) =~= before
                + digits(n as nat));
        }
    }
}

/// The decimal numeral of `n`.
pub fn decimal_text(n: i128) -> (r: String)
    ensures
        r@ == decimal(n as int),
{
    let mut out = String::new();
    if n < 0 {
        out.append("-");
        let magnitude: u128 = if n == i128::MIN {
            0x8000_0000_0000_0000_0000_0000_0000_0000
        } else {
            (-n) as u128
        };
        push_digits(&mut out, magnitude);
        assert(Seq::<char>::empty() + "-"@ =~= "-"@);
    } else {
        push_digits(&mut out, n as u128);
        assert(Seq::<char>::empty() + digits(n as nat) =~= digits(n as nat));
    }
    out
}

/// The decimal numeral of a size.
pub fn usize_text(n: usize) -> (r: String)
    ensures
        r@ == decimal(n as int),
{
    decimal_text(n as i128)
}

/// Unicode's `White_Space` characters.
pub open spec fn is_space(c: char) -> bool {
    let n = c as u32;
    ||| 0x9 <= n <= 0xD
    ||| n == 0x20
    ||| n == 0x85
    ||| n == 0xA0
    ||| n == 0x1680
    ||| 0x2000 <= n <= 0x200A
    ||| n == 0x2028
    ||| n == 0x2029
    ||| n == 0x202F
    ||| n == 0x205F
    ||| n == 0x3000
}

pub fn char_is_space(c: char) -> (r: bool)
    ensures
        r == is_space(c),
{
    let n: u32 = c as u32;
    (0x9 <= n && n <= 0xD) || n == 0x20 || n == 0x85 || n == 0xA0 || n == 0x1680 || (0x2000 <= n
        && n <= 0x200A) || n == 0x2028 || n == 0x2029 || n == 0x202F || n == 0x205F || n == 0x3000
}

pub open spec fn is_digit(c: char) -> bool {
    '0' <= c <= '9'
}

pub open spec fn is_word_start(c: char) -> bool {
    ('a' <= c <= 'z') || ('A' <= c <= 'Z') || c == '_'
}

pub open spec fn is_word_char(c: char) -> bool {
    is_word_start(c) || is_digit(c)
}

pub fn char_is_digit(c: char) -> (r: bool)
    ensures
        r == is_digit(c),
{
    '0' <= c && c <= '9'
}

pub fn char_is_word_start(c: char) -> (r: bool)
    ensures
        r == is_word_start(c),
{
    ('a' <= c && c <= 'z') || ('A' <= c && c <= 'Z') || c == '_'
}

pub fn char_is_word(c: char) -> (r: bool)
    ensures
        r == is_word_char(c),
{
    char_is_word_start(c) || char_is_digit(c)
}

/// The value of a run of decimal digits.
pub open spec fn digits_value(s: Seq<char>) -> int
    decreases s.len(),
{
    if s.len() == 0 {
        0
    } else {
        digits_value(s.drop_last()) * 10 + (s.last() as u32 - '0' as u32)
    }
}

pub open spec fn all_digits(s: Seq<char>) -> bool {
    forall|i: int| 0 <= i < s.len() ==> is_digit(#[trigger] s[i])
}

/// The sign and the digits of a signed decimal numeral.
pub open spec fn sign_split(s: Seq<char>) -> (bool, Seq<char>) {
    if s.len() > 0 && s[0] == '-' {
        (true, s.skip(1))
    } else if s.len() > 0 && s[0] == '+' {
        (false, s.skip(1))
    } else {
        (false, s)
    }
}

/// The integer that a signed decimal numeral denotes, where it fits in an `i128`.
pub open spec fn parsed_integer(s: Seq<char>) -> Option<int> {
    let (negative, body) = sign_split(s);
    let value = if negative {
        -digits_value(body)
    } else {
        digits_value(body)
    };
    if body.len() > 0 && all_digits(body) && i128::MIN <= value <= i128::MAX {
        Some(value)
    } else {
        None
    }
}

proof fn lemma_digits_value_nonneg(s: Seq<char>)
    requires
        all_digits(s),
    ensures
        digits_value(s) >= 0,
    decreases s.len(),
{
    if s.len() > 0 {
        assert(is_digit(s[s.len() - 1]));
        lemma_digits_value_nonneg(s.drop_last());
    }
}

proof fn lemma_digits_value_grows(s: Seq<char>, n: int)
    requires
        all_digits(s),
        0 <= n <= s.len(),
    ensures
        digits_value(s.take(n)) <= digits_value(s),
    decreases s.len() - n,
{
    if n < s.len() {
        lemma_digits_value_grows(s, n + 1);
        assert(s.take(n + 1).drop_last() =~= s.take(n));
        assert(is_digit(s[n]));
        assert(all_digits(s.take(n)));
        lemma_digits_value_nonneg(s.take(n));
    } else {
        assert(s.take(n) =~= s);
    }
}

/// Reads a signed decimal numeral.
pub fn parse_integer(chars: &[char]) -> (r: Option<i128>)
    ensures
        match r {
            Some(n) => parsed_integer(chars@) == Some(n as int),
            None => parsed_integer(chars@) is None,
        },
{
    let len: usize = chars.len();
    let negative: bool = len > 0 && chars[0] == '-';
    let start: usize = if len > 0 && (chars[0] == '-' || chars[0] == '+') {
        1
    } else {
        0
    };
    let ghost body = sign_split(chars@).1;
    assert(body =~= chars@.skip(start as int));
    if start == len {
        return None;
    }
    let mut value: i128 = 0;
    let mut i: usize = start;
    assert(body.take(0) =~= Seq::<char>::empty());
    while i < len
        invariant
            start <= i <= len == chars@.len(),
            body == chars@.skip(start as int),
            body == sign_split(chars@).1,
            negative == sign_split(chars@).0,
            all_digits(body.take(i - start)),
            value == if negative {
                -digits_value(body.take(i - start))
            } else {
                digits_value(body.take(i - start))
            },
        decreases len - i,
    {
        let c = chars[i];
        let ghost k = i - start;
        assert(c == body[k]);
        if !char_is_digit(c) {
            return None;
        }
        let d: i128 = (c as u32 - '0' as u32) as i128;
        assert(body.take(k + 1).drop_last() =~= body.take(k));
        proof {
            if all_digits(body) {
                lemma_digits_value_grows(body, k + 1);
            }
            lemma_digits_value_nonneg(body.take(k));
        }
        let next: Option<i128> = match value.checked_mul(10) {
            Some(tens) => if negative {
                tens.checked_sub(d)
            } else {
                tens.checked_add(d)
            },
            None => None,
        };
        match next {
            Some(n) => {
                value = n;
            },
            None => {
                return None;
            },
        }
        i += 1;
    }
    assert(body.take(body.len() as int) =~= body);
    Some(value)
}

/// The first index at or after `i` that is not a space.
pub open spec fn skip_spaces(s: Seq<char>, i: int) -> int
    decreases s.len() - i,
{
    if 0 <= i < s.len() && is_space(s[i]) {
        skip_spaces(s, i + 1)
    } else {
        i
    }
}

/// One past the last index below `j` that is not a space.
pub open spec fn drop_spaces(s: Seq<char>, i: int, j: int) -> int
    decreases j - i,
{
    if i < j <= s.len() && is_space(s[j - 1]) {
        drop_spaces(s, i, j - 1)
    } else {
        j
    }
}

/// The text without its leading and trailing white space.
pub open spec fn trimmed(s: Seq<char>) -> Seq<char> {
    let start = skip_spaces(s, 0);
    s.subrange(start, drop_spaces(s, start, s.len() as int))
}

/// The bounds of the text without its leading and trailing white space.
pub fn trim_bounds(chars: &[char]) -> (r: (usize, usize))
    ensures
        r.0 <= r.1 <= chars@.len(),
        trimmed(chars@) == chars@.subrange(r.0 as int, r.1 as int),
{
    let mut start: usize = 0;
    while start < chars.len() && char_is_space(chars[start])
        invariant
            start <= chars@.len(),
            skip_spaces(chars@, 0) == skip_spaces(chars@, start as int),
        decreases chars@.len() - start,
    {
        start += 1;
    }
    assert(skip_spaces(chars@, 0) == start);
    let mut end: usize = chars.len();
    while end > start && char_is_space(chars[end - 1])
        invariant
            start <= end <= chars@.len(),
            drop_spaces(chars@, start as int, chars@.len() as int) == drop_spaces(
                chars@,
                start as int,
                end as int,
            ),
        decreases end,
    {
        end -= 1;
    }
    (start, end)
}

/// The length of the text without its trailing carriage returns and newlines.
pub open spec fn line_end(s: Seq<char>, j: int) -> int
    decreases j,
{
    if 0 < j <= s.len() && (s[j - 1] == '\r' || s[j - 1] == '\n') {
        line_end(s, j - 1)
    } else {
        j
    }
}

/// The text without its trailing carriage returns and newlines.
pub open spec fn line_content(s: Seq<char>) -> Seq<char> {
    s.take(line_end(s, s.len() as int))
}

pub fn line_text(chars: &[char]) -> (r: String)
    ensures
        r@ == line_content(chars@),
{
    let mut end: usize = chars.len();
    while end > 0 && (chars[end - 1] == '\r' || chars[end - 1] == '\n')
        invariant
            end <= chars@.len(),
            line_end(chars@, chars@.len() as int) == line_end(chars@, end as int),
        decreases end,
    {
        end -= 1;
    }
    assert(chars@.subrange(0, end as int) =~= chars@.take(end as int));
    text_of(chars, 0, end)
}

} // verus!
