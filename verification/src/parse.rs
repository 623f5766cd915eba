//! Colours written as text: three numbers from 0 to 255, separated by
//! commas, as in `255,0,0`.

use vstd::prelude::*;
use vstd::string::StrSliceExecFns;
use crate::color::Color;

verus! {

/// White space, as Unicode defines it.
pub open spec fn is_space(c: char) -> bool {
    let u = c as u32;
    ||| 0x09 <= u <= 0x0d
    ||| u == 0x20
    ||| u == 0x85
    ||| u == 0xa0
    ||| u == 0x1680
    ||| 0x2000 <= u <= 0x200a
    ||| u == 0x2028
    ||| u == 0x2029
    ||| u == 0x202f
    ||| u == 0x205f
    ||| u == 0x3000
}

/// One of the ten digits.
pub open spec fn is_digit(c: char) -> bool {
    0x30 <= c as u32 <= 0x39
}

/// The number that the digits of `s` from `lo` up to `hi` write in base ten.
pub open spec fn digits_value(s: Seq<char>, lo: int, hi: int) -> int
    decreases hi - lo,
{
    if hi <= lo {
        0
    } else {
        10 * digits_value(s, lo, hi - 1) + (s[hi - 1] as u32 - 0x30)
    }
}

/// The number from 0 to 255 that `s` writes from `lo` up to `hi`: at least
/// one digit, and nothing else but a plus sign in front.
pub open spec fn number(s: Seq<char>, lo: int, hi: int) -> Option<u8> {
    let start = if lo < hi && s[lo] == '+' {
        lo + 1
    } else {
        lo
    };
    if start < hi && (forall|i: int| start <= i < hi ==> is_digit(#[trigger] s[i]))
        && digits_value(s, start, hi) <= 255 {
        Some(digits_value(s, start, hi) as u8)
    } else {
        None
    }
}

/// Where `s` stops being white space, from `lo` on and before `hi`.
pub open spec fn trim_start(s: Seq<char>, lo: int, hi: int) -> int
    decreases hi - lo,
{
    if lo < hi && is_space(s[lo]) {
        trim_start(s, lo + 1, hi)
    } else {
        lo
    }
}

/// Where the white space at the end of `s` begins, before `hi` and not
/// before `lo`.
pub open spec fn trim_end(s: Seq<char>, lo: int, hi: int) -> int
    decreases hi - lo,
{
    if lo < hi && is_space(s[hi - 1]) {
        trim_end(s, lo, hi - 1)
    } else {
        hi
    }
}

/// The number that the field of `s` from `lo` up to `hi` holds, white space
/// at its two ends left aside.
pub open spec fn field(s: Seq<char>, lo: int, hi: int) -> Option<u8> {
    let start = trim_start(s, lo, hi);
    number(s, start, trim_end(s, start, hi))
}

/// Place of the first comma of `s` at `from` or after it; the length of `s`
/// where there is none.
pub open spec fn next_comma(s: Seq<char>, from: int) -> int
    decreases s.len() - from,
{
    if from >= s.len() {
        s.len() as int
    } else if s[from] == ',' {
        from
    } else {
        next_comma(s, from + 1)
    }
}

/// The colour that a text writes: exactly three fields separated by commas,
/// each of them a number from 0 to 255.
pub open spec fn parsed_color(s: Seq<char>) -> Option<Color> {
    let a = next_comma(s, 0);
    let b = next_comma(s, a + 1);
    let c = next_comma(s, b + 1);
    if a < s.len() && b < s.len() && c >= s.len() {
        match (field(s, 0, a), field(s, a + 1, b), field(s, b + 1, s.len() as int)) {
            (Some(r), Some(g), Some(b)) => Some(Color { r, g, b }),
            _ => None,
        }
    } else {
        None
    }
}

/// What is said of a text that writes no colour.
pub open spec fn invalid_color_message() -> Seq<char> {
    "Format de couleur invalide. Utilisez R,G,B (ex: 255,0,0)"@
}

/// More digits never write a smaller number.
proof fn lemma_digits_grow(s: Seq<char>, lo: int, mid: int, hi: int)
    requires
        lo <= mid <= hi,
        forall|i: int| lo <= i < hi ==> is_digit(#[trigger] s[i]),
    ensures
        0 <= digits_value(s, lo, mid) <= digits_value(s, lo, hi),
    decreases hi - mid,
{
    lemma_digits_nonnegative(s, lo, mid);
    if mid < hi {
        lemma_digits_grow(s, lo, mid, hi - 1);
        assert(is_digit(s[hi - 1]));
    }
}

proof fn lemma_digits_nonnegative(s: Seq<char>, lo: int, hi: int)
    requires
        forall|i: int| lo <= i < hi ==> is_digit(#[trigger] s[i]),
    ensures
        0 <= digits_value(s, lo, hi),
    decreases hi - lo,
{
    if lo < hi {
        lemma_digits_nonnegative(s, lo, hi - 1);
        assert(is_digit(s[hi - 1]));
    }
}

/// The characters of a text.
fn chars_of(text: &str) -> (chars: Vec<char>)
    ensures
        chars@ == text@,
{
    let n = text.unicode_len();
    let mut chars: Vec<char> = Vec::new();
    let mut i: usize = 0;
    while i < n
        invariant
            i <= n,
            n == text@.len(),
            chars@ == text@.take(i as int),
        decreases n - i,
    {
        chars.push(text.get_char(i));
        assert(text@.take(i + 1) =~= text@.take(i as int).push(text@[i as int]));
        i += 1;
    }
    assert(text@.take(n as int) =~= text@);
    chars
}

fn is_space_char(c: char) -> (space: bool)
    ensures
        space == is_space(c),
{
    let u = c as u32;
    (0x09 <= u && u <= 0x0d) || u == 0x20 || u == 0x85 || u == 0xa0 || u == 0x1680 || (0x2000 <= u
        && u <= 0x200a) || u == 0x2028 || u == 0x2029 || u == 0x202f || u == 0x205f || u == 0x3000
}

fn find_comma(chars: &Vec<char>, from: usize) -> (at: usize)
    requires
        from <= chars@.len(),
    ensures
        at == next_comma(chars@, from as int),
        from <= at <= chars@.len(),
{
    let n = chars.len();
    let mut i = from;
    while i < n
        invariant
            from <= i <= n,
            n == chars@.len(),
            next_comma(chars@, from as int) == next_comma(chars@, i as int),
        decreases n - i,
    {
        if chars[i] == ',' {
            return i;
        }
        i += 1;
    }
    i
}

fn parse_number(chars: &Vec<char>, lo: usize, hi: usize) -> (value: Option<u8>)
    requires
        lo <= hi <= chars@.len(),
    ensures
        value == number(chars@, lo as int, hi as int),
{
    let start = if lo < hi && chars[lo] == '+' {
        lo + 1
    } else {
        lo
    };
    if start >= hi {
        return None;
    }
    let mut value: u32 = 0;
    let mut i = start;
    while i < hi
        invariant
            lo <= start <= i <= hi <= chars@.len(),
            start == if lo < hi && chars@[lo as int] == '+' {
                lo + 1
            } else {
                lo as int
            },
            value == digits_value(chars@, start as int, i as int),
            value <= 255,
            forall|j: int| start <= j < i ==> is_digit(#[trigger] chars@[j]),
        decreases hi - i,
    {
        let u = chars[i] as u32;
        if u < 0x30 || u > 0x39 {
            assert(!is_digit(chars@[i as int]));
            return None;
        }
        value = 10 * value + (u - 0x30);
        if value > 255 {
            proof {
                if forall|j: int| start <= j < hi ==> is_digit(#[trigger] chars@[j]) {
                    lemma_digits_grow(chars@, start as int, i + 1, hi as int);
                }
            }
            return None;
        }
        i += 1;
    }
    Some(value as u8)
}

fn parse_field(chars: &Vec<char>, lo: usize, hi: usize) -> (value: Option<u8>)
    requires
        lo <= hi <= chars@.len(),
    ensures
        value == field(chars@, lo as int, hi as int),
{
    let mut start = lo;
    while start < hi && is_space_char(chars[start])
        invariant
            lo <= start <= hi <= chars@.len(),
            trim_start(chars@, lo as int, hi as int) == trim_start(chars@, start as int, hi as int),
        decreases hi - start,
    {
        start += 1;
    }
    let mut end = hi;
    while start < end && is_space_char(chars[end - 1])
        invariant
            start <= end <= hi <= chars@.len(),
            trim_end(chars@, start as int, hi as int) == trim_end(chars@, start as int, end as int),
        decreases end - start,
    {
        end -= 1;
    }
    parse_number(chars, start, end)
}

/// Reads a colour written as `R,G,B`: three numbers from 0 to 255 separated
/// by commas, each of them in digits, with or without a plus sign in front
/// and white space around.
pub fn parse_color(color_str: &str) -> (r: Result<Color, String>)
    ensures
        match r {
            Ok(c) => parsed_color(color_str@) == Some(c),
            Err(message) => parsed_color(color_str@) is None && message@
                == invalid_color_message(),
        },
{
    let chars = chars_of(color_str);
    let n = chars.len();
    let a = find_comma(&chars, 0);
    if a < n {
        let b = find_comma(&chars, a + 1);
        if b < n {
            let c = find_comma(&chars, b + 1);
            if c >= n {
                let red = parse_field(&chars, 0, a);
                let green = parse_field(&chars, a + 1, b);
                let blue = parse_field(&chars, b + 1, n);
                match (red, green, blue) {
                    (Some(r), Some(g), Some(b)) => {
                        return Ok(Color { r, g, b });
                    },
                    _ => {},
                }
            }
        }
    }
    Err("Format de couleur invalide. Utilisez R,G,B (ex: 255,0,0)".to_owned())
}

} // verus!
