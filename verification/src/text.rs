//! Small pieces of text: decimal numbers and the segments of a name.

use vstd::prelude::*;
use vstd::string::*;

verus! {

/// The character of the decimal digit `d`.
pub open spec fn spec_digit(d: int) -> char {
    if d == 0 {
        '0'
    } else if d == 1 {
        '1'
    } else if d == 2 {
        '2'
    } else if d == 3 {
        '3'
    } else if d == 4 {
        '4'
    } else if d == 5 {
        '5'
    } else if d == 6 {
        '6'
    } else if d == 7 {
        '7'
    } else if d == 8 {
        '8'
    } else {
        '9'
    }
}

/// The decimal digits of `n`, most significant first, without leading zeros.
pub open spec fn spec_decimal(n: nat) -> Seq<char>
    decreases n,
{
    if n < 10 {
        seq![spec_digit(n as int)]
    } else {
        spec_decimal(n / 10).push(spec_digit((n % 10) as int))
    }
}

/// Position of the first `-` of `s` at or after `from`, or the length of `s`
/// if there is none.
pub open spec fn spec_next_dash(s: Seq<char>, from: int) -> int
    decreases s.len() - from,
{
    if from < 0 || from >= s.len() {
        s.len() as int
    } else if s[from] == '-' {
        from
    } else {
        spec_next_dash(s, from + 1)
    }
}

/// The third of the segments that `-` cuts `s` into, or `s` itself if it has
/// fewer than three.
pub open spec fn spec_third_segment(s: Seq<char>) -> Seq<char> {
    let first = spec_next_dash(s, 0);
    let second = spec_next_dash(s, first + 1);
    if first >= s.len() || second >= s.len() {
        s
    } else {
        s.subrange(second + 1, spec_next_dash(s, second + 1))
    }
}

/// Returns the one-character text of the decimal digit `d`.
fn digit(d: usize) -> (r: &'static str)
    requires
        d < 10,
    ensures
        r@ == seq![spec_digit(d as int)],
{
    proof {
        reveal_strlit("0");
        reveal_strlit("1");
        reveal_strlit("2");
        reveal_strlit("3");
        reveal_strlit("4");
        reveal_strlit("5");
        reveal_strlit("6");
        reveal_strlit("7");
        reveal_strlit("8");
        reveal_strlit("9");
    }
    let r = if d == 0 {
        "0"
    } else if d == 1 {
        "1"
    } else if d == 2 {
        "2"
    } else if d == 3 {
        "3"
    } else if d == 4 {
        "4"
    } else if d == 5 {
        "5"
    } else if d == 6 {
        "6"
    } else if d == 7 {
        "7"
    } else if d == 8 {
        "8"
    } else {
        "9"
    };
    assert(r@ =~= seq![spec_digit(d as int)]);
    r
}

/// Returns `n` written in decimal.
pub fn decimal(n: usize) -> (r: String)
    ensures
        r@ == spec_decimal(n as nat),
    decreases n,
{
    if n < 10 {
        String::from_str(digit(n))
    } else {
        let mut text = decimal(n / 10);
        text.append(digit(n % 10));
        assert(text@ =~= spec_decimal((n / 10) as nat).push(spec_digit((n % 10) as int)));
        text
    }
}

/// Returns the position of the first `-` of `s` at or after `from`, or the
/// length of `s` if there is none.
fn next_dash(s: &str, from: usize) -> (r: usize)
    requires
        from <= s@.len(),
    ensures
        r == spec_next_dash(s@, from as int),
        from <= r <= s@.len(),
{
    let len = s.unicode_len();
    let mut i = from;
    while i < len
        invariant
            from <= i <= len,
            len == s@.len(),
            spec_next_dash(s@, from as int) == spec_next_dash(s@, i as int),
        decreases len - i,
    {
        if s.get_char(i) == '-' {
            return i;
        }
        i += 1;
    }
    i
}

/// Returns the third of the segments that `-` cuts `s` into, or `s` itself
/// if it has fewer than three.
pub fn third_segment(s: &str) -> (r: String)
    ensures
        r@ == spec_third_segment(s@),
{
    let len = s.unicode_len();
    let first = next_dash(s, 0);
    if first >= len {
        return String::from_str(s);
    }
    let second = next_dash(s, first + 1);
    if second >= len {
        return String::from_str(s);
    }
    let third = next_dash(s, second + 1);
    String::from_str(s.substring_char(second + 1, third))
}

} // verus!
