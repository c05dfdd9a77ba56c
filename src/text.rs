//! The text forms of the save format: decimal numbers and lines.

use vstd::prelude::*;

verus! {

/// The value of a decimal digit character, or -1 for any other character.
pub open spec fn digit_of(c: char) -> int {
    if c == '0' {
        0
    } else if c == '1' {
        1
    } else if c == '2' {
        2
    } else if c == '3' {
        3
    } else if c == '4' {
        4
    } else if c == '5' {
        5
    } else if c == '6' {
        6
    } else if c == '7' {
        7
    } else if c == '8' {
        8
    } else if c == '9' {
        9
    } else {
        -1
    }
}

/// The character of a decimal digit `0 <= d < 10`.
pub open spec fn digit_char(d: int) -> char {
    if d == 0 {
        '0'
    } else if d == 1 {
        '1'
    } else if d == 2 {
        '2'
    } else if d == 3 {
        '3'
    } else if d == 4 {
        '4'
    } else if d == 5 {
        '5'
    } else if d == 6 {
        '6'
    } else if d == 7 {
        '7'
    } else if d == 8 {
        '8'
    } else {
        '9'
    }
}

/// `n` written in decimal, without leading zeros.
pub open spec fn decimal(n: nat) -> Seq<char>
    decreases n,
{
    if n < 10 {
        seq![digit_char(n as int)]
    } else {
        decimal(n / 10).push(digit_char((n % 10) as int))
    }
}

/// Whether `s` is one or more decimal digits.
pub open spec fn all_digits(s: Seq<char>) -> bool {
    s.len() > 0 && forall|i: int| 0 <= i < s.len() ==> #[trigger] digit_of(s[i]) >= 0
}

/// The number that the digit string `s` denotes.
pub open spec fn digits_value(s: Seq<char>) -> nat
    decreases s.len(),
{
    if s.len() == 0 {
        0
    } else {
        digits_value(s.drop_last()) * 10 + digit_of(s.last()) as nat
    }
}

/// `s` read as an unsigned machine word: an optional `+`, then decimal
/// digits, with a value that fits in `usize`.
pub open spec fn parse_usize(s: Seq<char>) -> Option<nat> {
    let body = if s.len() > 0 && s[0] == '+' {
        s.drop_first()
    } else {
        s
    };
    if all_digits(body) && digits_value(body) <= usize::MAX {
        Some(digits_value(body))
    } else {
        None
    }
}

/// The index of the first `'\n'` at or after `i`, or the length of `t`.
pub open spec fn line_end(t: Seq<char>, i: int) -> int
    decreases t.len() - i,
{
    if i >= t.len() {
        t.len() as int
    } else if t[i] == '\n' {
        i
    } else {
        line_end(t, i + 1)
    }
}

/// The line that starts at `i`: up to the next `'\n'`, without it and
/// without a `'\r'` just before it. Empty where `i` is past the end.
pub open spec fn line_from(t: Seq<char>, i: int) -> Seq<char> {
    let e = line_end(t, i);
    if i >= t.len() || i < 0 {
        Seq::empty()
    } else if e < t.len() && e > i && t[e - 1] == '\r' {
        t.subrange(i, e - 1)
    } else {
        t.subrange(i, e)
    }
}

/// The first line of `t`.
pub open spec fn first_line(t: Seq<char>) -> Seq<char> {
    line_from(t, 0)
}

/// The second line of `t` (empty if there is none).
pub open spec fn second_line(t: Seq<char>) -> Seq<char> {
    line_from(t, line_end(t, 0) + 1)
}

/// The characters of `s`, in order.
pub fn chars_of(s: &str) -> (r: Vec<char>)
    ensures
        r@ == s@,
{
    let mut r: Vec<char> = Vec::new();
    for c in it: s.chars()
        invariant
            r@ == it.seq().subrange(0, it.index() as int),
    {
        r.push(c);
    }
    r
}

proof fn lemma_line_end_range(t: Seq<char>, i: int)
    requires
        0 <= i,
    ensures
        line_end(t, i) <= t.len(),
        i < t.len() ==> i <= line_end(t, i),
        line_end(t, i) < t.len() ==> t[line_end(t, i)] == '\n',
    decreases t.len() - i,
{
    if i < t.len() && t[i] != '\n' {
        lemma_line_end_range(t, i + 1);
    }
}

/// The index of the first `'\n'` at or after `i`, or the length of `t`.
pub fn find_line_end(t: &Vec<char>, i: usize) -> (r: usize)
    ensures
        r == line_end(t@, i as int),
{
    if i >= t.len() {
        return t.len();
    }
    let mut k = i;
    while k < t.len() && t[k] != '\n'
        invariant
            i <= k <= t@.len(),
            line_end(t@, i as int) == line_end(t@, k as int),
        decreases t.len() - k,
    {
        k = k + 1;
    }
    k
}

/// Where the line that starts at `i` lies in `t`: its characters are
/// `t[start..end]` for the returned `(start, end)`, an empty range where `i`
/// is past the end.
pub fn line_bounds(t: &Vec<char>, i: usize) -> (r: (usize, usize))
    ensures
        r.0 <= r.1,
        r.1 <= t@.len(),
        t@.subrange(r.0 as int, r.1 as int) == line_from(t@, i as int),
{
    if i >= t.len() {
        return (0, 0);
    }
    let e = find_line_end(t, i);
    proof {
        lemma_line_end_range(t@, i as int);
    }
    if e < t.len() && e > i && t[e - 1] == '\r' {
        (i, e - 1)
    } else {
        (i, e)
    }
}

/// The value of a decimal digit character, or `None` for any other character.
pub fn digit_value(c: char) -> (r: Option<u8>)
    ensures
        digit_of(c) >= 0 ==> r == Some(digit_of(c) as u8),
        digit_of(c) < 0 ==> r is None,
{
    match c {
        '0' => Some(0),
        '1' => Some(1),
        '2' => Some(2),
        '3' => Some(3),
        '4' => Some(4),
        '5' => Some(5),
        '6' => Some(6),
        '7' => Some(7),
        '8' => Some(8),
        '9' => Some(9),
        _ => None,
    }
}

proof fn lemma_digits_value_grows(s: Seq<char>, k: int)
    requires
        0 <= k <= s.len(),
        forall|i: int| 0 <= i < s.len() ==> #[trigger] digit_of(s[i]) >= 0,
    ensures
        digits_value(s.subrange(0, k)) <= digits_value(s),
    decreases s.len() - k,
{
    if k < s.len() {
        lemma_digits_value_grows(s, k + 1);
        let p = s.subrange(0, k + 1);
        assert(p.drop_last() =~= s.subrange(0, k));
        assert(digit_of(p.last()) >= 0);
        assert(digits_value(p) == digits_value(s.subrange(0, k)) * 10 + digit_of(p.last()) as nat);
    } else {
        assert(s.subrange(0, k) =~= s);
    }
}

/// Reads `t[from..to]` as an unsigned machine word: an optional `+`, then
/// decimal digits; `None` for anything else or for a value beyond `usize`.
pub fn parse_usize_at(t: &Vec<char>, from: usize, to: usize) -> (r: Option<usize>)
    requires
        from <= to <= t@.len(),
    ensures
        r is Some <==> parse_usize(t@.subrange(from as int, to as int)) is Some,
        r matches Some(v) ==> parse_usize(t@.subrange(from as int, to as int)) == Some(v as nat),
{
    let ghost s = t@.subrange(from as int, to as int);
    let start = if from < to && t[from] == '+' { from + 1 } else { from };
    let ghost body = t@.subrange(start as int, to as int);
    assert(body =~= (if s.len() > 0 && s[0] == '+' { s.drop_first() } else { s }));
    if start == to {
        return None;
    }
    let mut acc: usize = 0;
    let mut k = start;
    while k < to
        invariant
            start <= k <= to <= t@.len(),
            s == t@.subrange(from as int, to as int),
            body == t@.subrange(start as int, to as int),
            body == (if s.len() > 0 && s[0] == '+' { s.drop_first() } else { s }),
            forall|i: int| 0 <= i < k - start ==> #[trigger] digit_of(body[i]) >= 0,
            acc == digits_value(body.subrange(0, k - start)),
        decreases to - k,
    {
        let d = match digit_value(t[k]) {
            Some(d) => d,
            None => {
                assert(body[k - start] == t@[k as int]);
                assert(digit_of(body[k - start]) < 0);
                assert(!all_digits(body));
                assert(parse_usize(s) is None);
                return None;
            },
        };
        let ghost p = body.subrange(0, k + 1 - start);
        proof {
            assert(p.drop_last() =~= body.subrange(0, k - start));
            assert(p.last() == t@[k as int]);
            assert(body[k - start] == t@[k as int]);
            assert(digits_value(p) == acc * 10 + d);
        }
        let next = match acc.checked_mul(10) {
            Some(m) => m.checked_add(d as usize),
            None => None,
        };
        match next {
            Some(v) => {
                acc = v;
            },
            None => {
                proof {
                    assert(digits_value(p) > usize::MAX);
                    if all_digits(body) {
                        lemma_digits_value_grows(body, k + 1 - start);
                    }
                    assert(!(all_digits(body) && digits_value(body) <= usize::MAX));
                    assert(parse_usize(s) is None);
                }
                return None;
            },
        }
        k = k + 1;
        assert(forall|i: int| 0 <= i < k - start ==> #[trigger] digit_of(body[i]) >= 0);
    }
    assert(body.subrange(0, to - start) =~= body);
    Some(acc)
}

/// Appends `n` written in decimal to `s`.
pub fn append_decimal(s: &mut String, n: usize)
    ensures
        final(s)@ == old(s)@ + decimal(n as nat),
    decreases n,
{
    if n >= 10 {
        append_decimal(s, n / 10);
    }
    let d = n % 10;
    let digit = if d == 0 {
        "0"
    } else if d == 1 {
        "1"
    } else if d == 2 {
        "2"
    } else if d == 3 {
        "3"
    } else if d == 4 {
        "4"
    } else if d == 5 {
        "5"
    } else if d == 6 {
        "6"
    } else if d == 7 {
        "7"
    } else if d == 8 {
        "8"
    } else {
        "9"
    };
    proof {
        reveal_strlit("0");
        reveal_strlit("1");
        reveal_strlit("2");
        reveal_strlit("3");
        reveal_strlit("4");
        reveal_strlit("5");
        reveal_strlit("6");
        reveal_strlit("7");
        reveal_strlit("8");
        reveal_strlit("9");
        assert(digit@ =~= seq![digit_char(d as int)]);
    }
    s.append(digit);
    proof {
        if n >= 10 {
            assert(decimal(n as nat) == decimal((n / 10) as nat).push(digit_char((n % 10) as int)));
        }
    }
    assert(final(s)@ =~= old(s)@ + decimal(n as nat));
}

} // verus!
