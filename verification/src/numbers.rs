//! Numbers as text: how an integer prints, and which texts are integers.
use vstd::prelude::*;
use crate::text::{chars_of, push_char};

verus! {

/// The character of a digit.
pub open spec fn digit_char(d: nat) -> char {
    if d == 0 {
        '0'
    } else if d == 1 {
        '1'
    } else if d == 2 {
        '2'
    } else if d == 3 {
        '3'
    } else if d == 4 {
        '4'
    } else if d == 5 {
        '5'
    } else if d == 6 {
        '6'
    } else if d == 7 {
        '7'
    } else if d == 8 {
        '8'
    } else {
        '9'
    }
}

/// The decimal digits of `n`, without leading zeros.
pub open spec fn digits(n: nat) -> Seq<char>
    decreases n,
{
    if n < 10 {
        seq![digit_char(n)]
    } else {
        digits(n / 10).push(digit_char(n % 10))
    }
}

/// How the integer `n` prints: its digits, behind a minus sign where it is
/// negative.
pub open spec fn decimal(n: int) -> Seq<char> {
    if n < 0 {
        seq!['-'] + digits((-n) as nat)
    } else {
        digits(n as nat)
    }
}

fn digit_of(d: u8) -> (c: char)
    requires
        d < 10,
    ensures
        c == digit_char(d as nat),
{
    if d == 0 {
        '0'
    } else if d == 1 {
        '1'
    } else if d == 2 {
        '2'
    } else if d == 3 {
        '3'
    } else if d == 4 {
        '4'
    } else if d == 5 {
        '5'
    } else if d == 6 {
        '6'
    } else if d == 7 {
        '7'
    } else if d == 8 {
        '8'
    } else {
        '9'
    }
}

/// Appends the digits of `n` to `out`.
fn push_digits(out: &mut String, n: u128)
    ensures
        final(out)@ == old(out)@ + digits(n as nat),
    decreases n,
{
    if n >= 10 {
        push_digits(out, n / 10);
    }
    let d: u8 = (n % 10) as u8;
    push_char(out, digit_of(d));
    assert(final(out)@ == old(out)@ + digits(n as nat)) by {
        if n >= 10 {
            assert(old(out)@ + digits((n / 10) as nat).push(digit_char((n % 10) as nat)) =~= (old(
                out,
            )@ + digits((n / 10) as nat)).push(digit_char((n % 10) as nat)));
        } else {
            assert(old(out)@ + seq![digit_char(n as nat)] =~= old(out)@.push(
                digit_char(n as nat),
            ));
        }
    }
}

/// The text of an unsigned integer.
pub fn unsigned_to_string(n: u128) -> (s: String)
    ensures
        s@ == decimal(n as int),
{
    let mut s = String::new();
    push_digits(&mut s, n);
    assert(Seq::<char>::empty() + digits(n as nat) =~= digits(n as nat));
    s
}

/// The text of a signed integer.
pub fn signed_to_string(n: i128) -> (s: String)
    ensures
        s@ == decimal(n as int),
{
    let mut s = String::new();
    if n < 0 {
        push_char(&mut s, '-');
        let magnitude: u128 = if n == i128::MIN {
            0x8000_0000_0000_0000_0000_0000_0000_0000u128
        } else {
            (-n) as u128
        };
        push_digits(&mut s, magnitude);
        assert(Seq::<char>::empty().push('-') =~= seq!['-']);
        s
    } else {
        push_digits(&mut s, n as u128);
        assert(Seq::<char>::empty() + digits(n as nat) =~= digits(n as nat));
        s
    }
}

/// The digit that a character stands for.
pub open spec fn digit_value(c: char) -> Option<nat> {
    if '0' <= c && c <= '9' {
        Some((c as u32 - '0' as u32) as nat)
    } else {
        None
    }
}

/// The number that a run of digits stands for, read after the number
/// `acc`; `None` where a character is no digit.
pub open spec fn read_digits(s: Seq<char>, acc: nat) -> Option<nat>
    decreases s.len(),
{
    if s.len() == 0 {
        Some(acc)
    } else {
        match digit_value(s[0]) {
            None => None,
            Some(d) => read_digits(s.drop_first(), acc * 10 + d),
        }
    }
}

/// The unsigned number that a text stands for: one or more decimal digits,
/// behind a `+` or not.
pub open spec fn parse_unsigned(s: Seq<char>) -> Option<nat> {
    let body = if s.len() > 0 && s[0] == '+' {
        s.drop_first()
    } else {
        s
    };
    if body.len() == 0 {
        None
    } else {
        read_digits(body, 0)
    }
}

proof fn lemma_read_digits_grows(s: Seq<char>, acc: nat)
    ensures
        read_digits(s, acc) matches Some(n) ==> n >= acc,
    decreases s.len(),
{
    if s.len() > 0 {
        match digit_value(s[0]) {
            None => {},
            Some(d) => {
                lemma_read_digits_grows(s.drop_first(), acc * 10 + d);
            },
        }
    }
}

/// Reads an unsigned number that is at most `max`. Gives `None` where the
/// text is no number or the number is larger.
pub fn parse_bounded(text: &str, max: u64) -> (res: Option<u64>)
    ensures
        res == match parse_unsigned(text@) {
            Some(n) => if n <= max {
                Some(n as u64)
            } else {
                None
            },
            None => None,
        },
{
    let chars = chars_of(text);
    let start: usize = if chars.len() > 0 && chars[0] == '+' {
        1
    } else {
        0
    };
    if start == chars.len() {
        return None;
    }
    let ghost body = chars@.subrange(start as int, chars.len() as int);
    assert(body == if chars@.len() > 0 && chars@[0] == '+' {
        chars@.drop_first()
    } else {
        chars@
    });
    let mut acc: u64 = 0;
    let mut i: usize = start;
    while i < chars.len()
        invariant
            start <= i <= chars.len(),
            start < chars.len(),
            acc <= max,
            chars@ == text@,
            body == chars@.subrange(start as int, chars.len() as int),
            parse_unsigned(text@) == read_digits(body, 0),
            read_digits(body, 0) == read_digits(
                chars@.subrange(i as int, chars.len() as int),
                acc as nat,
            ),
        decreases chars.len() - i,
    {
        let c = chars[i];
        let ghost rest = chars@.subrange(i as int, chars.len() as int);
        assert(rest[0] == c);
        assert(rest.drop_first() == chars@.subrange(i + 1, chars.len() as int));
        if !('0' <= c && c <= '9') {
            return None;
        }
        let d: u64 = (c as u32 - '0' as u32) as u64;
        proof {
            lemma_read_digits_grows(rest.drop_first(), (acc * 10 + d) as nat);
        }
        if d > max || acc > (max - d) / 10 {
            assert(acc * 10 + d > max) by (nonlinear_arith)
                requires
                    d > max || (d <= max && acc > (max - d) / 10),
                    d < 10,
                    acc >= 0,
            ;
            return None;
        }
        assert(acc * 10 + d <= max) by (nonlinear_arith)
            requires
                acc <= (max - d) / 10,
                d <= max,
        ;
        acc = acc * 10 + d;
        i += 1;
    }
    assert(chars@.subrange(i as int, chars.len() as int).len() == 0);
    Some(acc)
}

} // verus!
