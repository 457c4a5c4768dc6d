use vstd::prelude::*;

verus! {

/// Largest magnitude that a literal of a 16-bit word may have.
pub const LITERAL_LIMIT: u32 = 65536;

pub open spec fn is_digit(c: char) -> bool {
    '0' <= c && c <= '9'
}

pub open spec fn digit_value(c: char) -> int {
    c as int - '0' as int
}

pub open spec fn all_digits(s: Seq<char>) -> bool {
    forall|i: int| 0 <= i < s.len() ==> #[trigger] is_digit(s[i])
}

/// The number that the decimal digits `s` denote.
pub open spec fn dec_value(s: Seq<char>) -> int
    decreases s.len(),
{
    if s.len() == 0 {
        0
    } else {
        dec_value(s.drop_last()) * 10 + digit_value(s.last())
    }
}

/// A nonempty run of decimal digits, and its value.
pub open spec fn digits_value(s: Seq<char>) -> Option<int> {
    if s.len() > 0 && all_digits(s) {
        Some(dec_value(s))
    } else {
        None
    }
}

/// A signed 16-bit decimal literal: an optional `+` or `-`, then digits.
pub open spec fn parse_i16_spec(s: Seq<char>) -> Option<i16> {
    let neg = s.len() > 0 && s[0] == '-';
    let body = if s.len() > 0 && (s[0] == '-' || s[0] == '+') {
        s.drop_first()
    } else {
        s
    };
    match digits_value(body) {
        Some(v) => {
            let x = if neg {
                -v
            } else {
                v
            };
            if -32768 <= x <= 32767 {
                Some(x as i16)
            } else {
                None
            }
        },
        None => None,
    }
}

/// An unsigned 16-bit decimal literal: an optional `+`, then digits.
pub open spec fn parse_u16_spec(s: Seq<char>) -> Option<u16> {
    let body = if s.len() > 0 && s[0] == '+' {
        s.drop_first()
    } else {
        s
    };
    match digits_value(body) {
        Some(v) => if v <= 65535 {
            Some(v as u16)
        } else {
            None
        },
        None => None,
    }
}

pub open spec fn hex_digit(d: nat) -> char {
    if d < 10 {
        (d + '0' as nat) as char
    } else {
        (d - 10 + 'a' as nat) as char
    }
}

/// Lower-case hexadecimal digits of `n`, without leading zeros.
pub open spec fn hex_spec(n: nat) -> Seq<char>
    decreases n,
{
    if n < 16 {
        seq![hex_digit(n)]
    } else {
        hex_spec(n / 16).push(hex_digit(n % 16))
    }
}

/// Decimal digits of `n`, without leading zeros.
pub open spec fn dec_spec(n: nat) -> Seq<char>
    decreases n,
{
    if n < 10 {
        seq![(n + '0' as nat) as char]
    } else {
        dec_spec(n / 10).push(((n % 10) + '0' as nat) as char)
    }
}

/// A word written as a `0x`-prefixed hexadecimal literal.
pub open spec fn hex_word_spec(w: u16) -> Seq<char> {
    seq!['0', 'x'] + hex_spec(w as nat)
}

proof fn lemma_dec_value_prefix(s: Seq<char>, k: int)
    requires
        all_digits(s),
        0 <= k <= s.len(),
    ensures
        0 <= dec_value(s.subrange(0, k)) <= dec_value(s),
    decreases s.len() - k,
{
    if k < s.len() {
        lemma_dec_value_prefix(s, k + 1);
        assert(s.subrange(0, k + 1).drop_last() =~= s.subrange(0, k));
        assert(is_digit(s[k]));
        lemma_dec_value_nonneg(s.subrange(0, k));
    } else {
        assert(s.subrange(0, k) =~= s);
        lemma_dec_value_nonneg(s);
    }
}

proof fn lemma_dec_value_nonneg(s: Seq<char>)
    requires
        all_digits(s),
    ensures
        dec_value(s) >= 0,
    decreases s.len(),
{
    if s.len() > 0 {
        assert(is_digit(s.last()));
        assert(all_digits(s.drop_last()));
        lemma_dec_value_nonneg(s.drop_last());
    }
}

/// The value of the digits `s[start..]`, where it is a nonempty run of digits
/// of value at most the literal limit.
fn parse_digits(s: &Vec<char>, start: usize) -> (r: Option<u32>)
    requires
        start <= s@.len(),
    ensures
        ({
            let body = s@.subrange(start as int, s@.len() as int);
            match r {
                Some(v) => digits_value(body) == Some(v as int) && v <= LITERAL_LIMIT,
                None => digits_value(body) is None || dec_value(body) > LITERAL_LIMIT,
            }
        }),
{
    let ghost body = s@.subrange(start as int, s@.len() as int);
    if start == s.len() {
        return None;
    }
    let mut acc: u32 = 0;
    let mut i: usize = start;
    while i < s.len()
        invariant
            start <= i <= s@.len(),
            body == s@.subrange(start as int, s@.len() as int),
            all_digits(s@.subrange(start as int, i as int)),
            acc as int == dec_value(s@.subrange(start as int, i as int)),
            acc <= LITERAL_LIMIT,
        decreases s@.len() - i,
    {
        let c = s[i];
        if c < '0' || c > '9' {
            assert(!is_digit(body[i - start]));
            return None;
        }
        let d = (c as u32) - ('0' as u32);
        assert(s@.subrange(start as int, i + 1).drop_last() =~= s@.subrange(start as int, i as int));
        assert(all_digits(s@.subrange(start as int, i + 1)));
        let next = acc * 10 + d;
        if next > LITERAL_LIMIT {
            proof {
                if all_digits(body) {
                    assert(s@.subrange(start as int, i + 1) =~= body.subrange(0, i + 1 - start));
                    lemma_dec_value_prefix(body, i + 1 - start);
                }
            }
            return None;
        }
        acc = next;
        i += 1;
    }
    assert(s@.subrange(start as int, i as int) =~= body);
    Some(acc)
}

/// Reads a signed 16-bit decimal literal, as `str::parse::<i16>` does.
pub fn parse_i16(s: &Vec<char>) -> (r: Option<i16>)
    ensures
        r == parse_i16_spec(s@),
{
    let neg = s.len() > 0 && s[0] == '-';
    let start: usize = if s.len() > 0 && (s[0] == '-' || s[0] == '+') {
        1
    } else {
        0
    };
    assert(s@.subrange(start as int, s@.len() as int) =~= (if start == 1 {
        s@.drop_first()
    } else {
        s@
    }));
    match parse_digits(s, start) {
        Some(v) => {
            if neg {
                if v <= 32768 {
                    Some((0 - (v as i32)) as i16)
                } else {
                    None
                }
            } else {
                if v <= 32767 {
                    Some(v as i16)
                } else {
                    None
                }
            }
        },
        None => None,
    }
}

/// Reads an unsigned 16-bit decimal literal, as `str::parse::<u16>` does.
pub fn parse_u16(s: &Vec<char>) -> (r: Option<u16>)
    ensures
        r == parse_u16_spec(s@),
{
    let start: usize = if s.len() > 0 && s[0] == '+' {
        1
    } else {
        0
    };
    assert(s@.subrange(start as int, s@.len() as int) =~= (if start == 1 {
        s@.drop_first()
    } else {
        s@
    }));
    match parse_digits(s, start) {
        Some(v) => {
            if v <= 65535 {
                Some(v as u16)
            } else {
                None
            }
        },
        None => None,
    }
}

fn hex_digit_exec(d: u16) -> (c: char)
    requires
        d < 16,
    ensures
        c == hex_digit(d as nat),
{
    if d < 10 {
        ((d as u8) + 48u8) as char
    } else {
        ((d as u8) - 10 + 97u8) as char
    }
}

/// Appends the hexadecimal digits of `n`.
pub fn push_hex(out: &mut Vec<char>, n: u16)
    ensures
        final(out)@ == old(out)@ + hex_spec(n as nat),
    decreases n,
{
    if n >= 16 {
        push_hex(out, n / 16);
    }
    out.push(hex_digit_exec(n % 16));
    proof {
        if n >= 16 {
            assert(hex_spec(n as nat) == hex_spec((n / 16) as nat).push(hex_digit((n % 16) as nat)));
        }
    }
    assert(final(out)@ =~= old(out)@ + hex_spec(n as nat));
}

/// Appends `w` as a `0x`-prefixed hexadecimal literal.
pub fn push_hex_word(out: &mut Vec<char>, w: u16)
    ensures
        final(out)@ == old(out)@ + hex_word_spec(w),
{
    out.push('0');
    out.push('x');
    let ghost mid = out@;
    push_hex(out, w);
    assert(final(out)@ =~= old(out)@ + hex_word_spec(w));
}

/// Appends the decimal digits of `n`.
pub fn push_dec(out: &mut Vec<char>, n: usize)
    ensures
        final(out)@ == old(out)@ + dec_spec(n as nat),
    decreases n,
{
    if n >= 10 {
        push_dec(out, n / 10);
    }
    out.push(((n % 10) as u8 + 48u8) as char);
    assert(final(out)@ =~= old(out)@ + dec_spec(n as nat));
}

} // verus!
