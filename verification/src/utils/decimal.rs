use vstd::prelude::*;

use vstd::string::{StringExecFns, StringSliceAdditionalSpecFns};

verus! {

/// The character of a decimal digit.
pub open spec fn digit_char(d: nat) -> char {
    if d == 0 {
        '0'
    } else if d == 1 {
        '1'
    } else if d == 2 {
        '2'
    } else if d == 3 {
        '3'
    } else if d == 4 {
        '4'
    } else if d == 5 {
        '5'
    } else if d == 6 {
        '6'
    } else if d == 7 {
        '7'
    } else if d == 8 {
        '8'
    } else {
        '9'
    }
}

/// The decimal digits of a natural number, most significant first, without
/// leading zeros (`0` is one digit).
pub open spec fn digits(n: nat) -> Seq<char>
    decreases n,
{
    if n < 10 {
        seq![digit_char(n)]
    } else {
        digits(n / 10).push(digit_char(n % 10))
    }
}

/// The decimal text of an integer, as Rust's `to_string` writes it: a `-`
/// before the digits of a negative number.
pub open spec fn decimal_text(n: int) -> Seq<char> {
    if n < 0 {
        seq!['-'] + digits((-n) as nat)
    } else {
        digits(n as nat)
    }
}

fn digit_str(d: u64) -> (res: &'static str)
    requires
        d < 10,
    ensures
        res@ == seq![digit_char(d as nat)],
{
    proof {
        reveal_strlit("0");
        reveal_strlit("1");
        reveal_strlit("2");
        reveal_strlit("3");
        reveal_strlit("4");
        reveal_strlit("5");
        reveal_strlit("6");
        reveal_strlit("7");
        reveal_strlit("8");
        reveal_strlit("9");
    }
    if d == 0 {
        "0"
    } else if d == 1 {
        "1"
    } else if d == 2 {
        "2"
    } else if d == 3 {
        "3"
    } else if d == 4 {
        "4"
    } else if d == 5 {
        "5"
    } else if d == 6 {
        "6"
    } else if d == 7 {
        "7"
    } else if d == 8 {
        "8"
    } else {
        "9"
    }
}

/// The decimal digits of the number.
pub fn unsigned_text(n: u64) -> (res: String)
    ensures
        res@ == digits(n as nat),
    decreases n,
{
    if n < 10 {
        let mut text = String::new();
        text.append(digit_str(n));
        text
    } else {
        let mut text = unsigned_text(n / 10);
        text.append(digit_str(n % 10));
        text
    }
}

/// The decimal text of the number (see `decimal_text`).
pub fn signed_text(n: i64) -> (res: String)
    ensures
        res@ == decimal_text(n as int),
{
    if n < 0 {
        let magnitude: u64 = if n == i64::MIN {
            9223372036854775808u64
        } else {
            (0 - n) as u64
        };
        let mut text = String::new();
        text.append("-");
        proof {
            reveal_strlit("-");
        }
        let digits_text = unsigned_text(magnitude);
        text.append(digits_text.as_str());
        text
    } else {
        unsigned_text(n as u64)
    }
}

/// Whether the byte is an ASCII decimal digit.
pub open spec fn is_digit_byte(b: u8) -> bool {
    48 <= b <= 57
}

/// The value of decimal digits, most significant first.
pub open spec fn digits_value(d: Seq<u8>) -> int
    decreases d.len(),
{
    if d.len() == 0 {
        0
    } else {
        digits_value(d.drop_last()) * 10 + (d.last() - 48)
    }
}

/// The sign of the text (whether it starts with `-`) and the text after a
/// leading `+` or `-`.
pub open spec fn sign_and_digits(text: Seq<u8>) -> (bool, Seq<u8>) {
    if text.len() > 0 && (text[0] == 43u8 || text[0] == 45u8) {
        (text[0] == 45u8, text.drop_first())
    } else {
        (false, text)
    }
}

/// What Rust's `i64::from_str` gives for the text: an optional `+` or `-`,
/// then one or more ASCII digits whose value (negated after a `-`) is an
/// `i64`; `None` for any other text.
pub open spec fn parsed_i64(text: Seq<u8>) -> Option<i64> {
    let (negative, d) = sign_and_digits(text);
    let v: int = if negative { -digits_value(d) } else { digits_value(d) };
    if d.len() > 0 && (forall|i: int| 0 <= i < d.len() ==> is_digit_byte(#[trigger] d[i])) && i64::MIN <= v <= i64::MAX {
        Some(v as i64)
    } else {
        None
    }
}

proof fn lemma_digits_value_prefix(d: Seq<u8>, k: int)
    requires
        0 <= k <= d.len(),
        forall|i: int| 0 <= i < d.len() ==> is_digit_byte(#[trigger] d[i]),
    ensures
        0 <= digits_value(d.take(k)) <= digits_value(d),
    decreases d.len(),
{
    if d.len() > 0 {
        let rest = d.drop_last();
        assert forall|i: int| 0 <= i < rest.len() implies is_digit_byte(#[trigger] rest[i]) by {
            assert(rest[i] == d[i]);
        }
        assert(is_digit_byte(d[d.len() - 1]));
        if k == d.len() {
            assert(d.take(k) =~= d);
            lemma_digits_value_prefix(rest, rest.len() as int);
            assert(rest.take(rest.len() as int) =~= rest);
        } else {
            lemma_digits_value_prefix(rest, k);
            assert(rest.take(k) =~= d.take(k));
            lemma_digits_value_prefix(rest, rest.len() as int);
            assert(rest.take(rest.len() as int) =~= rest);
        }
    } else {
        assert(d.take(k) =~= d);
    }
}

/// The bytes of ASCII text, one per character.
pub open spec fn ascii_bytes(text: Seq<char>) -> Seq<u8> {
    text.map_values(|c: char| c as u8)
}

/// The digits of a number, read back as ASCII bytes, are decimal digits
/// whose value is the number.
pub proof fn lemma_digits_read_back(n: nat)
    ensures
        ascii_bytes(digits(n)).len() > 0,
        forall|i: int| 0 <= i < ascii_bytes(digits(n)).len() ==> is_digit_byte(#[trigger] ascii_bytes(digits(n))[i]),
        digits_value(ascii_bytes(digits(n))) == n,
    decreases n,
{
    let b = ascii_bytes(digits(n));
    if n < 10 {
        assert(digit_char(n) as u8 == 48 + n);
        assert(b =~= seq![(48 + n) as u8]);
        assert(b.drop_last() =~= Seq::<u8>::empty());
        assert(b.last() == (48 + n) as u8);
        assert(digits_value(b.drop_last()) == 0);
        assert(digits_value(b) == digits_value(b.drop_last()) * 10 + (b.last() - 48));
    } else {
        lemma_digits_read_back(n / 10);
        let d = n % 10;
        assert(digit_char(d) as u8 == 48 + d);
        let front = ascii_bytes(digits(n / 10));
        assert(b =~= front.push((48 + d) as u8));
        assert(b.drop_last() =~= front);
        assert forall|i: int| 0 <= i < b.len() implies is_digit_byte(#[trigger] b[i]) by {
            if i < front.len() {
                assert(b[i] == front[i]);
            }
        }
        assert(b.last() == (48 + d) as u8);
        assert(digits_value(b) == digits_value(front) * 10 + (b.last() - 48));
        assert(digits_value(front) == n / 10);
        assert(n == (n / 10) * 10 + d);
    }
}

/// What the integer's text reads back as: every `i64` written as decimal
/// text parses back to itself.
pub proof fn lemma_decimal_text_parses_back(n: i64)
    ensures
        parsed_i64(ascii_bytes(decimal_text(n as int))) == Some(n),
{
    let text = ascii_bytes(decimal_text(n as int));
    if n < 0 {
        let m = (-(n as int)) as nat;
        lemma_digits_read_back(m);
        let body = ascii_bytes(digits(m));
        assert('-' as u8 == 45u8);
        assert(text =~= seq![45u8] + body);
        assert(text.drop_first() =~= body);
        assert(sign_and_digits(text) == (true, body));
    } else {
        lemma_digits_read_back(n as nat);
        let body = ascii_bytes(digits(n as nat));
        assert(text == body);
        assert(is_digit_byte(body[0]));
        assert(sign_and_digits(text) == (false, body));
    }
}

/// The integer that the text spells (see `parsed_i64`).
pub fn parse_i64(text: &str) -> (res: Option<i64>)
    ensures
        res == parsed_i64(text.spec_bytes()),
{
    let bytes = text.as_bytes();
    let n = bytes.len();
    let ghost all = bytes@;
    let mut start: usize = 0;
    let mut negative = false;
    if n > 0 && (bytes[0] == 43u8 || bytes[0] == 45u8) {
        negative = bytes[0] == 45u8;
        start = 1;
    }
    let ghost d = all.subrange(start as int, n as int);
    proof {
        if start == 1 {
            assert(d =~= all.drop_first());
        } else {
            assert(d =~= all);
        }
        assert(sign_and_digits(all) == (negative, d));
    }
    if start >= n {
        return None;
    }
    let mut m: u128 = 0;
    let mut i: usize = start;
    proof {
        assert(all.subrange(start as int, start as int) =~= Seq::<u8>::empty());
    }
    while i < n
        invariant
            bytes@ == all,
            all == text.spec_bytes(),
            sign_and_digits(all) == (negative, d),
            n == all.len(),
            d == all.subrange(start as int, n as int),
            start <= i <= n,
            m == digits_value(all.subrange(start as int, i as int)),
            m <= 9223372036854775808,
            forall|k: int| start <= k < i ==> is_digit_byte(#[trigger] all[k]),
        decreases n - i,
    {
        let b = bytes[i];
        if b < 48u8 || b > 57u8 {
            proof {
                assert(d[i - start] == all[i as int]);
                assert(!is_digit_byte(d[i - start]));
            }
            return None;
        }
        proof {
            let next_seq = all.subrange(start as int, i + 1);
            assert(next_seq.drop_last() =~= all.subrange(start as int, i as int));
            assert(next_seq.last() == b);
        }
        let next: u128 = m * 10 + (b - 48u8) as u128;
        if next > 9223372036854775808u128 {
            proof {
                if forall|k: int| 0 <= k < d.len() ==> is_digit_byte(#[trigger] d[k]) {
                    lemma_digits_value_prefix(d, i + 1 - start);
                    assert(d.take(i + 1 - start) =~= all.subrange(start as int, i + 1));
                }
            }
            return None;
        }
        m = next;
        i = i + 1;
        proof {
            assert forall|k: int| start <= k < i implies is_digit_byte(#[trigger] all[k]) by {
                if k == i - 1 {
                    assert(all[k] == b);
                }
            }
        }
    }
    proof {
        assert(all.subrange(start as int, n as int) =~= d);
        assert forall|k: int| 0 <= k < d.len() implies is_digit_byte(#[trigger] d[k]) by {
            assert(d[k] == all[k + start]);
        }
    }
    if negative {
        if m == 9223372036854775808u128 {
            Some(i64::MIN)
        } else {
            let v = m as i64;
            Some(0 - v)
        }
    } else if m > 9223372036854775807u128 {
        None
    } else {
        Some(m as i64)
    }
}

} // verus!
