//! Reading what the user typed: numbers, addresses, names.

use vstd::prelude::*;

verus! {

/// The value of `c` as a digit, if it is one: `0` to `9`, then `a` to `z` or
/// `A` to `Z` for ten to thirty-five.
pub open spec fn digit_of(c: char) -> Option<nat> {
    if '0' <= c <= '9' {
        Some((c as u32 - '0' as u32) as nat)
    } else if 'a' <= c <= 'z' {
        Some((c as u32 - 'a' as u32 + 10) as nat)
    } else if 'A' <= c <= 'Z' {
        Some((c as u32 - 'A' as u32 + 10) as nat)
    } else {
        None
    }
}

/// `c` is a digit of base `radix`.
pub open spec fn is_digit(c: char, radix: nat) -> bool {
    digit_of(c) matches Some(d) && d < radix
}

/// Every character of `s` is a digit of base `radix`.
pub open spec fn all_digits(s: Seq<char>, radix: nat) -> bool {
    forall|i: int| 0 <= i < s.len() ==> is_digit(#[trigger] s[i], radix)
}

/// The number that the digits `s` write in base `radix`.
pub open spec fn value_of(s: Seq<char>, radix: nat) -> nat
    decreases s.len(),
{
    if s.len() == 0 {
        0
    } else {
        value_of(s.drop_last(), radix) * radix + digit_of(s.last()).unwrap()
    }
}

/// The number that `s` writes in base `radix`: one digit or more, and nothing
/// else; `None` also where the number is above `max`.
pub open spec fn number_of(s: Seq<char>, radix: nat, max: nat) -> Option<nat> {
    if s.len() > 0 && all_digits(s, radix) && value_of(s, radix) <= max {
        Some(value_of(s, radix))
    } else {
        None
    }
}

/// `s` without a leading `0x` or `0X`.
pub open spec fn hex_part(s: Seq<char>) -> Seq<char> {
    if s.len() >= 2 && s[0] == '0' && (s[1] == 'x' || s[1] == 'X') {
        s.skip(2)
    } else {
        s
    }
}

/// The address that `s` writes: a hexadecimal number, with or without `0x`
/// in front.
pub open spec fn addr_of(s: Seq<char>) -> Option<nat> {
    number_of(hex_part(s), 16, u64::MAX as nat)
}

/// The character that writes the digit `d`, in lower case from ten on.
pub open spec fn digit_char(d: nat) -> char {
    if d < 10 {
        (('0' as u32) + d) as char
    } else {
        (('a' as u32) + d - 10) as char
    }
}

/// The digits that write `n` in base `radix`, without leading zeros.
pub open spec fn digits_of(n: nat, radix: nat) -> Seq<char>
    decreases n,
    via digits_of_ends
{
    if n < radix || radix < 2 {
        seq![digit_char(n)]
    } else {
        digits_of(n / radix, radix).push(digit_char(n % radix))
    }
}

#[via_fn]
proof fn digits_of_ends(n: nat, radix: nat) {
    if !(n < radix || radix < 2) {
        assert(n / radix < n) by (nonlinear_arith)
            requires
                n >= radix,
                radix >= 2,
        ;
    }
}

/// `n` written in base ten, with a minus sign if it is negative.
pub open spec fn decimal(n: int) -> Seq<char> {
    if n < 0 {
        seq!['-'] + digits_of((-n) as nat, 10)
    } else {
        digits_of(n as nat, 10)
    }
}

/// `n` written in base sixteen behind `0x`.
pub open spec fn hex(n: nat) -> Seq<char> {
    "0x"@ + digits_of(n, 16)
}

/// The characters of the digits `low`, last digit first.
pub open spec fn backwards(low: Seq<u64>) -> Seq<char> {
    Seq::new(low.len(), |i: int| digit_char(low[low.len() - 1 - i] as nat))
}

/// Digits that start a longer run of digits write a number that is no larger
/// than what all of them write.
pub proof fn lemma_value_grows(s: Seq<char>, n: int, radix: nat)
    requires
        0 <= n <= s.len(),
        radix >= 1,
        all_digits(s, radix),
    ensures
        value_of(s.take(n), radix) <= value_of(s, radix),
    decreases s.len() - n,
{
    if n < s.len() {
        let longer = s.take(n + 1);
        assert(longer.drop_last() =~= s.take(n));
        assert(longer.last() == s[n]);
        assert(is_digit(s[n], radix));
        assert(value_of(longer, radix) >= value_of(s.take(n), radix)) by (nonlinear_arith)
            requires
                value_of(longer, radix) == value_of(s.take(n), radix) * radix + digit_of(
                    s[n],
                ).unwrap(),
                radix >= 1,
        ;
        lemma_value_grows(s, n + 1, radix);
    } else {
        assert(s.take(n) =~= s);
    }
}

/// The characters of `s`.
pub fn chars_of(s: &str) -> (chars: Vec<char>)
    ensures
        chars@ == s@,
{
    let n = s.unicode_len();
    let mut chars: Vec<char> = Vec::new();
    let mut i: usize = 0;
    while i < n
        invariant
            i <= n,
            n == s@.len(),
            chars@ == s@.take(i as int),
        decreases n - i,
    {
        chars.push(s.get_char(i));
        assert(s@.take(i + 1) =~= s@.take(i as int).push(s@[i as int]));
        i += 1;
    }
    assert(s@.take(n as int) =~= s@);
    chars
}

/// The value of `c` as a digit.
pub fn digit(c: char) -> (d: Option<u64>)
    ensures
        d matches Some(v) ==> digit_of(c) == Some(v as nat) && v < 36,
        d is None ==> digit_of(c) is None,
{
    if '0' <= c && c <= '9' {
        Some((c as u32 - '0' as u32) as u64)
    } else if 'a' <= c && c <= 'z' {
        Some((c as u32 - 'a' as u32 + 10) as u64)
    } else if 'A' <= c && c <= 'Z' {
        Some((c as u32 - 'A' as u32 + 10) as u64)
    } else {
        None
    }
}

/// Reads the number that `chars` writes from place `from` on in base `radix`.
fn number_from(chars: &Vec<char>, from: usize, radix: u64, max: u64) -> (n: Option<u64>)
    requires
        from <= chars.len(),
        2 <= radix <= 36,
    ensures
        match number_of(chars@.skip(from as int), radix as nat, max as nat) {
            Some(v) => n == Some(v as u64),
            None => n is None,
        },
{
    let ghost digits = chars@.skip(from as int);
    if from == chars.len() {
        return None;
    }
    let mut i: usize = from;
    let mut value: u64 = 0;
    while i < chars.len()
        invariant
            from <= i <= chars.len(),
            2 <= radix <= 36,
            digits == chars@.skip(from as int),
            all_digits(digits.take(i - from), radix as nat),
            value == value_of(digits.take(i - from), radix as nat),
            value <= max,
        decreases chars.len() - i,
    {
        let ghost seen = digits.take(i - from);
        let ghost more = digits.take(i - from + 1);
        proof {
            assert(more.drop_last() =~= seen);
            assert(more.last() == chars@[i as int]);
        }
        let d = match digit(chars[i]) {
            Some(d) => d,
            None => {
                assert(!is_digit(digits[i - from], radix as nat));
                return None;
            },
        };
        if d >= radix {
            assert(!is_digit(digits[i - from], radix as nat));
            return None;
        }
        let next = match value.checked_mul(radix) {
            Some(scaled) => match scaled.checked_add(d) {
                Some(next) => if next <= max {
                    Some(next)
                } else {
                    None
                },
                None => None,
            },
            None => None,
        };
        match next {
            Some(next) => {
                assert(all_digits(more, radix as nat)) by {
                    assert forall|j: int| 0 <= j < more.len() implies is_digit(
                        #[trigger] more[j],
                        radix as nat,
                    ) by {
                        if j < seen.len() {
                            assert(more[j] == seen[j]);
                        }
                    }
                }
                value = next;
            },
            None => {
                assert(value_of(more, radix as nat) > max);
                proof {
                    if all_digits(digits, radix as nat) {
                        lemma_value_grows(digits, i - from + 1, radix as nat);
                    }
                }
                return None;
            },
        }
        i += 1;
    }
    assert(digits.take(i - from) =~= digits);
    Some(value)
}

/// Reads a number in base ten, as a count that fits the machine: one digit
/// or more, and nothing else.
pub fn parse_count(s: &str) -> (n: Option<usize>)
    ensures
        match number_of(s@, 10, usize::MAX as nat) {
            Some(v) => n == Some(v as usize),
            None => n is None,
        },
{
    let chars = chars_of(s);
    assert(chars@.skip(0) =~= s@);
    match number_from(&chars, 0, 10, usize::MAX as u64) {
        Some(v) => Some(v as usize),
        None => None,
    }
}

/// Reads an address: one hexadecimal digit or more, with or without `0x` in
/// front, and nothing else.
pub fn parse_addr(addr: &str) -> (a: Option<u64>)
    ensures
        match addr_of(addr@) {
            Some(v) => a == Some(v as u64),
            None => a is None,
        },
{
    let chars = chars_of(addr);
    let prefixed = chars.len() >= 2 && chars[0] == '0' && (chars[1] == 'x' || chars[1] == 'X');
    let from: usize = if prefixed {
        2
    } else {
        0
    };
    assert(chars@.skip(from as int) =~= hex_part(addr@));
    number_from(&chars, from, 16, u64::MAX)
}

/// The digit `d` as text.
fn digit_text(d: u64) -> (text: &'static str)
    requires
        d < 16,
    ensures
        text@ == seq![digit_char(d as nat)],
{
    proof {
        reveal_strlit("0");
        reveal_strlit("1");
        reveal_strlit("2");
        reveal_strlit("3");
        reveal_strlit("4");
        reveal_strlit("5");
        reveal_strlit("6");
        reveal_strlit("7");
        reveal_strlit("8");
        reveal_strlit("9");
        reveal_strlit("a");
        reveal_strlit("b");
        reveal_strlit("c");
        reveal_strlit("d");
        reveal_strlit("e");
        reveal_strlit("f");
    }
    let text = if d == 0 {
        "0"
    } else if d == 1 {
        "1"
    } else if d == 2 {
        "2"
    } else if d == 3 {
        "3"
    } else if d == 4 {
        "4"
    } else if d == 5 {
        "5"
    } else if d == 6 {
        "6"
    } else if d == 7 {
        "7"
    } else if d == 8 {
        "8"
    } else if d == 9 {
        "9"
    } else if d == 10 {
        "a"
    } else if d == 11 {
        "b"
    } else if d == 12 {
        "c"
    } else if d == 13 {
        "d"
    } else if d == 14 {
        "e"
    } else {
        "f"
    };
    assert(text@ =~= seq![digit_char(d as nat)]);
    text
}

/// Appends to `out` the digits of `n` in base `radix`.
pub fn push_digits(out: &mut String, n: u64, radix: u64)
    requires
        2 <= radix <= 16,
    ensures
        final(out)@ == old(out)@ + digits_of(n as nat, radix as nat),
{
    let mut rest = n;
    let mut low: Vec<u64> = Vec::new();
    assert(digits_of(n as nat, radix as nat) =~= digits_of(rest as nat, radix as nat) + backwards(
        low@,
    ));
    while rest >= radix
        invariant
            2 <= radix <= 16,
            forall|i: int| 0 <= i < low@.len() ==> low@[i] < radix,
            digits_of(n as nat, radix as nat) == digits_of(rest as nat, radix as nat) + backwards(
                low@,
            ),
        decreases rest,
    {
        let ghost before = low@;
        let d = rest % radix;
        low.push(d);
        assert(digits_of(rest as nat, radix as nat) == digits_of(
            (rest / radix) as nat,
            radix as nat,
        ).push(digit_char(d as nat)));
        assert(digits_of((rest / radix) as nat, radix as nat).push(digit_char(d as nat))
            + backwards(before) =~= digits_of((rest / radix) as nat, radix as nat) + backwards(
            low@,
        ));
        rest = rest / radix;
    }
    out.append(digit_text(rest));
    let ghost head = out@;
    let mut i = low.len();
    while i > 0
        invariant
            i <= low@.len(),
            2 <= radix <= 16,
            forall|j: int| 0 <= j < low@.len() ==> low@[j] < radix,
            out@ == head + backwards(low@).take(low@.len() - i),
        decreases i,
    {
        i -= 1;
        out.append(digit_text(low[i]));
        assert(backwards(low@).take(low@.len() - i) =~= backwards(low@).take(
            low@.len() - i - 1,
        ).push(digit_char(low@[i as int] as nat)));
    }
    assert(backwards(low@).take(low@.len() as int) =~= backwards(low@));
    assert(old(out)@ + seq![digit_char(rest as nat)] + backwards(low@) =~= old(out)@ + (
    seq![digit_char(rest as nat)] + backwards(low@)));
}

/// Appends to `out` the number `n` in base ten.
pub fn push_decimal(out: &mut String, n: i64)
    ensures
        final(out)@ == old(out)@ + decimal(n as int),
{
    if n < 0 {
        proof {
            reveal_strlit("-");
        }
        out.append("-");
        assert(out@ =~= old(out)@ + seq!['-']);
        let size: u64 = if n == i64::MIN {
            0x8000_0000_0000_0000
        } else {
            (-n) as u64
        };
        push_digits(out, size, 10);
        assert(out@ =~= old(out)@ + (seq!['-'] + digits_of((-n) as nat, 10)));
    } else {
        push_digits(out, n as u64, 10);
    }
}

/// Appends to `out` the number `n` in base sixteen behind `0x`.
pub fn push_hex(out: &mut String, n: u64)
    ensures
        final(out)@ == old(out)@ + hex(n as nat),
{
    out.append("0x");
    push_digits(out, n, 16);
    assert(out@ =~= old(out)@ + ("0x"@ + digits_of(n as nat, 16)));
}

} // verus!
