//! Decimal numerals: writing them and reading them back.

use vstd::prelude::*;

use crate::text;
use crate::text::chars_of;

verus! {

/// All characters are ASCII digits.
pub open spec fn all_digits(s: Seq<char>) -> bool {
    forall|i: int| 0 <= i < s.len() ==> text::is_digit(#[trigger] s[i])
}

/// The number that a sequence of decimal digits denotes.
pub open spec fn digits_value(s: Seq<char>) -> nat
    decreases s.len(),
{
    if s.len() == 0 {
        0
    } else {
        digits_value(s.drop_last()) * 10 + ((s.last() as int) - ('0' as int)) as nat
    }
}

/// The shortest decimal numeral of `n`.
pub open spec fn decimal(n: nat) -> Seq<char>
    decreases n,
{
    if n < 10 {
        seq![(n + ('0' as int)) as char]
    } else {
        decimal(n / 10).push((n % 10 + ('0' as int)) as char)
    }
}

/// The shortest decimal numeral of `n`, with a minus sign where it is negative.
pub open spec fn decimal_int(n: int) -> Seq<char> {
    if n < 0 {
        seq!['-'] + decimal((-n) as nat)
    } else {
        decimal(n as nat)
    }
}

/// The digits of a numeral after an optional plus sign.
pub open spec fn unsigned_digits(s: Seq<char>) -> Seq<char> {
    if s.len() > 0 && s[0] == '+' {
        s.skip(1)
    } else {
        s
    }
}

/// The number that a text denotes as an unsigned integer of at most `max`: an
/// optional plus sign and at least one decimal digit.
pub open spec fn parse_unsigned(s: Seq<char>, max: nat) -> Option<nat> {
    let d = unsigned_digits(s);
    if d.len() > 0 && all_digits(d) && digits_value(d) <= max {
        Some(digits_value(d))
    } else {
        None
    }
}

/// The number that a text denotes as a 64-bit signed integer: an optional sign
/// and at least one decimal digit.
pub open spec fn parse_signed(s: Seq<char>) -> Option<int> {
    if s.len() > 0 && s[0] == '-' {
        let d = s.skip(1);
        if d.len() > 0 && all_digits(d) && digits_value(d) <= 0x8000_0000_0000_0000 {
            Some(-(digits_value(d) as int))
        } else {
            None
        }
    } else {
        match parse_unsigned(s, 0x7fff_ffff_ffff_ffff) {
            Some(n) => Some(n as int),
            None => None,
        }
    }
}

proof fn lemma_value_prefix(s: Seq<char>, i: int)
    requires
        0 <= i <= s.len(),
        all_digits(s),
    ensures
        digits_value(s.take(i)) <= digits_value(s),
    decreases s.len() - i,
{
    if i < s.len() {
        lemma_value_prefix(s, i + 1);
        assert(s.take(i + 1).drop_last() == s.take(i));
    } else {
        assert(s.take(i) == s);
    }
}

/// Reads the digits `ds` as a number of at most `max`.
fn read_digits(ds: &[char], max: u64) -> (r: Option<u64>)
    ensures
        r is Some <==> ds@.len() > 0 && all_digits(ds@) && digits_value(ds@) <= max,
        r matches Some(v) ==> v == digits_value(ds@),
{
    let n: usize = ds.len();
    if n == 0 {
        return None;
    }
    let mut i: usize = 0;
    while i < n
        invariant
            n == ds@.len(),
            i <= n,
            forall|j: int| 0 <= j < i ==> text::is_digit(#[trigger] ds@[j]),
        decreases n - i,
    {
        if !text::is_digit_char(ds[i]) {
            return None;
        }
        i += 1;
    }
    let mut v: u64 = 0;
    i = 0;
    while i < n
        invariant
            n == ds@.len(),
            i <= n,
            all_digits(ds@),
            v == digits_value(ds@.take(i as int)),
            v <= max,
        decreases n - i,
    {
        let c = ds[i];
        let d: u64 = (c as u64) - 48;
        proof {
            assert(text::is_digit(ds@[i as int]));
            assert(ds@.take(i + 1).drop_last() == ds@.take(i as int));
            lemma_value_prefix(ds@, i + 1);
        }
        if d > max || v > max / 10 || v * 10 > max - d {
            assert(digits_value(ds@.take(i + 1)) == v * 10 + d);
            return None;
        }
        v = v * 10 + d;
        i += 1;
    }
    assert(ds@.take(n as int) == ds@);
    Some(v)
}

/// Reads an unsigned integer of at most `max`.
fn read_unsigned(cs: &[char], max: u64) -> (r: Option<u64>)
    ensures
        r == (match parse_unsigned(cs@, max as nat) { Some(v) => Some(v as u64), None => None::<u64> }),
        r is Some <==> parse_unsigned(cs@, max as nat) is Some,
{
    if cs.len() > 0 && cs[0] == '+' {
        assert(cs@.skip(1) == cs@.subrange(1, cs@.len() as int));
        read_digits(&cs[1..cs.len()], max)
    } else {
        read_digits(cs, max)
    }
}

/// Reads a text as a `u64`.
pub fn read_u64(s: &str) -> (r: Option<u64>)
    ensures
        r is Some <==> parse_unsigned(s@, u64::MAX as nat) is Some,
        r matches Some(v) ==> parse_unsigned(s@, u64::MAX as nat) == Some(v as nat),
{
    let cs = chars_of(s);
    read_unsigned(&cs, u64::MAX)
}

/// Reads a text as a `u16`.
pub fn read_u16(cs: &[char]) -> (r: Option<u16>)
    ensures
        r is Some <==> parse_unsigned(cs@, u16::MAX as nat) is Some,
        r matches Some(v) ==> parse_unsigned(cs@, u16::MAX as nat) == Some(v as nat),
{
    match read_unsigned(cs, 0xffff) {
        Some(v) => Some(v as u16),
        None => None,
    }
}

/// Reads a text as an `i64`.
pub fn read_i64(s: &str) -> (r: Option<i64>)
    ensures
        r is Some <==> parse_signed(s@) is Some,
        r matches Some(v) ==> parse_signed(s@) == Some(v as int),
{
    let cs = chars_of(s);
    if cs.len() > 0 && cs[0] == '-' {
        assert(cs@.skip(1) == cs@.subrange(1, cs@.len() as int));
        match read_digits(&cs[1..cs.len()], 0x8000_0000_0000_0000) {
            Some(v) => {
                if v == 0x8000_0000_0000_0000 {
                    Some(i64::MIN)
                } else {
                    Some(-(v as i64))
                }
            },
            None => None,
        }
    } else {
        match read_unsigned(&cs, 0x7fff_ffff_ffff_ffff) {
            Some(v) => Some(v as i64),
            None => None,
        }
    }
}

/// Writes the decimal numeral of `n`.
pub fn write_u64(n: u64) -> (r: String)
    ensures
        r@ == decimal(n as nat),
{
    let mut rev: Vec<char> = Vec::new();
    let mut v: u64 = n;
    assert(decimal(n as nat) == decimal(v as nat) + rev@.reverse());
    while v >= 10
        invariant
            decimal(n as nat) == decimal(v as nat) + rev@.reverse(),
        decreases v,
    {
        let d: u8 = (v % 10) as u8;
        let c = (48 + d) as char;
        let ghost before = rev@;
        rev.push(c);
        assert(rev@.reverse() == seq![c] + before.reverse());
        assert(decimal(v as nat) == decimal((v / 10) as nat).push(c));
        v = v / 10;
    }
    let d: u8 = v as u8;
    let c = (48 + d) as char;
    let ghost before = rev@;
    rev.push(c);
    assert(rev@.reverse() == seq![c] + before.reverse());
    let mut out = String::new();
    let mut i: usize = rev.len();
    while i > 0
        invariant
            i <= rev@.len(),
            out@ == rev@.reverse().take(rev@.len() - i),
        decreases i,
    {
        i -= 1;
        out.push(rev[i]);
    }
    assert(rev@.reverse().take(rev@.len() as int) == rev@.reverse());
    out
}

/// Writes the decimal numeral of `n`.
pub fn write_i64(n: i64) -> (r: String)
    ensures
        r@ == decimal_int(n as int),
{
    if n >= 0 {
        write_u64(n as u64)
    } else {
        let mut out = String::new();
        out.push('-');
        let m: u64 = if n == i64::MIN {
            0x8000_0000_0000_0000
        } else {
            (-n) as u64
        };
        let digits = write_u64(m);
        text::push_str(&mut out, &digits);
        out
    }
}

/// A written numeral is made of digits and denotes the number.
pub proof fn lemma_decimal_digits(n: nat)
    ensures
        decimal(n).len() > 0,
        all_digits(decimal(n)),
        digits_value(decimal(n)) == n,
    decreases n,
{
    let s = decimal(n);
    if n < 10 {
        assert(s.drop_last() == Seq::<char>::empty());
        assert(digits_value(s.drop_last()) == 0);
    } else {
        lemma_decimal_digits(n / 10);
        assert(s.drop_last() == decimal(n / 10));
        let t = decimal(n / 10);
        assert forall|i: int| 0 <= i < s.len() implies text::is_digit(#[trigger] s[i]) by {
            if i < t.len() {
                assert(s[i] == t[i]);
            }
        }
    }
}

/// Reading back a written unsigned numeral gives the number.
pub proof fn decimal_reads_back(n: nat, max: nat)
    requires
        n <= max,
    ensures
        parse_unsigned(decimal(n), max) == Some(n),
{
    lemma_decimal_digits(n);
    assert(text::is_digit(decimal(n)[0]));
}

/// Reading back a written signed numeral gives the number.
pub proof fn decimal_int_reads_back(n: int)
    requires
        i64::MIN <= n <= i64::MAX,
    ensures
        parse_signed(decimal_int(n)) == Some(n),
{
    if n < 0 {
        lemma_decimal_digits((-n) as nat);
        assert(decimal_int(n).skip(1) == decimal((-n) as nat));
    } else {
        decimal_reads_back(n as nat, 0x7fff_ffff_ffff_ffff);
        lemma_decimal_digits(n as nat);
        assert(text::is_digit(decimal(n as nat)[0]));
    }
}

/// A numeral is the shortest: it begins with zero only if it is `0`.
pub proof fn numerals_have_no_leading_zero(n: nat)
    ensures
        all_digits(decimal(n)),
        n > 0 ==> decimal(n)[0] != '0',
        n == 0 ==> decimal(n) == seq!['0'],
        n > 0 ==> decimal_int(-n) == seq!['-'] + decimal(n),
        decimal_int(n as int) == decimal(n),
    decreases n,
{
    lemma_decimal_digits(n);
    if n >= 10 {
        numerals_have_no_leading_zero(n / 10);
        assert(decimal(n)[0] == decimal(n / 10)[0]);
    }
}

/// Digits are read from left to right, each worth ten times the next. A text is a
/// number if it has digits and nothing else, after a plus sign or none, and the
/// number is not too large; a signed number may have a minus sign.
pub proof fn digits_are_read_as_numbers(s: Seq<char>, d: int, max: nat, rest: Seq<char>)
    requires
        0 <= d < 10,
        s.len() > 0,
        all_digits(s),
    ensures
        digits_value(Seq::empty()) == 0,
        digits_value(s.push("0123456789"@[d])) == 10 * digits_value(s) + d,
        parse_unsigned(s, max) == (if digits_value(s) <= max {
            Some(digits_value(s))
        } else {
            None
        }),
        parse_unsigned(seq!['+'] + s, max) == parse_unsigned(s, max),
        parse_unsigned(seq!['-'] + s, max) is None,
        parse_unsigned(Seq::empty(), max) is None,
        digits_value(s) <= 0x7fff_ffff_ffff_ffff ==> parse_signed(s) == Some(
            digits_value(s) as int,
        ),
        digits_value(s) > 0x7fff_ffff_ffff_ffff ==> parse_signed(s) is None,
        digits_value(s) <= 0x8000_0000_0000_0000 ==> parse_signed(seq!['-'] + s) == Some(
            -(digits_value(s) as int),
        ),
        rest.len() > 0 && !text::is_digit(rest.last()) ==> parse_unsigned(rest, max) is None
            && parse_signed(rest) is None,
{
    reveal_strlit("0123456789");
    let c = "0123456789"@[d];
    assert(s.push(c).drop_last() == s);
    assert(text::is_digit(s[0]));
    assert((seq!['+'] + s).skip(1) == s);
    assert((seq!['-'] + s).skip(1) == s);
    assert((seq!['-'] + s)[0] == '-');
    assert(!text::is_digit('-'));
    if rest.len() > 0 && !text::is_digit(rest.last()) {
        let u = unsigned_digits(rest);
        if u.len() > 0 {
            assert(u.last() == rest.last());
            assert(!text::is_digit(u[u.len() - 1]));
        }
        let t = rest.skip(1);
        if t.len() > 0 {
            assert(t[t.len() - 1] == rest.last());
        }
    }
}

} // verus!
