//! Decimal and hexadecimal numerals.
use crate::text;
use vstd::prelude::*;
use vstd::string::*;

verus! {

/// The numeral of one digit in bases up to sixteen.
pub open spec fn digit_char(d: int) -> char {
    if d < 10 {
        ('0' as u32 + d) as char
    } else {
        ('a' as u32 + (d - 10)) as char
    }
}

/// `n` in decimal, without leading zeros.
pub open spec fn decimal(n: nat) -> Seq<char>
    decreases n,
{
    if n < 10 {
        seq![digit_char(n as int)]
    } else {
        decimal(n / 10).push(digit_char((n % 10) as int))
    }
}

/// `n` in lower-case hexadecimal, without leading zeros.
pub open spec fn hexadecimal(n: nat) -> Seq<char>
    decreases n,
{
    if n < 16 {
        seq![digit_char(n as int)]
    } else {
        hexadecimal(n / 16).push(digit_char((n % 16) as int))
    }
}

/// Two lower-case hexadecimal digits per byte.
pub open spec fn hex_bytes(b: Seq<u8>) -> Seq<char>
    decreases b.len(),
{
    if b.len() == 0 {
        Seq::empty()
    } else {
        hex_bytes(b.drop_last()).push(digit_char(b.last() as int / 16)).push(
            digit_char(b.last() as int % 16),
        )
    }
}

pub open spec fn is_digit(c: char) -> bool {
    '0' <= c && c <= '9'
}

pub open spec fn all_digits(s: Seq<char>) -> bool {
    forall|i: int| 0 <= i < s.len() ==> is_digit(#[trigger] s[i])
}

/// The value of a string of decimal digits.
pub open spec fn decimal_value(s: Seq<char>) -> nat
    decreases s.len(),
{
    if s.len() == 0 {
        0
    } else {
        (decimal_value(s.drop_last()) * 10 + (s.last() as int - '0' as int)) as nat
    }
}

/// `s` without one leading plus sign.
pub open spec fn unsigned_part(s: Seq<char>) -> Seq<char> {
    if s.len() > 1 && s[0] == '+' {
        s.subrange(1, s.len() as int)
    } else {
        s
    }
}

/// The numerals of 16-bit unsigned numbers: an optional plus sign and one or
/// more decimal digits.
pub open spec fn u16_numeral(s: Seq<char>) -> Option<u16> {
    let d = unsigned_part(s);
    if d.len() > 0 && all_digits(d) && decimal_value(d) <= 65535 {
        Some(decimal_value(d) as u16)
    } else {
        None
    }
}

/// The numeral of one digit below sixteen.
pub fn digit(d: u8) -> (c: char)
    requires
        d < 16,
    ensures
        c == digit_char(d as int),
{
    if d < 10 {
        (48 + d) as char
    } else {
        (87 + d) as char
    }
}

/// `n` in decimal.
pub fn to_decimal(n: u64) -> (s: String)
    ensures
        s@ == decimal(n as nat),
    decreases n,
{
    if n < 10 {
        let mut s = String::new();
        s.push(digit(n as u8));
        assert(s@ =~= decimal(n as nat));
        s
    } else {
        let mut s = to_decimal(n / 10);
        s.push(digit((n % 10) as u8));
        s
    }
}

/// `n` in lower-case hexadecimal.
pub fn to_hexadecimal(n: u64) -> (s: String)
    ensures
        s@ == hexadecimal(n as nat),
    decreases n,
{
    if n < 16 {
        let mut s = String::new();
        s.push(digit(n as u8));
        assert(s@ =~= hexadecimal(n as nat));
        s
    } else {
        let mut s = to_hexadecimal(n / 16);
        s.push(digit((n % 16) as u8));
        s
    }
}

/// Two lower-case hexadecimal digits per byte.
pub fn hex_encode(bytes: &[u8]) -> (s: String)
    ensures
        s@ == hex_bytes(bytes@),
{
    let mut s = String::new();
    let mut i: usize = 0;
    assert(bytes@.take(0) =~= Seq::<u8>::empty());
    while i < bytes.len()
        invariant
            i <= bytes.len(),
            s@ == hex_bytes(bytes@.take(i as int)),
        decreases bytes.len() - i,
    {
        assert(bytes@.take(i + 1).drop_last() =~= bytes@.take(i as int));
        s.push(digit(bytes[i] / 16));
        s.push(digit(bytes[i] % 16));
        i += 1;
    }
    assert(bytes@.take(bytes@.len() as int) =~= bytes@);
    s
}

proof fn decimal_value_monotone(s: Seq<char>, n: int)
    requires
        0 <= n <= s.len(),
        all_digits(s),
    ensures
        decimal_value(s.take(n)) <= decimal_value(s),
    decreases s.len() - n,
{
    if n < s.len() {
        decimal_value_monotone(s, n + 1);
        assert(s.take(n + 1).drop_last() =~= s.take(n));
        assert(is_digit(s[n]));
        assert(decimal_value(s.take(n + 1)) >= decimal_value(s.take(n)));
    } else {
        assert(s.take(n) =~= s);
    }
}

/// The 16-bit number that `s` is a numeral of.
pub fn parse_u16(s: &str) -> (r: Option<u16>)
    ensures
        r == u16_numeral(s@),
{
    let v = text::chars_of(s);
    let ghost d = unsigned_part(s@);
    let start: usize = if v.len() > 1 && v[0] == '+' { 1 } else { 0 };
    assert(d =~= s@.subrange(start as int, s@.len() as int));
    if start == v.len() {
        return None;
    }
    let mut i: usize = start;
    let mut n: u32 = 0;
    assert(d.take(0) =~= Seq::<char>::empty());
    while i < v.len()
        invariant
            v@ == s@,
            start <= i <= v.len(),
            start < v.len(),
            d == unsigned_part(s@),
            d == s@.subrange(start as int, s@.len() as int),
            n == decimal_value(d.take(i - start)),
            n <= 65535,
            forall|k: int| 0 <= k < i - start ==> is_digit(#[trigger] d[k]),
        decreases v.len() - i,
    {
        let c = v[i];
        assert(c == d[i - start]);
        if !('0' <= c && c <= '9') {
            return None;
        }
        n = n * 10 + (c as u32 - '0' as u32);
        i += 1;
        assert(d.take(i - start).drop_last() =~= d.take(i - start - 1));
        if n > 65535 {
            proof {
                if all_digits(d) {
                    decimal_value_monotone(d, i - start);
                }
            }
            return None;
        }
    }
    assert(d.take(d.len() as int) =~= d);
    Some(n as u16)
}

// ---------------------------------------------------------------------------
// Laws
// ---------------------------------------------------------------------------
/// A numeral is made of digits and has the value that it was written for.
pub proof fn decimal_reads_back(n: nat)
    ensures
        decimal(n).len() > 0,
        all_digits(decimal(n)),
        decimal_value(decimal(n)) == n,
    decreases n,
{
    if n < 10 {
        let s = seq![digit_char(n as int)];
        assert(s.drop_last() =~= Seq::<char>::empty());
        assert(decimal_value(s.drop_last()) == 0);
    } else {
        decimal_reads_back(n / 10);
        let s = decimal(n);
        assert(s.drop_last() =~= decimal(n / 10));
        assert forall|i: int| 0 <= i < s.len() implies is_digit(#[trigger] s[i]) by {
            if i < s.len() - 1 {
                assert(s[i] == decimal(n / 10)[i]);
            }
        }
    }
}

/// The numeral of a 16-bit number is read as that number.
pub proof fn u16_numerals_read_back(n: u16)
    ensures
        u16_numeral(decimal(n as nat)) == Some(n),
{
    decimal_reads_back(n as nat);
    let s = decimal(n as nat);
    assert(is_digit(s[0]));
    assert(unsigned_part(s) == s);
}

/// Numerals end where no digit follows: if the texts behind two numerals do not
/// begin with a digit, equal texts have equal numbers in front.
pub proof fn decimals_are_unambiguous(n: nat, m: nat, x: Seq<char>, y: Seq<char>)
    requires
        decimal(n) + x == decimal(m) + y,
        x.len() == 0 || !is_digit(x[0]),
        y.len() == 0 || !is_digit(y[0]),
    ensures
        n == m,
        x == y,
{
    decimal_reads_back(n);
    decimal_reads_back(m);
    let a = decimal(n);
    let b = decimal(m);
    let t = a + x;
    if a.len() < b.len() {
        assert(is_digit(b[a.len() as int]));
        assert(t[a.len() as int] == b[a.len() as int]);
        assert(x[0] == t[a.len() as int]);
    }
    if b.len() < a.len() {
        assert(is_digit(a[b.len() as int]));
        assert(t[b.len() as int] == (b + y)[b.len() as int]);
        assert(y[0] == t[b.len() as int]);
    }
    assert(a =~= t.subrange(0, a.len() as int));
    assert(b =~= t.subrange(0, b.len() as int));
    assert(x =~= t.subrange(a.len() as int, t.len() as int));
    assert(y =~= t.subrange(b.len() as int, t.len() as int));
}

/// Different digits have different numerals.
pub proof fn digit_chars_differ(d: int, e: int)
    requires
        0 <= d < 16,
        0 <= e < 16,
        digit_char(d) == digit_char(e),
    ensures
        d == e,
{
}

/// Different bytes have different hexadecimal texts.
pub proof fn hex_bytes_are_unambiguous(a: Seq<u8>, b: Seq<u8>)
    requires
        hex_bytes(a) == hex_bytes(b),
    ensures
        a == b,
    decreases a.len(),
{
    let ha = hex_bytes(a);
    let hb = hex_bytes(b);
    if a.len() == 0 {
        if b.len() > 0 {
            assert(hb.len() >= 2);
        }
        assert(a =~= b);
    } else {
        assert(ha.len() >= 2);
        assert(b.len() > 0);
        let pa = hex_bytes(a.drop_last());
        let pb = hex_bytes(b.drop_last());
        assert(ha.drop_last().drop_last() =~= pa);
        assert(hb.drop_last().drop_last() =~= pb);
        hex_bytes_are_unambiguous(a.drop_last(), b.drop_last());
        assert(ha[ha.len() - 2] == digit_char(a.last() as int / 16));
        assert(hb[hb.len() - 2] == digit_char(b.last() as int / 16));
        assert(ha.last() == digit_char(a.last() as int % 16));
        assert(hb.last() == digit_char(b.last() as int % 16));
        digit_chars_differ(a.last() as int / 16, b.last() as int / 16);
        digit_chars_differ(a.last() as int % 16, b.last() as int % 16);
        assert(a =~= a.drop_last().push(a.last()));
        assert(b =~= b.drop_last().push(b.last()));
    }
}

/// Numbers are written with the digits from 0 to 9, the last of which counts ones and
/// each other ten times the one behind it.
pub proof fn how_decimals_are_written(n: nat, d: nat)
    requires
        d < 10,
    ensures
        decimal(d) == seq![('0' as int + d) as u8 as char],
        n > 0 ==> decimal(10 * n + d) == decimal(n).push(('0' as int + d) as u8 as char),
{
    assert((10 * n + d) / 10 == n && (10 * n + d) % 10 == d) by (nonlinear_arith)
        requires
            d < 10,
    ;
}

/// What numerals of ports are worth: a plus may stand in front, every other character
/// is a digit, and the worth fits a port.
pub proof fn what_port_numerals_are_worth(s: Seq<char>, d: nat)
    requires
        d < 10,
    ensures
        decimal_value(Seq::empty()) == 0,
        decimal_value(s.push(('0' as int + d) as u8 as char)) == 10 * decimal_value(s) + d,
        s.len() == 0 ==> u16_numeral(s) is None,
        (exists|i: int| 0 < i < s.len() && !('0' <= #[trigger] s[i] && s[i] <= '9')) ==> u16_numeral(
            s,
        ) is None,
        s.len() > 0 && (forall|i: int| 0 <= i < s.len() ==> '0' <= #[trigger] s[i] && s[i] <= '9')
            ==> {
            &&& u16_numeral(s) is Some <==> decimal_value(s) < 0x10000
            &&& u16_numeral(s) is Some ==> u16_numeral(s)->0 == decimal_value(s)
            &&& u16_numeral(seq!['+'] + s) == u16_numeral(s)
        },
{
    assert(s.push(('0' as int + d) as u8 as char).drop_last() =~= s);
    let p = seq!['+'] + s;
    assert(p.subrange(1, p.len() as int) =~= s);
    if exists|i: int| 0 < i < s.len() && !('0' <= #[trigger] s[i] && s[i] <= '9') {
        let i = choose|i: int| 0 < i < s.len() && !('0' <= #[trigger] s[i] && s[i] <= '9');
        let u = unsigned_part(s);
        if s[0] == '+' {
            assert(u[i - 1] == s[i]);
            assert(!is_digit(u[i - 1]));
        } else {
            assert(!is_digit(u[i]));
        }
    }
    if s.len() > 0 && forall|i: int| 0 <= i < s.len() ==> '0' <= #[trigger] s[i] && s[i] <= '9' {
        assert('0' <= s[0]);
        assert(all_digits(s));
    }
}

/// Bytes are written with two digits each, from 0 to 9 and then from a to f, the
/// sixteens first.
pub proof fn how_bytes_are_written(b: Seq<u8>, x: u8)
    ensures
        hex_bytes(Seq::empty()).len() == 0,
        hex_bytes(b.push(x)) == hex_bytes(b) + seq![
            (if x / 16 < 10 {
                '0' as int + x / 16
            } else {
                'a' as int + x / 16 - 10
            }) as u8 as char,
            (if x % 16 < 10 {
                '0' as int + x % 16
            } else {
                'a' as int + x % 16 - 10
            }) as u8 as char,
        ],
{
    assert(b.push(x).drop_last() =~= b);
}

/// A row of digits that does not begin with a zero is the numeral of its worth.
pub proof fn digits_are_the_numeral_of_their_worth(s: Seq<char>)
    requires
        s.len() > 0,
        all_digits(s),
        s[0] != '0' || s.len() == 1,
    ensures
        decimal(decimal_value(s)) == s,
        s[0] != '0' ==> decimal_value(s) > 0,
    decreases s.len(),
{
    let f = s.drop_last();
    let d = (s.last() as int - '0' as int) as nat;
    assert(is_digit(s[s.len() - 1]));
    if s.len() == 1 {
        assert(f =~= Seq::<char>::empty());
        assert(decimal_value(f) == 0);
        assert(decimal(d) =~= s);
    } else {
        assert forall|i: int| 0 <= i < f.len() implies is_digit(#[trigger] f[i]) by {
            assert(is_digit(s[i]));
        }
        assert(f[0] == s[0]);
        digits_are_the_numeral_of_their_worth(f);
        how_decimals_are_written(decimal_value(f), d);
        assert(f.push(s.last()) =~= s);
    }
}

/// Longer rows of digits are worth more: a numeral below a thousand has three digits at
/// most.
pub proof fn short_numerals(n: nat)
    requires
        n < 1000,
    ensures
        1 <= decimal(n).len() <= 3,
        decimal(n)[0] != '0' || decimal(n).len() == 1,
{
    reveal_with_fuel(decimal, 3);
    if n >= 100 {
        assert(n / 10 >= 10 && n / 10 / 10 > 0 && n / 10 / 10 < 10);
        assert(decimal(n)[0] == digit_char((n / 10 / 10) as int));
    } else if n >= 10 {
        assert(0 < n / 10 < 10);
        assert(decimal(n)[0] == digit_char((n / 10) as int));
    }
}

/// Hexadecimal numerals have the digits from 0 to 9 and from a to f, the last of which
/// counts ones and each other sixteen times the one behind it.
pub proof fn how_hexadecimals_are_written(n: nat, d: nat)
    requires
        d < 16,
    ensures
        ({
            let c = (if d < 10 {
                '0' as int + d
            } else {
                'a' as int + d - 10
            }) as u8 as char;
            &&& hexadecimal(d) == seq![c]
            &&& n > 0 ==> hexadecimal(16 * n + d) == hexadecimal(n).push(c)
        }),
{
    assert((16 * n + d) / 16 == n && (16 * n + d) % 16 == d) by (nonlinear_arith)
        requires
            d < 16,
    ;
}

} // verus!
