//! Integers written as text: the digit grammar that `from_str_radix`
//! accepts, and decimal / hexadecimal rendering.

use vstd::prelude::*;

verus! {

/// The value of `c` as a digit (`char::to_digit`), or `radix` when it
/// is no digit at all.
pub open spec fn digit_value(c: char, radix: nat) -> int {
    let v = if '0' <= c && c <= '9' {
        (c as int) - ('0' as int)
    } else if 'a' <= c && c <= 'z' {
        (c as int) - ('a' as int) + 10
    } else if 'A' <= c && c <= 'Z' {
        (c as int) - ('A' as int) + 10
    } else {
        radix as int
    };
    if v < radix {
        v
    } else {
        radix as int
    }
}

/// `c` is a digit in `radix`.
pub open spec fn is_digit(c: char, radix: nat) -> bool {
    digit_value(c, radix) < radix
}

/// Every character of `d` is a digit in `radix`.
pub open spec fn all_digits(d: Seq<char>, radix: nat) -> bool {
    forall|i: int| 0 <= i < d.len() ==> is_digit(#[trigger] d[i], radix)
}

/// The number that the digits `d` denote.
pub open spec fn digits_value(d: Seq<char>, radix: nat) -> int
    decreases d.len(),
{
    if d.len() == 0 {
        0
    } else {
        digits_value(d.drop_last(), radix) * radix + digit_value(d.last(), radix)
    }
}

/// What an unsigned `from_str_radix` makes of `s` for a type whose
/// largest value is `max`: an optional `+`, then at least one digit,
/// and a value that fits.
pub open spec fn parse_uint(s: Seq<char>, radix: nat, max: int) -> Option<int> {
    let d = if s.len() > 0 && s[0] == '+' {
        s.skip(1)
    } else {
        s
    };
    if d.len() > 0 && all_digits(d, radix) && digits_value(d, radix) <= max {
        Some(digits_value(d, radix))
    } else {
        None
    }
}

proof fn lemma_digits_value_nonneg(d: Seq<char>, radix: nat)
    requires
        radix >= 2,
        all_digits(d, radix),
    ensures
        digits_value(d, radix) >= 0,
    decreases d.len(),
{
    if d.len() > 0 {
        assert(all_digits(d.drop_last(), radix)) by {
            assert forall|i: int| 0 <= i < d.drop_last().len() implies is_digit(
                #[trigger] d.drop_last()[i],
                radix,
            ) by {
                assert(d.drop_last()[i] == d[i]);
            }
        }
        lemma_digits_value_nonneg(d.drop_last(), radix);
        assert(is_digit(d[d.len() - 1], radix));
        assert(digits_value(d.drop_last(), radix) * radix >= 0) by (nonlinear_arith)
            requires
                digits_value(d.drop_last(), radix) >= 0,
                radix >= 2,
        ;
    }
}

/// A longer run of digits never denotes a smaller number.
proof fn lemma_digits_value_prefix(d: Seq<char>, radix: nat, k: int)
    requires
        radix >= 2,
        0 <= k <= d.len(),
        all_digits(d, radix),
    ensures
        digits_value(d.take(k), radix) <= digits_value(d, radix),
    decreases d.len() - k,
{
    if k < d.len() {
        let p = d.take(k + 1);
        assert(p.drop_last() == d.take(k));
        assert(all_digits(d.take(k), radix)) by {
            assert forall|i: int| 0 <= i < d.take(k).len() implies is_digit(
                #[trigger] d.take(k)[i],
                radix,
            ) by {
                assert(d.take(k)[i] == d[i]);
            }
        }
        lemma_digits_value_nonneg(d.take(k), radix);
        assert(p.last() == d[k]);
        assert(is_digit(d[k], radix));
        let a = digits_value(d.take(k), radix);
        assert(a * radix >= a) by (nonlinear_arith)
            requires
                a >= 0,
                radix >= 2,
        ;
        lemma_digits_value_prefix(d, radix, k + 1);
    } else {
        assert(d.take(k) == d);
    }
}

/// The digit value of `c` in radix 10 or 16, `radix` when it is none.
fn digit_of(c: char, radix: u32) -> (r: u32)
    requires
        radix == 10 || radix == 16,
    ensures
        r as int == digit_value(c, radix as nat),
{
    let v: u32 = if '0' <= c && c <= '9' {
        (c as u32) - ('0' as u32)
    } else if 'a' <= c && c <= 'z' {
        (c as u32) - ('a' as u32) + 10
    } else if 'A' <= c && c <= 'Z' {
        (c as u32) - ('A' as u32) + 10
    } else {
        radix
    };
    if v < radix {
        v
    } else {
        radix
    }
}

/// Parses `v[from..to]` as an unsigned number in radix 10 or 16 that
/// may not exceed `max`.
pub fn parse_uint_range(v: &Vec<char>, from: usize, to: usize, radix: u32, max: u128) -> (r:
    Option<u128>)
    requires
        from <= to <= v@.len(),
        radix == 10 || radix == 16,
        max <= u64::MAX,
    ensures
        match r {
            Some(x) => parse_uint(v@.subrange(from as int, to as int), radix as nat, max as int)
                == Some(x as int),
            None => parse_uint(v@.subrange(from as int, to as int), radix as nat, max as int)
                is None,
        },
{
    let ghost s = v@.subrange(from as int, to as int);
    let mut start = from;
    if from < to && v[from] == '+' {
        start = from + 1;
    }
    let ghost d = v@.subrange(start as int, to as int);
    assert(d == if s.len() > 0 && s[0] == '+' {
        s.skip(1)
    } else {
        s
    });
    if start == to {
        return None;
    }
    let mut acc: u128 = 0;
    let mut i = start;
    assert(d.take(0) =~= seq![]);
    while i < to
        invariant
            from <= start <= i <= to <= v@.len(),
            radix == 10 || radix == 16,
            max <= u64::MAX,
            d == v@.subrange(start as int, to as int),
            s == v@.subrange(from as int, to as int),
            d == if s.len() > 0 && s[0] == '+' {
                s.skip(1)
            } else {
                s
            },
            d.len() > 0,
            all_digits(d.take(i - start), radix as nat),
            acc as int == digits_value(d.take(i - start), radix as nat),
            acc <= max,
        decreases to - i,
    {
        let dv = digit_of(v[i], radix);
        let ghost k = i - start;
        assert(d[k] == v@[i as int]);
        if dv >= radix {
            assert(!all_digits(d, radix as nat)) by {
                assert(!is_digit(d[k], radix as nat));
            }
            return None;
        }
        let next: u128 = if radix == 10 {
            acc * 10 + dv as u128
        } else {
            acc * 16 + dv as u128
        };
        assert(d.take(k + 1).drop_last() == d.take(k));
        assert(d.take(k + 1).last() == d[k]);
        assert(all_digits(d.take(k + 1), radix as nat)) by {
            assert forall|m: int| 0 <= m < d.take(k + 1).len() implies is_digit(
                #[trigger] d.take(k + 1)[m],
                radix as nat,
            ) by {
                if m < k {
                    assert(d.take(k + 1)[m] == d.take(k)[m]);
                }
            }
        }
        if next > max {
            proof {
                if all_digits(d, radix as nat) {
                    lemma_digits_value_prefix(d, radix as nat, k + 1);
                }
            }
            return None;
        }
        acc = next;
        i = i + 1;
    }
    assert(d.take(to - start) == d);
    Some(acc)
}

/// An unsigned integer type that numbers can be parsed into.
pub trait UnsignedNum: Sized + Copy {
    /// The largest value of the type.
    spec fn max_value() -> int;

    /// The value as a mathematical integer.
    spec fn value(self) -> int;

    fn max() -> (m: u128)
        ensures
            m as int == Self::max_value(),
            m <= u64::MAX,
    ;

    fn from_u128(v: u128) -> (r: Self)
        requires
            v as int <= Self::max_value(),
        ensures
            r.value() == v as int,
    ;
}

impl UnsignedNum for u8 {
    open spec fn max_value() -> int {
        u8::MAX as int
    }

    open spec fn value(self) -> int {
        self as int
    }

    fn max() -> (m: u128) {
        u8::MAX as u128
    }

    fn from_u128(v: u128) -> (r: u8) {
        v as u8
    }
}

impl UnsignedNum for u16 {
    open spec fn max_value() -> int {
        u16::MAX as int
    }

    open spec fn value(self) -> int {
        self as int
    }

    fn max() -> (m: u128) {
        u16::MAX as u128
    }

    fn from_u128(v: u128) -> (r: u16) {
        v as u16
    }
}

impl UnsignedNum for u32 {
    open spec fn max_value() -> int {
        u32::MAX as int
    }

    open spec fn value(self) -> int {
        self as int
    }

    fn max() -> (m: u128) {
        u32::MAX as u128
    }

    fn from_u128(v: u128) -> (r: u32) {
        v as u32
    }
}

impl UnsignedNum for u64 {
    open spec fn max_value() -> int {
        u64::MAX as int
    }

    open spec fn value(self) -> int {
        self as int
    }

    fn max() -> (m: u128) {
        u64::MAX as u128
    }

    fn from_u128(v: u128) -> (r: u64) {
        v as u64
    }
}

impl UnsignedNum for usize {
    open spec fn max_value() -> int {
        usize::MAX as int
    }

    open spec fn value(self) -> int {
        self as int
    }

    fn max() -> (m: u128) {
        usize::MAX as u128
    }

    fn from_u128(v: u128) -> (r: usize) {
        v as usize
    }
}


/// The upper-case digits of radix 16 (the first ten serve radix 10).
pub open spec fn digit_chars() -> Seq<char> {
    seq!['0', '1', '2', '3', '4', '5', '6', '7', '8', '9', 'A', 'B', 'C', 'D', 'E', 'F']
}

/// The digits of `n` in `radix` (10 or 16), most significant first,
/// with no leading zeros (`{}` / `{:X}`).
pub open spec fn radix_str(n: nat, radix: nat) -> Seq<char>
    decreases n,
{
    if radix < 2 || n < radix {
        seq![digit_chars()[n as int]]
    } else {
        proof {
            assert(n / radix < n) by (nonlinear_arith)
                requires
                    radix >= 2,
                    n >= radix,
            ;
        }
        radix_str(n / radix, radix).push(digit_chars()[(n % radix) as int])
    }
}

/// `t` left-padded with zeros to `width` characters (`{:0w}`).
pub open spec fn zero_padded(t: Seq<char>, width: nat) -> Seq<char> {
    if t.len() >= width {
        t
    } else {
        Seq::new((width - t.len()) as nat, |_i: int| '0') + t
    }
}

/// Decimal rendering of `n` (`{}`).
pub open spec fn dec(n: nat) -> Seq<char> {
    radix_str(n, 10)
}

/// Upper-case hexadecimal rendering of `n` (`{:X}`).
pub open spec fn hex(n: nat) -> Seq<char> {
    radix_str(n, 16)
}

/// The digits of `n` in `radix` (10 or 16).
pub fn radix_chars(n: u64, radix: u64) -> (r: Vec<char>)
    requires
        radix == 10 || radix == 16,
    ensures
        r@ == radix_str(n as nat, radix as nat),
    decreases n,
{
    let table: [char; 16] = [
        '0',
        '1',
        '2',
        '3',
        '4',
        '5',
        '6',
        '7',
        '8',
        '9',
        'A',
        'B',
        'C',
        'D',
        'E',
        'F',
    ];
    assert(table@ == digit_chars());
    if n < radix {
        let mut v: Vec<char> = Vec::new();
        v.push(table[n as usize]);
        v
    } else {
        let mut v = radix_chars(n / radix, radix);
        v.push(table[(n % radix) as usize]);
        v
    }
}

/// Appends the decimal rendering of `n` to `out`.
pub fn push_dec(out: &mut Vec<char>, n: u64)
    ensures
        final(out)@ == old(out)@ + dec(n as nat),
{
    let d = radix_chars(n, 10);
    crate::textutil::push_all(out, &d);
}

/// Appends the hexadecimal rendering of `n`, zero-padded to `width`.
pub fn push_hex(out: &mut Vec<char>, n: u64, width: usize)
    ensures
        final(out)@ == old(out)@ + zero_padded(hex(n as nat), width as nat),
{
    let d = radix_chars(n, 16);
    let ghost start = out@;
    let mut k = d.len();
    while k < width
        invariant
            d@ == hex(n as nat),
            d@.len() <= k <= width || (k == d@.len() && k >= width),
            out@ == start + Seq::new((k - d@.len()) as nat, |_i: int| '0'),
        decreases width - k,
    {
        out.push('0');
        k = k + 1;
        assert(out@ == start + Seq::new((k - d@.len()) as nat, |_i: int| '0'));
    }
    crate::textutil::push_all(out, &d);
    proof {
        if d@.len() >= width {
            assert(out@ == start + d@);
        } else {
            assert(out@ == start + (Seq::new((width - d@.len()) as nat, |_i: int| '0') + d@));
        }
    }
}

/// Appends the decimal rendering of `n`, zero-padded to `width`.
pub fn push_dec_padded(out: &mut Vec<char>, n: u64, width: usize)
    ensures
        final(out)@ == old(out)@ + zero_padded(dec(n as nat), width as nat),
{
    let d = radix_chars(n, 10);
    let ghost start = out@;
    let mut k = d.len();
    while k < width
        invariant
            d@ == dec(n as nat),
            d@.len() <= k <= width || (k == d@.len() && k >= width),
            out@ == start + Seq::new((k - d@.len()) as nat, |_i: int| '0'),
        decreases width - k,
    {
        out.push('0');
        k = k + 1;
        assert(out@ == start + Seq::new((k - d@.len()) as nat, |_i: int| '0'));
    }
    crate::textutil::push_all(out, &d);
    proof {
        if d@.len() >= width {
            assert(out@ == start + d@);
        } else {
            assert(out@ == start + (Seq::new((width - d@.len()) as nat, |_i: int| '0') + d@));
        }
    }
}

proof fn lemma_digit_char_value(d: nat, radix: nat)
    requires
        radix == 10 || radix == 16,
        d < radix,
    ensures
        digit_value(digit_chars()[d as int], radix) == d,
{
    assert(digit_chars()[0] == '0');
    assert(digit_chars()[1] == '1');
    assert(digit_chars()[2] == '2');
    assert(digit_chars()[3] == '3');
    assert(digit_chars()[4] == '4');
    assert(digit_chars()[5] == '5');
    assert(digit_chars()[6] == '6');
    assert(digit_chars()[7] == '7');
    assert(digit_chars()[8] == '8');
    assert(digit_chars()[9] == '9');
    assert(digit_chars()[10] == 'A');
    assert(digit_chars()[11] == 'B');
    assert(digit_chars()[12] == 'C');
    assert(digit_chars()[13] == 'D');
    assert(digit_chars()[14] == 'E');
    assert(digit_chars()[15] == 'F');
}

pub proof fn lemma_radix_str_value(n: nat, radix: nat)
    requires
        radix == 10 || radix == 16,
    ensures
        radix_str(n, radix).len() > 0,
        all_digits(radix_str(n, radix), radix),
        digits_value(radix_str(n, radix), radix) == n,
        radix_str(n, radix)[0] != '+',
    decreases n,
{
    let t = radix_str(n, radix);
    if n < radix {
        lemma_digit_char_value(n, radix);
        assert(t.drop_last() =~= seq![]);
        assert(digits_value(t.drop_last(), radix) == 0);
        assert(t.last() == t[0]);
        assert(digit_value(t[0], radix) < radix);
    } else {
        let p = radix_str(n / radix, radix);
        lemma_radix_str_value(n / radix, radix);
        lemma_digit_char_value(n % radix, radix);
        assert(t.drop_last() == p);
        assert forall|i: int| 0 <= i < t.len() implies is_digit(#[trigger] t[i], radix) by {
            if i < p.len() {
                assert(t[i] == p[i]);
            }
        }
        assert(t[0] == p[0]);
        assert(t.last() == digit_chars()[(n % radix) as int]);
        assert(n == (n / radix) * radix + n % radix) by (nonlinear_arith)
            requires
                radix > 0,
        ;
    }
}

/// Parsing the hexadecimal (or decimal) rendering of a number gives the
/// number back, as long as it fits the target type.
pub proof fn law_parse_render_roundtrip(n: nat, radix: nat, max: int)
    requires
        radix == 10 || radix == 16,
        n <= max,
    ensures
        parse_uint(radix_str(n, radix), radix, max) == Some(n as int),
{
    lemma_radix_str_value(n, radix);
}

} // verus!
