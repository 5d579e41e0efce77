//! Numbers in decimal notation, written and read.

use vstd::prelude::*;
use vstd::string::*;
use crate::util::text;

verus! {

/// The digit for a number below ten.
pub open spec fn digit(d: int) -> char {
    (48 + d) as char
}

/// `n` in decimal, without leading zeros.
pub open spec fn digits(n: nat) -> Seq<char>
    decreases n,
{
    if n < 10 {
        seq![digit(n as int)]
    } else {
        digits(n / 10).push(digit((n % 10) as int))
    }
}

/// `n` in decimal, filled up with leading zeros to `width` digits.
pub open spec fn padded(n: nat, width: nat) -> Seq<char> {
    if digits(n).len() >= width {
        digits(n)
    } else {
        Seq::new((width - digits(n).len()) as nat, |i: int| '0') + digits(n)
    }
}

/// Whether `c` is one of the digits `0` to `9`.
pub open spec fn is_digit(c: char) -> bool {
    '0' <= c <= '9'
}

/// The number that a row of digits stands for.
pub open spec fn value_of(s: Seq<char>) -> nat
    decreases s.len(),
{
    if s.len() == 0 {
        0
    } else {
        value_of(s.drop_last()) * 10 + (s.last() as nat - 48) as nat
    }
}

/// Whether `s` is one digit or more, and nothing else.
pub open spec fn is_number(s: Seq<char>) -> bool {
    s.len() > 0 && forall|i: int| 0 <= i < s.len() ==> is_digit(#[trigger] s[i])
}

/// `s` without the plus sign that may lead it.
pub open spec fn unsigned(s: Seq<char>) -> Seq<char> {
    if s.len() > 0 && s[0] == '+' {
        s.drop_first()
    } else {
        s
    }
}

/// The number that `s` writes in decimal (a plus sign may lead), where it is one and fits in
/// thirty-two bits.
pub open spec fn parsed(s: Seq<char>) -> Option<u32> {
    if is_number(unsigned(s)) && value_of(unsigned(s)) <= u32::MAX {
        Some(value_of(unsigned(s)) as u32)
    } else {
        None
    }
}

fn digit_char(d: u128) -> (c: char)
    requires
        d < 10,
    ensures
        c == digit(d as int),
{
    (48u8 + d as u8) as char
}

/// `n` in decimal.
pub fn decimal(n: u128) -> (r: String)
    ensures
        r@ == digits(n as nat),
    decreases n,
{
    if n < 10 {
        let mut s = String::new();
        s.push(digit_char(n));
        assert(s@ =~= seq![digit(n as int)]);
        s
    } else {
        let mut s = decimal(n / 10);
        s.push(digit_char(n % 10));
        s
    }
}

/// `n` in decimal, filled up with leading zeros to `width` digits.
pub fn decimal_padded(n: u64, width: usize) -> (r: String)
    ensures
        r@ == padded(n as nat, width as nat),
{
    let d = decimal(n as u128);
    let len: usize = text::chars_of(d.as_str()).len();
    let mut s = String::new();
    let mut i: usize = len;
    while i < width
        invariant
            len == d@.len(),
            i == len || i <= width,
            len <= i,
            s@ == Seq::new((i - len) as nat, |k: int| '0'),
        decreases width - i,
    {
        s.push('0');
        i += 1;
        assert(s@ =~= Seq::new((i - len) as nat, |k: int| '0'));
    }
    s.append(d.as_str());
    assert(s@ =~= padded(n as nat, width as nat));
    s
}

/// `n` in decimal, with a minus sign where it is negative.
pub open spec fn signed(n: int) -> Seq<char> {
    if n < 0 {
        "-"@ + digits((-n) as nat)
    } else {
        digits(n as nat)
    }
}

/// `n` in decimal, with its sign.
pub fn decimal_signed(n: i32) -> (r: String)
    ensures
        r@ == signed(n as int),
{
    if n < 0 {
        let size: u128 = (-(n as i64)) as u128;
        let d = decimal(size);
        text::cat("-", d.as_str())
    } else {
        decimal(n as u128)
    }
}

proof fn lemma_value_monotone(s: Seq<char>, i: int)
    requires
        0 <= i <= s.len(),
    ensures
        value_of(s.take(i)) <= value_of(s),
    decreases s.len() - i,
{
    if i < s.len() {
        lemma_value_monotone(s, i + 1);
        assert(s.take(i + 1).drop_last() =~= s.take(i));
    } else {
        assert(s.take(i) =~= s);
    }
}

/// The number that `s` writes in decimal.
pub fn parse_u32(s: &str) -> (r: Option<u32>)
    ensures
        r == parsed(s@),
{
    let v = text::chars_of(s);
    let n: usize = v.len();
    let from: usize = if n > 0 && v[0] == '+' {
        1
    } else {
        0
    };
    let ghost t = v@.skip(from as int);
    assert(from == 0 ==> t =~= v@);
    assert(from == 1 ==> t =~= v@.drop_first());
    if from == n {
        return None;
    }
    let mut value: u32 = 0;
    let mut i: usize = from;
    assert(t.take(0) =~= Seq::<char>::empty());
    while i < n
        invariant
            from <= i <= n,
            n == v@.len(),
            v@ == s@,
            t == v@.skip(from as int),
            t == unsigned(s@),
            t.len() == n - from,
            value == value_of(t.take(i - from)),
            forall|k: int| 0 <= k < i - from ==> is_digit(#[trigger] t[k]),
        decreases n - i,
    {
        let c = v[i];
        assert(c == t[i - from]);
        if !('0' <= c && c <= '9') {
            assert(!is_digit(t[i - from]));
            return None;
        }
        assert(t.take(i - from + 1).drop_last() =~= t.take(i - from));
        proof {
            lemma_value_monotone(t, i - from + 1);
        }
        let d: u32 = c as u32 - 48;
        if value > (u32::MAX - d) / 10 {
            return None;
        }
        value = value * 10 + d;
        i += 1;
    }
    assert(t.take(n - from) =~= t);
    Some(value)
}

/// A number below ten is the value of its digit.
proof fn lemma_digit(d: int)
    requires
        0 <= d < 10,
    ensures
        is_digit(digit(d)),
        digit(d) as int - 48 == d,
{
}

/// The decimal notation of a number is a row of digits that stands for it.
pub proof fn lemma_digits_value(n: nat)
    ensures
        is_number(digits(n)),
        value_of(digits(n)) == n,
    decreases n,
{
    if n < 10 {
        lemma_digit(n as int);
        assert(digits(n).drop_last() =~= Seq::<char>::empty());
        assert(value_of(digits(n).drop_last()) == 0);
    } else {
        lemma_digits_value(n / 10);
        lemma_digit((n % 10) as int);
        assert(digits(n).drop_last() =~= digits(n / 10));
    }
}

/// Reading the decimal notation of a number gives the number back.
pub proof fn law_decimal_reads_back(n: u32)
    ensures
        parsed(digits(n as nat)) == Some(n),
{
    lemma_digits_value(n as nat);
    assert(is_digit(digits(n as nat)[0]));
}

/// Each further digit of width brings in one more digit of the number.
proof fn lemma_padded_step(n: nat, width: nat)
    requires
        width >= 2,
    ensures
        padded(n, width) == padded(n / 10, (width - 1) as nat).push(digit((n % 10) as int)),
{
    if n < 10 {
        assert(n / 10 == 0);
        assert(digits(0) =~= seq!['0']) by {
            assert(digit(0) == '0');
        }
    }
    assert(padded(n, width) =~= padded(n / 10, (width - 1) as nat).push(digit((n % 10) as int)));
}

/// A number below a hundred has two digits, filled up with zeros.
pub proof fn lemma_two_digits(n: nat)
    requires
        n < 100,
    ensures
        padded(n, 2).len() == 2,
{
    lemma_padded_step(n, 2);
}

/// A number below ten thousand has four digits, filled up with zeros.
pub proof fn lemma_four_digits(n: nat)
    requires
        n < 10_000,
    ensures
        padded(n, 4).len() == 4,
{
    lemma_padded_step(n, 4);
    lemma_padded_step(n / 10, 3);
    lemma_padded_step(n / 10 / 10, 2);
}

/// Of two numbers filled up to the same width, the lower one has the lower digit where they first
/// differ.
pub proof fn lemma_padded_order(a: nat, b: nat, width: nat) -> (k: int)
    requires
        a < b,
        width >= 1,
        width == 1 ==> b < 10,
        padded(a, width).len() == width,
        padded(b, width).len() == width,
    ensures
        text::lower_at(padded(a, width), padded(b, width), k),
    decreases width,
{
    let x = padded(a, width);
    let y = padded(b, width);
    if width == 1 {
        assert(x =~= seq![digit(a as int)]);
        assert(y =~= seq![digit(b as int)]);
        lemma_digit(a as int);
        lemma_digit(b as int);
        assert(x.take(0) =~= y.take(0));
        0
    } else {
        let fewer = (width - 1) as nat;
        lemma_padded_step(a, width);
        lemma_padded_step(b, width);
        let p = padded(a / 10, fewer);
        let q = padded(b / 10, fewer);
        if a / 10 < b / 10 {
            if fewer == 1 {
                lemma_one_digit(b / 10);
            }
            let k = lemma_padded_order(a / 10, b / 10, fewer);
            assert(x.take(k) =~= p.take(k));
            assert(y.take(k) =~= q.take(k));
            assert(x[k] == p[k] && y[k] == q[k]);
            k
        } else {
            assert(a / 10 == b / 10);
            lemma_digit((a % 10) as int);
            lemma_digit((b % 10) as int);
            assert(x.take(width - 1) =~= p);
            assert(y.take(width - 1) =~= p);
            width - 1
        }
    }
}

/// A number that is written with one digit is below ten.
proof fn lemma_one_digit(n: nat)
    requires
        padded(n, 1).len() == 1,
    ensures
        n < 10,
{
    if n >= 10 {
        lemma_digits_value(n / 10);
        assert(digits(n).len() >= 2);
    }
}

/// A number's digits stand without white space around them.
pub proof fn lemma_digits_are_trimmed(n: nat)
    ensures
        text::trimmed(digits(n)) == digits(n),
    decreases n,
{
    lemma_digits_value(n);
    let s = digits(n);
    assert forall|c: char| is_digit(c) implies !text::is_white(c) by {}
    assert(s.len() > 0);
    assert(is_digit(s[0]));
    assert(is_digit(s[s.len() - 1]));
}

/// A number below ten is its one digit; a larger one is the digits of its tens, followed by the
/// digit that is left.
pub proof fn law_digits_are_decimal(tens: nat, ones: nat)
    requires
        ones < 10,
    ensures
        digits(ones).len() == 1,
        digits(ones)[0] as int == '0' as int + ones,
        tens > 0 ==> digits(10 * tens + ones) == digits(tens) + digits(ones),
        signed(-(ones as int)) == (if ones == 0 {
            digits(0)
        } else {
            seq!['-'] + digits(ones)
        }),
{
    if tens > 0 {
        let n = 10 * tens + ones;
        assert(n / 10 == tens && n % 10 == ones) by (nonlinear_arith)
            requires
                n == 10 * tens + ones,
                0 <= ones < 10,
        ;
        assert(digits(n) =~= digits(tens) + digits(ones));
    }
    reveal_strlit("-");
    assert("-"@ =~= seq!['-']);
}

/// A plus sign may lead a number that is read; a text with another sign or character in it, one
/// without a digit, and one beyond thirty-two bits are no numbers.
pub proof fn law_only_numbers_are_read(n: u32, s: Seq<char>, i: int)
    ensures
        parsed(seq!['+'] + digits(n as nat)) == Some(n),
        s.len() == 0 ==> parsed(s) is None,
        0 <= i < s.len() && !('0' <= s[i] <= '9') && !(i == 0 && s[0] == '+') ==> parsed(s) is None,
        is_number(s) && value_of(s) > 0xffff_ffff ==> parsed(s) is None,
{
    let d = digits(n as nat);
    lemma_digits_value(n as nat);
    assert((seq!['+'] + d).drop_first() =~= d);
    law_decimal_reads_back(n);
    if 0 <= i < s.len() && !('0' <= s[i] <= '9') && !(i == 0 && s[0] == '+') {
        if s[0] == '+' {
            assert(s.drop_first()[i - 1] == s[i]);
        }
    }
    if is_number(s) {
        assert(is_digit(s[0]));
    }
}

} // verus!
