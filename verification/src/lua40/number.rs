//! Number constants, held as IEEE-754 bit patterns, and their exact decimal
//! notation.
//!
//! A finite number is `m * 2^q` for a mantissa `m` and an exponent `q`.
//! Where `q` is negative this is `m / 2^k + ((m mod 2^k) * 5^k) / 10^k` with
//! `k = -q`, so the notation is a whole part and at most `k` decimals, and
//! it is exact.
use vstd::prelude::*;
use vstd::string::StringExecFns;
use crate::text::{dec, digit_char, digit_str, push_dec};

verus! {

/// A number constant of a chunk, exactly as it was stored.
///
/// `bits` holds the IEEE-754 pattern; for a single-precision chunk the
/// pattern is the low 32 bits and `single` is set.
#[derive(Debug, Clone, Copy, PartialEq, Eq, Structural)]
pub struct Number {
    pub bits: u64,
    pub single: bool,
}

impl Number {
    /// The bit that holds the sign: the highest of the pattern's width.
    pub open spec fn sign_bit(self) -> u64 {
        if self.single {
            0x8000_0000
        } else {
            0x8000_0000_0000_0000
        }
    }

    /// Whether the sign bit is set.
    pub open spec fn is_negative(self) -> bool {
        if self.single {
            self.bits % 0x1_0000_0000 >= 0x8000_0000
        } else {
            self.bits >= 0x8000_0000_0000_0000
        }
    }

    /// The number with the opposite sign: the same pattern but for the sign
    /// bit.
    pub open spec fn spec_negated(self) -> Number {
        if self.is_negative() {
            Number { bits: (self.bits - self.sign_bit()) as u64, single: self.single }
        } else {
            Number { bits: (self.bits + self.sign_bit()) as u64, single: self.single }
        }
    }

    /// The number with the opposite sign.
    pub fn negated(&self) -> (n: Number)
        ensures
            n == self.spec_negated(),
    {
        if self.single {
            let low: u64 = self.bits % 0x1_0000_0000;
            if low >= 0x8000_0000 {
                Number { bits: self.bits - 0x8000_0000, single: true }
            } else if self.bits <= u64::MAX - 0x8000_0000 {
                Number { bits: self.bits + 0x8000_0000, single: true }
            } else {
                proof {
                    let b: u64 = self.bits;
                    assert(b > u64::MAX - 0x8000_0000 ==> b % 0x1_0000_0000 >= 0x8000_0000)
                        by (bit_vector);
                }
                Number { bits: self.bits, single: true }
            }
        } else if self.bits >= 0x8000_0000_0000_0000 {
            Number { bits: self.bits - 0x8000_0000_0000_0000, single: false }
        } else {
            Number { bits: self.bits + 0x8000_0000_0000_0000, single: false }
        }
    }
}

/// `b` to the power of `e`.
pub open spec fn power(b: nat, e: nat) -> nat
    decreases e,
{
    if e == 0 {
        1
    } else {
        b * power(b, (e - 1) as nat)
    }
}

/// The number that the decimal digits `d` stand for, lowest digit first.
pub open spec fn digits_value(d: Seq<u8>) -> nat
    decreases d.len(),
{
    if d.len() == 0 {
        0
    } else {
        d[0] as nat + 10 * digits_value(d.drop_first())
    }
}

/// The decimal digits of `n`, lowest digit first; none for zero.
pub open spec fn digits_of(n: nat) -> Seq<u8>
    decreases n,
{
    if n == 0 {
        Seq::empty()
    } else {
        seq![(n % 10) as u8] + digits_of(n / 10)
    }
}

/// Every item is a decimal digit, and the highest digit is not zero.
pub open spec fn canonical(d: Seq<u8>) -> bool {
    &&& forall|i: int| 0 <= i < d.len() ==> #[trigger] d[i] < 10
    &&& d.len() > 0 ==> d.last() != 0
}

/// `r` without the zeros that its decimal numeral ends in.
pub open spec fn strip_zeros(r: nat) -> nat
    decreases r,
{
    if r == 0 || r % 10 != 0 {
        r
    } else {
        strip_zeros(r / 10)
    }
}

/// `n` zeros.
pub open spec fn zeros(n: nat) -> Seq<char> {
    Seq::new(n, |i: int| '0')
}

/// The decimals of `r / 10^k`, for `r` below `10^k`: nothing for zero, else
/// the point, then the numeral of `r` filled up with zeros in front to `k`
/// digits, without the zeros that it ends in.
pub open spec fn fraction_text(r: nat, k: nat) -> Seq<char> {
    if r == 0 {
        Seq::empty()
    } else {
        seq!['.'] + zeros(
            if k > dec(r).len() {
                (k - dec(r).len()) as nat
            } else {
                0
            },
        ) + dec(strip_zeros(r))
    }
}

/// The exact decimal notation of `m * 2^q`.
pub open spec fn magnitude_text(m: nat, q: int) -> Seq<char> {
    if q >= 0 {
        dec(m * power(2, q as nat))
    } else {
        dec(m / power(2, (-q) as nat)) + fraction_text(
            (m % power(2, (-q) as nat)) * power(5, (-q) as nat),
            (-q) as nat,
        )
    }
}

pub proof fn lemma_power_positive(b: nat, e: nat)
    requires
        b > 0,
    ensures
        power(b, e) > 0,
    decreases e,
{
    if e > 0 {
        lemma_power_positive(b, (e - 1) as nat);
        assert(b * power(b, (e - 1) as nat) > 0) by (nonlinear_arith)
            requires
                b > 0,
                power(b, (e - 1) as nat) > 0,
        ;
    }
}

pub proof fn lemma_power_monotone(b: nat, i: nat, k: nat)
    requires
        b > 0,
        i <= k,
    ensures
        power(b, i) <= power(b, k),
    decreases k,
{
    if i < k {
        lemma_power_monotone(b, i, (k - 1) as nat);
        lemma_power_positive(b, (k - 1) as nat);
        assert(b * power(b, (k - 1) as nat) >= power(b, (k - 1) as nat)) by (nonlinear_arith)
            requires
                b > 0,
                power(b, (k - 1) as nat) > 0,
        ;
    }
}

/// The digits of a number stand for it, and are canonical.
pub proof fn lemma_digits_of(n: nat)
    ensures
        digits_value(digits_of(n)) == n,
        canonical(digits_of(n)),
        n > 0 ==> digits_of(n).len() > 0,
    decreases n,
{
    if n > 0 {
        lemma_digits_of(n / 10);
        let d = digits_of(n);
        assert(d.drop_first() =~= digits_of(n / 10));
        assert forall|i: int| 0 <= i < d.len() implies #[trigger] d[i] < 10 by {
            if i > 0 {
                assert(d[i] == digits_of(n / 10)[i - 1]);
            }
        }
        if n / 10 > 0 {
            assert(d.last() == digits_of(n / 10).last());
        }
    }
}

/// Canonical digits from `i` up stand for a positive number.
pub proof fn lemma_canonical_positive(d: Seq<u8>, i: int)
    requires
        0 <= i < d.len(),
        d.last() != 0,
    ensures
        digits_value(d.subrange(i, d.len() as int)) >= 1,
    decreases d.len() - i,
{
    let tail = d.subrange(i, d.len() as int);
    assert(tail.drop_first() =~= d.subrange(i + 1, d.len() as int));
    if i + 1 < d.len() {
        lemma_canonical_positive(d, i + 1);
    } else {
        assert(tail[0] == d.last());
    }
}

/// The numeral of what canonical digits from `i` up stand for has one
/// character for each of them: the highest first.
pub proof fn lemma_dec_of_digits(d: Seq<u8>, i: int)
    requires
        0 <= i < d.len(),
        canonical(d),
    ensures
        dec(digits_value(d.subrange(i, d.len() as int))).len() == d.len() - i,
        dec(digits_value(d.subrange(i, d.len() as int))) == if i + 1 < d.len() {
            dec(digits_value(d.subrange(i + 1, d.len() as int))).push(digit_char(d[i] as nat))
        } else {
            seq![digit_char(d[i] as nat)]
        },
    decreases d.len() - i,
{
    let tail = d.subrange(i, d.len() as int);
    assert(tail.drop_first() =~= d.subrange(i + 1, d.len() as int));
    assert(tail[0] == d[i]);
    if i + 1 < d.len() {
        lemma_dec_of_digits(d, i + 1);
        lemma_canonical_positive(d, i + 1);
    }
}

/// Zeros at the low end of the digits are the zeros that the numeral ends
/// in.
pub proof fn lemma_strip_zeros(d: Seq<u8>, z: int)
    requires
        0 <= z < d.len(),
        canonical(d),
        forall|j: int| 0 <= j < z ==> d[j] == 0,
        d[z] != 0,
    ensures
        strip_zeros(digits_value(d)) == digits_value(d.subrange(z, d.len() as int)),
    decreases z,
{
    if z == 0 {
        assert(d.subrange(0, d.len() as int) =~= d);
    } else {
        let rest = d.drop_first();
        assert(rest.last() == d.last());
        assert(canonical(rest)) by {
            assert forall|i: int| 0 <= i < rest.len() implies #[trigger] rest[i] < 10 by {
                assert(rest[i] == d[i + 1]);
            }
        }
        assert forall|j: int| 0 <= j < z - 1 implies rest[j] == 0 by {
            assert(rest[j] == d[j + 1]);
        }
        lemma_strip_zeros(rest, z - 1);
        assert(rest.subrange(z - 1, rest.len() as int) =~= d.subrange(z, d.len() as int));
        lemma_canonical_positive(rest, 0);
        assert(rest.subrange(0, rest.len() as int) =~= rest);
    }
}

/// Appends the decimal digits of `n` to `d`, lowest digit first.
fn push_digits_of(d: &mut Vec<u8>, n: u64)
    ensures
        final(d)@ == old(d)@ + digits_of(n as nat),
    decreases n,
{
    if n > 0 {
        d.push((n % 10) as u8);
        push_digits_of(d, n / 10);
        assert(d@ =~= old(d)@ + digits_of(n as nat));
    } else {
        assert(d@ =~= old(d)@ + digits_of(n as nat));
    }
}

/// What one digit and the digits above it stand for.
pub proof fn lemma_digits_value_step(d: Seq<u8>, i: int)
    requires
        0 <= i < d.len(),
    ensures
        digits_value(d.subrange(i, d.len() as int)) == d[i] + 10 * digits_value(
            d.subrange(i + 1, d.len() as int),
        ),
{
    let tail = d.subrange(i, d.len() as int);
    assert(tail.drop_first() =~= d.subrange(i + 1, d.len() as int));
    assert(tail[0] == d[i]);
}

/// Multiplies what the digits from `i` up stand for by `f` and adds
/// `carry`. The digits are canonical, or they are used up and a carry is
/// there to become the highest digit.
fn mul_from(d: &mut Vec<u8>, i: usize, f: u8, carry: u8)
    requires
        i <= old(d)@.len(),
        1 <= f <= 9,
        carry < f,
        forall|j: int| 0 <= j < old(d)@.len() ==> #[trigger] old(d)@[j] < 10,
        canonical(old(d)@) || (i == old(d)@.len() && carry > 0),
    ensures
        final(d)@.len() >= old(d)@.len(),
        forall|j: int| 0 <= j < i ==> final(d)@[j] == old(d)@[j],
        digits_value(final(d)@.subrange(i as int, final(d)@.len() as int)) == f * digits_value(
            old(d)@.subrange(i as int, old(d)@.len() as int),
        ) + carry,
        canonical(final(d)@),
    decreases old(d)@.len() - i,
{
    let ghost before = d@;
    if i == d.len() {
        let ghost v0 = digits_value(before.subrange(i as int, before.len() as int));
        assert(v0 == 0) by {
            assert(before.subrange(i as int, before.len() as int).len() == 0);
        }
        assert(f * v0 == 0) by (nonlinear_arith)
            requires
                v0 == 0,
        ;
        if carry > 0 {
            d.push(carry);
            proof {
                lemma_digits_value_step(d@, i as int);
                assert(d@.subrange(i + 1, d@.len() as int).len() == 0);
            }
        } else {
            assert(d@.subrange(i as int, d@.len() as int).len() == 0);
        }
    } else {
        let digit: u8 = d[i];
        assert(before[i as int] < 10);
        assert(digit * f + carry < 10 * f <= 90) by (nonlinear_arith)
            requires
                digit <= 9,
                1 <= f <= 9,
                carry < f,
        ;
        let t: u8 = digit * f + carry;
        d[i] = t % 10;
        let ghost mid = d@;
        proof {
            if i == mid.len() - 1 && t / 10 == 0 {
                assert(digit != 0);
                assert(t >= 1) by (nonlinear_arith)
                    requires
                        t == digit * f + carry,
                        digit >= 1,
                        f >= 1,
                ;
            }
            if i < mid.len() - 1 {
                assert(mid.last() == before.last());
            }
        }
        mul_from(d, i + 1, f, t / 10);
        proof {
            let v = digits_value(before.subrange(i + 1, before.len() as int));
            let x = digits_value(d@.subrange(i + 1, d@.len() as int));
            assert(mid.subrange(i + 1, mid.len() as int) =~= before.subrange(
                i + 1,
                before.len() as int,
            ));
            assert(x == f * v + t / 10);
            lemma_digits_value_step(before, i as int);
            lemma_digits_value_step(d@, i as int);
            assert(d@[i as int] == mid[i as int]);
            assert((t % 10) + 10 * x == f * (digit + 10 * v) + carry) by (nonlinear_arith)
                requires
                    t == digit * f + carry,
                    x == f * v + t / 10,
            ;
        }
    }
}

/// Appends the numeral of what the digits from `i` up stand for.
fn push_digits_text(out: &mut String, d: &Vec<u8>, i: usize)
    requires
        i < d@.len(),
        canonical(d@),
    ensures
        final(out)@ == old(out)@ + dec(digits_value(d@.subrange(i as int, d@.len() as int))),
    decreases d@.len() - i,
{
    proof {
        lemma_dec_of_digits(d@, i as int);
    }
    let n: usize = d.len();
    if i + 1 < n {
        push_digits_text(out, d, i + 1);
    }
    out.append(digit_str(d[i] as u64));
    assert(out@ =~= old(out)@ + dec(digits_value(d@.subrange(i as int, d@.len() as int))));
}

/// Appends `n` zeros.
fn push_zeros(out: &mut String, n: usize)
    ensures
        final(out)@ == old(out)@ + zeros(n as nat),
{
    let mut i: usize = 0;
    assert(out@ =~= old(out)@ + zeros(0));
    while i < n
        invariant
            i <= n,
            out@ == old(out)@ + zeros(i as nat),
        decreases n - i,
    {
        out.append(digit_str(0));
        i = i + 1;
        assert(out@ =~= old(out)@ + zeros(i as nat));
    }
}

/// Multiplies what the canonical digits stand for by `f`, `times` times.
fn scale(d: &mut Vec<u8>, f: u8, times: u32)
    requires
        canonical(old(d)@),
        1 <= f <= 9,
    ensures
        canonical(final(d)@),
        digits_value(final(d)@) == digits_value(old(d)@) * power(f as nat, times as nat),
{
    let mut i: u32 = 0;
    assert(digits_value(d@) * power(f as nat, 0) == digits_value(d@)) by (nonlinear_arith)
        requires
            power(f as nat, 0) == 1,
    ;
    while i < times
        invariant
            i <= times,
            1 <= f <= 9,
            canonical(d@),
            digits_value(d@) == digits_value(old(d)@) * power(f as nat, i as nat),
        decreases times - i,
    {
        let ghost before = d@;
        mul_from(d, 0, f, 0);
        proof {
            assert(before.subrange(0, before.len() as int) =~= before);
            assert(d@.subrange(0, d@.len() as int) =~= d@);
            let v = digits_value(old(d)@);
            let w = power(f as nat, i as nat);
            assert(digits_value(d@) == f * digits_value(before));
            assert(f * (v * w) == v * (f * w)) by (nonlinear_arith);
        }
        i = i + 1;
    }
}

/// Appends the numeral of `m * 2^q`.
fn push_scaled(out: &mut String, m: u64, q: u32)
    ensures
        final(out)@ == old(out)@ + dec(m as nat * power(2, q as nat)),
{
    let mut d: Vec<u8> = Vec::new();
    push_digits_of(&mut d, m);
    proof {
        lemma_digits_of(m as nat);
        assert(d@ =~= digits_of(m as nat));
    }
    scale(&mut d, 2, q);
    if d.len() == 0 {
        out.append(digit_str(0));
        assert(out@ =~= old(out)@ + dec(0));
    } else {
        push_digits_text(out, &d, 0);
        assert(d@.subrange(0, d@.len() as int) =~= d@);
    }
}

/// Divides `m` by `2^k`: the quotient and the remainder.
fn split_by_power(m: u64, k: u32) -> (r: (u64, u64))
    requires
        m < 0x20_0000_0000_0000,
    ensures
        r.0 == m as nat / power(2, k as nat),
        r.1 == m as nat % power(2, k as nat),
{
    // The power of two, as far as it does not pass `m`.
    let mut p: u64 = 1;
    let mut i: u32 = 0;
    while i < k && p <= m
        invariant
            i <= k,
            p == power(2, i as nat),
            1 <= p <= 0x40_0000_0000_0000,
            m < 0x20_0000_0000_0000,
        decreases k - i,
    {
        p = p * 2;
        i = i + 1;
    }
    proof {
        lemma_power_monotone(2, i as nat, k as nat);
        if p > m {
            vstd::arithmetic::div_mod::lemma_small_mod(m as nat, power(2, k as nat));
            vstd::arithmetic::div_mod::lemma_basic_div(m as int, power(2, k as nat) as int);
        }
    }
    if p > m {
        (0, m)
    } else {
        (m / p, m % p)
    }
}

/// Appends the decimals of `rest / 2^k`.
fn push_fraction(out: &mut String, rest: u64, k: u32)
    ensures
        final(out)@ == old(out)@ + fraction_text(rest as nat * power(5, k as nat), k as nat),
{
    let mut d: Vec<u8> = Vec::new();
    push_digits_of(&mut d, rest);
    proof {
        lemma_digits_of(rest as nat);
        assert(d@ =~= digits_of(rest as nat));
    }
    scale(&mut d, 5, k);
    let ghost r = digits_value(d@);
    if d.len() == 0 {
        assert(out@ =~= old(out)@ + fraction_text(r, k as nat));
    } else {
        let n: usize = d.len();
        let mut z: usize = 0;
        while d[z] == 0
            invariant
                z < n,
                n == d@.len(),
                canonical(d@),
                forall|j: int| 0 <= j < z ==> d@[j] == 0,
            decreases n - z,
        {
            assert(d@.last() != 0);
            z = z + 1;
        }
        proof {
            reveal_strlit(".");
            lemma_canonical_positive(d@, 0);
            assert(d@.subrange(0, d@.len() as int) =~= d@);
            lemma_dec_of_digits(d@, 0);
            lemma_strip_zeros(d@, z as int);
        }
        out.append(".");
        let pad: usize = if k as usize > n {
            k as usize - n
        } else {
            0
        };
        push_zeros(out, pad);
        push_digits_text(out, &d, z);
        assert(out@ =~= old(out)@ + fraction_text(r, k as nat));
    }
}

/// Appends the exact decimal notation of `m * 2^q`.
fn push_magnitude(out: &mut String, m: u64, q: i32)
    requires
        m < 0x20_0000_0000_0000,
        -1074 <= q <= 1023,
    ensures
        final(out)@ == old(out)@ + magnitude_text(m as nat, q as int),
{
    if q >= 0 {
        push_scaled(out, m, q as u32);
    } else {
        let k: u32 = (-q) as u32;
        let (whole, rest) = split_by_power(m, k);
        push_dec(out, whole);
        push_fraction(out, rest, k);
        assert(out@ =~= old(out)@ + magnitude_text(m as nat, q as int));
    }
}

impl Number {
    /// The bits of the pattern that count: all of a double, the low half of
    /// a single.
    pub open spec fn pattern(self) -> nat {
        if self.single {
            (self.bits % 0x1_0000_0000) as nat
        } else {
            self.bits as nat
        }
    }

    /// The exponent field of the pattern.
    pub open spec fn exp_field(self) -> nat {
        if self.single {
            self.pattern() / 0x80_0000 % 0x100
        } else {
            self.pattern() / 0x10_0000_0000_0000 % 0x800
        }
    }

    /// The fraction field of the pattern.
    pub open spec fn frac_field(self) -> nat {
        if self.single {
            self.pattern() % 0x80_0000
        } else {
            self.pattern() % 0x10_0000_0000_0000
        }
    }

    /// Whether the pattern stands for a number, and not for an infinity or
    /// for the result of an invalid operation.
    pub open spec fn finite(self) -> bool {
        if self.single {
            self.exp_field() != 0xFF
        } else {
            self.exp_field() != 0x7FF
        }
    }

    /// The mantissa `m` of a finite number `m * 2^q`.
    pub open spec fn mantissa(self) -> nat {
        if self.exp_field() == 0 {
            self.frac_field()
        } else if self.single {
            self.frac_field() + 0x80_0000
        } else {
            self.frac_field() + 0x10_0000_0000_0000
        }
    }

    /// The exponent `q` of a finite number `m * 2^q`.
    pub open spec fn exponent(self) -> int {
        if self.single {
            if self.exp_field() == 0 {
                -149
            } else {
                self.exp_field() - 150
            }
        } else {
            if self.exp_field() == 0 {
                -1074
            } else {
                self.exp_field() - 1075
            }
        }
    }

    /// The exact decimal notation of a finite number.
    pub open spec fn text(self) -> Seq<char> {
        if self.is_negative() {
            seq!['-'] + magnitude_text(self.mantissa(), self.exponent())
        } else {
            magnitude_text(self.mantissa(), self.exponent())
        }
    }

    /// Whether the pattern stands for a number.
    pub fn is_finite(&self) -> (b: bool)
        ensures
            b == self.finite(),
    {
        if self.single {
            (self.bits % 0x1_0000_0000) / 0x80_0000 % 0x100 != 0xFF
        } else {
            self.bits / 0x10_0000_0000_0000 % 0x800 != 0x7FF
        }
    }

    /// Appends the exact decimal notation of the number to `out`, where it
    /// is finite; says whether it was.
    pub fn push_text(&self, out: &mut String) -> (ok: bool)
        ensures
            ok == self.finite(),
            ok ==> final(out)@ == old(out)@ + self.text(),
            !ok ==> final(out)@ == old(out)@,
    {
        if !self.is_finite() {
            return false;
        }
        let pattern: u64 = if self.single {
            self.bits % 0x1_0000_0000
        } else {
            self.bits
        };
        let negative: bool = if self.single {
            pattern >= 0x8000_0000
        } else {
            pattern >= 0x8000_0000_0000_0000
        };
        let field: u64 = if self.single {
            pattern / 0x80_0000 % 0x100
        } else {
            pattern / 0x10_0000_0000_0000 % 0x800
        };
        let frac: u64 = if self.single {
            pattern % 0x80_0000
        } else {
            pattern % 0x10_0000_0000_0000
        };
        let m: u64 = if field == 0 {
            frac
        } else if self.single {
            frac + 0x80_0000
        } else {
            frac + 0x10_0000_0000_0000
        };
        let q: i32 = if self.single {
            if field == 0 {
                -149
            } else {
                field as i32 - 150
            }
        } else {
            if field == 0 {
                -1074
            } else {
                field as i32 - 1075
            }
        };
        if negative {
            proof {
                reveal_strlit("-");
            }
            out.append("-");
        }
        push_magnitude(out, m, q);
        assert(out@ =~= old(out)@ + self.text());
        true
    }
}

} // verus!
