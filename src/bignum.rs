//! Signed integers with the host's big-number operations: greatest common
//! divisor, least common multiple, powers, modular powers, square roots.

use vstd::prelude::*;
use vstd::arithmetic::power::pow;

verus! {

/// The number of binary digits of `n` (0 for 0).
pub open spec fn bit_length(n: nat) -> nat
    decreases n,
{
    if n == 0 {
        0
    } else {
        1 + bit_length(n / 2)
    }
}

/// Euclid's greatest common divisor; `gcd_of(a, 0) == a`.
pub open spec fn gcd_of(a: nat, b: nat) -> nat
    decreases b,
{
    if b == 0 {
        a
    } else {
        gcd_of(b, a % b)
    }
}

/// The least common multiple, 0 when either argument is 0.
pub open spec fn lcm_of(a: nat, b: nat) -> nat {
    if a == 0 || b == 0 {
        0
    } else {
        (a / gcd_of(a, b)) * b
    }
}

pub open spec fn abs_of(x: int) -> nat {
    if x < 0 {
        (-x) as nat
    } else {
        x as nat
    }
}

/// A signed integer, held as a sign and a 128-bit magnitude.
#[derive(Clone, Copy, Debug, PartialEq, Eq, Structural)]
pub struct BigNum {
    negative: bool,
    magnitude: u128,
}

impl View for BigNum {
    type V = int;

    closed spec fn view(&self) -> int {
        if self.negative {
            -(self.magnitude as int)
        } else {
            self.magnitude as int
        }
    }
}

proof fn lemma_gcd_positive(a: nat, b: nat)
    requires
        a > 0 || b > 0,
    ensures
        gcd_of(a, b) > 0,
    decreases b,
{
    if b > 0 {
        lemma_gcd_positive(b, a % b);
    }
}

proof fn lemma_bit_length_bound(n: nat, k: nat)
    requires
        n < vstd::arithmetic::power2::pow2(k),
    ensures
        bit_length(n) <= k,
    decreases k,
{
    if k > 0 && n > 0 {
        vstd::arithmetic::power2::lemma_pow2_unfold(k);
        lemma_bit_length_bound(n / 2, (k - 1) as nat);
    } else if k == 0 {
        vstd::arithmetic::power2::lemma2_to64();
    }
}

impl BigNum {
    pub fn new(value: i128) -> (r: BigNum)
        ensures
            r@ == value,
    {
        if value >= 0 {
            BigNum { negative: false, magnitude: value as u128 }
        } else {
            BigNum { negative: true, magnitude: ((-(value + 1)) as u128) + 1 }
        }
    }

    pub fn from_u128(value: u128) -> (r: BigNum)
        ensures
            r@ == value,
    {
        BigNum { negative: false, magnitude: value }
    }

    /// Whether the value is below zero.
    pub fn is_negative(&self) -> (r: bool)
        ensures
            r == (self@ < 0),
    {
        self.negative && self.magnitude > 0
    }

    /// The absolute value.
    pub fn magnitude(&self) -> (r: u128)
        ensures
            r == abs_of(self@),
    {
        self.magnitude
    }

    /// Whether the value is zero.
    pub fn is_zero(&self) -> (r: bool)
        ensures
            r == (self@ == 0),
    {
        self.magnitude == 0
    }

    /// The number of binary digits of the absolute value.
    pub fn bits(&self) -> (r: u64)
        ensures
            r == bit_length(abs_of(self@)),
    {
        let mut m: u128 = self.magnitude;
        proof {
            vstd::arithmetic::power2::lemma2_to64();
            vstd::arithmetic::power2::lemma_pow2_adds(64, 64);
            lemma_bit_length_bound(m as nat, 128);
        }
        let mut count: u64 = 0;
        while m > 0
            invariant
                count + bit_length(m as nat) == bit_length(abs_of(self@)),
                count + bit_length(m as nat) <= 128,
            decreases m,
        {
            m = m / 2;
            count = count + 1;
        }
        count
    }

    /// The integer square root: the largest `r` with `r * r <= self`.
    pub fn sqrt(&self) -> (r: BigNum)
        requires
            self@ >= 0,
        ensures
            r@ >= 0,
            r@ * r@ <= self@ < (r@ + 1) * (r@ + 1),
    {
        let v = self.magnitude;
        let mut lo: u128 = 0;
        let mut hi: u128 = 0x1_0000_0000_0000_0000;
        assert((v as int) < (hi as int) * (hi as int)) by (nonlinear_arith)
            requires
                v <= 0xffff_ffff_ffff_ffff_ffff_ffff_ffff_ffff,
                hi == 0x1_0000_0000_0000_0000,
        ;
        while hi - lo > 1
            invariant
                lo < hi <= 0x1_0000_0000_0000_0000,
                (lo as int) * (lo as int) <= v < (hi as int) * (hi as int),
                v == self@,
            decreases hi - lo,
        {
            let mid: u128 = lo + (hi - lo) / 2;
            assert(mid * mid < 0x1_0000_0000_0000_0000_0000_0000_0000_0000) by (nonlinear_arith)
                requires
                    mid < 0x1_0000_0000_0000_0000,
            ;
            if mid * mid <= v {
                lo = mid;
            } else {
                hi = mid;
            }
        }
        BigNum { negative: false, magnitude: lo }
    }

    /// The greatest common divisor of the absolute values.
    pub fn gcd(&self, other: BigNum) -> (r: BigNum)
        ensures
            r@ == gcd_of(abs_of(self@), abs_of(other@)),
    {
        let mut a: u128 = self.magnitude;
        let mut b: u128 = other.magnitude;
        while b != 0
            invariant
                gcd_of(a as nat, b as nat) == gcd_of(abs_of(self@), abs_of(other@)),
            decreases b,
        {
            let t = a % b;
            a = b;
            b = t;
        }
        BigNum { negative: false, magnitude: a }
    }

    /// The least common multiple of the absolute values.
    pub fn lcm(&self, other: BigNum) -> (r: BigNum)
        requires
            lcm_of(abs_of(self@), abs_of(other@)) <= u128::MAX,
        ensures
            r@ == lcm_of(abs_of(self@), abs_of(other@)),
    {
        if self.magnitude == 0 || other.magnitude == 0 {
            return BigNum { negative: false, magnitude: 0 };
        }
        let g = self.gcd(other);
        proof {
            lemma_gcd_positive(abs_of(self@), abs_of(other@));
        }
        let q = self.magnitude / g.magnitude;
        BigNum { negative: false, magnitude: q * other.magnitude }
    }

    /// The value raised to the power `k`.
    pub fn pow(&self, k: u64) -> (r: BigNum)
        requires
            pow(abs_of(self@) as int, k as nat) <= u128::MAX,
        ensures
            r@ == pow(self@, k as nat),
    {
        let mut neg = false;
        let mut mag: u128 = 1;
        let mut i: u64 = 0;
        proof {
            vstd::arithmetic::power::lemma_pow0(self@);
            vstd::arithmetic::power::lemma_pow0(abs_of(self@) as int);
        }
        while i < k
            invariant
                i <= k,
                mag == pow(abs_of(self@) as int, i as nat),
                (if neg { -(mag as int) } else { mag as int }) == pow(self@, i as nat),
                pow(abs_of(self@) as int, k as nat) <= u128::MAX,
            decreases k - i,
        {
            let ghost b = self@;
            let ghost a = abs_of(self@) as int;
            proof {
                vstd::arithmetic::power::lemma_pow_adds(b, i as nat, 1);
                vstd::arithmetic::power::lemma_pow_adds(a, i as nat, 1);
                vstd::arithmetic::power::lemma_pow1(b);
                vstd::arithmetic::power::lemma_pow1(a);
                if a > 0 {
                    vstd::arithmetic::power::lemma_pow_increases(a as nat, (i + 1) as nat, k as nat);
                } else {
                    assert(mag * 0 == 0);
                }
            }
            let ghost old_view = if neg { -(mag as int) } else { mag as int };
            mag = mag * self.magnitude;
            neg = neg != self.negative;
            proof {
                let mm = self.magnitude as int;
                let pm = pow(a, i as nat);
                assert((if neg { -(pm * mm) } else { pm * mm }) == old_view * b) by (nonlinear_arith)
                    requires
                        old_view == (if neg != self.negative { -pm } else { pm }),
                        b == (if self.negative { -mm } else { mm }),
                ;
                assert(mag as int == pm * mm);
                assert(pow(b, (i + 1) as nat) == old_view * b);
            }
            i = i + 1;
        }
        BigNum { negative: neg, magnitude: mag }
    }

    /// The value raised to the power `q`, modulo `m`, in `0..m`.
    pub fn pow_mod(&self, q: BigNum, m: BigNum) -> (r: BigNum)
        requires
            q@ >= 0,
            0 < m@ <= 0x1_0000_0000_0000_0000,
        ensures
            r@ == pow(self@, q@ as nat) % m@,
    {
        let md = m.magnitude;
        let ghost mi = m@;
        let ghost big_b = self@;
        let ghost big_q = q@ as nat;
        let rem = self.magnitude % md;
        let mut b: u128 = if self.negative && rem > 0 {
            md - rem
        } else {
            rem
        };
        assert(b == big_b % mi) by {
            let mg = self.magnitude as int;
            vstd::arithmetic::div_mod::lemma_fundamental_div_mod(mg, mi);
            let qq = mg / mi;
            assert(mg == mi * qq + rem);
            assert(-mg == (-qq - 1) * mi + (mi - rem)) by (nonlinear_arith)
                requires
                    mg == mi * qq + rem,
            ;
            if self.negative && rem > 0 {
                vstd::arithmetic::div_mod::lemma_fundamental_div_mod_converse(
                    big_b,
                    mi,
                    -((self.magnitude as int) / mi) - 1,
                    mi - rem,
                );
            } else if self.negative {
                assert(-mg == (-qq) * mi) by (nonlinear_arith)
                    requires
                        mg == mi * qq + rem,
                        rem == 0,
                ;
                vstd::arithmetic::div_mod::lemma_fundamental_div_mod_converse(
                    big_b,
                    mi,
                    -((self.magnitude as int) / mi),
                    0,
                );
            }
        }
        let mut r: u128 = 1 % md;
        let mut e: u128 = q.magnitude;
        proof {
            vstd::arithmetic::power::lemma_pow_mod_noop(big_b, big_q, mi);
            vstd::arithmetic::div_mod::lemma_mul_mod_noop_left(1, pow(b as int, e as nat), mi);
        }
        while e > 0
            invariant
                0 < mi == md <= 0x1_0000_0000_0000_0000,
                b < md,
                r < md,
                ((r as int) * pow(b as int, e as nat)) % mi == pow(big_b, big_q) % mi,
            decreases e,
        {
            let ghost (r0, b0, e0) = (r as int, b as int, e as nat);
            assert(b * b < 0x1_0000_0000_0000_0000_0000_0000_0000_0000) by (nonlinear_arith)
                requires
                    b < 0x1_0000_0000_0000_0000,
            ;
            assert(r * b < 0x1_0000_0000_0000_0000_0000_0000_0000_0000) by (nonlinear_arith)
                requires
                    b < 0x1_0000_0000_0000_0000,
                    r < 0x1_0000_0000_0000_0000,
            ;
            let half = e / 2;
            let odd = e % 2 == 1;
            proof {
                let h = half as nat;
                vstd::arithmetic::power::lemma_pow_multiplies(b0, 2, h);
                vstd::arithmetic::power::lemma_square_is_pow2(b0);
                vstd::arithmetic::power::lemma_pow_adds(b0, 2 * h, 1);
                vstd::arithmetic::power::lemma_pow1(b0);
                vstd::arithmetic::power::lemma_pow_mod_noop(b0 * b0, h, mi);
                let sq = pow(b0 * b0, h);
                if odd {
                    assert(e0 == 2 * h + 1);
                    assert(pow(b0, e0) == sq * b0);
                    vstd::arithmetic::div_mod::lemma_mul_mod_noop_general(r0 * b0, sq, mi);
                    vstd::arithmetic::div_mod::lemma_mul_mod_noop_general(r0 * b0 % mi, (b0 * b0) % mi, mi);
                    vstd::arithmetic::div_mod::lemma_mul_mod_noop_right(r0 * b0 % mi, b0 * b0, mi);
                    vstd::arithmetic::div_mod::lemma_mul_mod_noop_right(r0 * b0 % mi, sq, mi);
                    vstd::arithmetic::div_mod::lemma_mul_mod_noop_left(r0 * b0, sq, mi);
                    vstd::arithmetic::div_mod::lemma_mul_mod_noop_right(r0 * b0 % mi, pow((b0 * b0) % mi, h), mi);
                    assert(r0 * (sq * b0) == (r0 * b0) * sq) by (nonlinear_arith);
                } else {
                    assert(e0 == 2 * h);
                    assert(pow(b0, e0) == sq);
                    vstd::arithmetic::div_mod::lemma_mul_mod_noop_right(r0, sq, mi);
                    vstd::arithmetic::div_mod::lemma_mul_mod_noop_right(r0, pow((b0 * b0) % mi, h), mi);
                }
            }
            if odd {
                r = r * b % md;
            }
            b = b * b % md;
            e = half;
        }
        proof {
            vstd::arithmetic::power::lemma_pow0(b as int);
            vstd::arithmetic::div_mod::lemma_small_mod(r as nat, mi as nat);
        }
        BigNum { negative: false, magnitude: r }
    }
}

} // verus!
