//! The two forms a number takes: the decimal numeral written in source text, and the
//! 64-bit pattern of the double-precision value the machine computes with.

use vstd::prelude::*;
use vstd::string::StrSliceExecFns;
use vstd::string::StringExecFns;
use crate::text::is_digit;
use crate::text::ascii_digit;
use vstd::arithmetic::power2::pow2;
use vstd::arithmetic::power2::lemma2_to64;
use vstd::arithmetic::power2::lemma_pow2_adds;
use vstd::arithmetic::power2::lemma_pow2_unfold;
use vstd::arithmetic::power2::lemma_pow2_strictly_increases;

verus! {

/// The part of a numeral after its optional leading minus sign.
pub open spec fn numeral_body(s: Seq<char>) -> Seq<char> {
    if s.len() > 0 && s[0] == '-' {
        s.skip(1)
    } else {
        s
    }
}

/// A decimal numeral: an optional `-`, then digits with at most one `.` among them,
/// and at least one digit.
pub open spec fn is_numeral(s: Seq<char>) -> bool {
    let b = numeral_body(s);
    &&& forall|i: int| 0 <= i < b.len() ==> is_digit(#[trigger] b[i]) || b[i] == '.'
    &&& forall|i: int, j: int| 0 <= i < j < b.len() ==> !(b[i] == '.' && b[j] == '.')
    &&& exists|i: int| 0 <= i < b.len() && is_digit(#[trigger] b[i])
}

/// The message for text that is no numeral.
pub open spec fn numeral_error(s: Seq<char>) -> Seq<char> {
    "Could not parse '"@ + s + "': "@ + if s.len() == 0 {
        "cannot parse float from empty string"@
    } else {
        "invalid float literal"@
    }
}

/// A decimal numeral, kept as written. Its value as a double is what the host's
/// decimal-to-binary conversion makes of the text.
#[derive(Debug, PartialEq)]
pub struct Numeral {
    text: String,
}

impl View for Numeral {
    type V = Seq<char>;

    closed spec fn view(&self) -> Seq<char> {
        self.text@
    }
}

impl Numeral {
    #[verifier::type_invariant]
    spec fn well_formed(self) -> bool {
        is_numeral(self.text@)
    }

    /// Accepts exactly the texts that are numerals.
    pub fn parse(text: &str) -> (r: Result<Numeral, String>)
        ensures
            r is Ok <==> is_numeral(text@),
            r matches Ok(n) ==> n@ == text@,
            r matches Err(msg) ==> msg@ == numeral_error(text@),
    {
        let n: usize = text.unicode_len();
        let start: usize = if n > 0 && text.get_char(0) == '-' {
            1
        } else {
            0
        };
        let ghost b = numeral_body(text@);
        let mut i: usize = start;
        let mut dots: usize = 0;
        let mut digits: bool = false;
        let mut shaped: bool = true;
        let ghost mut first_dot: int = -1;
        let ghost mut some_digit: int = -1;
        let ghost mut bad: int = -1;
        while i < n && shaped
            invariant
                n == text@.len(),
                b == numeral_body(text@),
                b.len() == n - start,
                start <= i <= n,
                forall|k: int| 0 <= k < b.len() ==> b[k] == text@[k + start],
                dots <= 1,
                shaped ==> forall|k: int| 0 <= k < i - start ==> is_digit(#[trigger] b[k]) || b[k] == '.',
                shaped ==> forall|k: int, j: int| 0 <= k < j < i - start ==> !(b[k] == '.' && b[j] == '.'),
                shaped && dots == 0 ==> forall|k: int| 0 <= k < i - start ==> b[k] != '.',
                shaped && dots == 1 ==> 0 <= first_dot < i - start && b[first_dot] == '.',
                digits ==> 0 <= some_digit < i - start && is_digit(b[some_digit]),
                !digits ==> forall|k: int| 0 <= k < i - start ==> !is_digit(#[trigger] b[k]),
                !shaped ==> 0 <= bad < b.len() && ((!is_digit(b[bad]) && b[bad] != '.') || (exists|k: int| 0 <= k < bad && b[k] == '.' && b[bad] == '.')),
            decreases n - i, shaped as int,
        {
            let c = text.get_char(i);
            if ascii_digit(c) {
                proof {
                    some_digit = i - start;
                }
                digits = true;
                i += 1;
            } else if c == '.' && dots == 0 {
                proof {
                    first_dot = i - start;
                }
                dots = 1;
                i += 1;
            } else {
                proof {
                    bad = i - start;
                }
                shaped = false;
            }
        }
        if shaped && digits {
            let owned = String::from_str(text);
            Ok(Numeral { text: owned })
        } else {
            let mut msg = String::from_str("Could not parse '");
            msg.append(text);
            msg.append("': ");
            if n == 0 {
                msg.append("cannot parse float from empty string");
            } else {
                msg.append("invalid float literal");
            }
            Err(msg)
        }
    }

    /// The numeral `0.5`.
    pub fn half() -> (r: Numeral)
        ensures
            r@ == "0.5"@,
    {
        proof {
            reveal_strlit("0.5");
            let b = numeral_body("0.5"@);
            assert(b =~= "0.5"@);
            assert(is_digit(b[0]));
        }
        Numeral { text: String::from_str("0.5") }
    }

    /// The numeral of the double nearest to the circle constant.
    pub fn pi() -> (r: Numeral)
        ensures
            r@ == "3.141592653589793"@,
    {
        proof {
            reveal_strlit("3.141592653589793");
            let b = numeral_body("3.141592653589793"@);
            assert(b =~= "3.141592653589793"@);
            assert(is_digit(b[0]));
        }
        Numeral { text: String::from_str("3.141592653589793") }
    }

    /// The numeral of the double nearest to Euler's number.
    pub fn e() -> (r: Numeral)
        ensures
            r@ == "2.718281828459045"@,
    {
        proof {
            reveal_strlit("2.718281828459045");
            let b = numeral_body("2.718281828459045"@);
            assert(b =~= "2.718281828459045"@);
            assert(is_digit(b[0]));
        }
        Numeral { text: String::from_str("2.718281828459045") }
    }

    /// Whether two numerals are written alike.
    pub fn same(&self, other: &Numeral) -> (r: bool)
        ensures
            r == (self@ == other@),
    {
        self.text == other.text
    }

    /// The numeral's text, which always has the numeral shape.
    pub fn as_str(&self) -> (r: &str)
        ensures
            r@ == self@,
            is_numeral(self@),
    {
        proof {
            use_type_invariant(self);
        }
        self.text.as_str()
    }
}

impl Clone for Numeral {
    fn clone(&self) -> (r: Numeral)
        ensures
            r@ == self@,
    {
        proof {
            use_type_invariant(self);
        }
        Numeral { text: self.text.clone() }
    }
}

/// The sign bit of a double.
pub const SIGN_BIT: u64 = 0x8000_0000_0000_0000;

/// The pattern of positive infinity; every larger magnitude is a NaN.
pub const INFINITY_BITS: u64 = 0x7FF0_0000_0000_0000;

/// The pattern of `1.0`.
pub const ONE_BITS: u64 = 0x3FF0_0000_0000_0000;

/// The pattern without its sign bit.
pub open spec fn magnitude(bits: u64) -> int {
    if bits >= SIGN_BIT {
        bits - SIGN_BIT
    } else {
        bits as int
    }
}

/// Whether the pattern is a NaN.
pub open spec fn is_nan(bits: u64) -> bool {
    magnitude(bits) > INFINITY_BITS
}

/// A key that orders the patterns other than NaN as their values are ordered:
/// both zeros map to 0, negative values to the negated magnitude.
pub open spec fn order_key(bits: u64) -> int {
    if bits >= SIGN_BIT {
        -magnitude(bits)
    } else {
        magnitude(bits)
    }
}

/// Equality of two doubles: false when either is NaN, true of the two zeros.
pub open spec fn number_eq(a: u64, b: u64) -> bool {
    !is_nan(a) && !is_nan(b) && order_key(a) == order_key(b)
}

/// Strict order of two doubles: false when either is NaN.
pub open spec fn number_lt(a: u64, b: u64) -> bool {
    !is_nan(a) && !is_nan(b) && order_key(a) < order_key(b)
}

/// Whether a double differs from zero. NaN does.
pub open spec fn is_nonzero(bits: u64) -> bool {
    magnitude(bits) != 0
}

/// The pattern of `1.0` for true and of `0.0` for false.
pub open spec fn truth_bits(b: bool) -> u64 {
    if b {
        ONE_BITS
    } else {
        0
    }
}

/// A double-precision value, held as its 64-bit pattern.
#[derive(Clone, Copy, Debug)]
pub struct Number {
    pub bits: u64,
}

impl Number {
    /// The double with the given pattern.
    pub fn from_bits(bits: u64) -> (r: Number)
        ensures
            r.bits == bits,
    {
        Number { bits }
    }

    /// The pattern of the double.
    pub fn to_bits(self) -> (r: u64)
        ensures
            r == self.bits,
    {
        self.bits
    }

    /// `1.0` for true, `0.0` for false.
    pub fn from_bool(b: bool) -> (r: Number)
        ensures
            r.bits == truth_bits(b),
    {
        if b {
            Number { bits: ONE_BITS }
        } else {
            Number { bits: 0 }
        }
    }

    fn key(self) -> (r: i128)
        ensures
            r == order_key(self.bits),
    {
        if self.bits >= SIGN_BIT {
            let m: u64 = self.bits - SIGN_BIT;
            -(m as i128)
        } else {
            self.bits as i128
        }
    }

    /// Whether the double is a NaN.
    pub fn is_nan(self) -> (r: bool)
        ensures
            r == is_nan(self.bits),
    {
        if self.bits >= SIGN_BIT {
            self.bits - SIGN_BIT > INFINITY_BITS
        } else {
            self.bits > INFINITY_BITS
        }
    }

    /// Whether the value counts as true in a condition: anything but a zero.
    pub fn is_truthy(self) -> (r: bool)
        ensures
            r == is_nonzero(self.bits),
    {
        self.bits != 0 && self.bits != SIGN_BIT
    }

    /// Whether two doubles are equal. A NaN equals nothing; the two zeros are equal.
    pub fn equals(self, other: Number) -> (r: bool)
        ensures
            r == number_eq(self.bits, other.bits),
    {
        !self.is_nan() && !other.is_nan() && self.key() == other.key()
    }

    /// Whether the double is less than the other. A NaN is not ordered.
    pub fn less_than(self, other: Number) -> (r: bool)
        ensures
            r == number_lt(self.bits, other.bits),
    {
        !self.is_nan() && !other.is_nan() && self.key() < other.key()
    }

    /// Whether the double is less than the other or equal to it.
    pub fn at_most(self, other: Number) -> (r: bool)
        ensures
            r == (number_lt(self.bits, other.bits) || number_eq(self.bits, other.bits)),
    {
        !self.is_nan() && !other.is_nan() && self.key() <= other.key()
    }
}

/// The pattern of `sample / 2^32`, found by doubling: `m` is the sample doubled until
/// its highest bit is bit 31, and `e` the exponent field that goes with it.
pub open spec fn normalized(m: nat, e: nat) -> u64
    decreases e,
{
    if m >= 0x8000_0000 || e == 0 {
        (e * 0x10_0000_0000_0000 + (m - 0x8000_0000) * 0x20_0000) as u64
    } else {
        normalized(2 * m, (e - 1) as nat)
    }
}

/// The pattern of the double `sample / 2^32`, a value in the half-open unit interval.
pub open spec fn unit_fraction_bits(sample: u32) -> u64 {
    if sample == 0 {
        0
    } else {
        normalized(sample as nat, 1022)
    }
}

/// The exponent field of a pattern.
pub open spec fn exponent_field(bits: u64) -> nat {
    ((bits / 0x10_0000_0000_0000) % 0x800) as nat
}

/// The fraction field of a pattern.
pub open spec fn fraction_field(bits: u64) -> nat {
    (bits % 0x10_0000_0000_0000) as nat
}

/// The magnitude of a finite double, in units of `2^-1074`, the smallest positive double.
pub open spec fn scaled_magnitude(bits: u64) -> nat {
    if exponent_field(bits) == 0 {
        fraction_field(bits)
    } else {
        (0x10_0000_0000_0000 + fraction_field(bits)) * pow2((exponent_field(bits) - 1) as nat)
    }
}

/// The unit fraction of a sample is the double `sample / 2^32` exactly: it is not
/// negative, it is finite, and in units of `2^-1074` it is `sample * 2^1042`.
pub proof fn lemma_unit_fraction(sample: u32)
    ensures
        unit_fraction_bits(sample) < SIGN_BIT,
        exponent_field(unit_fraction_bits(sample)) < 0x7FF,
        scaled_magnitude(unit_fraction_bits(sample)) == sample * pow2(1042),
{
    if sample == 0 {
        assert(0 * pow2(1042) == 0) by (nonlinear_arith);
    } else {
        lemma2_to64();
        lemma_normalized(sample as nat, 1022);
    }
}

proof fn lemma_normalized(m: nat, e: nat)
    requires
        0 < m < 0x1_0000_0000,
        e <= 1022,
        m >= pow2((1022 - e) as nat),
    ensures
        normalized(m, e) < SIGN_BIT,
        0 < exponent_field(normalized(m, e)) < 0x7FF,
        scaled_magnitude(normalized(m, e)) == m * pow2(e + 20),
    decreases e,
{
    lemma2_to64();
    if e <= 990 {
        if 1022 - e > 32 {
            lemma_pow2_strictly_increases(32, (1022 - e) as nat);
        }
        assert(false);
    }
    if m >= 0x8000_0000 {
        let f: nat = ((m - 0x8000_0000) * 0x20_0000) as nat;
        let b = normalized(m, e);
        assert(b == e * 0x10_0000_0000_0000 + f);
        assert(exponent_field(b) == e);
        assert(fraction_field(b) == f);
        assert(0x10_0000_0000_0000 + f == m * 0x20_0000);
        lemma_pow2_adds(21, (e - 1) as nat);
        assert((m * 0x20_0000) * pow2((e - 1) as nat) == m * (0x20_0000 * pow2((e - 1) as nat)))
            by (nonlinear_arith);
    } else {
        if e <= 991 {
            if 1022 - e > 31 {
                lemma_pow2_strictly_increases(31, (1022 - e) as nat);
            }
            assert(false);
        }
        lemma_pow2_unfold((1022 - e + 1) as nat);
        lemma_normalized(2 * m, (e - 1) as nat);
        lemma_pow2_unfold(e + 20);
        assert((2 * m) * pow2((e - 1 + 20) as nat) == m * (2 * pow2((e - 1 + 20) as nat)))
            by (nonlinear_arith);
    }
}

impl Number {
    /// The double `sample / 2^32`. Every such quotient is a double, so nothing is rounded.
    pub fn unit_fraction(sample: u32) -> (r: Number)
        ensures
            r.bits == unit_fraction_bits(sample),
    {
        if sample == 0 {
            return Number { bits: 0 };
        }
        let mut m: u64 = sample as u64;
        let mut e: u64 = 1022;
        proof {
            lemma2_to64();
        }
        while m < 0x8000_0000
            invariant
                0 < m < 0x1_0000_0000,
                e <= 1022,
                m >= pow2((1022 - e) as nat),
                normalized(sample as nat, 1022) == normalized(m as nat, e as nat),
            decreases 0x1_0000_0000 - m,
        {
            proof {
                lemma2_to64();
                if e <= 991 {
                    if 1022 - e > 31 {
                        lemma_pow2_strictly_increases(31, (1022 - e) as nat);
                    }
                    assert(false);
                }
                lemma_pow2_unfold((1022 - e + 1) as nat);
            }
            m = m * 2;
            e = e - 1;
        }
        Number { bits: e * 0x10_0000_0000_0000 + (m - 0x8000_0000) * 0x20_0000 }
    }
}

} // verus!
