use crate::machine::nzcv::{flag_value, Nzcv};
use vstd::prelude::*;

verus! {

/// The operations of the arithmetic logic unit.
#[derive(Clone, Copy)]
pub enum AluOperator {
    Add,
    Adc,
    Sub,
    Mul,
    Div,
    Rem,
    And,
    Or,
    Xor,
    Not,
    Lsl,
    Lsr,
    Asl,
    Asr,
    Trl,
    Trr,
}

/// What one operation yields: the result word and, for the operations that set them,
/// the new carry and overflow flags.
pub struct AluOutcome {
    pub result: u64,
    pub carry: Option<bool>,
    pub overflow: Option<bool>,
}

/// 2^64, the number of distinct words.
pub open spec fn word_modulus() -> int {
    0x1_0000_0000_0000_0000
}

/// The value of a word read as a two's complement signed number.
pub open spec fn signed(x: u64) -> int {
    if x < 0x8000_0000_0000_0000 {
        x as int
    } else {
        x as int - word_modulus()
    }
}

/// Whether `v` can be held by a signed 64-bit word.
pub open spec fn fits_signed(v: int) -> bool {
    i64::MIN <= v <= i64::MAX
}

/// The word whose value is congruent to `v` modulo 2^64.
pub open spec fn wrap(v: int) -> u64 {
    (v % word_modulus()) as u64
}

pub open spec fn abs(v: int) -> nat {
    if v < 0 {
        (-v) as nat
    } else {
        v as nat
    }
}

/// Integer division rounded toward zero, as Rust's `/` on signed integers.
pub open spec fn trunc_div(x: int, d: int) -> int {
    let q = abs(x) as int / abs(d) as int;
    if (x < 0) == (d < 0) {
        q
    } else {
        -q
    }
}

/// The remainder of division rounded toward zero; it takes the sign of the dividend.
pub open spec fn trunc_rem(x: int, d: int) -> int {
    let r = abs(x) as int % abs(d) as int;
    if x < 0 {
        -r
    } else {
        r
    }
}

/// Whether bit `index` of `x` is set.
pub open spec fn bit_of(x: u64, index: u64) -> bool {
    (x >> index) & 1 == 1
}

/// Shift right that fills the vacated high bits with copies of the sign bit.
pub open spec fn arithmetic_shift_right(x: u64, count: u64) -> u64 {
    if x < 0x8000_0000_0000_0000 {
        x >> count
    } else {
        !((!x) >> count)
    }
}

/// The shift amount that the shift operations take from their first input.
pub open spec fn shift_count(a: u64) -> u64 {
    a % 64
}

/// What each operation computes from its inputs `a` and `b` and the carry flag.
pub open spec fn alu_outcome(operator: AluOperator, a: u64, b: u64, carry_in: bool) -> AluOutcome {
    match operator {
        AluOperator::Add => AluOutcome {
            result: wrap(a + b),
            carry: Some(a + b > u64::MAX),
            overflow: Some(!fits_signed(signed(a) + signed(b))),
        },
        AluOperator::Adc => AluOutcome {
            result: wrap(a + b + flag_value(carry_in)),
            carry: Some(a + b + flag_value(carry_in) > u64::MAX),
            overflow: Some(!fits_signed(signed(a) + signed(b) + flag_value(carry_in))),
        },
        AluOperator::Sub => AluOutcome {
            result: wrap(a - b),
            carry: Some(a < b),
            overflow: Some(!fits_signed(signed(a) - signed(b))),
        },
        AluOperator::Mul => AluOutcome {
            result: wrap(a * b),
            carry: Some(a * b > u64::MAX),
            overflow: Some(!fits_signed(signed(a) * signed(b))),
        },
        AluOperator::Div => if b == 0 {
            AluOutcome { result: 0, carry: Some(true), overflow: Some(false) }
        } else {
            AluOutcome {
                result: wrap(trunc_div(signed(a), signed(b))),
                carry: Some(false),
                overflow: Some(signed(a) == i64::MIN && signed(b) == -1),
            }
        },
        AluOperator::Rem => if b == 0 {
            AluOutcome { result: 0, carry: Some(true), overflow: Some(false) }
        } else {
            AluOutcome {
                result: wrap(trunc_rem(signed(a), signed(b))),
                carry: Some(false),
                overflow: Some(signed(a) == i64::MIN && signed(b) == -1),
            }
        },
        AluOperator::And => AluOutcome { result: a & b, carry: None, overflow: None },
        AluOperator::Or => AluOutcome { result: a | b, carry: None, overflow: None },
        AluOperator::Xor => AluOutcome { result: a ^ b, carry: None, overflow: None },
        AluOperator::Not => AluOutcome { result: !a, carry: None, overflow: None },
        AluOperator::Lsl => if shift_count(a) == 0 {
            AluOutcome { result: b, carry: None, overflow: None }
        } else {
            AluOutcome {
                result: b << shift_count(a),
                carry: Some(bit_of(b, (64 - shift_count(a)) as u64)),
                overflow: None,
            }
        },
        AluOperator::Lsr => if shift_count(a) == 0 {
            AluOutcome { result: b, carry: None, overflow: None }
        } else {
            AluOutcome {
                result: b >> shift_count(a),
                carry: Some(bit_of(b, (shift_count(a) - 1) as u64)),
                overflow: None,
            }
        },
        AluOperator::Asl => AluOutcome { result: b << shift_count(a), carry: None, overflow: None },
        AluOperator::Asr => AluOutcome {
            result: arithmetic_shift_right(b, shift_count(a)),
            carry: None,
            overflow: None,
        },
        AluOperator::Trl => AluOutcome { result: a, carry: None, overflow: None },
        AluOperator::Trr => AluOutcome { result: b, carry: None, overflow: None },
    }
}

/// The flags after an operation: N and Z describe the result, C and V change only where
/// the operation yields them.
pub open spec fn flags_after(flags: Nzcv, outcome: AluOutcome) -> Nzcv {
    Nzcv {
        negative: outcome.result >= 0x8000_0000_0000_0000,
        zero: outcome.result == 0,
        carry: match outcome.carry {
            Some(c) => c,
            None => flags.carry,
        },
        overflow: match outcome.overflow {
            Some(v) => v,
            None => flags.overflow,
        },
    }
}

/// The arithmetic logic unit together with the flags it keeps.
pub struct Alu {
    pub nzcv: Nzcv,
}

proof fn lemma_sign_bit(x: u64)
    ensures
        (x >> 63u64 == 1) == (x >= 0x8000_0000_0000_0000),
{
    assert((x >> 63u64 == 1) == (x >= 0x8000_0000_0000_0000)) by (bit_vector);
}

proof fn lemma_mask_is_mod(a: u64)
    ensures
        a & 63 == a % 64,
{
    assert(a & 63 == a % 64) by (bit_vector);
}


/// The two's complement magnitude of a word read as a signed number.
fn magnitude(x: u64) -> (m: u64)
    ensures
        m == abs(signed(x)),
{
    if x >= 0x8000_0000_0000_0000 {
        0u64.wrapping_sub(x)
    } else {
        x
    }
}

proof fn lemma_wrap_range(v: int)
    requires
        -word_modulus() < v < 2 * word_modulus(),
    ensures
        wrap(v) == (if v < 0 {
            v + word_modulus()
        } else if v < word_modulus() {
            v
        } else {
            v - word_modulus()
        }),
{
    let m = word_modulus();
    if v < 0 {
        assert((v + m) % m == v % m) by {
            vstd::arithmetic::div_mod::lemma_mod_add_multiples_vanish(v, m);
        }
        vstd::arithmetic::div_mod::lemma_small_mod((v + m) as nat, m as nat);
    } else if v < m {
        vstd::arithmetic::div_mod::lemma_small_mod(v as nat, m as nat);
    } else {
        vstd::arithmetic::div_mod::lemma_mod_sub_multiples_vanish(v, m);
        vstd::arithmetic::div_mod::lemma_small_mod((v - m) as nat, m as nat);
    }
}

proof fn lemma_sign_bits(a: u64, b: u64, r: u64)
    ensures
        ((!(a ^ b) & (a ^ r)) >> 63u64 == 1) == ((a >> 63u64 == b >> 63u64) && (a >> 63u64
            != r >> 63u64)),
        (((a ^ b) & (a ^ r)) >> 63u64 == 1) == ((a >> 63u64 != b >> 63u64) && (a >> 63u64
            != r >> 63u64)),
        a >> 63u64 <= 1,
        b >> 63u64 <= 1,
        r >> 63u64 <= 1,
{
    assert(((!(a ^ b) & (a ^ r)) >> 63u64 == 1) == ((a >> 63u64 == b >> 63u64) && (a >> 63u64
        != r >> 63u64))) by (bit_vector);
    assert((((a ^ b) & (a ^ r)) >> 63u64 == 1) == ((a >> 63u64 != b >> 63u64) && (a >> 63u64
        != r >> 63u64))) by (bit_vector);
    assert(a >> 63u64 <= 1 && b >> 63u64 <= 1 && r >> 63u64 <= 1) by (bit_vector);
    lemma_sign_bit(a);
    lemma_sign_bit(b);
    lemma_sign_bit(r);
}

/// The sign-change rule that the adder uses to detect signed overflow, with a carry in.
proof fn lemma_add_overflow(a: u64, b: u64, c: u64, r: u64)
    requires
        c <= 1,
        r == wrap(a + b + c),
        -word_modulus() < a + b + c < 2 * word_modulus(),
    ensures
        ((!(a ^ b) & (a ^ r)) >> 63u64 == 1) == !fits_signed(signed(a) + signed(b) + c),
{
    lemma_sign_bits(a, b, r);
    lemma_sign_bit(a);
    lemma_sign_bit(b);
    lemma_sign_bit(r);
    lemma_wrap_range(a + b + c);
    let m = word_modulus();
    let h = 0x8000_0000_0000_0000int;
    let na = a >= h;
    let nb = b >= h;
    let nr = r >= h;
    assert((a >> 63u64 == b >> 63u64) == (na == nb));
    assert((a >> 63u64 != r >> 63u64) == (na != nr));
    if na && nb {
        assert(r == a + b + c - m);
        assert(signed(a) + signed(b) + c == r - m);
    } else if !na && !nb {
        assert(r == a + b + c);
    } else if na {
        assert(signed(a) + signed(b) + c == a - m + b + c);
    } else {
        assert(signed(a) + signed(b) + c == a + b - m + c);
    }
}

/// The sign-change rule that the subtractor uses to detect signed overflow.
proof fn lemma_sub_overflow(a: u64, b: u64, r: u64)
    requires
        r == wrap(a - b),
    ensures
        (((a ^ b) & (a ^ r)) >> 63u64 == 1) == !fits_signed(signed(a) - signed(b)),
{
    lemma_sign_bits(a, b, r);
    lemma_sign_bit(a);
    lemma_sign_bit(b);
    lemma_sign_bit(r);
    lemma_wrap_range(a - b);
    let m = word_modulus();
    let h = 0x8000_0000_0000_0000int;
    let na = a >= h;
    let nb = b >= h;
    let nr = r >= h;
    assert((a >> 63u64 != b >> 63u64) == (na != nb));
    assert((a >> 63u64 != r >> 63u64) == (na != nr));
    if na && !nb {
        assert(signed(a) - signed(b) == a - m - b);
        assert(r == a - b);
    } else if !na && nb {
        assert(signed(a) - signed(b) == a - b + m);
        assert(r == a - b + m);
    } else if na {
        assert(signed(a) - signed(b) == a - b);
    } else {
        assert(signed(a) - signed(b) == a - b);
    }
}

proof fn lemma_signed_cast(x: u64)
    ensures
        (x as i64) as int == signed(x),
{
    assert(x < 0x8000_0000_0000_0000 ==> (x as i64) as int == x as int) by (bit_vector);
    assert(x >= 0x8000_0000_0000_0000 ==> (x as i64) as int == x as int - 0x1_0000_0000_0000_0000int) by (bit_vector);
}

proof fn lemma_mul_bounds(a: u64, b: u64)
    ensures
        0 <= a * b <= u64::MAX * u64::MAX,
        -0x8000_0000_0000_0000 * 0x8000_0000_0000_0000 <= signed(a) * signed(b)
            <= 0x8000_0000_0000_0000 * 0x8000_0000_0000_0000,
{
    let (x, y) = (signed(a), signed(b));
    assert(0 <= a * b <= u64::MAX * u64::MAX) by (nonlinear_arith);
    assert(-0x8000_0000_0000_0000 <= x <= 0x8000_0000_0000_0000);
    assert(-0x8000_0000_0000_0000 <= y <= 0x8000_0000_0000_0000);
    assert(-0x8000_0000_0000_0000 * 0x8000_0000_0000_0000 <= x * y
        <= 0x8000_0000_0000_0000 * 0x8000_0000_0000_0000) by (nonlinear_arith)
        requires
            -0x8000_0000_0000_0000 <= x <= 0x8000_0000_0000_0000,
            -0x8000_0000_0000_0000 <= y <= 0x8000_0000_0000_0000,
    ;
}

proof fn lemma_quotient_bound(x: int, d: int)
    requires
        0 <= x,
        0 < d,
    ensures
        0 <= x / d <= x,
{
    vstd::arithmetic::div_mod::lemma_div_pos_is_pos(x, d);
    vstd::arithmetic::div_mod::lemma_div_is_ordered_by_denominator(x, 1, d);
}

impl Alu {
    pub fn new(nzcv: Nzcv) -> (alu: Self)
        ensures
            alu.nzcv == nzcv,
    {
        Self { nzcv }
    }

    /// Applies `operator` to `a` and `b`, updates the flags, and returns the result.
    pub fn execute_operator(&mut self, operator: AluOperator, a: u64, b: u64) -> (result: u64)
        ensures
            result == alu_outcome(operator, a, b, old(self).nzcv.carry).result,
            final(self).nzcv == flags_after(
                old(self).nzcv,
                alu_outcome(operator, a, b, old(self).nzcv.carry),
            ),
    {
        let carry_in = self.nzcv.carry;
        let (result, carry, overflow): (u64, Option<bool>, Option<bool>) = match operator {
            AluOperator::Add => {
                let result = a.wrapping_add(b);
                let carry = result < a;
                let overflow = (!(a ^ b) & (a ^ result)) >> 63 == 1;
                proof {
                    lemma_wrap_range(a + b);
                    lemma_add_overflow(a, b, 0, result);
                }
                (result, Some(carry), Some(overflow))
            },
            AluOperator::Adc => {
                let c: u64 = if carry_in { 1 } else { 0 };
                let partial = a.wrapping_add(b);
                let result = partial.wrapping_add(c);
                let carry = partial < a || result < partial;
                let overflow = (!(a ^ b) & (a ^ result)) >> 63 == 1;
                proof {
                    lemma_wrap_range(a + b + c);
                    lemma_add_overflow(a, b, c, result);
                }
                (result, Some(carry), Some(overflow))
            },
            AluOperator::Sub => {
                let result = a.wrapping_sub(b);
                let carry = a < b;
                let overflow = ((a ^ b) & (a ^ result)) >> 63 == 1;
                proof {
                    lemma_wrap_range(a - b);
                    lemma_sub_overflow(a, b, result);
                }
                (result, Some(carry), Some(overflow))
            },
            AluOperator::Mul => {
                let result = a.wrapping_mul(b);
                proof {
                    lemma_mul_bounds(a, b);
                    lemma_signed_cast(a);
                    lemma_signed_cast(b);
                }
                let wide: u128 = (a as u128) * (b as u128);
                let carry = wide > u64::MAX as u128;
                let signed_product: i128 = (a as i64 as i128) * (b as i64 as i128);
                let overflow = signed_product < i64::MIN as i128 || signed_product > i64::MAX as i128;
                (result, Some(carry), Some(overflow))
            },
            AluOperator::Div => {
                if b == 0 {
                    (0u64, Some(true), Some(false))
                } else {
                    let (ua, ub) = (magnitude(a), magnitude(b));
                    let quotient = ua / ub;
                    let negative = (a >= 0x8000_0000_0000_0000) != (b >= 0x8000_0000_0000_0000);
                    let result = if negative { 0u64.wrapping_sub(quotient) } else { quotient };
                    proof {
                        lemma_quotient_bound(ua as int, ub as int);
                        lemma_wrap_range(trunc_div(signed(a), signed(b)));
                    }
                    let overflow = a == 0x8000_0000_0000_0000 && b == u64::MAX;
                    (result, Some(false), Some(overflow))
                }
            },
            AluOperator::Rem => {
                if b == 0 {
                    (0u64, Some(true), Some(false))
                } else {
                    let (ua, ub) = (magnitude(a), magnitude(b));
                    let remainder = ua % ub;
                    let result = if a >= 0x8000_0000_0000_0000 {
                        0u64.wrapping_sub(remainder)
                    } else {
                        remainder
                    };
                    proof {
                        lemma_wrap_range(trunc_rem(signed(a), signed(b)));
                    }
                    let overflow = a == 0x8000_0000_0000_0000 && b == u64::MAX;
                    (result, Some(false), Some(overflow))
                }
            },
            AluOperator::And => (a & b, None, None),
            AluOperator::Or => (a | b, None, None),
            AluOperator::Xor => (a ^ b, None, None),
            AluOperator::Not => (!a, None, None),
            AluOperator::Lsl => {
                let count = a & 63;
                proof {
                    lemma_mask_is_mod(a);
                }
                if count == 0 {
                    (b, None, None)
                } else {
                    let carry = (b >> (64 - count)) & 1 == 1;
                    (b << count, Some(carry), None)
                }
            },
            AluOperator::Lsr => {
                let count = a & 63;
                proof {
                    lemma_mask_is_mod(a);
                }
                if count == 0 {
                    (b, None, None)
                } else {
                    let carry = (b >> (count - 1)) & 1 == 1;
                    (b >> count, Some(carry), None)
                }
            },
            AluOperator::Asl => {
                let count = a & 63;
                proof {
                    lemma_mask_is_mod(a);
                }
                (b << count, None, None)
            },
            AluOperator::Asr => {
                let count = a & 63;
                proof {
                    lemma_mask_is_mod(a);
                }
                let result = if b < 0x8000_0000_0000_0000 {
                    b >> count
                } else {
                    !((!b) >> count)
                };
                (result, None, None)
            },
            AluOperator::Trl => (a, None, None),
            AluOperator::Trr => (b, None, None),
        };
        self.set_flags(result, carry, overflow);
        result
    }

    fn set_flags(&mut self, result: u64, carry: Option<bool>, overflow: Option<bool>)
        ensures
            final(self).nzcv == flags_after(
                old(self).nzcv,
                AluOutcome { result, carry, overflow },
            ),
    {
        proof {
            lemma_sign_bit(result);
        }
        self.nzcv.negative = result >> 63 == 1;
        self.nzcv.zero = result == 0;
        if let Some(carry) = carry {
            self.nzcv.carry = carry;
        }
        if let Some(overflow) = overflow {
            self.nzcv.overflow = overflow;
        }
    }
}

impl Default for Alu {
    fn default() -> (alu: Self)
        ensures
            alu.nzcv == (Nzcv { negative: false, zero: true, carry: false, overflow: false }),
    {
        Self::new(Nzcv::default())
    }
}

} // verus!
