//! Width-masked constant values.
//!
//! A [`ConstVal`] is a compile-time-known bit-vector value: a magnitude held
//! in a 128-bit container together with a declared bit width of at most 128.
//! All observations go through the magnitude masked to the declared width;
//! the stored magnitude is kept masked as an invariant. The 128-bit container
//! is a deliberate ceiling: arithmetic that overflows the container is a
//! construction error and is excluded by precondition, not widened to
//! arbitrary precision.

use vstd::prelude::*;
use vstd::arithmetic::power2::{pow2, lemma_pow2_unfold, lemma_pow2_pos};
use vstd::bits::low_bits_mask;

verus! {

/// The dyadic operator set of the `BinOp` node kind.
#[derive(Clone, Copy, PartialEq, Eq, Structural, Debug)]
pub enum BinOp {
    Add,
    Sub,
    Mul,
    Div,
    Rem,
    BitAnd,
    BitOr,
    BitXor,
    And,
    Or,
    Sll,
    Slr,
    Sra,
    Eq,
    Ne,
    Ge,
    Gt,
    Le,
    Lt,
}

/// All bits below `w` set; all 128 bits set for `w >= 128`.
pub open spec fn cv_mask(w: u128) -> u128 {
    if w >= 128 {
        u128::MAX
    } else {
        ((1u128 << w) - 1) as u128
    }
}

/// `2^w` for widths up to 128, as a mathematical integer.
pub open spec fn width_bound(w: u128) -> nat {
    pow2(w as nat)
}

/// `2^n` does not overflow the 128-bit container for `n < 128`.
pub proof fn lemma_pow2_fits_u128(n: nat)
    requires
        n <= 128,
    ensures
        pow2(n) <= u128::MAX as nat + 1,
        n < 128 ==> pow2(n) <= (u128::MAX as nat + 1) / 2,
{
    vstd::arithmetic::power2::lemma2_to64();
    vstd::arithmetic::power2::lemma_pow2_adds(64, 64);
    vstd::arithmetic::power2::lemma_pow2_adds(64, 63);
    vstd::arithmetic::power2::lemma2_to64_rest();
    if n < 127 {
        vstd::arithmetic::power2::lemma_pow2_strictly_increases(n, 127);
    }
    if n < 128 {
        vstd::arithmetic::power2::lemma_pow2_strictly_increases(n, 128);
    }
}

/// Bitwise-and splits into the low bit and the remaining bits.
proof fn lemma_u128_and_split_low_bit(x: u128, m: u128)
    by (bit_vector)
    ensures
        x & m == ((x / 2) & (m / 2)) * 2 + ((x % 2) & (m % 2)),
{
}

/// Masking with the low `n`-bit mask is reduction modulo `2^n`.
pub proof fn lemma_u128_low_bits_mask_is_mod(x: u128, n: nat)
    requires
        n < 128,
    ensures
        x & (low_bits_mask(n) as u128) == x % (pow2(n) as u128),
    decreases n,
{
    lemma_pow2_fits_u128(n);
    lemma_pow2_pos(n);
    if n == 0 {
        vstd::bits::lemma_low_bits_mask_values();
        vstd::arithmetic::power2::lemma2_to64();
        assert(x & 0 == 0) by (bit_vector);
    } else {
        let sub1 = (n - 1) as nat;
        lemma_pow2_unfold(n);
        lemma_pow2_pos(sub1);
        assert((x % 2) == ((x % 2) & 1)) by (bit_vector);
        vstd::arithmetic::div_mod::lemma_mod_breakdown(x as int, 2, pow2(sub1) as int);
        assert(x as int % (pow2(n) as int) == 2 * ((x as int / 2) % (pow2(sub1) as int)) + x as int
            % 2);
        assert(x as int / 2 == (x / 2) as int);
        lemma_u128_low_bits_mask_is_mod(x / 2, sub1);
        assert((x / 2) % (pow2(sub1) as u128) == (x / 2) & (low_bits_mask(sub1) as u128));
        vstd::bits::lemma_low_bits_mask_div2(n);
        assert(low_bits_mask(sub1) == low_bits_mask(n) / 2);
        vstd::bits::lemma_low_bits_mask_is_odd(n);
        assert((x % 2) & ((low_bits_mask(n) as u128) % 2) == x % 2) by {
            assert(low_bits_mask(n) % 2 == 1);
            assert((x % 2) & 1u128 == x % 2) by (bit_vector);
        }
        lemma_u128_and_split_low_bit(x, low_bits_mask(n) as u128);
        assert(x & (low_bits_mask(n) as u128) == ((x / 2) & ((low_bits_mask(n) as u128) / 2)) * 2
            + ((x % 2) & ((low_bits_mask(n) as u128) % 2)));
        assert((low_bits_mask(n) as u128) / 2 == low_bits_mask(sub1) as u128);
        assert(x % (pow2(n) as u128) == x as int % (pow2(n) as int));
    }
}

/// The saturating mask agrees with vstd's `low_bits_mask`.
pub proof fn lemma_cv_mask_is_low_bits_mask(w: u128)
    requires
        w <= 128,
    ensures
        cv_mask(w) == low_bits_mask(w as nat) as u128,
{
    lemma_pow2_fits_u128(w as nat);
    if w < 128 {
        lemma_shl_is_pow2(w);
    } else {
        vstd::arithmetic::power2::lemma2_to64();
        vstd::arithmetic::power2::lemma_pow2_adds(64, 64);
        assert(pow2(128) == 0x100000000000000000000000000000000nat);
        assert(low_bits_mask(128) == (pow2(128) - 1) as nat);
    }
}

/// Masking to `w` bits is reduction modulo `2^w`.
pub proof fn lemma_mask_is_mod(x: u128, w: u128)
    requires
        w <= 128,
    ensures
        w < 128 ==> x & cv_mask(w) == x % (width_bound(w) as u128),
        w == 128 ==> x & cv_mask(w) == x,
{
    lemma_cv_mask_is_low_bits_mask(w);
    if w < 128 {
        lemma_pow2_fits_u128(w as nat);
        lemma_u128_low_bits_mask_is_mod(x, w as nat);
    } else {
        assert(x & u128::MAX == x) by (bit_vector);
    }
}

/// A left shift of one is the corresponding power of two.
pub proof fn lemma_shl_is_pow2(w: u128)
    requires
        w < 128,
    ensures
        (1u128 << w) as nat == pow2(w as nat),
        1u128 << w > 0,
    decreases w,
{
    if w == 0 {
        assert(1u128 << 0 == 1) by (bit_vector);
        assert(pow2(0) == 1) by {
            vstd::arithmetic::power2::lemma2_to64();
        }
    } else {
        lemma_shl_is_pow2((w - 1) as u128);
        lemma_pow2_unfold(w as nat);
        let prev = 1u128 << ((w - 1) as u128);
        assert(prev < 1u128 << 127) by (bit_vector)
            requires
                prev == 1u128 << ((w - 1) as u128) && 0 < w < 128,
        ;
        assert(1u128 << 127 == 0x8000_0000_0000_0000_0000_0000_0000_0000u128) by (bit_vector);
        assert(1u128 << w == 2 * prev) by (bit_vector)
            requires
                prev == 1u128 << ((w - 1) as u128) && 0 < w < 128,
        ;
    }
}

/// A value masked to `w` bits stays below `2^w`.
pub proof fn lemma_masked_bounded(x: u128, w: u128)
    requires
        w <= 128,
    ensures
        (x & cv_mask(w)) < width_bound(w),
{
    lemma_mask_is_mod(x, w);
    if w < 128 {
        lemma_pow2_fits_u128(w as nat);
        lemma_shl_is_pow2(w);
        lemma_pow2_pos(w as nat);
    } else {
        assert(x & u128::MAX == x) by (bit_vector);
        assert(pow2(128) > u128::MAX as nat) by {
            vstd::arithmetic::power2::lemma2_to64();
            vstd::arithmetic::power2::lemma_pow2_adds(64, 64);
        }
    }
}

/// Masking is idempotent.
pub proof fn lemma_mask_idem(x: u128, w: u128)
    ensures
        (x & cv_mask(w)) & cv_mask(w) == x & cv_mask(w),
{
    let m = cv_mask(w);
    assert((x & m) & m == x & m) by (bit_vector);
}

/// A compile-time-known bit-vector value: a magnitude masked to a declared
/// width of at most 128 bits.
#[derive(Clone, Copy, PartialEq, Eq, Structural, Debug, Hash)]
pub struct ConstVal {
    pub val: u128,
    pub width: u128,
}

impl ConstVal {
    /// Well-formed: the width fits the container and the magnitude carries no
    /// bits above the width.
    pub open spec fn wf(self) -> bool {
        self.width <= 128 && self.val == self.val & cv_mask(self.width)
    }

    /// The width-masked magnitude.
    pub open spec fn val_spec(self) -> u128 {
        self.val
    }

    pub open spec fn width_spec(self) -> u128 {
        self.width
    }

    /// The value `v` masked to width `w`, as a specification-level constructor.
    pub open spec fn mk(v: u128, w: u128) -> ConstVal {
        ConstVal { val: v & cv_mask(w), width: w }
    }

    pub proof fn lemma_mk_wf(v: u128, w: u128)
        requires
            w <= 128,
        ensures
            Self::mk(v, w).wf(),
            Self::mk(v, w).val_spec() < width_bound(w),
    {
        lemma_mask_idem(v, w);
        lemma_masked_bounded(v, w);
    }

    pub fn new(val: u128, width: u128) -> (r: Self)
        requires
            width <= 128,
        ensures
            r == Self::mk(val, width),
            r.wf(),
    {
        proof {
            Self::lemma_mk_wf(val, width);
        }
        let masked = val & mask(width);
        ConstVal { val: masked, width }
    }

    pub fn zero(width: u128) -> (r: Self)
        requires
            width <= 128,
        ensures
            r == Self::mk(0, width),
            r.wf(),
            r.val_spec() == 0,
    {
        proof {
            Self::lemma_mk_wf(0, width);
            assert(0u128 & cv_mask(width) == 0) by (bit_vector);
        }
        ConstVal { val: 0, width }
    }

    /// Re-masks the value to a new width (truncating or zero-extending).
    pub fn convert(self, width: u128) -> (r: Self)
        requires
            width <= 128,
        ensures
            r == Self::mk(self.val_spec(), width),
            r.wf(),
    {
        Self::new(self.val, width)
    }

    pub fn val(&self) -> (r: u128)
        ensures
            r == self.val_spec(),
    {
        self.val
    }

    pub fn width(&self) -> (r: u128)
        ensures
            r == self.width_spec(),
    {
        self.width
    }

    pub fn is_zero_sized(&self) -> (r: bool)
        ensures
            r == (self.width_spec() == 0),
    {
        self.width == 0
    }
}

/// Truncation of a mathematical integer to the 128-bit container.
pub open spec fn wrap128(x: int) -> u128 {
    (x % 0x100000000000000000000000000000000int) as u128
}

/// Arithmetic shift right at a declared width: the width's topmost bit is
/// the sign and is replicated into the bits the shift vacates; the result
/// stays within the width.
pub open spec fn sra_at_width(v: u128, w: u128, sh: u128) -> u128 {
    if w == 0 {
        0
    } else if (v >> ((w - 1) as u128)) & 1 == 0 {
        v >> sh
    } else {
        (v >> sh) | (cv_mask(w) & !(cv_mask(w) >> sh))
    }
}

/// A one-bit value for a comparison or logical result.
pub open spec fn cv_from_bool_spec(b: bool) -> ConstVal {
    ConstVal { val: if b { 1 } else { 0 }, width: 1 }
}

/// What `eval_bin_op` returns, for every operator of the closed set.
///
/// Arithmetic wraps at the declared width; shifts and bitwise operators act on
/// the width-masked operands; comparisons and the logical operators produce a
/// one-bit value.
pub open spec fn eval_bin_op_spec(a: ConstVal, b: ConstVal, op: BinOp) -> ConstVal {
    let w = a.width;
    match op {
        BinOp::Add => ConstVal::mk(wrap128(a.val + b.val), w),
        BinOp::Sub => ConstVal::mk(wrap128(a.val - b.val), w),
        BinOp::Mul => ConstVal::mk(wrap128(a.val * b.val), w),
        BinOp::Div => ConstVal::mk(a.val / b.val, w),
        BinOp::Rem => ConstVal::mk(a.val % b.val, w),
        BinOp::BitAnd => ConstVal::mk(a.val & b.val, w),
        BinOp::BitOr => ConstVal::mk(a.val | b.val, w),
        BinOp::BitXor => ConstVal::mk(a.val ^ b.val, w),
        BinOp::And => cv_from_bool_spec(a.val != 0 && b.val != 0),
        BinOp::Or => cv_from_bool_spec(a.val != 0 || b.val != 0),
        BinOp::Sll => if b.val < 128 {
            ConstVal::mk(a.val << b.val, w)
        } else {
            ConstVal::mk(0, w)
        },
        BinOp::Slr => if b.val < 128 {
            ConstVal::mk(a.val >> b.val, w)
        } else {
            ConstVal::mk(0, w)
        },
        BinOp::Sra => if b.val < 128 {
            ConstVal::mk(sra_at_width(a.val, w, b.val), w)
        } else {
            ConstVal::mk(0, w)
        },
        BinOp::Eq => cv_from_bool_spec(a.val == b.val),
        BinOp::Ne => cv_from_bool_spec(a.val != b.val),
        BinOp::Ge => cv_from_bool_spec(a.val >= b.val),
        BinOp::Gt => cv_from_bool_spec(a.val > b.val),
        BinOp::Le => cv_from_bool_spec(a.val <= b.val),
        BinOp::Lt => cv_from_bool_spec(a.val < b.val),
    }
}

/// The operands stay inside the 128-bit container for this operator: no
/// overflow, no division by zero, no shift beyond the container.
pub open spec fn bin_op_in_range(a: ConstVal, b: ConstVal, op: BinOp) -> bool {
    &&& (op == BinOp::Add ==> a.val + b.val <= u128::MAX)
    &&& (op == BinOp::Sub ==> a.val >= b.val)
    &&& (op == BinOp::Mul ==> a.val * b.val <= u128::MAX)
    &&& ((op == BinOp::Div || op == BinOp::Rem) ==> b.val != 0)
    &&& ((op == BinOp::Sll || op == BinOp::Slr || op == BinOp::Sra) ==> b.val < 128)
}

/// When a binary operation is well-defined: equal operand widths, and no
/// overflow of the 128-bit container (a fatal construction error otherwise).
pub open spec fn eval_bin_op_pre(a: ConstVal, b: ConstVal, op: BinOp) -> bool {
    &&& a.wf()
    &&& b.wf()
    &&& a.width == b.width
    &&& bin_op_in_range(a, b, op)
}

impl ConstVal {
    /// Appends `new_val` below the current bits: the width grows by the
    /// appended width and the old bits move up to make room (concatenation).
    pub fn shift(&mut self, new_val: Self)
        requires
            old(self).wf(),
            new_val.wf(),
            old(self).width_spec() + new_val.width_spec() <= 128,
        ensures
            final(self).wf(),
            final(self).width_spec() == old(self).width_spec() + new_val.width_spec(),
            final(self).val_spec() == old(self).val_spec() * width_bound(new_val.width_spec())
                + new_val.val_spec(),
    {
        let w1 = self.width;
        let w2 = new_val.width;
        let v1 = self.val;
        let v2 = new_val.val;
        proof {
            lemma_concat_bits(v1, w1, v2, w2);
        }
        self.width = w1 + w2;
        if w2 == 128 {
            self.val = v2;
        } else if w2 > 0 {
            self.val = (v1 << w2) | v2;
        } else {
            proof {
                vstd::arithmetic::power2::lemma2_to64();
                assert(v1 * width_bound(w2) == v1 * 1) by (nonlinear_arith)
                    requires
                        width_bound(w2) == 1,
                ;
            }
        }
    }

    /// Extracts the contiguous bit range `[start, start + width)`, clipped to
    /// the available bits; a full-range slice is the value itself.
    pub fn slice(&self, start: u128, width: u128) -> (r: Self)
        requires
            self.wf(),
            start <= self.width_spec(),
        ensures
            r.wf(),
            start == 0 && width == self.width_spec() ==> r == *self,
            !(start == 0 && width == self.width_spec()) ==> r == Self::mk(
                self.val_spec() >> start,
                min128((self.width_spec() - start) as u128, width),
            ),
    {
        if start == 0 && width == self.width {
            return *self;
        }
        let w = min_u128(self.width - start, width);
        if w == 0 {
            proof {
                Self::lemma_mk_wf(self.val >> start, 0);
                assert((self.val >> start) & cv_mask(0) == 0) by (bit_vector);
                assert(0u128 & cv_mask(0) == 0) by (bit_vector);
            }
            ConstVal::zero(w)
        } else {
            ConstVal::new(self.val >> start, w)
        }
    }

    /// Arithmetic shift right at the operand width: the declared width's
    /// topmost bit is replicated into the vacated bits.
    pub fn sra(self, rhs: ConstVal) -> (r: ConstVal)
        requires
            eval_bin_op_pre(self, rhs, BinOp::Sra),
        ensures
            r == eval_bin_op_spec(self, rhs, BinOp::Sra),
            r.wf(),
    {
        let w = self.width;
        let filled: u128 = if w == 0 {
            0
        } else if (self.val >> (w - 1)) & 1 == 0 {
            self.val >> rhs.val
        } else {
            let m = mask(w);
            (self.val >> rhs.val) | (m & !(m >> rhs.val))
        };
        ConstVal::new(filled, w)
    }

    /// Evaluates one dyadic operator on two width-masked constants.
    pub fn eval_bin_op(self, other: Self, op: BinOp) -> (r: ConstVal)
        requires
            eval_bin_op_pre(self, other, op),
        ensures
            r == eval_bin_op_spec(self, other, op),
            r.wf(),
    {
        let w = self.width;
        match op {
            BinOp::Add => ConstVal::new(self.val + other.val, w),
            BinOp::Sub => ConstVal::new(self.val - other.val, w),
            BinOp::Mul => ConstVal::new(self.val * other.val, w),
            BinOp::Div => ConstVal::new(self.val / other.val, w),
            BinOp::Rem => ConstVal::new(self.val % other.val, w),
            BinOp::BitAnd => ConstVal::new(self.val & other.val, w),
            BinOp::BitOr => ConstVal::new(self.val | other.val, w),
            BinOp::BitXor => ConstVal::new(self.val ^ other.val, w),
            BinOp::And => cv_from_bool(self.val != 0 && other.val != 0),
            BinOp::Or => cv_from_bool(self.val != 0 || other.val != 0),
            BinOp::Sll => ConstVal::new(self.val << other.val, w),
            BinOp::Slr => ConstVal::new(self.val >> other.val, w),
            BinOp::Sra => self.sra(other),
            BinOp::Eq => cv_from_bool(self.val == other.val),
            BinOp::Ne => cv_from_bool(self.val != other.val),
            BinOp::Ge => cv_from_bool(self.val >= other.val),
            BinOp::Gt => cv_from_bool(self.val > other.val),
            BinOp::Le => cv_from_bool(self.val <= other.val),
            BinOp::Lt => cv_from_bool(self.val < other.val),
        }
    }
}

/// Shifting left is multiplication by the corresponding power of two, when
/// the product fits the container.
pub proof fn lemma_u128_shl_is_mul(x: u128, sh: u128)
    requires
        sh < 128,
        x * pow2(sh as nat) <= u128::MAX,
    ensures
        (x << sh) == x * pow2(sh as nat),
    decreases sh,
{
    lemma_pow2_pos(sh as nat);
    if sh == 0 {
        vstd::arithmetic::power2::lemma2_to64();
        assert(x << 0u128 == x) by (bit_vector);
    } else {
        let prev = (sh - 1) as u128;
        lemma_pow2_unfold(sh as nat);
        lemma_pow2_pos(prev as nat);
        let p = pow2(prev as nat) as int;
        assert(x * pow2(sh as nat) == 2 * (x * p)) by {
            vstd::arithmetic::mul::lemma_mul_is_associative(x as int, 2, p);
            vstd::arithmetic::mul::lemma_mul_is_commutative(x as int, 2);
            vstd::arithmetic::mul::lemma_mul_is_associative(2, x as int, p);
        }
        lemma_u128_shl_is_mul(x, prev);
        let half = x << prev;
        assert(x << sh == 2 * half) by (bit_vector)
            requires
                half == x << ((sh - 1) as u128) && 0 < sh < 128 && half <= u128::MAX / 2,
        ;
    }
}

/// Concatenating a `w1`-bit and a `w2`-bit value stays within `w1 + w2` bits,
/// and equals the high part scaled by `2^w2` plus the low part.
proof fn lemma_concat_bits(x: u128, w1: u128, y: u128, w2: u128)
    requires
        w1 + w2 <= 128,
        x == x & cv_mask(w1),
        y == y & cv_mask(w2),
    ensures
        w2 < 128 && w2 > 0 ==> ((x << w2) | y) & cv_mask((w1 + w2) as u128) == (x << w2) | y
            && ((x << w2) | y) == x * width_bound(w2) + y,
        w2 == 0 ==> y == 0,
        w2 == 128 ==> x == 0,
        x * width_bound(w2) + y < width_bound((w1 + w2) as u128),
        x * width_bound(w2) + y <= u128::MAX,
{
    lemma_masked_bounded(x, w1);
    lemma_masked_bounded(y, w2);
    lemma_pow2_fits_u128(w2 as nat);
    lemma_pow2_fits_u128((w1 + w2) as nat);
    let p2 = width_bound(w2);
    assert(x * p2 + y < width_bound((w1 + w2) as u128)) by {
        vstd::arithmetic::power2::lemma_pow2_adds(w1 as nat, w2 as nat);
        vstd::arithmetic::mul::lemma_mul_inequality(
            x as int,
            width_bound(w1) as int - 1,
            p2 as int,
        );
        vstd::arithmetic::mul::lemma_mul_is_distributive_sub_other_way(
            p2 as int,
            width_bound(w1) as int,
            1,
        );
    }
    if w2 == 0 {
        assert(y & cv_mask(0) == 0) by (bit_vector);
    } else if w2 == 128 {
        assert(x & cv_mask(0) == 0) by (bit_vector);
    } else {
        lemma_u128_shl_is_mul(x, w2);
        let shifted = x << w2;
        assert((shifted | y) == shifted + y && (shifted | y) & cv_mask((w1 + w2) as u128) == (
        shifted | y)) by (bit_vector)
            requires
                w1 + w2 <= 128 && 0 < w2 < 128 && shifted == x << w2 && x == x & cv_mask(w1)
                    && y == y & cv_mask(w2),
        ;
    }
}

/// A one-bit constant from a boolean.
pub fn cv_from_bool(b: bool) -> (r: ConstVal)
    ensures
        r == cv_from_bool_spec(b),
        r.wf(),
{
    proof {
        assert(1u128 & cv_mask(1) == 1 && 0u128 & cv_mask(1) == 0) by (bit_vector);
    }
    if b {
        ConstVal { val: 1, width: 1 }
    } else {
        ConstVal { val: 0, width: 1 }
    }
}

/// Width-masked addition reduces the integer sum modulo `2^W`: for constants
/// of width `W` whose sum fits the 128-bit container,
/// `(a + b).val == (a.val + b.val) % 2^W`.
pub proof fn lemma_add_is_mod_pow2(a: ConstVal, b: ConstVal)
    requires
        eval_bin_op_pre(a, b, BinOp::Add),
    ensures
        eval_bin_op_spec(a, b, BinOp::Add).val_spec() as int == (a.val_spec() + b.val_spec()) % (
        width_bound(a.width_spec()) as int),
{
    let w = a.width;
    let sum = (a.val + b.val) as u128;
    assert(wrap128(a.val + b.val) == sum);
    lemma_mask_is_mod(sum, w);
    if w == 128 {
        lemma_pow2_fits_u128(128);
        vstd::arithmetic::power2::lemma2_to64();
        vstd::arithmetic::power2::lemma_pow2_adds(64, 64);
        assert(pow2(128) == 0x100000000000000000000000000000000nat);
    } else {
        lemma_pow2_fits_u128(w as nat);
    }
}

/// Equality of well-formed constants of one width depends only on the
/// width-masked magnitude.
pub proof fn lemma_eq_is_masked_eq(a: ConstVal, b: ConstVal)
    requires
        a.wf(),
        b.wf(),
        a.width_spec() == b.width_spec(),
    ensures
        (a == b) <==> (a.val_spec() == b.val_spec()),
{
}

/// The smaller of two 128-bit numbers.
pub open spec fn min128(a: u128, b: u128) -> u128 {
    if a <= b {
        a
    } else {
        b
    }
}

/// The smaller of two 128-bit numbers.
pub fn min_u128(a: u128, b: u128) -> (r: u128)
    ensures
        r == min128(a, b),
{
    if a <= b {
        a
    } else {
        b
    }
}

/// All bits below `width` set; saturates at the full container.
pub fn mask(width: u128) -> (r: u128)
    ensures
        r == cv_mask(width),
{
    if width >= 128 {
        u128::MAX
    } else {
        proof {
            assert(1u128 << width >= 1) by (bit_vector)
                requires
                    width < 128,
            ;
        }
        (1u128 << width) - 1
    }
}

} // verus!
