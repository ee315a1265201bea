//! Shared sample types, status codes and the sample-arithmetic trait.
use vstd::prelude::*;

verus! {

/// The array whose elements are `s`.
pub open spec fn array_of<T, const N: usize>(s: Seq<T>) -> [T; N] {
    choose|a: [T; N]| a@ == s
}

/// An array is the array of its own elements.
pub proof fn lemma_array_of<T, const N: usize>(a: [T; N])
    ensures
        array_of::<T, N>(a@) == a,
{
    let b = array_of::<T, N>(a@);
    assert(b@ == a@);
    assert(b =~= a);
}

/// A sample type with a known fill value, the one its `Default` gives (zero for the integer
/// and fixed-point types), used to fill an output before a stage writes it.
pub trait SampleFill: Copy {
    /// The fill value.
    spec fn spec_fill() -> Self;

    /// The fill value.
    fn fill() -> (r: Self)
        ensures
            r == Self::spec_fill(),
    ;
}

/// An array of `n` fill values.
pub open spec fn filled<T: SampleFill, const N: usize>() -> [T; N] {
    array_of(Seq::new(N as nat, |k: int| T::spec_fill()))
}

impl SampleFill for i8 {
    open spec fn spec_fill() -> Self {
        0
    }

    fn fill() -> (r: Self) {
        0
    }
}

impl SampleFill for i16 {
    open spec fn spec_fill() -> Self {
        0
    }

    fn fill() -> (r: Self) {
        0
    }
}

impl SampleFill for i32 {
    open spec fn spec_fill() -> Self {
        0
    }

    fn fill() -> (r: Self) {
        0
    }
}

impl SampleFill for i64 {
    open spec fn spec_fill() -> Self {
        0
    }

    fn fill() -> (r: Self) {
        0
    }
}

impl SampleFill for u8 {
    open spec fn spec_fill() -> Self {
        0
    }

    fn fill() -> (r: Self) {
        0
    }
}

impl SampleFill for u16 {
    open spec fn spec_fill() -> Self {
        0
    }

    fn fill() -> (r: Self) {
        0
    }
}

impl SampleFill for u32 {
    open spec fn spec_fill() -> Self {
        0
    }

    fn fill() -> (r: Self) {
        0
    }
}

/// Outcome of a routine that validates its arguments before running.
#[derive(Debug, Clone, Copy, PartialEq, Eq, Structural)]
pub enum Status {
    /// The routine ran to completion.
    Success,
    /// An argument was outside the accepted range.
    ArgumentError,
    /// Buffer lengths did not agree with each other or with the configuration.
    LengthError,
    /// A NaN or infinite value was seen.
    NanInf,
    /// A matrix that had to be inverted was singular.
    Singular,
}

/// `v` clamped to `[lo, hi]`.
pub open spec fn clamp_int(v: int, lo: int, hi: int) -> int {
    if v < lo {
        lo
    } else if v > hi {
        hi
    } else {
        v
    }
}

/// Signed Q1.15 fixed-point number: the `i16` bit pattern `b` stands for `b / 2^15`.
#[allow(non_camel_case_types)]
#[derive(Debug, Clone, Copy, Default, PartialEq, Eq, Structural)]
pub struct q15(pub i16);

/// Signed Q1.31 fixed-point number: the `i32` bit pattern `b` stands for `b / 2^31`.
#[allow(non_camel_case_types)]
#[derive(Debug, Clone, Copy, Default, PartialEq, Eq, Structural)]
pub struct q31(pub i32);

/// Signed Q1.63 fixed-point number: the `i64` bit pattern `b` stands for `b / 2^63`.
#[allow(non_camel_case_types)]
#[derive(Debug, Clone, Copy, Default, PartialEq, Eq, Structural)]
pub struct q63(pub i64);

/// Signed Q1.7 fixed-point number: the `i8` bit pattern `b` stands for `b / 2^7`.
#[allow(non_camel_case_types)]
#[derive(Debug, Clone, Copy, Default, PartialEq, Eq, Structural)]
pub struct q7(pub i8);

impl q7 {
    /// The raw bit pattern.
    pub open spec fn bits(self) -> i8 {
        self.0
    }

    /// The number with raw bit pattern `bits`.
    pub fn from_bits(bits: i8) -> (r: Self)
        ensures
            r.bits() == bits,
    {
        q7(bits)
    }

    /// The raw bit pattern.
    pub fn to_bits(self) -> (r: i8)
        ensures
            r == self.bits(),
    {
        self.0
    }
}

impl q15 {
    /// The raw bit pattern.
    pub open spec fn bits(self) -> i16 {
        self.0
    }

    /// The number with raw bit pattern `bits`.
    pub fn from_bits(bits: i16) -> (r: Self)
        ensures
            r.bits() == bits,
    {
        q15(bits)
    }

    /// The raw bit pattern.
    pub fn to_bits(self) -> (r: i16)
        ensures
            r == self.bits(),
    {
        self.0
    }
}

impl q31 {
    /// The raw bit pattern.
    pub open spec fn bits(self) -> i32 {
        self.0
    }

    /// The number with raw bit pattern `bits`.
    pub fn from_bits(bits: i32) -> (r: Self)
        ensures
            r.bits() == bits,
    {
        q31(bits)
    }

    /// The raw bit pattern.
    pub fn to_bits(self) -> (r: i32)
        ensures
            r == self.bits(),
    {
        self.0
    }
}

/// A complex number with real and imaginary parts of type `T`.
#[derive(Debug, Clone, Copy, PartialEq, Eq)]
pub struct Complex<T> {
    /// Real part.
    pub real: T,
    /// Imaginary part.
    pub imag: T,
}

impl<T> Complex<T> {
    /// Build from real and imaginary parts.
    pub fn new(re: T, im: T) -> (r: Self)
        ensures
            r.real == re,
            r.imag == im,
    {
        Complex { real: re, imag: im }
    }
}

/// Saturating arithmetic shared by the sample formats the processing stages run on.
pub trait DspSample: Copy {
    /// Saturating sum.
    spec fn spec_sat_add(self, other: Self) -> Self;

    /// Saturating difference.
    spec fn spec_sat_sub(self, other: Self) -> Self;

    /// Saturating product.
    spec fn spec_sat_mul(self, other: Self) -> Self;

    /// Saturating negation.
    spec fn spec_sat_neg(self) -> Self;

    /// The zero sample.
    spec fn spec_zero() -> Self;

    /// The zero sample.
    fn zero() -> (r: Self)
        ensures
            r == Self::spec_zero(),
    ;

    /// Saturating sum.
    fn sat_add(self, other: Self) -> (r: Self)
        ensures
            r == self.spec_sat_add(other),
    ;

    /// Saturating difference.
    fn sat_sub(self, other: Self) -> (r: Self)
        ensures
            r == self.spec_sat_sub(other),
    ;

    /// Saturating product.
    fn sat_mul(self, other: Self) -> (r: Self)
        ensures
            r == self.spec_sat_mul(other),
    ;

    /// Saturating negation.
    fn sat_neg(self) -> (r: Self)
        ensures
            r == self.spec_sat_neg(),
    ;

    /// The unit sample (the largest representable value where one itself is out of range).
    spec fn spec_one() -> Self;

    /// Saturating magnitude.
    spec fn spec_abs(self) -> Self;

    /// `self <= other` in the order of the represented values.
    spec fn spec_at_most(self, other: Self) -> bool;

    /// Saturating quotient; meaningful for a divisor whose magnitude is positive.
    spec fn spec_sat_div(self, other: Self) -> Self;

    /// The unit sample.
    fn one() -> (r: Self)
        ensures
            r == Self::spec_one(),
    ;

    /// Saturating magnitude.
    fn abs_val(self) -> (r: Self)
        ensures
            r == self.spec_abs(),
    ;

    /// `self <= other`.
    fn at_most(self, other: Self) -> (r: bool)
        ensures
            r == self.spec_at_most(other),
    ;

    /// Saturating quotient.
    fn sat_div(self, other: Self) -> (r: Self)
        requires
            !other.spec_abs().spec_at_most(Self::spec_zero()),
        ensures
            r == self.spec_sat_div(other),
    ;
}

/// Magnitude of an integer.
pub open spec fn abs_int(v: int) -> int {
    if v < 0 {
        -v
    } else {
        v
    }
}

/// Fixed-point quotient `a * scale / b`, rounded toward zero.
pub open spec fn fixed_quotient(a: int, b: int, scale: int) -> int {
    let m = (abs_int(a) * scale) / abs_int(b);
    if (a < 0) != (b < 0) {
        -m
    } else {
        m
    }
}

/// Fixed-point quotient `a * 2^shift / b` of two non-zero-divisor bit patterns, rounded toward
/// zero; the magnitudes are below `2^31`.
pub(crate) fn fixed_quotient_exec(a: i64, b: i64, shift: u32) -> (r: i64)
    requires
        -0x8000_0000 <= a <= 0x8000_0000,
        -0x8000_0000 <= b <= 0x8000_0000,
        b != 0,
        shift == 15 || shift == 31,
    ensures
        r == fixed_quotient(a as int, b as int, if shift == 15 { 0x8000int } else { 0x8000_0000int }),
{
    let ua: u64 = if a < 0 { (-a) as u64 } else { a as u64 };
    let ub: u64 = if b < 0 { (-b) as u64 } else { b as u64 };
    let scale: u64 = if shift == 15 { 0x8000 } else { 0x8000_0000 };
    assert(ua * scale <= 0x8000_0000u64 * 0x8000_0000u64) by (nonlinear_arith)
        requires ua <= 0x8000_0000u64, scale <= 0x8000_0000u64;
    let num: u64 = ua * scale;
    let m: u64 = num / ub;
    assert(m <= num) by (nonlinear_arith)
        requires ub >= 1, m == num / ub;
    assert(m <= 0x4000_0000_0000_0000u64);
    if (a < 0) != (b < 0) {
        -(m as i64)
    } else {
        m as i64
    }
}

/// `v` saturated to the `i16` range.
pub fn saturate_i16(v: i64) -> (r: i16)
    ensures
        r == clamp_int(v as int, i16::MIN as int, i16::MAX as int),
{
    if v < i16::MIN as i64 {
        i16::MIN
    } else if v > i16::MAX as i64 {
        i16::MAX
    } else {
        v as i16
    }
}

/// `v` saturated to the `i32` range.
pub fn saturate_i32(v: i64) -> (r: i32)
    ensures
        r == clamp_int(v as int, i32::MIN as int, i32::MAX as int),
{
    if v < i32::MIN as i64 {
        i32::MIN
    } else if v > i32::MAX as i64 {
        i32::MAX
    } else {
        v as i32
    }
}

/// `v` saturated to the `i64` range.
pub fn saturate_i64(v: i128) -> (r: i64)
    ensures
        r == clamp_int(v as int, i64::MIN as int, i64::MAX as int),
{
    if v < i64::MIN as i128 {
        i64::MIN
    } else if v > i64::MAX as i128 {
        i64::MAX
    } else {
        v as i64
    }
}

/// Bounds on a product from bounds on its factors' magnitudes.
pub proof fn lemma_mul_abs_bound(a: int, b: int, m: int)
    by (nonlinear_arith)
    requires
        -m <= a <= m,
        -m <= b <= m,
    ensures
        -(m * m) <= a * b <= m * m,
{
}

/// Arithmetic right shifts by the fixed-point widths used in this crate are floor divisions,
/// and a shift by 32 leaves an `i32`.
pub proof fn lemma_shr_is_floor_div()
    ensures
        forall|p: u64| #[trigger] (p >> 31u64) == p / 0x8000_0000,
        forall|p: i64| #[trigger] (p >> 7u64) == p / 0x80,
        forall|p: i64| #[trigger] (p >> 9u64) == p / 0x200,
        forall|p: i64| #[trigger] (p >> 15u64) == p / 0x8000,
        forall|p: i64| #[trigger] (p >> 17u64) == p / 0x2_0000,
        forall|p: i64| #[trigger] (p >> 33u64) == p / 0x2_0000_0000,
        forall|p: i64| #[trigger] (p >> 27u64) == p / 0x800_0000,
        forall|p: i64| #[trigger] (p >> 28u64) == p / 0x1000_0000,
        forall|p: i64| #[trigger] (p >> 30u64) == p / 0x4000_0000,
        forall|p: i64| #[trigger] (p >> 31u64) == p / 0x8000_0000,
        forall|p: i64|
            #[trigger] (p >> 32u64) == p / 0x1_0000_0000 && -0x8000_0000i64 <= (p >> 32u64)
                <= 0x7fff_ffffi64,
{
    lemma_sshr_is_floor_div();
    lemma_ushr_is_floor_div();
}

proof fn lemma_sshr_is_floor_div()
    by (bit_vector)
    ensures
        forall|p: i64| #[trigger] (p >> 7u64) == p / 0x80,
        forall|p: i64| #[trigger] (p >> 9u64) == p / 0x200,
        forall|p: i64| #[trigger] (p >> 15u64) == p / 0x8000,
        forall|p: i64| #[trigger] (p >> 17u64) == p / 0x2_0000,
        forall|p: i64| #[trigger] (p >> 33u64) == p / 0x2_0000_0000,
        forall|p: i64| #[trigger] (p >> 27u64) == p / 0x800_0000,
        forall|p: i64| #[trigger] (p >> 28u64) == p / 0x1000_0000,
        forall|p: i64| #[trigger] (p >> 30u64) == p / 0x4000_0000,
        forall|p: i64| #[trigger] (p >> 31u64) == p / 0x8000_0000,
        forall|p: i64|
            #[trigger] (p >> 32u64) == p / 0x1_0000_0000 && -0x8000_0000i64 <= (p >> 32u64)
                <= 0x7fff_ffffi64,
{
}

proof fn lemma_ushr_is_floor_div()
    by (bit_vector)
    ensures
        forall|p: u64| #[trigger] (p >> 31u64) == p / 0x8000_0000,
{
}

impl DspSample for q15 {
    open spec fn spec_sat_add(self, other: Self) -> Self {
        q15(clamp_int(self.0 + other.0, i16::MIN as int, i16::MAX as int) as i16)
    }

    open spec fn spec_sat_sub(self, other: Self) -> Self {
        q15(clamp_int(self.0 - other.0, i16::MIN as int, i16::MAX as int) as i16)
    }

    /// The Q1.15 product `(a * b) >> 15`, saturated.
    open spec fn spec_sat_mul(self, other: Self) -> Self {
        q15(clamp_int((self.0 * other.0) / 0x8000, i16::MIN as int, i16::MAX as int) as i16)
    }

    open spec fn spec_sat_neg(self) -> Self {
        q15(clamp_int(-self.0, i16::MIN as int, i16::MAX as int) as i16)
    }

    open spec fn spec_zero() -> Self {
        q15(0)
    }

    fn zero() -> (r: Self) {
        q15(0)
    }

    fn sat_add(self, other: Self) -> (r: Self) {
        q15(saturate_i16(self.0 as i64 + other.0 as i64))
    }

    fn sat_sub(self, other: Self) -> (r: Self) {
        q15(saturate_i16(self.0 as i64 - other.0 as i64))
    }

    fn sat_mul(self, other: Self) -> (r: Self) {
        proof {
            lemma_mul_abs_bound(self.0 as int, other.0 as int, 0x8000);
        }
        let p = self.0 as i64 * other.0 as i64;
        proof {
            lemma_shr_is_floor_div();
        }
        assert((p >> 15u64) == p / 0x8000);
        q15(saturate_i16(p >> 15))
    }

    fn sat_neg(self) -> (r: Self) {
        q15(saturate_i16(-(self.0 as i64)))
    }

    /// The largest Q1.15 value, `1 - 2^-15`.
    open spec fn spec_one() -> Self {
        q15(i16::MAX)
    }

    open spec fn spec_abs(self) -> Self {
        q15(clamp_int(abs_int(self.0 as int), i16::MIN as int, i16::MAX as int) as i16)
    }

    open spec fn spec_at_most(self, other: Self) -> bool {
        self.0 <= other.0
    }

    /// The Q1.15 quotient `(a << 15) / b` rounded toward zero, saturated.
    open spec fn spec_sat_div(self, other: Self) -> Self {
        q15(
            clamp_int(
                fixed_quotient(self.0 as int, other.0 as int, 0x8000),
                i16::MIN as int,
                i16::MAX as int,
            ) as i16,
        )
    }

    fn one() -> (r: Self) {
        q15(i16::MAX)
    }

    fn abs_val(self) -> (r: Self) {
        if self.0 < 0 {
            q15(saturate_i16(-(self.0 as i64)))
        } else {
            self
        }
    }

    fn at_most(self, other: Self) -> (r: bool) {
        self.0 <= other.0
    }

    fn sat_div(self, other: Self) -> (r: Self) {
        q15(saturate_i16(fixed_quotient_exec(self.0 as i64, other.0 as i64, 15)))
    }
}

impl DspSample for q31 {
    open spec fn spec_sat_add(self, other: Self) -> Self {
        q31(clamp_int(self.0 + other.0, i32::MIN as int, i32::MAX as int) as i32)
    }

    open spec fn spec_sat_sub(self, other: Self) -> Self {
        q31(clamp_int(self.0 - other.0, i32::MIN as int, i32::MAX as int) as i32)
    }

    /// The Q1.31 product `(a * b) >> 31`, saturated.
    open spec fn spec_sat_mul(self, other: Self) -> Self {
        q31(clamp_int((self.0 * other.0) / 0x8000_0000, i32::MIN as int, i32::MAX as int) as i32)
    }

    open spec fn spec_sat_neg(self) -> Self {
        q31(clamp_int(-self.0, i32::MIN as int, i32::MAX as int) as i32)
    }

    open spec fn spec_zero() -> Self {
        q31(0)
    }

    fn zero() -> (r: Self) {
        q31(0)
    }

    fn sat_add(self, other: Self) -> (r: Self) {
        q31(saturate_i32(self.0 as i64 + other.0 as i64))
    }

    fn sat_sub(self, other: Self) -> (r: Self) {
        q31(saturate_i32(self.0 as i64 - other.0 as i64))
    }

    fn sat_mul(self, other: Self) -> (r: Self) {
        proof {
            lemma_mul_abs_bound(self.0 as int, other.0 as int, 0x8000_0000);
        }
        let p = self.0 as i64 * other.0 as i64;
        proof {
            lemma_shr_is_floor_div();
        }
        assert((p >> 31u64) == p / 0x8000_0000);
        q31(saturate_i32(p >> 31))
    }

    fn sat_neg(self) -> (r: Self) {
        q31(saturate_i32(-(self.0 as i64)))
    }

    /// The largest Q1.31 value, `1 - 2^-31`.
    open spec fn spec_one() -> Self {
        q31(i32::MAX)
    }

    open spec fn spec_abs(self) -> Self {
        q31(clamp_int(abs_int(self.0 as int), i32::MIN as int, i32::MAX as int) as i32)
    }

    open spec fn spec_at_most(self, other: Self) -> bool {
        self.0 <= other.0
    }

    /// The Q1.31 quotient `(a << 31) / b` rounded toward zero, saturated.
    open spec fn spec_sat_div(self, other: Self) -> Self {
        q31(
            clamp_int(
                fixed_quotient(self.0 as int, other.0 as int, 0x8000_0000),
                i32::MIN as int,
                i32::MAX as int,
            ) as i32,
        )
    }

    fn one() -> (r: Self) {
        q31(i32::MAX)
    }

    fn abs_val(self) -> (r: Self) {
        if self.0 < 0 {
            q31(saturate_i32(-(self.0 as i64)))
        } else {
            self
        }
    }

    fn at_most(self, other: Self) -> (r: bool) {
        self.0 <= other.0
    }

    fn sat_div(self, other: Self) -> (r: Self) {
        q31(saturate_i32(fixed_quotient_exec(self.0 as i64, other.0 as i64, 31)))
    }
}


/// `v` saturated to the `i64` range.
pub open spec fn sat64(v: int) -> i64 {
    clamp_int(v, i64::MIN as int, i64::MAX as int) as i64
}

/// Saturating `i64` sum.
pub fn sat_add_i64(a: i64, b: i64) -> (r: i64)
    ensures
        r == sat64(a + b),
{
    if b > 0 && a > i64::MAX - b {
        i64::MAX
    } else if b < 0 && a < i64::MIN - b {
        i64::MIN
    } else {
        a + b
    }
}

/// Samples whose products are summed in a wide accumulator before one final narrowing: the
/// multiply-accumulate the recursive and adaptive stages run on.
pub trait MacSample: DspSample {
    /// Wide accumulator for products of samples.
    type Accum: Copy;

    /// The empty accumulator.
    spec fn spec_accum_zero() -> Self::Accum;

    /// `acc + x·w` at full width.
    spec fn spec_madd(acc: Self::Accum, x: Self, w: Self) -> Self::Accum;

    /// An accumulated sum of products narrowed back to a sample.
    spec fn spec_from_accum(acc: Self::Accum) -> Self;

    /// The empty accumulator.
    fn accum_zero() -> (r: Self::Accum)
        ensures
            r == Self::spec_accum_zero(),
    ;

    /// `acc + x·w` at full width.
    fn madd(acc: Self::Accum, x: Self, w: Self) -> (r: Self::Accum)
        ensures
            r == Self::spec_madd(acc, x, w),
    ;

    /// An accumulated sum of products narrowed back to a sample.
    fn from_accum(acc: Self::Accum) -> (r: Self)
        ensures
            r == Self::spec_from_accum(acc),
    ;

    /// The number of fraction bits.
    spec fn spec_frac() -> u32;

    /// Sum of two accumulators.
    spec fn spec_accum_add(a: Self::Accum, b: Self::Accum) -> Self::Accum;

    /// An accumulator narrowed by `shift` bits instead of the fraction width.
    spec fn spec_from_accum_shifted(acc: Self::Accum, shift: u32) -> Self;

    /// A sample widened into the accumulator, scaled up by `shift` bits.
    spec fn spec_accum_from_shifted(x: Self, shift: u32) -> Self::Accum;

    /// The number of fraction bits.
    fn frac() -> (r: u32)
        ensures
            r == Self::spec_frac(),
            r <= 63,
    ;

    /// Sum of two accumulators.
    fn accum_add(a: Self::Accum, b: Self::Accum) -> (r: Self::Accum)
        ensures
            r == Self::spec_accum_add(a, b),
    ;

    /// An accumulator narrowed by `shift` bits.
    fn from_accum_shifted(acc: Self::Accum, shift: u32) -> (r: Self)
        requires
            shift <= 63,
        ensures
            r == Self::spec_from_accum_shifted(acc, shift),
    ;

    /// A sample widened into the accumulator, scaled up by `shift` bits.
    fn accum_from_shifted(x: Self, shift: u32) -> (r: Self::Accum)
        requires
            shift <= Self::spec_frac(),
        ensures
            r == Self::spec_accum_from_shifted(x, shift),
    ;
}

/// Q1.15 products accumulate at full width in an `i64`; narrowing is an arithmetic shift by 15
/// with saturation.
impl MacSample for q15 {
    type Accum = i64;

    open spec fn spec_accum_zero() -> i64 {
        0
    }

    open spec fn spec_madd(acc: i64, x: q15, w: q15) -> i64 {
        sat64(acc + x.0 * w.0)
    }

    open spec fn spec_from_accum(acc: i64) -> q15 {
        q15(clamp_int(acc / 0x8000, i16::MIN as int, i16::MAX as int) as i16)
    }

    fn accum_zero() -> (r: i64) {
        0
    }

    fn madd(acc: i64, x: q15, w: q15) -> (r: i64) {
        proof {
            lemma_mul_abs_bound(x.0 as int, w.0 as int, 0x8000);
        }
        sat_add_i64(acc, x.0 as i64 * w.0 as i64)
    }

    fn from_accum(acc: i64) -> (r: q15) {
        proof {
            lemma_shr_is_floor_div();
        }
        q15(saturate_i16(acc >> 15u64))
    }

    open spec fn spec_frac() -> u32 {
        15
    }

    open spec fn spec_accum_add(a: i64, b: i64) -> i64 {
        sat64(a + b)
    }

    /// `acc >> shift`, saturated.
    open spec fn spec_from_accum_shifted(acc: i64, shift: u32) -> q15 {
        q15(clamp_int((acc >> shift) as int, i16::MIN as int, i16::MAX as int) as i16)
    }

    /// `x << shift`.
    open spec fn spec_accum_from_shifted(x: q15, shift: u32) -> i64 {
        (x.0 as i64) << shift
    }

    fn frac() -> (r: u32) {
        15
    }

    fn accum_add(a: i64, b: i64) -> (r: i64) {
        sat_add_i64(a, b)
    }

    fn from_accum_shifted(acc: i64, shift: u32) -> (r: q15) {
        q15(saturate_i16(acc >> shift))
    }

    fn accum_from_shifted(x: q15, shift: u32) -> (r: i64) {
        let v = x.0 as i64;
        assert(-0x8000_0000_0000 <= (v << shift) <= 0x8000_0000_0000) by (bit_vector)
            requires
                -0x8000 <= v < 0x8000,
                shift <= 15,
        ;
        v << shift
    }
}

impl SampleFill for q7 {
    open spec fn spec_fill() -> Self {
        q7(0)
    }

    fn fill() -> (r: Self) {
        q7(0)
    }
}

impl SampleFill for q15 {
    open spec fn spec_fill() -> Self {
        q15(0)
    }

    fn fill() -> (r: Self) {
        q15(0)
    }
}

impl SampleFill for q31 {
    open spec fn spec_fill() -> Self {
        q31(0)
    }

    fn fill() -> (r: Self) {
        q31(0)
    }
}

impl SampleFill for q63 {
    open spec fn spec_fill() -> Self {
        q63(0)
    }

    fn fill() -> (r: Self) {
        q63(0)
    }
}

} // verus!
