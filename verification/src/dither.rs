//! Dithering utilities: a xorshift PRNG and uniform / triangular noise generators.
//!
//! Provides a tiny PRNG (Marsaglia xorshift32) plus uniform and triangular dither
//! generators for ADC/DAC quantisation noise shaping.
use vstd::prelude::*;

verus! {

/// One step of Marsaglia's 32-bit xorshift: `x ^= x << 13; x ^= x >> 17; x ^= x << 5`.
pub open spec fn xorshift32_step(x: u32) -> u32 {
    let a = x ^ (x << 13u32);
    let b = a ^ (a >> 17u32);
    b ^ (b << 5u32)
}

/// The xorshift step maps zero to zero and nothing else to zero, so a generator seeded with a
/// nonzero state never produces 0.
pub proof fn lemma_xorshift32_nonzero(x: u32)
    ensures
        (x != 0) == (xorshift32_step(x) != 0),
{
    lemma_xorshift32_nonzero_bv();
}

proof fn lemma_xorshift32_nonzero_bv()
    by (bit_vector)
    ensures
        forall|x: u32| #[trigger] xorshift32_step(x) == 0 <==> x == 0,
{
}

/// Marsaglia 32-bit xorshift PRNG. Period: 2^32 − 1 (never produces 0).
#[derive(Copy, Clone, Debug, PartialEq, Eq, Hash)]
pub struct XorShift32(u32);

impl View for XorShift32 {
    type V = u32;

    /// The generator's state word.
    closed spec fn view(&self) -> u32 {
        self.0
    }
}

impl XorShift32 {
    #[verifier::type_invariant]
    spec fn state_nonzero(self) -> bool {
        self.0 != 0
    }

    /// Create a new generator. Seeds of 0 are remapped to 1.
    pub fn new(seed: u32) -> (r: Self)
        ensures
            r@ == if seed == 0 { 1 } else { seed },
    {
        Self(if seed == 0 { 1 } else { seed })
    }

    /// Generate the next pseudo-random `u32` (never 0); it is also the new state.
    pub fn next_u32(&mut self) -> (r: u32)
        ensures
            r == xorshift32_step(old(self)@),
            final(self)@ == r,
            r != 0,
    {
        proof {
            use_type_invariant(&*self);
            lemma_xorshift32_nonzero_bv();
        }
        let ghost x0 = self.0;
        let mut x = self.0;
        x ^= x << 13;
        x ^= x >> 17;
        x ^= x << 5;
        assert(x == xorshift32_step(x0));
        self.0 = x;
        x
    }
}

impl Default for XorShift32 {
    fn default() -> (r: Self)
        ensures
            r@ == 1,
    {
        Self(1)
    }
}

/// Uniform byte-granularity noise in `[0, 255]`. Caches 4 bytes per PRNG call.
#[derive(Copy, Clone, Debug, PartialEq, Eq)]
pub struct Uniform {
    prng: XorShift32,
    cache: u32,
    idx: u8,
}

impl Uniform {
    /// The generator feeding the cache.
    pub closed spec fn prng(self) -> XorShift32 {
        self.prng
    }

    /// The cached PRNG word, shifted so the next byte to hand out sits in the low bits.
    pub closed spec fn cache(self) -> u32 {
        self.cache
    }

    /// How many bytes of the cached word are still to come after the current one.
    pub closed spec fn idx(self) -> u8 {
        self.idx
    }

    /// Create from a seed.
    pub fn new(seed: u32) -> (r: Self)
        ensures
            r.prng()@ == if seed == 0 { 1 } else { seed },
            r.cache() == 0,
            r.idx() == 0,
    {
        Self { prng: XorShift32::new(seed), cache: 0, idx: 0 }
    }

    /// Draw the next uniform byte: with no bytes left, draw a fresh PRNG word and hand out its
    /// low byte; otherwise shift the cached word down by one byte.
    pub fn sample(&mut self) -> (r: u8)
        ensures
            old(self).idx() == 0 ==> {
                &&& final(self).prng()@ == xorshift32_step(old(self).prng()@)
                &&& final(self).cache() == final(self).prng()@
                &&& final(self).idx() == 3
            },
            old(self).idx() != 0 ==> {
                &&& final(self).prng() == old(self).prng()
                &&& final(self).cache() == old(self).cache() >> 8u32
                &&& final(self).idx() == old(self).idx() - 1
            },
            r == final(self).cache() % 256,
    {
        if self.idx == 0 {
            self.cache = self.prng.next_u32();
            self.idx = 3;
        } else {
            self.idx -= 1;
            self.cache >>= 8;
        }
        proof {
            let c = self.cache;
            assert((c & 0xff) == c % 256) by (bit_vector);
        }
        (self.cache & 0xff) as u8
    }
}

impl Default for Uniform {
    fn default() -> (r: Self)
        ensures
            r.prng()@ == 1,
            r.cache() == 0,
            r.idx() == 0,
    {
        Self { prng: XorShift32::default(), cache: 0, idx: 0 }
    }
}

/// Triangular-distributed noise in `[-(1<<8), (1<<8) - 1]`, the difference of two uniform
/// bytes read as signed values.
#[derive(Copy, Clone, Debug, PartialEq, Eq)]
pub struct Triangular {
    uniform: Uniform,
}

/// A byte read as a two's-complement `i8`.
pub open spec fn byte_as_i8(b: u8) -> int {
    if b < 128 { b as int } else { b - 256 }
}

impl Triangular {
    /// The uniform byte source.
    pub closed spec fn uniform(self) -> Uniform {
        self.uniform
    }

    /// Create from a seed.
    pub fn new(seed: u32) -> (r: Self)
        ensures
            r.uniform().prng()@ == if seed == 0 { 1 } else { seed },
            r.uniform().cache() == 0,
            r.uniform().idx() == 0,
    {
        Self { uniform: Uniform::new(seed) }
    }

    /// Draw the next triangular sample: the first of two uniform bytes minus the second, both
    /// read as `i8`.
    pub fn sample(&mut self) -> (r: i16)
        ensures
            exists|mid: Uniform, a: u8, b: u8|
                #![trigger uniform_step(old(self).uniform(), mid, a), uniform_step(mid, final(self).uniform(), b)]
                {
                    &&& uniform_step(old(self).uniform(), mid, a)
                    &&& uniform_step(mid, final(self).uniform(), b)
                    &&& r == byte_as_i8(a) - byte_as_i8(b)
                },
            -256 <= r <= 255,
    {
        let ghost u0 = self.uniform;
        let a = self.uniform.sample();
        let ghost u1 = self.uniform;
        let b = self.uniform.sample();
        proof {
            assert(uniform_step(u0, u1, a));
            assert(uniform_step(u1, self.uniform, b));
            assert((a as i8) as int == byte_as_i8(a)) by (bit_vector);
            assert((b as i8) as int == byte_as_i8(b)) by (bit_vector);
        }
        let r = a as i8 as i16 - b as i8 as i16;
        assert(uniform_step(old(self).uniform(), u1, a) && uniform_step(u1, self.uniform(), b) && r
            == byte_as_i8(a) - byte_as_i8(b));
        r
    }
}

/// `next` is the state of a `Uniform` after `sample` handed out `out` from `prev`.
pub open spec fn uniform_step(prev: Uniform, next: Uniform, out: u8) -> bool {
    &&& prev.idx() == 0 ==> {
        &&& next.prng()@ == xorshift32_step(prev.prng()@)
        &&& next.cache() == next.prng()@
        &&& next.idx() == 3
    }
    &&& prev.idx() != 0 ==> {
        &&& next.prng() == prev.prng()
        &&& next.cache() == prev.cache() >> 8u32
        &&& next.idx() == prev.idx() - 1
    }
    &&& out == next.cache() % 256
}

impl Default for Triangular {
    fn default() -> (r: Self)
        ensures
            r.uniform().prng()@ == 1,
            r.uniform().cache() == 0,
            r.uniform().idx() == 0,
    {
        Self { uniform: Uniform::default() }
    }
}

/// Four draws starting from an empty cache consume exactly one PRNG word and hand out its
/// bytes, lowest first; the cache is empty again afterwards.
pub proof fn lemma_uniform_four_bytes_per_word(
    u0: Uniform,
    u1: Uniform,
    u2: Uniform,
    u3: Uniform,
    u4: Uniform,
    o1: u8,
    o2: u8,
    o3: u8,
    o4: u8,
)
    requires
        u0.idx() == 0,
        uniform_step(u0, u1, o1),
        uniform_step(u1, u2, o2),
        uniform_step(u2, u3, o3),
        uniform_step(u3, u4, o4),
    ensures
        u4.prng()@ == xorshift32_step(u0.prng()@),
        u4.idx() == 0,
        o1 == u4.prng()@ % 256,
        o2 == (u4.prng()@ >> 8u32) % 256,
        o3 == (u4.prng()@ >> 16u32) % 256,
        o4 == (u4.prng()@ >> 24u32) % 256,
{
    let w = u1.cache();
    assert((w >> 8u32) >> 8u32 == w >> 16u32 && ((w >> 8u32) >> 8u32) >> 8u32 == w >> 24u32)
        by (bit_vector);
}

} // verus!
