//! Wave digital filters (allpass chain) with wrapping 32-bit arithmetic and Q32.32 adapter
//! coefficients.
use vstd::prelude::*;
use vstd::wrapping::i32_specs;
use crate::pipeline::{SplitProcess, SplitInplace};

verus! {

/// Two-port adapter architecture selector.
///
/// Each architecture is a nibble in the const generic of [`Wdf`] and encodes the optimal scaled
/// form for a given allpass coefficient range. Variants are listed in nibble order.
#[derive(Copy, Clone, Debug, PartialEq, Eq, PartialOrd, Ord)]
pub enum Tpa {
    /// Terminate (coefficient 0); nibble `0x0`.
    Z,
    /// `g = 0`; nibble `0x1`.
    X,
    /// `1 > g > 1/2`: `a = g - 1`; nibble `0xA`.
    A,
    /// `1/2 >= g > 0`: `a = -g`; nibble `0xB`.
    B,
    /// `-1/2 <= g < 0`: `a = g`; nibble `0xC`.
    C,
    /// `-1 < g < -1/2`: `a = -(1 + g)`; nibble `0xD`.
    D,
    /// Alternative to `B`; nibble `0xE`.
    B1,
    /// Alternative to `C`; nibble `0xF`.
    C1,
}

/// The architecture a nibble selects (unknown nibbles terminate).
pub open spec fn tpa_of(value: u8) -> Tpa {
    if value == 0xa {
        Tpa::A
    } else if value == 0xb {
        Tpa::B
    } else if value == 0xe {
        Tpa::B1
    } else if value == 0x1 {
        Tpa::X
    } else if value == 0xc {
        Tpa::C
    } else if value == 0xf {
        Tpa::C1
    } else if value == 0xd {
        Tpa::D
    } else {
        Tpa::Z
    }
}

impl vstd::std_specs::convert::FromSpecImpl<u8> for Tpa {
    open spec fn obeys_from_spec() -> bool {
        true
    }

    open spec fn from_spec(v: u8) -> Self {
        tpa_of(v)
    }
}

/// The architecture a nibble selects (unknown nibbles terminate).
fn tpa_from_nibble(value: u8) -> (r: Tpa)
    ensures
        r == tpa_of(value),
{
    if value == 0xa {
        Tpa::A
    } else if value == 0xb {
        Tpa::B
    } else if value == 0xe {
        Tpa::B1
    } else if value == 0x1 {
        Tpa::X
    } else if value == 0xc {
        Tpa::C
    } else if value == 0xf {
        Tpa::C1
    } else if value == 0xd {
        Tpa::D
    } else {
        Tpa::Z
    }
}

impl From<u8> for Tpa {
    fn from(value: u8) -> (r: Self) {
        tpa_from_nibble(value)
    }
}

/// Fixed-point multiply by a Q32.32 coefficient: `(c * a) >> 32`.
pub open spec fn tpa_mul(c: i32, a: i32) -> i32 {
    ((c * a) / 0x1_0000_0000) as i32
}

/// The two-port adapter: from the incident wave `x0` and the delay state `x1`, the output wave
/// to the next stage and the new delay state, with wrapping 32-bit arithmetic.
pub open spec fn tpa_adapt(t: Tpa, x0: i32, x1: i32, a: i32) -> (i32, i32) {
    match t {
        Tpa::A => {
            let c = i32_specs::wrapping_sub(x1, x0);
            let y = i32_specs::wrapping_add(tpa_mul(c, a), x1);
            (i32_specs::wrapping_add(y, c), y)
        },
        Tpa::B => {
            let c = i32_specs::wrapping_sub(x0, x1);
            let y = i32_specs::wrapping_add(tpa_mul(c, a), x1);
            (y, i32_specs::wrapping_add(y, c))
        },
        Tpa::B1 => {
            let c = i32_specs::wrapping_sub(x0, x1);
            let y = tpa_mul(c, a);
            (i32_specs::wrapping_add(y, x1), i32_specs::wrapping_add(y, x0))
        },
        Tpa::X => (x1, x0),
        Tpa::C => {
            let c = i32_specs::wrapping_sub(x1, x0);
            let y = i32_specs::wrapping_sub(tpa_mul(c, a), x1);
            (y, i32_specs::wrapping_add(y, c))
        },
        Tpa::C1 => {
            let c = i32_specs::wrapping_sub(x1, x0);
            let y = tpa_mul(c, a);
            (i32_specs::wrapping_sub(y, x1), i32_specs::wrapping_sub(y, x0))
        },
        Tpa::D => {
            let c = i32_specs::wrapping_sub(x0, x1);
            let y = i32_specs::wrapping_sub(tpa_mul(c, a), x1);
            (i32_specs::wrapping_add(y, c), y)
        },
        Tpa::Z => (x0, x1),
    }
}

/// Every two-port adaptor is lossless in the difference of its waves: the new delay state `z`
/// and the outgoing wave `o` differ by the same amount as the incoming wave `x0` and the old
/// delay state `x1` (wrapping). For the sections of negative coefficient (`C`, `C1`, `D`) and
/// the pass-through `Z`, `z - o == x1 - x0`; for those of positive coefficient (`A`, `B`, `B1`)
/// and the swap `X`, `z - o == x0 - x1`. Each section makes one multiplication, of the wave
/// difference by its coefficient, and adds it to the old state (`A`, `B`, `B1`, taking `z` or
/// `o` to `x1 + m`) or subtracts the old state from it (`C`, `C1`, `D`, giving `m - x1`); with
/// the difference relation this is the first-order allpass `(a + z^-1) / (1 + a z^-1)` up to
/// truncation.
pub proof fn lemma_tpa_difference(t: Tpa, x0: i32, x1: i32, a: i32)
    ensures
        ({
            let (o, z) = tpa_adapt(t, x0, x1, a);
            match t {
                Tpa::C | Tpa::C1 | Tpa::D | Tpa::Z => i32_specs::wrapping_sub(z, o)
                    == i32_specs::wrapping_sub(x1, x0),
                Tpa::A | Tpa::B | Tpa::B1 | Tpa::X => i32_specs::wrapping_sub(z, o)
                    == i32_specs::wrapping_sub(x0, x1),
            }
        }),
        ({
            let (o, z) = tpa_adapt(t, x0, x1, a);
            let m_neg = tpa_mul(i32_specs::wrapping_sub(x1, x0), a);
            let m_pos = tpa_mul(i32_specs::wrapping_sub(x0, x1), a);
            &&& t == Tpa::A ==> z == i32_specs::wrapping_add(m_neg, x1)
            &&& (t == Tpa::B || t == Tpa::B1) ==> o == i32_specs::wrapping_add(m_pos, x1)
            &&& (t == Tpa::C || t == Tpa::C1) ==> o == i32_specs::wrapping_sub(m_neg, x1)
            &&& t == Tpa::D ==> z == i32_specs::wrapping_sub(m_pos, x1)
            &&& t == Tpa::X ==> o == x1 && z == x0
            &&& t == Tpa::Z ==> o == x0 && z == x1
        }),
{
    let m_neg = tpa_mul(i32_specs::wrapping_sub(x1, x0), a);
    let m_pos = tpa_mul(i32_specs::wrapping_sub(x0, x1), a);
    match t {
        Tpa::A => {
            let c = i32_specs::wrapping_sub(x1, x0);
            let y = i32_specs::wrapping_add(m_neg, x1);
            lemma_wrapping_add_sub(y, c);
        },
        Tpa::B => {
            let c = i32_specs::wrapping_sub(x0, x1);
            let y = i32_specs::wrapping_add(m_pos, x1);
            lemma_wrapping_add_sub(y, c);
        },
        Tpa::B1 => {
            lemma_wrapping_shift(m_pos, x0, x1);
        },
        Tpa::X => {},
        Tpa::C => {
            let c = i32_specs::wrapping_sub(x1, x0);
            let y = i32_specs::wrapping_sub(m_neg, x1);
            lemma_wrapping_add_sub(y, c);
        },
        Tpa::C1 => {
            lemma_wrapping_sub_shift(m_neg, x0, x1);
        },
        Tpa::D => {
            let c = i32_specs::wrapping_sub(x0, x1);
            let y = i32_specs::wrapping_sub(m_pos, x1);
            lemma_wrapping_add_sub(y, c);
        },
        Tpa::Z => {},
    }
}

/// `(y + c) - y == c` and `y - (y + c) == -c`, wrapping.
proof fn lemma_wrapping_add_sub(y: i32, c: i32)
    ensures
        i32_specs::wrapping_sub(i32_specs::wrapping_add(y, c), y) == c,
        i32_specs::wrapping_sub(y, i32_specs::wrapping_add(y, c)) == i32_specs::wrapping_sub(0, c),
        forall|u: i32, v: i32|
            c == i32_specs::wrapping_sub(u, v) ==> i32_specs::wrapping_sub(0, c)
                == #[trigger] i32_specs::wrapping_sub(v, u),
{
}

/// `(y + x0) - (y + x1) == x0 - x1`, wrapping.
proof fn lemma_wrapping_shift(y: i32, x0: i32, x1: i32)
    ensures
        i32_specs::wrapping_sub(i32_specs::wrapping_add(y, x0), i32_specs::wrapping_add(y, x1))
            == i32_specs::wrapping_sub(x0, x1),
{
}

/// `(y - x0) - (y - x1) == x1 - x0`, wrapping.
proof fn lemma_wrapping_sub_shift(y: i32, x0: i32, x1: i32)
    ensures
        i32_specs::wrapping_sub(i32_specs::wrapping_sub(y, x0), i32_specs::wrapping_sub(y, x1))
            == i32_specs::wrapping_sub(x1, x0),
{
}

impl Tpa {
    /// Fixed-point multiply: `(c * a) >> 32` (Q32.32 coefficient).
    fn mul(self, c: i32, a: i32) -> (r: i32)
        ensures
            r == tpa_mul(c, a),
    {
        proof {
            crate::types::lemma_mul_abs_bound(c as int, a as int, 0x8000_0000);
        }
        let p: i64 = c as i64 * a as i64;
        proof {
            crate::types::lemma_shr_is_floor_div();
        }
        assert((p >> 32u64) == p / 0x1_0000_0000);
        (p >> 32u64) as i32
    }

    /// Two-port adapter wave computation.
    ///
    /// Takes the incident wave from the previous stage and the delay state, and returns the
    /// output wave to the next stage and the new delay state.
    fn adapt(&self, x: [i32; 2], a: i32) -> (r: [i32; 2])
        ensures
            (r[0], r[1]) == tpa_adapt(*self, x[0], x[1], a),
    {
        match self {
            Tpa::A => {
                let c = x[1].wrapping_sub(x[0]);
                let y = self.mul(c, a).wrapping_add(x[1]);
                [y.wrapping_add(c), y]
            },
            Tpa::B => {
                let c = x[0].wrapping_sub(x[1]);
                let y = self.mul(c, a).wrapping_add(x[1]);
                [y, y.wrapping_add(c)]
            },
            Tpa::B1 => {
                let c = x[0].wrapping_sub(x[1]);
                let y = self.mul(c, a);
                [y.wrapping_add(x[1]), y.wrapping_add(x[0])]
            },
            Tpa::X => [x[1], x[0]],
            Tpa::C => {
                let c = x[1].wrapping_sub(x[0]);
                let y = self.mul(c, a).wrapping_sub(x[1]);
                [y, y.wrapping_add(c)]
            },
            Tpa::C1 => {
                let c = x[1].wrapping_sub(x[0]);
                let y = self.mul(c, a);
                [y.wrapping_sub(x[1]), y.wrapping_sub(x[0])]
            },
            Tpa::D => {
                let c = x[0].wrapping_sub(x[1]);
                let y = self.mul(c, a).wrapping_sub(x[1]);
                [y.wrapping_add(c), y]
            },
            Tpa::Z => x,
        }
    }
}

/// Wave digital filter: a cascade of `N` first-order allpass sections.
///
/// The `M` const generic encodes the two-port adapter architecture, one nibble per stage
/// (least significant nibble = first stage). All arithmetic is wrapping 32-bit integer with
/// Q32.32 coefficients.
#[derive(Debug, Clone)]
pub struct Wdf<const N: usize, const M: u32> {
    /// Q32.32 adapter coefficients, one per allpass section.
    pub a: [i32; N],
}

impl<const N: usize, const M: u32> Default for Wdf<N, M> {
    fn default() -> (r: Self)
        ensures
            r.a@ == Seq::new(N as nat, |i: int| 0i32),
    {
        let r = Self { a: [0i32; N] };
        assert(r.a@ =~= Seq::new(N as nat, |i: int| 0i32));
        r
    }
}

/// State for [`Wdf`]: one delay element per allpass section.
#[derive(Clone, Debug)]
pub struct WdfState<const N: usize> {
    /// Section delay states.
    pub z: [i32; N],
}

impl<const N: usize> Default for WdfState<N> {
    fn default() -> (r: Self)
        ensures
            r.z@ == Seq::new(N as nat, |i: int| 0i32),
    {
        let r = Self { z: [0i32; N] };
        assert(r.z@ =~= Seq::new(N as nat, |i: int| 0i32));
        r
    }
}

/// The architecture word after `i` sections have taken their nibble.
pub open spec fn arch_word(m: u32, i: nat) -> u32
    decreases i,
{
    if i == 0 {
        m
    } else {
        arch_word(m, (i - 1) as nat) >> 4u32
    }
}

/// The architecture of section `i`.
pub open spec fn section_tpa(m: u32, i: nat) -> Tpa {
    tpa_of((arch_word(m, i) & 0xf) as u8)
}

/// The wave entering section `i` (the filter input for `i == 0`; the output after `N`).
pub open spec fn wdf_wave(a: Seq<i32>, z: Seq<i32>, m: u32, x: i32, i: nat) -> i32
    decreases i,
{
    if i == 0 {
        x
    } else {
        tpa_adapt(
            section_tpa(m, (i - 1) as nat),
            wdf_wave(a, z, m, x, (i - 1) as nat),
            z[i - 1],
            a[i - 1],
        ).0
    }
}

/// The new delay state of section `i`.
pub open spec fn wdf_next_delay(a: Seq<i32>, z: Seq<i32>, m: u32, x: i32, i: nat) -> i32 {
    tpa_adapt(section_tpa(m, i), wdf_wave(a, z, m, x, i), z[i as int], a[i as int]).1
}

/// The delay states after input `x`.
pub open spec fn wdf_next_state(a: Seq<i32>, z: Seq<i32>, m: u32, x: i32, n: nat) -> Seq<i32> {
    Seq::new(n, |i: int| wdf_next_delay(a, z, m, x, i as nat))
}

/// The array whose elements are `s` (for `s` of length `N`).
pub open spec fn array_of_seq<const N: usize>(s: Seq<i32>) -> [i32; N] {
    choose|z: [i32; N]| #[trigger] z@ == s
}

/// An array is the array of its own elements.
pub proof fn lemma_array_of_seq<const N: usize>(z: [i32; N])
    ensures
        array_of_seq::<N>(z@) == z,
{
    let c = array_of_seq::<N>(z@);
    assert(c@ == z@);
    vstd::array::axiom_array_ext_equal(z, c);
}

impl<const N: usize, const M: u32> SplitProcess<i32, i32, WdfState<N>> for Wdf<N, M> {
    open spec fn spec_process(&self, state: WdfState<N>, x: i32) -> (WdfState<N>, i32) {
        (
            WdfState {
                z: array_of_seq(wdf_next_state(self.a@, state.z@, M, x, N as nat)),
            },
            wdf_wave(self.a@, state.z@, M, x, N as nat),
        )
    }

    fn process(&self, state: &mut WdfState<N>, x: i32) -> (y: i32) {
        let ghost z0 = state.z@;
        let mut z = state.z;
        let mut w = x;
        let mut m = M;
        let mut i: usize = 0;
        while i < N
            invariant
                0 <= i <= N,
                z0.len() == N,
                z@.len() == N,
                self.a@.len() == N,
                m == arch_word(M, i as nat),
                w == wdf_wave(self.a@, z0, M, x, i as nat),
                forall|j: int| 0 <= j < i ==> #[trigger] z@[j] == wdf_next_delay(
                    self.a@,
                    z0,
                    M,
                    x,
                    j as nat,
                ),
                forall|j: int| i <= j < N ==> #[trigger] z@[j] == z0[j],
            decreases N - i,
        {
            let t = tpa_from_nibble((m & 0xf) as u8);
            let r = t.adapt([w, z[i]], self.a[i]);
            z.set(i, r[1]);
            w = r[0];
            m = m >> 4u32;
            i = i + 1;
        }
        proof {
            assert(z@ =~= wdf_next_state(self.a@, z0, M, x, N as nat));
            lemma_array_of_seq(z);
        }
        state.z = z;
        w
    }
}

impl<const N: usize, const M: u32> SplitInplace<i32, WdfState<N>> for Wdf<N, M> {

}

} // verus!
