//! The RISC-V virtual-memory schemes.

use crate::flags::VmFlags;
use crate::meta::{sum_widths, MmuMeta};
use vstd::arithmetic::power2::pow2;
use vstd::bits::low_bits_mask;
use vstd::prelude::*;
use vstd::string::StringSliceAdditionalSpecFns;

verus! {

/// A RISC-V scheme with `N` nine-bit table levels over 4 KiB pages:
/// `Sv<3>` is Sv39, `Sv<4>` is Sv48, `Sv<5>` is Sv57.
pub struct Sv<const N: usize>;

/// RISC-V Sv39.
pub type Sv39 = Sv<3>;

/// RISC-V Sv48.
pub type Sv48 = Sv<4>;

/// RISC-V Sv57.
pub type Sv57 = Sv<5>;

/// The sum of a sequence of equal widths is width times length.
proof fn lemma_sum_uniform(s: Seq<u64>, w: u64)
    requires
        forall|i: int| 0 <= i < s.len() ==> s[i] == w,
    ensures
        sum_widths(s) == s.len() * w,
    decreases s.len(),
{
    if s.len() > 0 {
        lemma_sum_uniform(s.drop_last(), w);
        assert(s.len() * w == (s.len() - 1) * w + w) by {
            vstd::arithmetic::mul::lemma_mul_is_distributive_sub_other_way(
                w as int,
                s.len() as int,
                1,
            );
            vstd::arithmetic::mul::lemma_mul_basics(w as int);
        }
    } else {
        vstd::arithmetic::mul::lemma_mul_basics(w as int);
    }
}

impl<const N: usize> Sv<N> {
    /// The scheme descriptor: 56-bit physical addresses, 12 page-offset
    /// bits, `N` levels of nine index bits, the page number at bit 10 of
    /// an entry, leafness on the R/W/X bits and validity on the V bit.
    pub fn meta() -> (r: MmuMeta)
        requires
            1 <= N,
            N <= 5,
        ensures
            r.wf(),
            r.p_addr_bits == 56,
            r.page_bits == 12,
            r.ppn_pos == 10,
            r.leaf_mask == 0xe,
            r.valid_mask == 0x1,
            r.level_bits@.len() == N,
            forall|i: int| 0 <= i < N ==> r.level_bits@[i] == 9,
            r.spec_max_level() == N - 1,
            r.spec_v_bits() == 12 + 9 * N,
            r.spec_ppn_mask() == 0x3f_ffff_ffff_fc00u64,
    {
        let mut lb: Vec<u64> = Vec::new();
        let mut i: usize = 0;
        while i < N
            invariant
                i <= N,
                lb@.len() == i,
                forall|j: int| 0 <= j < i ==> lb@[j] == 9,
            decreases N - i,
        {
            lb.push(9);
            i = i + 1;
        }
        let m = MmuMeta {
            p_addr_bits: 56,
            page_bits: 12,
            level_bits: lb,
            ppn_pos: 10,
            leaf_mask: 0xe,
            valid_mask: 0x1,
        };
        proof {
            lemma_sum_uniform(m.level_bits@, 9);
            assert(m.level_bits@.take(N as int) =~= m.level_bits@);
            assert(m.spec_v_bits() == 12 + 9 * N);
            assert(9 * N <= 45) by (nonlinear_arith)
                requires
                    N <= 5,
            ;
            vstd::arithmetic::power2::lemma2_to64();
            vstd::arithmetic::power2::lemma2_to64_rest();
            assert(m.spec_ppn_mask() == 0x3f_ffff_ffff_fc00u64);
            assert(0xeu64 & 0x3f_ffff_ffff_fc00u64 == 0) by (bit_vector);
            assert(0x1u64 & 0x3f_ffff_ffff_fc00u64 == 0) by (bit_vector);
        }
        m
    }
}

/// The flag mask a letter stands for: V, R, W, X, U, G, A, D name the
/// low eight entry bits in that order; any other byte names nothing.
pub open spec fn spec_flag_mask(c: u8) -> u64 {
    if c == 86 || c == 118 {
        0x1
    } else if c == 82 || c == 114 {
        0x2
    } else if c == 87 || c == 119 {
        0x4
    } else if c == 88 || c == 120 {
        0x8
    } else if c == 85 || c == 117 {
        0x10
    } else if c == 71 || c == 103 {
        0x20
    } else if c == 65 || c == 97 {
        0x40
    } else if c == 68 || c == 100 {
        0x80
    } else {
        0x0
    }
}

/// The flags named by a string of letters: the union of the masks of its
/// bytes.
pub open spec fn spec_parse_flags(s: Seq<u8>) -> u64
    decreases s.len(),
{
    if s.len() == 0 {
        0
    } else {
        spec_parse_flags(s.drop_last()) | spec_flag_mask(s.last())
    }
}

/// The flag mask of one byte, at run time.
fn flag_mask(c: u8) -> (r: u64)
    ensures
        r == spec_flag_mask(c),
{
    if c == 86 || c == 118 {
        0x1
    } else if c == 82 || c == 114 {
        0x2
    } else if c == 87 || c == 119 {
        0x4
    } else if c == 88 || c == 120 {
        0x8
    } else if c == 85 || c == 117 {
        0x10
    } else if c == 71 || c == 103 {
        0x20
    } else if c == 65 || c == 97 {
        0x40
    } else if c == 68 || c == 100 {
        0x80
    } else {
        0x0
    }
}

/// Reads entry flags from a string of flag letters, upper or lower case;
/// bytes that name no flag are ignored.
///
/// The scheme must keep the low eight entry bits free of the page-number
/// field, as every RISC-V scheme does.
pub fn parse_flags(s: &str, m: &MmuMeta) -> (r: VmFlags)
    requires
        m.wf(),
        m.ppn_pos >= 8,
    ensures
        r@ == spec_parse_flags(s.spec_bytes()),
{
    let bytes = s.as_bytes();
    let mut acc: u64 = 0;
    let mut i: usize = 0;
    let n = bytes.len();
    while i < n
        invariant
            n == bytes@.len(),
            bytes@ == s.spec_bytes(),
            i <= n,
            acc == spec_parse_flags(bytes@.take(i as int)),
            acc < 256,
        decreases n - i,
    {
        let c = bytes[i];
        let mask = flag_mask(c);
        proof {
            assert(bytes@.take(i + 1).drop_last() =~= bytes@.take(i as int));
            let a = acc;
            let b = mask;
            assert(a | b < 256) by (bit_vector)
                requires
                    a < 256,
                    b < 256,
            ;
        }
        acc = acc | mask;
        i = i + 1;
    }
    proof {
        assert(bytes@.take(n as int) =~= bytes@);
        m.lemma_ppn_width_bound();
        let pos = m.ppn_pos;
        let k = (pos + m.spec_ppn_width()) as u64;
        let w = (m.spec_ppn_width()) as u64;
        let mval = m.spec_ppn_mask();
        let a = acc;
        vstd::bits::lemma_u64_pow2_no_overflow(k as nat);
        vstd::bits::lemma_u64_pow2_no_overflow(pos as nat);
        vstd::bits::lemma_u64_shl_is_mul(1u64, k);
        vstd::bits::lemma_u64_shl_is_mul(1u64, pos);
        vstd::arithmetic::power2::lemma_pow2_pos(k as nat);
        vstd::arithmetic::power2::lemma_pow2_pos(pos as nat);
        vstd::arithmetic::power2::lemma_pow2_strictly_increases(pos as nat, k as nat);
        assert(low_bits_mask(k as nat) == pow2(k as nat) - 1);
        assert(low_bits_mask(pos as nat) == pow2(pos as nat) - 1);
        assert(mval == (1u64 << k) - (1u64 << pos));
        assert(a & mval == 0) by (bit_vector)
            requires
                a < 256,
                pos >= 8,
                k <= 63,
                pos < k,
                mval == (1u64 << k) - (1u64 << pos),
        ;
    }
    VmFlags::from_raw(acc, m)
}

} // verus!
