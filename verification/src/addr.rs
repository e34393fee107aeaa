//! Typed page numbers and virtual addresses.
//!
//! A page number is tagged by the address space it belongs to, so that
//! virtual and physical page numbers cannot be mixed up; the tag is erased at
//! run time.

use crate::meta::{mask_low, pow2_u64, MmuMeta};
use core::marker::PhantomData;
use vstd::arithmetic::power2::pow2;
use vstd::bits::low_bits_mask;
use vstd::prelude::*;

verus! {

/// Marker for an address space.
pub trait Space {

}

/// The physical address space.
#[derive(Clone, Copy, PartialEq, Eq, Debug)]
pub struct Physical;

/// The virtual address space.
#[derive(Clone, Copy, PartialEq, Eq, Debug)]
pub struct Virtual;

impl Space for Physical {

}

impl Space for Virtual {

}

/// A page number: an address with the page-offset bits removed, tagged by
/// its address space.
#[derive(Debug)]
pub struct PageNumber<S: Space> {
    raw: u64,
    space: PhantomData<S>,
}

impl<S: Space> Clone for PageNumber<S> {
    fn clone(&self) -> (r: Self)
        ensures
            r == *self,
    {
        PageNumber { raw: self.raw, space: PhantomData }
    }
}

impl<S: Space> Copy for PageNumber<S> {

}

/// A physical page number.
pub type PPN = PageNumber<Physical>;

/// A virtual page number.
pub type VPN = PageNumber<Virtual>;

impl<S: Space> View for PageNumber<S> {
    type V = u64;

    closed spec fn view(&self) -> u64 {
        self.raw
    }
}

/// The page number with raw value `n`, at the specification level.
pub closed spec fn spec_pn<S: Space>(n: u64) -> PageNumber<S> {
    PageNumber { raw: n, space: PhantomData }
}

/// `spec_pn` builds the page number it was given.
pub proof fn lemma_spec_pn_view<S: Space>(n: u64)
    ensures
        spec_pn::<S>(n)@ == n,
{
}

/// Two page numbers of one space with equal values are equal.
pub proof fn lemma_pn_eq<S: Space>(a: PageNumber<S>, b: PageNumber<S>)
    requires
        a@ == b@,
    ensures
        a == b,
{
}

impl<S: Space> PageNumber<S> {
    /// Wraps a raw page number.
    pub fn new(n: u64) -> (r: Self)
        ensures
            r@ == n,
    {
        PageNumber { raw: n, space: PhantomData }
    }

    /// Page number zero, the least page number.
    pub fn zero() -> (r: Self)
        ensures
            r@ == 0,
    {
        PageNumber { raw: 0, space: PhantomData }
    }

    /// The raw page number.
    pub fn val(self) -> (r: u64)
        ensures
            r == self@,
    {
        self.raw
    }

    /// Moves the page number forward by `n` pages, wrapping around at the
    /// end of the 64-bit range.
    pub fn wrapping_add(self, n: u64) -> (r: Self)
        ensures
            self@ + n <= u64::MAX ==> r@ == self@ + n,
            self@ + n > u64::MAX ==> r@ == self@ + n - 0x1_0000_0000_0000_0000,
    {
        PageNumber { raw: self.raw.wrapping_add(n), space: PhantomData }
    }
}

impl PPN {
    /// The greatest physical page number of the scheme.
    pub fn max_of(m: &MmuMeta) -> (r: Self)
        requires
            m.wf(),
        ensures
            r@ == pow2(m.spec_ppn_width() as nat) - 1,
    {
        proof {
            m.lemma_ppn_width_bound();
            vstd::arithmetic::power2::lemma_pow2_pos(m.spec_ppn_width() as nat);
        }
        PageNumber { raw: pow2_u64(m.p_addr_bits - m.page_bits) - 1, space: PhantomData }
    }

    /// One past the greatest physical page number; serves as a null marker.
    pub fn invalid_of(m: &MmuMeta) -> (r: Self)
        requires
            m.wf(),
        ensures
            r@ == pow2(m.spec_ppn_width() as nat),
    {
        proof {
            m.lemma_ppn_width_bound();
        }
        PageNumber { raw: pow2_u64(m.p_addr_bits - m.page_bits), space: PhantomData }
    }
}

/// The index of the virtual page `vpn` within a level-`level` table: the
/// `level`-th bit group of `vpn` under the scheme's level widths.
pub open spec fn spec_index_in(m: &MmuMeta, vpn: u64, level: int) -> nat {
    (vpn as nat / pow2(m.spec_bits_below(level))) % pow2(m.level_bits@[level] as nat)
}

/// The index extraction in bit form, for every page number and level of
/// the scheme: the index is the `level`-th bit group of the page number
/// under the scheme's level widths — the page number shifted down by the
/// widths of the levels below, masked to the level's own width.
pub proof fn lemma_index_in_bit_group(m: &MmuMeta, vpn: u64, level: int)
    requires
        m.wf(),
        0 <= level < m.levels(),
    ensures
        spec_index_in(m, vpn, level) == (vpn >> (m.spec_bits_below(level) as u64)) & (
        (low_bits_mask(m.level_bits@[level] as nat)) as u64),
{
    m.lemma_bits_below_step(level);
    m.lemma_bits_below_mono(level + 1, m.levels());
    m.lemma_wf_bounds();
    vstd::bits::lemma_u64_shr_is_div(vpn, m.spec_bits_below(level) as u64);
    vstd::bits::lemma_u64_pow2_no_overflow(m.level_bits@[level] as nat);
    vstd::bits::lemma_u64_low_bits_mask_is_mod(
        vpn >> (m.spec_bits_below(level) as u64),
        m.level_bits@[level] as nat,
    );
}

/// `vpn` rounded down to the span of one level-`level` entry.
pub open spec fn spec_floor(m: &MmuMeta, vpn: u64, level: int) -> u64 {
    (vpn - vpn as nat % pow2(m.spec_bits_below(level))) as u64
}

/// The greatest level (capped at the root) whose entry span `vpn` is aligned
/// to, considering only levels up to `level`.
pub open spec fn spec_align_level_upto(m: &MmuMeta, vpn: u64, level: int) -> int
    decreases level,
{
    if level <= 0 {
        0
    } else if vpn as nat % pow2(m.spec_bits_below(level)) == 0 {
        level
    } else {
        spec_align_level_upto(m, vpn, level - 1)
    }
}

/// The alignment level of `vpn`: the greatest level whose entry span `vpn`
/// is aligned to, capped at the root level.
pub open spec fn spec_align_level(m: &MmuMeta, vpn: u64) -> int {
    spec_align_level_upto(m, vpn, m.spec_max_level())
}

impl VPN {
    /// The greatest virtual page number of the scheme.
    pub fn max_of(m: &MmuMeta) -> (r: Self)
        requires
            m.wf(),
        ensures
            r@ == low_bits_mask((m.spec_v_bits() - m.page_bits) as nat),
    {
        let bits = vpn_bits(m);
        PageNumber { raw: mask_low(bits), space: PhantomData }
    }

    /// The first byte address of the virtual page.
    pub fn base(self, m: &MmuMeta) -> (r: VAddr)
        requires
            m.wf(),
            self@ < pow2((m.spec_v_bits() - m.page_bits) as nat),
        ensures
            r@ == self@ * pow2(m.page_bits as nat),
    {
        proof {
            m.lemma_wf_bounds();
            lemma_shift_within_word(self@, m.page_bits, (m.spec_v_bits() - m.page_bits) as u64);
            vstd::bits::lemma_u64_shl_is_mul(self.raw, m.page_bits);
        }
        VAddr { raw: self.raw << m.page_bits }
    }

    /// The index of this virtual page in the level-`level` table that covers
    /// it.
    pub fn index_in(self, m: &MmuMeta, level: usize) -> (r: usize)
        requires
            m.wf(),
            level < m.level_bits@.len(),
            pow2(m.level_bits@[level as int] as nat) <= usize::MAX,
        ensures
            r == spec_index_in(m, self@, level as int),
            r < pow2(m.level_bits@[level as int] as nat),
    {
        let b = m.bits_below(level);
        let w = m.level_bits[level];
        proof {
            m.lemma_bits_below_step(level as int);
            m.lemma_bits_below_mono(level as int + 1, m.levels());
            vstd::bits::lemma_u64_shr_is_div(self.raw, b);
        }
        let shifted = self.raw >> b;
        let masked = shifted & mask_low(w);
        proof {
            vstd::bits::lemma_u64_pow2_no_overflow(w as nat);
            vstd::bits::lemma_u64_low_bits_mask_is_mod(shifted, w as nat);
            vstd::arithmetic::power2::lemma_pow2_pos(w as nat);
        }
        masked as usize
    }

    /// Rounds this page number down to the span of one level-`level` entry.
    pub fn floor(self, m: &MmuMeta, level: usize) -> (r: Self)
        requires
            m.wf(),
            level <= m.level_bits@.len(),
        ensures
            r@ == spec_floor(m, self@, level as int),
    {
        let b = m.bits_below(level);
        proof {
            m.lemma_bits_below_mono(level as int, m.levels());
        }
        let mk = mask_low(b);
        proof {
            vstd::bits::lemma_u64_pow2_no_overflow(b as nat);
            vstd::bits::lemma_u64_low_bits_mask_is_mod(self.raw, b as nat);
            lemma_clear_low_bits(self.raw, mk);
        }
        PageNumber { raw: self.raw & !mk, space: PhantomData }
    }

    /// Rounds this page number up to the span of one level-`level` entry and
    /// returns the number of spans: the least count of level-`level` entries
    /// that cover pages `0..self`.
    pub fn ceil(self, m: &MmuMeta, level: usize) -> (r: u64)
        requires
            m.wf(),
            level <= m.level_bits@.len(),
            self@ + pow2(m.spec_bits_below(level as int)) - 1 <= u64::MAX,
        ensures
            r == (self@ + pow2(m.spec_bits_below(level as int)) - 1) as nat / pow2(
                m.spec_bits_below(level as int),
            ),
    {
        let b = m.bits_below(level);
        proof {
            m.lemma_bits_below_mono(level as int, m.levels());
            vstd::arithmetic::power2::lemma_pow2_pos(b as nat);
        }
        let bumped = self.raw + mask_low(b);
        proof {
            vstd::bits::lemma_u64_shr_is_div(bumped, b);
        }
        bumped >> b
    }

    /// The half-open range of byte addresses of one level-`level` entry span
    /// starting at this page, as raw (not sign-extended) addresses.
    pub fn vaddr_range(self, m: &MmuMeta, level: usize) -> (r: (u64, u64))
        requires
            m.wf(),
            level < m.level_bits@.len(),
            self@ + pow2(m.spec_bits_below(level as int)) <= pow2(
                (m.spec_v_bits() - m.page_bits) as nat,
            ),
        ensures
            r.0 == self@ * pow2(m.page_bits as nat),
            r.1 == r.0 + pow2((m.page_bits + m.spec_bits_below(level as int)) as nat),
    {
        proof {
            vstd::arithmetic::power2::lemma_pow2_pos(m.spec_bits_below(level as int));
            m.lemma_bits_below_mono(level as int, m.levels());
        }
        let start = self.base(m);
        let span_bits = m.page_bits + m.bits_below(level);
        proof {
            lemma_base_plus_span_fits(m, self@, level as int);
        }
        let span = pow2_u64(span_bits);
        (start.raw, start.raw + span)
    }

    /// The alignment level of this page number: the greatest level whose
    /// entry span it is aligned to, capped at the root level; page zero
    /// reports the root level.
    pub fn align_level(self, m: &MmuMeta) -> (r: usize)
        requires
            m.wf(),
        ensures
            r == spec_align_level(m, self@),
    {
        let mut level: usize = m.max_level();
        while level > 0
            invariant
                m.wf(),
                level <= m.spec_max_level(),
                spec_align_level(m, self@) == spec_align_level_upto(m, self@, level as int),
            decreases level,
        {
            let b = m.bits_below(level);
            proof {
                m.lemma_bits_below_mono(level as int, m.levels());
            }
            let low = self.raw & mask_low(b);
            proof {
                vstd::bits::lemma_u64_pow2_no_overflow(b as nat);
                vstd::bits::lemma_u64_low_bits_mask_is_mod(self.raw, b as nat);
            }
            if low == 0 {
                return level;
            }
            level = level - 1;
        }
        level
    }
}

/// Bits of a virtual page number: the virtual address width without the
/// page offset.
fn vpn_bits(m: &MmuMeta) -> (r: u64)
    requires
        m.wf(),
    ensures
        r == m.spec_v_bits() - m.page_bits,
        r < 64,
{
    let n = m.level_bits.len();
    m.bits_below(n)
}

/// A physical page number that may instead be the null marker one past the
/// greatest valid page number.
#[derive(Clone, Copy, Debug)]
pub struct MaybeInvalidPPN {
    ppn: PPN,
}

impl View for MaybeInvalidPPN {
    type V = u64;

    closed spec fn view(&self) -> u64 {
        self.ppn@
    }
}

impl MaybeInvalidPPN {
    /// Wraps a physical page number.
    pub fn new(n: PPN) -> (r: Self)
        ensures
            r@ == n@,
    {
        MaybeInvalidPPN { ppn: n }
    }

    /// The null marker.
    pub fn invalid(m: &MmuMeta) -> (r: Self)
        requires
            m.wf(),
        ensures
            r@ == pow2(m.spec_ppn_width() as nat),
    {
        MaybeInvalidPPN { ppn: PPN::invalid_of(m) }
    }

    /// The page number, or `None` when it lies past the greatest valid
    /// physical page number of the scheme.
    pub fn get(&self, m: &MmuMeta) -> (r: Option<PPN>)
        requires
            m.wf(),
        ensures
            self@ < pow2(m.spec_ppn_width() as nat) ==> (r matches Some(p) && p@ == self@),
            self@ >= pow2(m.spec_ppn_width() as nat) ==> r is None,
    {
        let max = PPN::max_of(m);
        if self.ppn.val() > max.val() {
            None
        } else {
            Some(self.ppn)
        }
    }
}

/// A virtual address.
///
/// The scheme's unused high bits mirror the top address bit when the address
/// is read through [`VAddr::val`], matching hardware canonical-address rules.
#[derive(Clone, Copy, Debug)]
pub struct VAddr {
    raw: u64,
}

impl View for VAddr {
    type V = u64;

    closed spec fn view(&self) -> u64 {
        self.raw
    }
}

impl VAddr {
    /// Makes a virtual address from an arbitrary integer, silently cutting
    /// the bits the scheme ignores.
    pub fn new(value: u64, m: &MmuMeta) -> (r: Self)
        requires
            m.wf(),
        ensures
            r@ == value as nat % pow2(m.spec_v_bits() as nat),
    {
        let bits = m.v_addr_bits();
        let masked = value & mask_low(bits);
        proof {
            vstd::bits::lemma_u64_pow2_no_overflow(bits as nat);
            vstd::bits::lemma_u64_low_bits_mask_is_mod(value, bits as nat);
        }
        VAddr { raw: masked }
    }

    /// The address value with the ignored high bits mirroring the top
    /// address bit.
    pub fn val(self, m: &MmuMeta) -> (r: u64)
        requires
            m.wf(),
        ensures
            self@ < pow2((m.spec_v_bits() - 1) as nat) ==> r == self@,
            self@ >= pow2((m.spec_v_bits() - 1) as nat) ==> r as nat == self@ as nat % pow2(
                (m.spec_v_bits() - 1) as nat,
            ) + pow2(64) - pow2((m.spec_v_bits() - 1) as nat),
    {
        let bits = m.v_addr_bits();
        let ignored = mask_low(bits - 1);
        proof {
            vstd::bits::lemma_u64_low_bits_mask_is_mod(self.raw, (bits - 1) as nat);
            lemma_sign_extend(self.raw, ignored);
            vstd::arithmetic::power2::lemma_pow2_pos((bits - 1) as nat);
            vstd::arithmetic::power2::lemma_pow2_strictly_increases((bits - 1) as nat, 64);
            vstd::arithmetic::power2::lemma2_to64_rest();
        }
        if self.raw <= ignored {
            self.raw
        } else {
            self.raw | !ignored
        }
    }

    /// Moves the address forward by `n` bytes, wrapping around at the end of
    /// the 64-bit range.
    pub fn wrapping_add(self, n: u64) -> (r: Self)
        ensures
            self@ + n <= u64::MAX ==> r@ == self@ + n,
            self@ + n > u64::MAX ==> r@ == self@ + n - 0x1_0000_0000_0000_0000,
    {
        VAddr { raw: self.raw.wrapping_add(n) }
    }

    /// The page containing this address.
    pub fn floor(self, m: &MmuMeta) -> (r: VPN)
        requires
            m.wf(),
        ensures
            r@ == self@ as nat / pow2(m.page_bits as nat),
    {
        proof {
            vstd::bits::lemma_u64_shr_is_div(self.raw, m.page_bits);
        }
        PageNumber { raw: self.raw >> m.page_bits, space: PhantomData }
    }

    /// The first page no byte of which lies below this address.
    pub fn ceil(self, m: &MmuMeta) -> (r: VPN)
        requires
            m.wf(),
            self@ + pow2(m.page_bits as nat) - 1 <= u64::MAX,
        ensures
            r@ == (self@ + pow2(m.page_bits as nat) - 1) as nat / pow2(m.page_bits as nat),
    {
        proof {
            vstd::arithmetic::power2::lemma_pow2_pos(m.page_bits as nat);
        }
        let bumped = self.raw + mask_low(m.page_bits);
        proof {
            vstd::bits::lemma_u64_shr_is_div(bumped, m.page_bits);
        }
        PageNumber { raw: bumped >> m.page_bits, space: PhantomData }
    }

    /// The byte offset of this address within its page.
    pub fn offset(self, m: &MmuMeta) -> (r: u64)
        requires
            m.wf(),
        ensures
            r == self@ as nat % pow2(m.page_bits as nat),
    {
        proof {
            m.lemma_wf_bounds();
            vstd::bits::lemma_u64_pow2_no_overflow(m.page_bits as nat);
            vstd::bits::lemma_u64_low_bits_mask_is_mod(self.raw, m.page_bits as nat);
        }
        self.raw & mask_low(m.page_bits)
    }
}

/// When no level in `(level, hi]` divides `v`'s page number but `level`
/// does, the alignment scan down from `hi` lands exactly on `level`.
proof fn lemma_align_upto(m: &MmuMeta, v: u64, level: int, hi: int)
    requires
        m.wf(),
        0 <= level <= hi <= m.spec_max_level(),
        v as nat % pow2(m.spec_bits_below(level)) == 0,
        forall|j: int|
            level < j <= hi ==> v as nat % pow2(#[trigger] m.spec_bits_below(j)) != 0,
    ensures
        spec_align_level_upto(m, v, hi) == level,
    decreases hi - level,
{
    if hi > level {
        lemma_align_upto(m, v, level, hi - 1);
    }
}

/// The round trip of the alignment level: a virtual page number that is an
/// odd multiple of one level's entry span reports exactly that alignment
/// level.
pub proof fn lemma_align_level_round_trip(m: &MmuMeta, k: u64, level: int)
    requires
        m.wf(),
        0 <= level <= m.spec_max_level(),
        k % 2 == 1,
        k * pow2(m.spec_bits_below(level)) <= u64::MAX,
    ensures
        spec_align_level(m, (k * pow2(m.spec_bits_below(level))) as u64) == level,
{
    let y = pow2(m.spec_bits_below(level)) as int;
    let v = (k * pow2(m.spec_bits_below(level))) as u64;
    vstd::arithmetic::power2::lemma_pow2_pos(m.spec_bits_below(level));
    vstd::arithmetic::mul::lemma_mul_is_commutative(k as int, y);
    vstd::arithmetic::div_mod::lemma_div_multiples_vanish(k as int, y);
    vstd::arithmetic::div_mod::lemma_fundamental_div_mod(v as int, y);
    assert(v as int % y == 0);
    assert forall|j: int| level < j <= m.spec_max_level() implies v as nat % pow2(
        #[trigger] m.spec_bits_below(j),
    ) != 0 by {
        m.lemma_bits_below_step(level);
        m.lemma_bits_below_mono(level + 1, j);
        let d = (m.spec_bits_below(j) - m.spec_bits_below(level)) as nat;
        let z = pow2(d) as int;
        vstd::arithmetic::power2::lemma_pow2_adds(m.spec_bits_below(level), d);
        vstd::arithmetic::power2::lemma_pow2_pos(d);
        vstd::arithmetic::power2::lemma_pow2_pos((d - 1) as nat);
        vstd::arithmetic::div_mod::lemma_mod_breakdown(v as int, y, z);
        // v % (y * z) == y * ((v / y) % z) + v % y == y * (k % z)
        vstd::arithmetic::power2::lemma_pow2_adds(1, (d - 1) as nat);
        vstd::arithmetic::power2::lemma2_to64();
        vstd::arithmetic::div_mod::lemma_mod_breakdown(k as int, 2, pow2((d - 1) as nat) as int);
        // k % z == 2 * ((k / 2) % 2^(d-1)) + 1, which is odd and nonzero
        vstd::arithmetic::div_mod::lemma_mod_bound(k as int / 2, pow2((d - 1) as nat) as int);
        assert(k as int % z >= 1);
        vstd::arithmetic::mul::lemma_mul_left_inequality(y, 1, k as int % z);
        vstd::arithmetic::mul::lemma_mul_basics(y);
        assert(v as int % (y * z) >= y);
    }
    lemma_align_upto(m, v, level, m.spec_max_level());
}

/// Virtual page number zero reports the root alignment level.
pub proof fn lemma_align_level_zero(m: &MmuMeta)
    requires
        m.wf(),
    ensures
        spec_align_level(m, 0) == m.spec_max_level(),
{
    let max = m.spec_max_level();
    if max > 0 {
        vstd::arithmetic::power2::lemma_pow2_pos(m.spec_bits_below(max));
        vstd::arithmetic::div_mod::lemma_small_mod(0, pow2(m.spec_bits_below(max)));
    }
}

/// Clearing the bits of a mask subtracts the masked value.
proof fn lemma_clear_low_bits(x: u64, mask: u64)
    by (bit_vector)
    ensures
        x & !mask == x - (x & mask),
{
}

/// Setting all bits of an inverted mask adds the inverted mask's value, and
/// the inverted mask's value is the word maximum less the mask's value.
proof fn lemma_sign_extend(x: u64, mask: u64)
    by (bit_vector)
    ensures
        x | !mask == (x & mask) + !mask,
        !mask == u64::MAX - mask,
{
}

/// A value below `2^high` shifted left by `shift` stays below `2^64` when
/// `shift + high <= 64`.
proof fn lemma_shift_within_word(x: u64, shift: u64, high: u64)
    requires
        shift + high <= 64,
        x < pow2(high as nat),
    ensures
        x * pow2(shift as nat) <= u64::MAX,
{
    let s = pow2(shift as nat) as int;
    let h = pow2(high as nat) as int;
    vstd::arithmetic::power2::lemma_pow2_pos(shift as nat);
    vstd::arithmetic::power2::lemma_pow2_pos(high as nat);
    // (x + 1) * s <= h * s == 2^(shift + high) <= 2^64
    vstd::arithmetic::mul::lemma_mul_inequality(x as int + 1, h, s);
    vstd::arithmetic::power2::lemma_pow2_adds(shift as nat, high as nat);
    if shift + high < 64 {
        vstd::arithmetic::power2::lemma_pow2_strictly_increases((shift + high) as nat, 64);
    }
    assert(pow2(64) == 0x1_0000_0000_0000_0000) by {
        vstd::arithmetic::power2::lemma2_to64_rest();
    }
    vstd::arithmetic::mul::lemma_mul_is_distributive_add_other_way(s, x as int, 1);
    assert(x * s + s <= pow2(64));
}

/// An entry span that starts at an in-range page and stays within the page
/// range of the space also stays within the byte range of the space, which
/// itself fits in a 64-bit word.
proof fn lemma_base_plus_span_fits(m: &MmuMeta, vpn: u64, level: int)
    requires
        m.wf(),
        0 <= level < m.level_bits@.len(),
        vpn + pow2(m.spec_bits_below(level)) <= pow2((m.spec_v_bits() - m.page_bits) as nat),
    ensures
        vpn * pow2(m.page_bits as nat) + pow2((m.page_bits + m.spec_bits_below(level)) as nat)
            <= pow2(m.spec_v_bits() as nat),
        pow2(m.spec_v_bits() as nat) <= u64::MAX,
{
    let pb = m.page_bits as nat;
    let vb = (m.spec_v_bits() - m.page_bits) as nat;
    let bb = m.spec_bits_below(level);
    vstd::arithmetic::power2::lemma_pow2_pos(pb);
    // (vpn + 2^bb) * 2^pb <= 2^vb * 2^pb == 2^vbits
    vstd::arithmetic::mul::lemma_mul_inequality(
        vpn + pow2(bb),
        pow2(vb) as int,
        pow2(pb) as int,
    );
    vstd::arithmetic::power2::lemma_pow2_adds(vb, pb);
    vstd::arithmetic::power2::lemma_pow2_adds(bb, pb);
    vstd::arithmetic::power2::lemma_pow2_adds(pb, bb);
    vstd::arithmetic::mul::lemma_mul_is_distributive_add_other_way(
        pow2(pb) as int,
        vpn as int,
        pow2(bb) as int,
    );
    vstd::arithmetic::power2::lemma_pow2_strictly_increases(m.spec_v_bits() as nat, 64);
    assert(pow2(64) == 0x1_0000_0000_0000_0000) by {
        vstd::arithmetic::power2::lemma2_to64_rest();
    }
}

} // verus!
