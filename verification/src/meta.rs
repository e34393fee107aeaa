//! The architecture scheme descriptor: address widths, per-level bit widths,
//! placement of the physical page number inside an entry, and the bit tests
//! that classify an entry.

use vstd::arithmetic::power2::pow2;
use vstd::bits::low_bits_mask;
use vstd::prelude::*;

verus! {

/// Sum of a sequence of bit widths.
pub open spec fn sum_widths(s: Seq<u64>) -> nat
    decreases s.len(),
{
    if s.len() == 0 {
        0
    } else {
        (sum_widths(s.drop_last()) + s.last()) as nat
    }
}

/// Bits of one entry index within a table, given the word width of an entry.
///
/// A table fills exactly one page, so a page holds `2^(page_bits - 3)`
/// eight-byte entries.
pub fn pt_level_bits(page_bits: u64) -> (r: u64)
    requires
        page_bits >= 3,
    ensures
        r == page_bits - 3,
{
    page_bits - 3
}

/// Metadata of one address-translation scheme.
///
/// `level_bits[l]` is the width of the index into a level-`l` table; level 0
/// is the finest-grained table and `level_bits.len() - 1` the root level.
/// The page-offset width is kept separately in `page_bits`.
pub struct MmuMeta {
    /// Physical address width in bits.
    pub p_addr_bits: u64,
    /// Width of the page-internal byte offset in bits.
    pub page_bits: u64,
    /// Index width of each table level, level 0 first.
    pub level_bits: Vec<u64>,
    /// Bit position of the physical-page-number field within an entry.
    pub ppn_pos: u64,
    /// An entry is a leaf iff it has a bit of this mask set.
    pub leaf_mask: u64,
    /// An entry is valid iff it has a bit of this mask set.
    pub valid_mask: u64,
}

impl MmuMeta {
    /// Number of table levels.
    pub open spec fn levels(&self) -> int {
        self.level_bits@.len() as int
    }

    /// The root table's level.
    pub open spec fn spec_max_level(&self) -> int {
        self.levels() - 1
    }

    /// Total index bits of the levels strictly below `level`.
    pub open spec fn spec_bits_below(&self, level: int) -> nat {
        sum_widths(self.level_bits@.take(level))
    }

    /// Virtual address width: page offset plus every level's index width.
    pub open spec fn spec_v_bits(&self) -> int {
        self.page_bits + self.spec_bits_below(self.levels())
    }

    /// Width of the physical-page-number field.
    pub open spec fn spec_ppn_width(&self) -> int {
        self.p_addr_bits - self.page_bits
    }

    /// Mask of the physical-page-number field within an entry.
    pub open spec fn spec_ppn_mask(&self) -> u64 {
        ((low_bits_mask((self.ppn_pos + self.spec_ppn_width()) as nat) - low_bits_mask(
            self.ppn_pos as nat,
        )) as u64)
    }

    /// Well-formedness of the descriptor: every width is positive, the whole
    /// virtual address and the entry's page-number field fit in a 64-bit
    /// word, and the flag masks are disjoint from the page-number field.
    pub open spec fn wf(&self) -> bool {
        &&& 1 <= self.page_bits
        &&& 1 <= self.level_bits@.len()
        &&& (forall|i: int|
            0 <= i < self.level_bits@.len() ==> 1 <= #[trigger] self.level_bits@[i])
        &&& self.spec_v_bits() <= 63
        &&& self.page_bits < self.p_addr_bits
        &&& self.ppn_pos + self.spec_ppn_width() <= 63
        &&& self.leaf_mask & self.spec_ppn_mask() == 0
        &&& self.valid_mask & self.spec_ppn_mask() == 0
    }

    /// One more level's width on top of `spec_bits_below(level)`.
    pub proof fn lemma_bits_below_step(&self, level: int)
        requires
            0 <= level < self.level_bits@.len(),
        ensures
            self.spec_bits_below(level + 1) == self.spec_bits_below(level)
                + self.level_bits@[level],
    {
        assert(self.level_bits@.take(level + 1).drop_last() =~= self.level_bits@.take(level));
    }

    /// `spec_bits_below` grows with the level.
    pub proof fn lemma_bits_below_mono(&self, i: int, j: int)
        requires
            0 <= i <= j <= self.level_bits@.len(),
        ensures
            self.spec_bits_below(i) <= self.spec_bits_below(j),
        decreases j - i,
    {
        if i < j {
            self.lemma_bits_below_step(j - 1);
            self.lemma_bits_below_mono(i, j - 1);
        }
    }

    /// Entry `v` points at a physical page rather than a sub-table.
    ///
    /// Whether `v` is valid at all is a separate test.
    pub open spec fn spec_is_leaf(&self, v: u64) -> bool {
        v & self.leaf_mask != 0
    }

    /// Entry `v` is valid.
    pub open spec fn spec_is_valid(&self, v: u64) -> bool {
        v & self.valid_mask != 0
    }

    /// Entry `v` maps a page larger than the base page size: a leaf above
    /// level 0.
    pub open spec fn spec_is_huge(&self, v: u64, level: int) -> bool {
        level != 0 && self.spec_is_leaf(v)
    }

    /// The physical page number held in entry `v`.
    pub open spec fn spec_pte_ppn(&self, v: u64) -> nat {
        (v as nat / pow2(self.ppn_pos as nat)) % pow2(self.spec_ppn_width() as nat)
    }

    /// Entry `v` with its page-number field cleared.
    pub open spec fn spec_clear_ppn(&self, v: u64) -> u64 {
        v & !self.spec_ppn_mask()
    }

    /// Entry `v` with its page-number field cleared and then set to `p`
    /// (`p` is cut to the field's width).
    pub open spec fn spec_set_ppn(&self, v: u64, p: u64) -> u64 {
        self.spec_clear_ppn(v) | ((p << self.ppn_pos) & self.spec_ppn_mask())
    }

    /// Total pages covered by a level-`level` table.
    pub open spec fn spec_pages_in_table(&self, level: int) -> nat {
        pow2(self.spec_bits_below(level + 1))
    }

    /// Total bytes covered by one level-`level` entry.
    pub open spec fn spec_bytes_in_page(&self, level: int) -> nat {
        pow2((self.page_bits + self.spec_bits_below(level)) as nat)
    }

    /// Total bytes covered by a level-`level` table.
    pub open spec fn spec_bytes_in_table(&self, level: int) -> nat {
        pow2((self.page_bits + self.spec_bits_below(level + 1)) as nat)
    }

    /// Plain bounds that follow from well-formedness.
    pub proof fn lemma_wf_bounds(&self)
        requires
            self.wf(),
        ensures
            1 <= self.spec_bits_below(self.levels()),
            self.page_bits + self.spec_bits_below(self.levels()) <= 63,
            self.page_bits <= 62,
    {
        self.lemma_bits_below_step(0);
        self.lemma_bits_below_mono(1, self.levels());
    }

    /// The page-number field is at least one and at most 63 bits wide.
    pub proof fn lemma_ppn_width_bound(&self)
        requires
            self.wf(),
        ensures
            1 <= self.spec_ppn_width() <= 63,
    {
    }

    /// Decides well-formedness at run time, so that a caller holding an
    /// arbitrary descriptor can test the precondition of the other
    /// functions instead of restating it.
    pub fn check_wf(&self) -> (r: bool)
        ensures
            r == self.wf(),
    {
        if self.page_bits < 1 || self.level_bits.len() < 1 {
            return false;
        }
        let n = self.level_bits.len();
        let mut sum: u64 = 0;
        let mut i: usize = 0;
        while i < n
            invariant
                i <= n,
                n == self.level_bits@.len(),
                sum == self.spec_bits_below(i as int),
                sum <= 63,
                forall|j: int| 0 <= j < i ==> 1 <= #[trigger] self.level_bits@[j],
            decreases n - i,
        {
            let b = self.level_bits[i];
            proof {
                self.lemma_bits_below_step(i as int);
            }
            if b < 1 || b > 63 || sum + b > 63 {
                proof {
                    self.lemma_bits_below_mono(i + 1, self.levels());
                }
                return false;
            }
            sum = sum + b;
            i = i + 1;
        }
        if self.page_bits > 63 || self.page_bits + sum > 63 {
            return false;
        }
        if self.p_addr_bits <= self.page_bits {
            return false;
        }
        let w = self.p_addr_bits - self.page_bits;
        if self.ppn_pos > 63 || w > 63 || self.ppn_pos + w > 63 {
            return false;
        }
        let hi = mask_low(self.ppn_pos + w);
        let lo = mask_low(self.ppn_pos);
        proof {
            vstd::arithmetic::power2::lemma_pow2_strictly_increases(
                self.ppn_pos as nat,
                (self.ppn_pos + w) as nat,
            );
            vstd::arithmetic::power2::lemma_pow2_pos(self.ppn_pos as nat);
            vstd::arithmetic::power2::lemma_pow2_pos((self.ppn_pos + w) as nat);
            assert(low_bits_mask(self.ppn_pos as nat) == pow2(self.ppn_pos as nat) - 1);
            assert(low_bits_mask((self.ppn_pos + w) as nat) == pow2((self.ppn_pos + w) as nat)
                - 1);
        }
        let field = hi - lo;
        self.leaf_mask & field == 0 && self.valid_mask & field == 0
    }

    /// The root table's level.
    pub fn max_level(&self) -> (r: usize)
        requires
            self.wf(),
        ensures
            r == self.spec_max_level(),
    {
        self.level_bits.len() - 1
    }

    /// Total index bits of the levels strictly below `level`.
    pub fn bits_below(&self, level: usize) -> (r: u64)
        requires
            self.wf(),
            level <= self.level_bits@.len(),
        ensures
            r == self.spec_bits_below(level as int),
    {
        let mut acc: u64 = 0;
        let mut i: usize = 0;
        while i < level
            invariant
                self.wf(),
                i <= level,
                level <= self.level_bits@.len(),
                acc == self.spec_bits_below(i as int),
            decreases level - i,
        {
            proof {
                self.lemma_bits_below_step(i as int);
                self.lemma_bits_below_mono(i + 1, self.levels());
                assert(self.spec_bits_below(i + 1) <= self.spec_v_bits());
            }
            acc = acc + self.level_bits[i];
            i = i + 1;
        }
        acc
    }

    /// Virtual address width of the scheme.
    pub fn v_addr_bits(&self) -> (r: u64)
        requires
            self.wf(),
        ensures
            r == self.spec_v_bits(),
    {
        let n = self.level_bits.len();
        self.page_bits + self.bits_below(n)
    }

    /// Mask of the physical-page-number field within an entry.
    pub fn ppn_mask(&self) -> (r: u64)
        requires
            self.wf(),
        ensures
            r == self.spec_ppn_mask(),
    {
        proof {
            self.lemma_ppn_width_bound();
        }
        let w = self.p_addr_bits - self.page_bits;
        let hi = mask_low(self.ppn_pos + w);
        let lo = mask_low(self.ppn_pos);
        proof {
            vstd::arithmetic::power2::lemma_pow2_strictly_increases(
                self.ppn_pos as nat,
                (self.ppn_pos + w) as nat,
            );
            vstd::arithmetic::power2::lemma_pow2_pos(self.ppn_pos as nat);
            vstd::arithmetic::power2::lemma_pow2_pos((self.ppn_pos + w) as nat);
            assert(low_bits_mask(self.ppn_pos as nat) == pow2(self.ppn_pos as nat) - 1);
            assert(low_bits_mask((self.ppn_pos + w) as nat) == pow2((self.ppn_pos + w) as nat)
                - 1);
        }
        hi - lo
    }

    /// Entry `v` points at a physical page rather than a sub-table.
    pub fn is_leaf(&self, v: u64) -> (r: bool)
        ensures
            r == self.spec_is_leaf(v),
    {
        v & self.leaf_mask != 0
    }

    /// Entry `v` is valid.
    pub fn is_valid(&self, v: u64) -> (r: bool)
        ensures
            r == self.spec_is_valid(v),
    {
        v & self.valid_mask != 0
    }

    /// Entry `v` maps a page larger than the base page size.
    pub fn is_huge(&self, v: u64, level: usize) -> (r: bool)
        ensures
            r == self.spec_is_huge(v, level as int),
    {
        level != 0 && self.is_leaf(v)
    }

    /// The physical page number held in entry `v`.
    pub fn ppn(&self, v: u64) -> (r: crate::addr::PPN)
        requires
            self.wf(),
        ensures
            r@ == self.spec_pte_ppn(v),
            r@ < pow2(self.spec_ppn_width() as nat),
    {
        proof {
            self.lemma_ppn_width_bound();
            vstd::bits::lemma_u64_shr_is_div(v, self.ppn_pos);
        }
        let shifted = v >> self.ppn_pos;
        let w = self.p_addr_bits - self.page_bits;
        let masked = shifted & mask_low(w);
        proof {
            vstd::bits::lemma_u64_pow2_no_overflow(w as nat);
            vstd::bits::lemma_u64_low_bits_mask_is_mod(shifted, w as nat);
            vstd::arithmetic::power2::lemma_pow2_pos(w as nat);
        }
        crate::addr::PPN::new(masked)
    }

    /// Clears the page-number field of the entry.
    pub fn clear_ppn(&self, value: &mut u64)
        requires
            self.wf(),
        ensures
            *final(value) == self.spec_clear_ppn(*old(value)),
    {
        let mval = self.ppn_mask();
        *value = *value & !mval;
    }

    /// Clears the page-number field of the entry and then sets it to `p`;
    /// `p` is cut to the field's width.
    pub fn set_ppn(&self, value: &mut u64, p: crate::addr::PPN)
        requires
            self.wf(),
        ensures
            *final(value) == self.spec_set_ppn(*old(value), p@),
    {
        let mval = self.ppn_mask();
        *value = (*value & !mval) | ((p.val() << self.ppn_pos) & mval);
    }

    /// Total pages covered by a level-`level` table.
    pub fn pages_in_table(&self, level: usize) -> (r: u64)
        requires
            self.wf(),
            level < self.level_bits@.len(),
        ensures
            r == self.spec_pages_in_table(level as int),
    {
        // reading the length pins it as a machine word, so the next level
        // exists as an index
        let _n = self.level_bits.len();
        proof {
            self.lemma_wf_bounds();
            self.lemma_bits_below_mono(level as int + 1, self.levels());
        }
        pow2_u64(self.bits_below(level + 1))
    }

    /// Total bytes covered by one level-`level` entry.
    pub fn bytes_in_page(&self, level: usize) -> (r: u64)
        requires
            self.wf(),
            level <= self.level_bits@.len(),
        ensures
            r == self.spec_bytes_in_page(level as int),
    {
        proof {
            self.lemma_wf_bounds();
            self.lemma_bits_below_mono(level as int, self.levels());
        }
        pow2_u64(self.page_bits + self.bits_below(level))
    }

    /// Total bytes covered by a level-`level` table.
    pub fn bytes_in_table(&self, level: usize) -> (r: u64)
        requires
            self.wf(),
            level < self.level_bits@.len(),
        ensures
            r == self.spec_bytes_in_table(level as int),
    {
        // reading the length pins it as a machine word, so the next level
        // exists as an index
        let _n = self.level_bits.len();
        proof {
            self.lemma_wf_bounds();
            self.lemma_bits_below_mono(level as int + 1, self.levels());
        }
        pow2_u64(self.page_bits + self.bits_below(level + 1))
    }

    /// An entry with a cleared page-number field holds page number zero:
    /// the flag bits and the page-number field are disjoint.
    pub proof fn lemma_clear_ppn_disjoint(&self, v: u64)
        ensures
            self.spec_clear_ppn(v) & self.spec_ppn_mask() == 0,
    {
        let mval = self.spec_ppn_mask();
        assert((v & !mval) & mval == 0) by (bit_vector);
    }

    /// Clearing the page-number field changes neither the leaf test nor the
    /// validity test of an entry.
    pub proof fn lemma_clear_ppn_keeps_flags(&self, v: u64)
        requires
            self.wf(),
        ensures
            self.spec_is_leaf(self.spec_clear_ppn(v)) == self.spec_is_leaf(v),
            self.spec_is_valid(self.spec_clear_ppn(v)) == self.spec_is_valid(v),
    {
        let mval = self.spec_ppn_mask();
        let lm = self.leaf_mask;
        let vm = self.valid_mask;
        assert((v & !mval) & lm == v & lm) by (bit_vector)
            requires
                lm & mval == 0,
        ;
        assert((v & !mval) & vm == v & vm) by (bit_vector)
            requires
                vm & mval == 0,
        ;
    }

    /// The page-number field read back as a bit expression.
    pub proof fn lemma_pte_ppn_bits(&self, v: u64)
        requires
            self.wf(),
        ensures
            self.spec_pte_ppn(v) == (v >> self.ppn_pos) & ((low_bits_mask(
                self.spec_ppn_width() as nat,
            )) as u64),
    {
        self.lemma_ppn_width_bound();
        vstd::bits::lemma_u64_shr_is_div(v, self.ppn_pos);
        vstd::bits::lemma_u64_pow2_no_overflow(self.spec_ppn_width() as nat);
        vstd::bits::lemma_u64_low_bits_mask_is_mod(
            v >> self.ppn_pos,
            self.spec_ppn_width() as nat,
        );
    }

    /// Setting the page-number field of any entry to an in-range page
    /// number and reading the field back yields exactly that page number,
    /// and leaves the flag bits of the entry unchanged.
    pub proof fn lemma_set_ppn_ppn(&self, v: u64, p: u64)
        requires
            self.wf(),
            p < pow2(self.spec_ppn_width() as nat),
        ensures
            self.spec_pte_ppn(self.spec_set_ppn(v, p)) == p,
            self.spec_clear_ppn(self.spec_set_ppn(v, p)) == self.spec_clear_ppn(v),
    {
        let pos = self.ppn_pos;
        let w = (self.p_addr_bits - self.page_bits) as u64;
        let k = (pos + w) as u64;
        let mval = self.spec_ppn_mask();
        self.lemma_ppn_width_bound();
        vstd::bits::lemma_u64_pow2_no_overflow(k as nat);
        vstd::bits::lemma_u64_pow2_no_overflow(pos as nat);
        vstd::bits::lemma_u64_pow2_no_overflow(w as nat);
        vstd::bits::lemma_u64_shl_is_mul(1u64, k);
        vstd::bits::lemma_u64_shl_is_mul(1u64, pos);
        vstd::bits::lemma_u64_shl_is_mul(1u64, w);
        vstd::arithmetic::power2::lemma_pow2_pos(k as nat);
        vstd::arithmetic::power2::lemma_pow2_pos(pos as nat);
        vstd::arithmetic::power2::lemma_pow2_strictly_increases(pos as nat, k as nat);
        assert(low_bits_mask(k as nat) == pow2(k as nat) - 1);
        assert(low_bits_mask(pos as nat) == pow2(pos as nat) - 1);
        assert(mval == pow2(k as nat) - pow2(pos as nat));
        self.lemma_pte_ppn_bits(self.spec_set_ppn(v, p));
        assert((((v & !mval) | ((p << pos) & mval)) >> pos) & (((1u64 << w) - 1) as u64) == p)
            by (bit_vector)
            requires
                k == pos + w,
                k <= 63,
                1u64 <= w <= 63,
                mval == (1u64 << k) - (1u64 << pos),
                p < (1u64 << w),
        ;
        assert(((v & !mval) | ((p << pos) & mval)) & !mval == v & !mval) by (bit_vector);
    }
}

/// `(1 << bits) - 1`, the mask of the low `bits` bits.
pub(crate) fn mask_low(bits: u64) -> (r: u64)
    requires
        bits < 64,
    ensures
        r == low_bits_mask(bits as nat),
        r == low_bits_mask(bits as nat) as u64,
{
    proof {
        vstd::bits::lemma_u64_pow2_no_overflow(bits as nat);
        vstd::bits::lemma_u64_shl_is_mul(1u64, bits);
    }
    (1u64 << bits) - 1
}

/// `2^bits` as a 64-bit word.
pub(crate) fn pow2_u64(bits: u64) -> (r: u64)
    requires
        bits < 64,
    ensures
        r == pow2(bits as nat),
{
    proof {
        vstd::bits::lemma_u64_pow2_no_overflow(bits as nat);
        vstd::bits::lemma_u64_shl_is_mul(1u64, bits);
    }
    1u64 << bits
}

} // verus!
