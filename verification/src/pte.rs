//! Raw page-table entries.

use crate::addr::PPN;
use crate::flags::VmFlags;
use crate::meta::MmuMeta;
use vstd::arithmetic::power2::pow2;
use vstd::prelude::*;

verus! {

/// One page-table entry: a raw machine word that is invalid, points at a
/// sub-table, or maps a physical page, as the scheme's bit tests say.
#[derive(Clone, Copy, PartialEq, Eq, Structural, Debug)]
pub struct Pte {
    /// The raw entry value.
    pub raw: u64,
}

impl Pte {
    /// Wraps a raw entry value.
    pub fn new(raw: u64) -> (r: Self)
        ensures
            r.raw == raw,
    {
        Pte { raw }
    }

    /// The blank entry, canonical for "absent".
    pub fn zero() -> (r: Self)
        ensures
            r.raw == 0,
    {
        Pte { raw: 0 }
    }

    /// The physical page number the entry points at.
    pub fn ppn(self, m: &MmuMeta) -> (r: PPN)
        requires
            m.wf(),
        ensures
            r@ == m.spec_pte_ppn(self.raw),
            r@ < pow2(m.spec_ppn_width() as nat),
    {
        m.ppn(self.raw)
    }

    /// Whether the entry points at a physical page rather than a sub-table.
    pub fn is_leaf(self, m: &MmuMeta) -> (r: bool)
        ensures
            r == m.spec_is_leaf(self.raw),
    {
        m.is_leaf(self.raw)
    }

    /// Whether the entry maps a page larger than the base page size.
    pub fn is_huge(self, m: &MmuMeta, level: usize) -> (r: bool)
        ensures
            r == m.spec_is_huge(self.raw, level as int),
    {
        m.is_huge(self.raw, level)
    }

    /// Whether the entry is valid.
    pub fn is_valid(self, m: &MmuMeta) -> (r: bool)
        ensures
            r == m.spec_is_valid(self.raw),
    {
        m.is_valid(self.raw)
    }

    /// The entry's attributes: the entry with its page-number field
    /// cleared, which neither holds a page number nor changes its
    /// classification.
    pub fn flags(self, m: &MmuMeta) -> (r: VmFlags)
        requires
            m.wf(),
        ensures
            r@ == m.spec_clear_ppn(self.raw),
            r@ & m.spec_ppn_mask() == 0,
            m.spec_is_leaf(r@) == m.spec_is_leaf(self.raw),
            m.spec_is_valid(r@) == m.spec_is_valid(self.raw),
    {
        proof {
            m.lemma_clear_ppn_disjoint(self.raw);
            m.lemma_clear_ppn_keeps_flags(self.raw);
        }
        let mut v = self.raw;
        m.clear_ppn(&mut v);
        VmFlags::from_raw(v, m)
    }
}

} // verus!
