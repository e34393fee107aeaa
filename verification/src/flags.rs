//! Page-table entry attributes.
//!
//! An attribute value is an entry whose page-number field is zero, so the
//! flag bits can be combined freely and later joined with a page number.

use crate::addr::PPN;
use crate::meta::MmuMeta;
use crate::pte::Pte;
use vstd::arithmetic::power2::pow2;
use vstd::prelude::*;

verus! {

/// The flag bits of a page-table entry, with the page-number field clear.
#[derive(Clone, Copy, PartialEq, Eq, Structural, Debug)]
pub struct VmFlags {
    raw: u64,
}

impl View for VmFlags {
    type V = u64;

    closed spec fn view(&self) -> u64 {
        self.raw
    }
}

impl VmFlags {
    /// Wraps a raw attribute value.
    ///
    /// The bits of the page-number field must be zero, else a later
    /// [`VmFlags::build_pte`] would fold them into the page number.
    pub fn from_raw(raw: u64, m: &MmuMeta) -> (r: Self)
        requires
            raw & m.spec_ppn_mask() == 0,
        ensures
            r@ == raw,
    {
        VmFlags { raw }
    }

    /// The raw attribute value.
    pub fn val(self) -> (r: u64)
        ensures
            r == self@,
    {
        self.raw
    }

    /// Whether every flag of `flags` is also set in `self`.
    pub fn contains(self, flags: VmFlags) -> (r: bool)
        ensures
            r == (self@ & flags@ == flags@),
    {
        self.raw & flags.raw == flags.raw
    }

    /// Whether the flags mark a leaf entry.
    pub fn is_leaf(self, m: &MmuMeta) -> (r: bool)
        ensures
            r == m.spec_is_leaf(self@),
    {
        m.is_leaf(self.raw)
    }

    /// Whether the flags mark a leaf entry above level 0.
    pub fn is_huge(self, m: &MmuMeta, level: usize) -> (r: bool)
        ensures
            r == m.spec_is_huge(self@, level as int),
    {
        m.is_huge(self.raw, level)
    }

    /// Whether the flags mark a valid entry.
    pub fn valid(self, m: &MmuMeta) -> (r: bool)
        ensures
            r == m.spec_is_valid(self@),
    {
        m.is_valid(self.raw)
    }

    /// The entry that carries these flags and points at physical page
    /// `ppn`; an out-of-range page number is cut to the field's width.
    pub fn build_pte(self, m: &MmuMeta, ppn: PPN) -> (r: Pte)
        requires
            m.wf(),
            self@ & m.spec_ppn_mask() == 0,
        ensures
            r.raw == m.spec_set_ppn(self@, ppn@),
            ppn@ < pow2(m.spec_ppn_width() as nat) ==> m.spec_pte_ppn(r.raw) == ppn@,
            m.spec_clear_ppn(r.raw) == self@,
    {
        proof {
            let fl = self.raw;
            let pv = ppn@;
            let pos = m.ppn_pos;
            let mval = m.spec_ppn_mask();
            if ppn@ < pow2(m.spec_ppn_width() as nat) {
                m.lemma_set_ppn_ppn(self.raw, ppn@);
            }
            assert(((fl & !mval) | ((pv << pos) & mval)) & !mval == fl & !mval) by (bit_vector);
            assert(fl & !mval == fl) by (bit_vector)
                requires
                    fl & mval == 0,
            ;
        }
        let mut v = self.raw;
        m.set_ppn(&mut v, ppn);
        Pte::new(v)
    }

    /// The flags set in both values.
    pub fn bitand(self, rhs: VmFlags) -> (r: VmFlags)
        ensures
            r@ == self@ & rhs@,
    {
        VmFlags { raw: self.raw & rhs.raw }
    }

    /// The flags set in either value.
    pub fn bitor(self, rhs: VmFlags) -> (r: VmFlags)
        ensures
            r@ == self@ | rhs@,
    {
        VmFlags { raw: self.raw | rhs.raw }
    }

    /// The flags set in exactly one of the values.
    pub fn bitxor(self, rhs: VmFlags) -> (r: VmFlags)
        ensures
            r@ == self@ ^ rhs@,
    {
        VmFlags { raw: self.raw ^ rhs.raw }
    }
}

} // verus!
