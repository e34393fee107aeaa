//! A leveled view over one array of page-table entries, with checked entry
//! mutation, point queries and erasure.
//!
//! The view never owns the frame the entries live in: the caller hands the
//! entry array in and remains responsible for its backing storage.

use crate::addr::{lemma_pn_eq, spec_index_in, spec_pn, VAddr, VPN};
use crate::meta::{mask_low, MmuMeta};
use crate::pte::Pte;
use vstd::arithmetic::power2::pow2;
use vstd::prelude::*;

verus! {

/// A page table: a leveled view over a contiguous array of entries with a
/// base virtual page number.
pub struct PageTable {
    entries: Vec<Pte>,
    base: VPN,
    level: usize,
}

/// What one entry of a table says about the virtual page it covers.
#[derive(Clone, Copy, Debug)]
pub enum PtQuery {
    /// The entry is not valid.
    Invalid,
    /// The entry points at the sub-table in this physical page.
    SubTable(crate::addr::PPN),
    /// The entry maps a physical page.
    Leaf(Pte),
}

/// Why an entry was rejected by [`PageTable::set_entry`].
#[derive(Clone, Copy, Debug, PartialEq, Eq, Structural)]
pub enum EntryError {
    /// The requested level exceeds the scheme's root level.
    InvalidLevel,
    /// A huge-page entry's physical page is not aligned to the page size of
    /// its level.
    LeafMisaligned,
}

/// The classification of entry `pte`.
pub open spec fn spec_classify(m: &MmuMeta, pte: Pte) -> PtQuery {
    if !m.spec_is_valid(pte.raw) {
        PtQuery::Invalid
    } else if m.spec_is_leaf(pte.raw) {
        PtQuery::Leaf(pte)
    } else {
        PtQuery::SubTable(spec_pn((m.spec_pte_ppn(pte.raw) as u64)))
    }
}

/// The classifications of the valid entries of `s`, in index order.
pub open spec fn spec_erase_list(m: &MmuMeta, s: Seq<Pte>) -> Seq<PtQuery>
    decreases s.len(),
{
    if s.len() == 0 {
        Seq::empty()
    } else if m.spec_is_valid(s.last().raw) {
        spec_erase_list(m, s.drop_last()).push(spec_classify(m, s.last()))
    } else {
        spec_erase_list(m, s.drop_last())
    }
}

impl PtQuery {
    /// Classifies an entry: invalid, sub-table pointer, or leaf mapping.
    pub fn from(pte: Pte, m: &MmuMeta) -> (r: PtQuery)
        requires
            m.wf(),
        ensures
            r == spec_classify(m, pte),
    {
        if !pte.is_valid(m) {
            PtQuery::Invalid
        } else if pte.is_leaf(m) {
            PtQuery::Leaf(pte)
        } else {
            let p = pte.ppn(m);
            proof {
                crate::addr::lemma_spec_pn_view::<crate::addr::Physical>(
                    (m.spec_pte_ppn(pte.raw) as u64),
                );
                lemma_pn_eq(p, spec_pn((m.spec_pte_ppn(pte.raw) as u64)));
            }
            PtQuery::SubTable(p)
        }
    }
}

/// What a write put into a slot, a query of that slot classifies: updating
/// slot `i` and then classifying slot `i` classifies the new entry.
pub proof fn lemma_set_then_query(m: &MmuMeta, t: Seq<Pte>, i: int, e: Pte)
    requires
        0 <= i < t.len(),
    ensures
        spec_classify(m, t.update(i, e)[i]) == spec_classify(m, e),
{
}

/// Reading is pure: two queries of the same entry of the same table state
/// classify it identically.
pub proof fn lemma_query_idempotent(
    m: &MmuMeta,
    t: Seq<Pte>,
    i: int,
    r1: PtQuery,
    r2: PtQuery,
)
    requires
        0 <= i < t.len(),
        r1 == spec_classify(m, t[i]),
        r2 == spec_classify(m, t[i]),
    ensures
        r1 == r2,
{
}

impl View for PageTable {
    type V = Seq<Pte>;

    closed spec fn view(&self) -> Seq<Pte> {
        self.entries@
    }
}

impl PageTable {
    /// The base virtual page number of the view.
    pub closed spec fn spec_base(&self) -> u64 {
        self.base@
    }

    /// The level of the view.
    pub closed spec fn spec_level(&self) -> int {
        self.level as int
    }

    /// The view is well formed for scheme `m`: its level exists and it
    /// holds exactly one level-sized array of entries.
    pub open spec fn wf(&self, m: &MmuMeta) -> bool {
        &&& m.wf()
        &&& self.spec_level() < m.levels()
        &&& self@.len() == pow2(m.level_bits@[self.spec_level()] as nat)
    }

    /// Builds the view over an entry array handed in by the caller: the
    /// parts are the entries themselves, the base page and the level.
    ///
    /// The base is cut down to the span of one level-`level` entry.
    pub fn from_raw_parts(entries: Vec<Pte>, base: VPN, level: usize, m: &MmuMeta) -> (r:
        PageTable)
        requires
            m.wf(),
            level < m.level_bits@.len(),
            entries@.len() == pow2(m.level_bits@[level as int] as nat),
        ensures
            r.wf(m),
            r@ == entries@,
            r.spec_base() == crate::addr::spec_floor(m, base@, level as int),
            r.spec_level() == level,
    {
        PageTable { entries, base: base.floor(m, level), level }
    }

    /// Builds the view of a root table: page zero, root level.
    pub fn from_root(entries: Vec<Pte>, m: &MmuMeta) -> (r: PageTable)
        requires
            m.wf(),
            entries@.len() == pow2(m.level_bits@[m.spec_max_level()] as nat),
        ensures
            r.wf(m),
            r@ == entries@,
            r.spec_base() == 0,
            r.spec_level() == m.spec_max_level(),
    {
        let max = m.max_level();
        proof {
            vstd::arithmetic::power2::lemma_pow2_pos(m.spec_bits_below(max as int));
            vstd::arithmetic::div_mod::lemma_small_mod(0, pow2(m.spec_bits_below(max as int)));
        }
        Self::from_raw_parts(entries, VPN::zero(), max, m)
    }

    /// The entry at index `i`.
    pub fn get(&self, i: usize) -> (r: Pte)
        requires
            i < self@.len(),
        ensures
            r == self@[i as int],
    {
        self.entries[i]
    }

    /// Replaces the entry at index `i`.
    pub fn set(&mut self, i: usize, pte: Pte)
        requires
            i < old(self)@.len(),
        ensures
            final(self)@ == old(self)@.update(i as int, pte),
            final(self).spec_base() == old(self).spec_base(),
            final(self).spec_level() == old(self).spec_level(),
    {
        self.entries[i] = pte;
    }

    /// The level of the view.
    pub fn level(&self) -> (r: usize)
        ensures
            r == self.spec_level(),
    {
        self.level
    }

    /// The half-open range of virtual page numbers the table covers.
    pub fn range(&self, m: &MmuMeta) -> (r: (VPN, VPN))
        requires
            self.wf(m),
            self.spec_base() + m.spec_pages_in_table(self.spec_level()) <= u64::MAX,
        ensures
            r.0@ == self.spec_base(),
            r.1@ == self.spec_base() + m.spec_pages_in_table(self.spec_level()),
    {
        let pages = m.pages_in_table(self.level);
        (self.base, self.base.wrapping_add(pages))
    }

    /// Writes `entry` into the slot that resolves `vaddr` when this table
    /// is read as a level-`level` table.
    ///
    /// Returns `InvalidLevel` when `level` exceeds the scheme's root level
    /// and `LeafMisaligned` when the entry maps a huge page whose physical
    /// page is not aligned to the page size of `level`; the table is not
    /// changed on either error.
    pub fn set_entry(&mut self, m: &MmuMeta, vaddr: VAddr, entry: Pte, level: usize) -> (r:
        Result<(), EntryError>)
        requires
            old(self).wf(m),
            level as int <= m.spec_max_level() && !(m.spec_is_huge(entry.raw, level as int)
                && m.spec_pte_ppn(entry.raw) % pow2(m.spec_bits_below(level as int)) != 0)
                ==> pow2(m.level_bits@[level as int] as nat) <= old(self)@.len(),
        ensures
            final(self).spec_base() == old(self).spec_base(),
            final(self).spec_level() == old(self).spec_level(),
            level as int > m.spec_max_level() ==> r == Result::<(), EntryError>::Err(
                EntryError::InvalidLevel,
            ) && final(self)@ == old(self)@,
            level as int <= m.spec_max_level() && m.spec_is_huge(entry.raw, level as int)
                && m.spec_pte_ppn(entry.raw) % pow2(m.spec_bits_below(level as int)) != 0 ==> r
                == Result::<(), EntryError>::Err(EntryError::LeafMisaligned) && final(self)@
                == old(self)@,
            level as int <= m.spec_max_level() && !(m.spec_is_huge(entry.raw, level as int)
                && m.spec_pte_ppn(entry.raw) % pow2(m.spec_bits_below(level as int)) != 0)
                ==> r == Result::<(), EntryError>::Ok(()) && final(self)@ == old(self)@.update(
                spec_index_in(m, (vaddr@ as nat / pow2(m.page_bits as nat)) as u64, level as int)
                    as int,
                entry,
            ),
    {
        if level > m.max_level() {
            return Err(EntryError::InvalidLevel);
        }
        if entry.is_huge(m, level) {
            let page_align = m.bits_below(level);
            proof {
                m.lemma_bits_below_mono(level as int, m.levels());
                m.lemma_wf_bounds();
            }
            let pv = entry.ppn(m).val();
            let low = pv & mask_low(page_align);
            proof {
                vstd::bits::lemma_u64_pow2_no_overflow(page_align as nat);
                vstd::bits::lemma_u64_low_bits_mask_is_mod(pv, page_align as nat);
            }
            if low != 0 {
                return Err(EntryError::LeafMisaligned);
            }
        }
        let vpn = vaddr.floor(m);
        let n = self.entries.len();
        proof {
            vstd::arithmetic::power2::lemma_pow2_pos(m.level_bits@[level as int] as nat);
            assert(pow2(m.level_bits@[level as int] as nat) <= n);
        }
        let index = vpn.index_in(m, level);
        self.entries[index] = entry;
        Ok(())
    }

    /// Reads the entry that resolves `vaddr` when this table is read as a
    /// level-`level` table, and classifies it.
    pub fn query_once(&self, m: &MmuMeta, vaddr: VAddr, level: usize) -> (r: PtQuery)
        requires
            self.wf(m),
            level as int <= m.spec_max_level(),
            pow2(m.level_bits@[level as int] as nat) <= self@.len(),
        ensures
            r == spec_classify(
                m,
                self@[spec_index_in(
                    m,
                    (vaddr@ as nat / pow2(m.page_bits as nat)) as u64,
                    level as int,
                ) as int],
            ),
    {
        let vpn = vaddr.floor(m);
        let n = self.entries.len();
        proof {
            vstd::arithmetic::power2::lemma_pow2_pos(m.level_bits@[level as int] as nat);
            assert(pow2(m.level_bits@[level as int] as nat) <= n);
        }
        let index = vpn.index_in(m, level);
        PtQuery::from(self.entries[index], m)
    }

    /// Clears every entry and returns what the valid ones said, in index
    /// order.
    pub fn erase(&mut self, m: &MmuMeta) -> (r: Vec<PtQuery>)
        requires
            old(self).wf(m),
        ensures
            final(self)@.len() == old(self)@.len(),
            forall|j: int| 0 <= j < final(self)@.len() ==> final(self)@[j].raw == 0,
            final(self).spec_base() == old(self).spec_base(),
            final(self).spec_level() == old(self).spec_level(),
            r@ == spec_erase_list(m, old(self)@),
    {
        let ghost orig: Seq<Pte> = self.entries@;
        let mut out: Vec<PtQuery> = Vec::new();
        let mut i: usize = 0;
        let n = self.entries.len();
        while i < n
            invariant
                m.wf(),
                n == self.entries@.len(),
                n == orig.len(),
                i <= n,
                forall|j: int| 0 <= j < i ==> self.entries@[j].raw == 0,
                forall|j: int| i <= j < n ==> self.entries@[j] == orig[j],
                out@ == spec_erase_list(m, orig.take(i as int)),
                self.base@ == old(self).spec_base(),
                self.level == old(self).spec_level(),
            decreases n - i,
        {
            let e = self.entries[i];
            self.entries[i] = Pte::zero();
            let q = PtQuery::from(e, m);
            if e.is_valid(m) {
                out.push(q);
            }
            proof {
                assert(orig.take(i + 1).drop_last() =~= orig.take(i as int));
                assert(orig.take(i + 1).last() == orig[i as int]);
            }
            i = i + 1;
        }
        proof {
            assert(orig.take(n as int) =~= orig);
        }
        out
    }
}

} // verus!
