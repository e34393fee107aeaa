//! Positions on a page-table hierarchy.

use crate::addr::VPN;
use crate::meta::MmuMeta;
use vstd::arithmetic::power2::pow2;
use vstd::prelude::*;

verus! {

/// Pages spanned by one level-`level` entry.
pub open spec fn spec_span(m: &MmuMeta, level: int) -> nat {
    pow2(m.spec_bits_below(level))
}

/// The sentinel position one level past the root, on which every walk
/// stops, at the specification level.
pub open spec fn spec_stop(m: &MmuMeta) -> Pos {
    Pos { vpn: crate::addr::spec_pn(0), level: (m.spec_max_level() + 1) as usize }
}

/// A position on the page tables: the entry a walk should visit next,
/// named by a virtual page it covers and the level of the table it sits
/// in. A position whose level lies past the root stops the walk.
#[derive(Clone, Copy, Debug)]
pub struct Pos {
    /// A virtual page the target entry covers.
    pub vpn: VPN,
    /// The level of the target entry.
    pub level: usize,
}

impl Pos {
    /// A position from its parts.
    pub fn new(vpn: VPN, level: usize) -> (r: Pos)
        ensures
            r.vpn == vpn,
            r.level == level,
    {
        Pos { vpn, level }
    }

    /// The sentinel position one level past the root, on which every walk
    /// stops.
    pub fn stop(m: &MmuMeta) -> (r: Pos)
        requires
            m.wf(),
        ensures
            r.vpn@ == 0,
            r.level == m.spec_max_level() + 1,
            r == spec_stop(m),
    {
        let vpn = VPN::zero();
        proof {
            crate::addr::lemma_spec_pn_view::<crate::addr::Virtual>(0);
            crate::addr::lemma_pn_eq(vpn, crate::addr::spec_pn(0));
        }
        Pos { vpn, level: m.level_bits.len() }
    }

    /// One entry span backwards at this level.
    pub fn prev(self, m: &MmuMeta) -> (r: Pos)
        requires
            m.wf(),
            self.level as int <= m.spec_max_level(),
            self.vpn@ >= spec_span(m, self.level as int),
        ensures
            r.level == self.level,
            r.vpn@ == self.vpn@ - spec_span(m, self.level as int),
    {
        let delta = self.span(m);
        Pos { vpn: VPN::new(self.vpn.val() - delta), level: self.level }
    }

    /// One entry span forwards at this level.
    pub fn next(self, m: &MmuMeta) -> (r: Pos)
        requires
            m.wf(),
            self.level as int <= m.spec_max_level(),
            self.vpn@ + spec_span(m, self.level as int) <= u64::MAX,
        ensures
            r.level == self.level,
            r.vpn@ == self.vpn@ + spec_span(m, self.level as int),
    {
        let delta = self.span(m);
        Pos { vpn: VPN::new(self.vpn.val() + delta), level: self.level }
    }

    /// One level towards the root.
    pub fn up(self) -> (r: Pos)
        requires
            self.level < usize::MAX,
        ensures
            r.vpn == self.vpn,
            r.level == self.level + 1,
    {
        Pos { vpn: self.vpn, level: self.level + 1 }
    }

    /// One level away from the root.
    pub fn down(self) -> (r: Pos)
        requires
            self.level > 0,
        ensures
            r.vpn == self.vpn,
            r.level == self.level - 1,
    {
        Pos { vpn: self.vpn, level: self.level - 1 }
    }

    /// Pages spanned by one entry at this position's level.
    fn span(self, m: &MmuMeta) -> (r: u64)
        requires
            m.wf(),
            self.level as int <= m.spec_max_level(),
        ensures
            r == spec_span(m, self.level as int),
    {
        proof {
            m.lemma_wf_bounds();
            m.lemma_bits_below_mono(self.level as int, m.levels());
        }
        crate::meta::pow2_u64(m.bits_below(self.level))
    }
}

} // verus!
