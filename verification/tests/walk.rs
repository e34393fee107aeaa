use page_table::{
    Decorator, MmuMeta, PageTableShuttle, Pos, Pte, Step, Sv39, Update, Visitor, VmFlags, PPN,
    VPN,
};

fn sv39() -> MmuMeta {
    Sv39::meta()
}

fn subtable_pte(m: &MmuMeta, ppn: u64) -> Pte {
    VmFlags::from_raw(0x1, m).build_pte(m, PPN::new(ppn))
}

fn leaf_pte(m: &MmuMeta, ppn: u64, flags: u64) -> Pte {
    VmFlags::from_raw(flags, m).build_pte(m, PPN::new(ppn))
}

/// Collects every valid mapping the walk reaches, in visit order.
struct Collector<'a> {
    m: &'a MmuMeta,
    map: Vec<(u64, usize)>,
    out: Vec<(u64, usize, u64)>,
}

impl Visitor for Collector<'_> {
    fn start(&mut self, pos: Pos) -> Pos {
        Pos::new(pos.vpn, 0)
    }

    fn translate(&self, ppn: PPN) -> Option<usize> {
        self.map
            .iter()
            .find(|(p, _)| *p == ppn.val())
            .map(|(_, f)| *f)
    }

    fn arrive(&mut self, pte: Pte, target: Pos) -> Pos {
        if pte.is_valid(self.m) {
            self.out.push((target.vpn.val(), target.level, pte.raw));
        }
        target.next(self.m)
    }

    fn meet(&mut self, level: usize, pte: Pte, target: Pos) -> Pos {
        if pte.is_valid(self.m) {
            self.out.push((target.vpn.val(), level, pte.raw));
        }
        let skipped = Pos::new(target.vpn, level).next(self.m);
        Pos::new(skipped.vpn, 0)
    }
}

#[test]
fn walk_visits_leaves_in_order() {
    let m = sv39();
    // root[0] -> table a (empty), root[7] -> table b,
    // b[0] a huge leaf, b[4] -> table c with three leaves
    let mut root = vec![Pte::zero(); 512];
    let a = vec![Pte::zero(); 512];
    let mut b = vec![Pte::zero(); 512];
    let mut c = vec![Pte::zero(); 512];
    root[0] = subtable_pte(&m, 0x100);
    root[7] = subtable_pte(&m, 0x200);
    let huge = leaf_pte(&m, 0x1234, 0x7);
    b[0] = huge;
    b[4] = subtable_pte(&m, 0x300);
    let l0 = leaf_pte(&m, 0x1000, 0xf);
    let l9 = leaf_pte(&m, 0x2000, 0xb);
    let l511 = leaf_pte(&m, 0x3000, 0x7);
    c[0] = l0;
    c[9] = l9;
    c[511] = l511;
    let shuttle = PageTableShuttle::new(vec![root, a, b, c], 0, &m);
    let mut v = Collector {
        m: &m,
        map: vec![(0x100, 1), (0x200, 2), (0x300, 3)],
        out: Vec::new(),
    };
    let (left, rest, _) = shuttle.walk(&m, &mut v, 100_000);
    assert!(left > 0);
    // the walk came to rest past the root table's range
    assert!(rest.vpn.val() >= 1 << 27);
    let base7 = 7u64 << 18;
    let c_base = base7 + (4 << 9);
    let expected = vec![
        (base7, 1usize, huge.raw),
        (c_base, 0usize, l0.raw),
        (c_base + 9, 0usize, l9.raw),
        (c_base + 511, 0usize, l511.raw),
    ];
    assert_eq!(v.out, expected);
}

#[test]
fn walk_stops_when_budget_runs_out() {
    let m = sv39();
    let root = vec![Pte::zero(); 512];
    let shuttle = PageTableShuttle::new(vec![root], 0, &m);
    let mut v = Collector {
        m: &m,
        map: Vec::new(),
        out: Vec::new(),
    };
    let (left, rest, _) = shuttle.walk(&m, &mut v, 3);
    assert_eq!(left, 0);
    // a walk cut off by the budget rests on the sentinel
    assert_eq!(rest.level, 3);
    assert!(v.out.is_empty());
}

/// Builds the missing intermediate tables on the way to one leaf mapping.
struct Builder<'a> {
    m: &'a MmuMeta,
    vpn: u64,
    leaf: Pte,
    next_frame: usize,
}

impl Decorator for Builder<'_> {
    fn start(&mut self, _pos: Pos) -> Pos {
        Pos::new(VPN::new(self.vpn), 0)
    }

    fn translate(&self, ppn: PPN) -> Option<usize> {
        // frames are published at page numbers 0x500, 0x501, ...
        Some((ppn.val() - 0x500) as usize)
    }

    fn arrive(&mut self, pte: &mut Pte, _target: Pos) -> Pos {
        *pte = self.leaf;
        Pos::stop(self.m)
    }

    fn meet(&mut self, _level: usize, _pte: Pte, _target: Pos) -> Update {
        let f = self.next_frame;
        self.next_frame += 1;
        Update::Pte(subtable_pte(self.m, 0x500 + f as u64), f)
    }
}

#[test]
fn walk_mut_materializes_missing_tables() {
    let m = sv39();
    let frames = vec![
        vec![Pte::zero(); 512],
        vec![Pte::zero(); 512],
        vec![Pte::zero(); 512],
    ];
    let mut shuttle = PageTableShuttle::new(frames, 0, &m);
    let vpn = (3u64 << 18) | (5 << 9) | 7;
    let leaf = leaf_pte(&m, 0xcafe, 0xf);
    let mut b = Builder {
        m: &m,
        vpn,
        leaf,
        next_frame: 1,
    };
    let (left, _, _) = shuttle.walk_mut(&m, &mut b, 100_000);
    assert!(left > 0);
    // root[3] now points at frame 1, frame 1 entry 5 at frame 2,
    // and frame 2 entry 7 holds the leaf
    let e_root = shuttle.entry(0, 3);
    assert!(e_root.is_valid(&m) && !e_root.is_leaf(&m));
    assert_eq!(e_root.ppn(&m).val(), 0x501);
    let e_mid = shuttle.entry(1, 5);
    assert!(e_mid.is_valid(&m) && !e_mid.is_leaf(&m));
    assert_eq!(e_mid.ppn(&m).val(), 0x502);
    assert_eq!(shuttle.entry(2, 7).raw, leaf.raw);
    // the rest of the arena kept its shape
    assert_eq!(shuttle.frame_count(), 3);
    for f in 0..3 {
        assert_eq!(shuttle.frame_len(f), 512);
    }
}

/// Rewrites the flags of the leaf it arrives at.
struct Retagger<'a> {
    m: &'a MmuMeta,
    vpn: u64,
    map: Vec<(u64, usize)>,
}

impl Decorator for Retagger<'_> {
    fn start(&mut self, _pos: Pos) -> Pos {
        Pos::new(VPN::new(self.vpn), 0)
    }

    fn translate(&self, ppn: PPN) -> Option<usize> {
        self.map
            .iter()
            .find(|(p, _)| *p == ppn.val())
            .map(|(_, f)| *f)
    }

    fn arrive(&mut self, pte: &mut Pte, _target: Pos) -> Pos {
        let kept = pte.ppn(self.m);
        *pte = VmFlags::from_raw(0x3, self.m).build_pte(self.m, kept);
        Pos::stop(self.m)
    }

    fn meet(&mut self, _level: usize, _pte: Pte, _target: Pos) -> Update {
        Update::Target(Pos::stop(self.m))
    }
}

#[test]
fn walk_mut_rewrites_an_entry_in_place() {
    let m = sv39();
    // root[0] -> mid, mid[0] -> low, low[44] maps a leaf: page number 44
    let mut root = vec![Pte::zero(); 512];
    let mut mid = vec![Pte::zero(); 512];
    let mut low = vec![Pte::zero(); 512];
    root[0] = subtable_pte(&m, 0x700);
    mid[0] = subtable_pte(&m, 0x701);
    low[44] = leaf_pte(&m, 0xbeef, 0xf);
    let frames = vec![root, mid, low];
    let mut shuttle = PageTableShuttle::new(frames, 0, &m);
    let mut d = Retagger {
        m: &m,
        vpn: 44,
        map: vec![(0x700, 1), (0x701, 2)],
    };
    let _ = shuttle.walk_mut(&m, &mut d, 100_000);
    let e = shuttle.entry(2, 44);
    assert_eq!(e.ppn(&m).val(), 0xbeef);
    assert_eq!(e.flags(&m).val(), 0x3);
}

#[test]
fn step_classification() {
    let m = sv39();
    let mut root = vec![Pte::zero(); 512];
    root[1] = subtable_pte(&m, 0x100);
    root[2] = leaf_pte(&m, 5 << 18, 0xf);
    let shuttle = PageTableShuttle::new(vec![root], 0, &m);
    // at the frame's own level the step arrives, whatever the entry holds
    assert_eq!(
        shuttle.step_of(&m, 0, 0, 2, Pos::new(VPN::new(0), 2)),
        Step::Arrive(0)
    );
    // below it, a valid non-leaf entry is a descent
    assert_eq!(
        shuttle.step_of(&m, 0, 0, 2, Pos::new(VPN::new(1 << 18), 0)),
        Step::Descend(1)
    );
    // a huge leaf blocks the way down
    assert_eq!(
        shuttle.step_of(&m, 0, 0, 2, Pos::new(VPN::new(2 << 18), 0)),
        Step::Obstruct(2)
    );
    // so does an invalid entry
    assert_eq!(
        shuttle.step_of(&m, 0, 0, 2, Pos::new(VPN::new(3 << 18), 0)),
        Step::Obstruct(3)
    );
    // a target past the frame's range, or above its level, unwinds
    assert_eq!(
        shuttle.step_of(&m, 0, 0, 2, Pos::new(VPN::new(1 << 27), 0)),
        Step::Unwind
    );
    assert_eq!(
        shuttle.step_of(&m, 0, 0, 2, Pos::new(VPN::new(0), 3)),
        Step::Unwind
    );
}
