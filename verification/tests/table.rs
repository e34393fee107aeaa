use page_table::{EntryError, MmuMeta, PageTable, Pte, PtQuery, Sv39, VAddr, VmFlags, PPN, VPN};

fn sv39() -> MmuMeta {
    Sv39::meta()
}

fn blank_table(m: &MmuMeta, level: usize) -> PageTable {
    PageTable::from_raw_parts(vec![Pte::zero(); 512], VPN::new(0), level, m)
}

#[test]
fn set_entry_rejects_misaligned_huge_leaf() {
    let m = sv39();
    let mut t = blank_table(&m, 2);
    // a level-2 leaf needs 18 zero bits in its page number; 0x3ff00 has 8
    let leaf = VmFlags::from_raw(0xf, &m).build_pte(&m, PPN::new(0x3ff00));
    let va = VAddr::new(0x4000_0000, &m);
    let r = t.set_entry(&m, va, leaf, 2);
    assert_eq!(r.unwrap_err(), EntryError::LeafMisaligned);
    // nothing was written
    for i in 0..512 {
        assert_eq!(t.get(i).raw, 0);
    }
}

#[test]
fn set_entry_accepts_aligned_huge_leaf() {
    let m = sv39();
    let mut t = blank_table(&m, 2);
    let ppn = PPN::new(3 << 18);
    let leaf = VmFlags::from_raw(0xf, &m).build_pte(&m, ppn);
    let va = VAddr::new(0x4000_0000, &m);
    assert!(t.set_entry(&m, va, leaf, 2).is_ok());
    let idx = va.floor(&m).index_in(&m, 2);
    assert_eq!(t.get(idx).raw, leaf.raw);
}

#[test]
fn set_entry_rejects_out_of_range_level() {
    let m = sv39();
    let mut t = blank_table(&m, 2);
    let leaf = VmFlags::from_raw(0xf, &m).build_pte(&m, PPN::new(0x1000));
    let r = t.set_entry(&m, VAddr::new(0, &m), leaf, 3);
    assert_eq!(r.unwrap_err(), EntryError::InvalidLevel);
    for i in 0..512 {
        assert_eq!(t.get(i).raw, 0);
    }
}

#[test]
fn set_entry_level_zero_needs_no_alignment() {
    let m = sv39();
    let mut t = blank_table(&m, 0);
    let leaf = VmFlags::from_raw(0xf, &m).build_pte(&m, PPN::new(0x12345));
    let va = VAddr::new(0x7000, &m);
    assert!(t.set_entry(&m, va, leaf, 0).is_ok());
    assert_eq!(t.get(7).raw, leaf.raw);
}

#[test]
fn query_finds_what_was_set() {
    let m = sv39();
    let mut t = blank_table(&m, 0);
    let leaf = VmFlags::from_raw(0xf, &m).build_pte(&m, PPN::new(0x777));
    let va = VAddr::new(0x2000, &m);
    t.set_entry(&m, va, leaf, 0).unwrap();
    match t.query_once(&m, va, 0) {
        PtQuery::Leaf(p) => assert_eq!(p.raw, leaf.raw),
        _ => panic!("expected a leaf"),
    }
    match t.query_once(&m, VAddr::new(0x3000, &m), 0) {
        PtQuery::Invalid => {}
        _ => panic!("expected invalid"),
    }
}

#[test]
fn query_classifies_subtable() {
    let m = sv39();
    let mut t = blank_table(&m, 1);
    let sub = VmFlags::from_raw(0x1, &m).build_pte(&m, PPN::new(0xabc));
    t.set_entry(&m, VAddr::new(0, &m), sub, 1).unwrap();
    match t.query_once(&m, VAddr::new(0, &m), 1) {
        PtQuery::SubTable(p) => assert_eq!(p.val(), 0xabc),
        _ => panic!("expected a sub-table"),
    }
}

#[test]
fn query_twice_is_identical() {
    let m = sv39();
    let mut t = blank_table(&m, 0);
    let leaf = VmFlags::from_raw(0xb, &m).build_pte(&m, PPN::new(0x99));
    let va = VAddr::new(0x5000, &m);
    t.set_entry(&m, va, leaf, 0).unwrap();
    let q1 = t.query_once(&m, va, 0);
    let q2 = t.query_once(&m, va, 0);
    match (q1, q2) {
        (PtQuery::Leaf(a), PtQuery::Leaf(b)) => assert_eq!(a.raw, b.raw),
        _ => panic!("expected the same leaf twice"),
    }
}

#[test]
fn erase_reports_valid_entries_in_order() {
    let m = sv39();
    let mut t = blank_table(&m, 0);
    let leaf_a = VmFlags::from_raw(0xf, &m).build_pte(&m, PPN::new(0x10));
    let leaf_b = VmFlags::from_raw(0x3, &m).build_pte(&m, PPN::new(0x20));
    let sub = VmFlags::from_raw(0x1, &m).build_pte(&m, PPN::new(0x30));
    t.set(3, leaf_b);
    t.set(1, leaf_a);
    t.set(200, sub);
    let out = t.erase(&m);
    assert_eq!(out.len(), 3);
    match out[0] {
        PtQuery::Leaf(p) => assert_eq!(p.ppn(&m).val(), 0x10),
        _ => panic!("expected a leaf first"),
    }
    match out[1] {
        PtQuery::Leaf(p) => assert_eq!(p.ppn(&m).val(), 0x20),
        _ => panic!("expected a leaf second"),
    }
    match out[2] {
        PtQuery::SubTable(p) => assert_eq!(p.val(), 0x30),
        _ => panic!("expected a sub-table last"),
    }
    for i in 0..512 {
        assert_eq!(t.get(i).raw, 0);
    }
}

#[test]
fn table_level_and_range() {
    let m = sv39();
    let t = PageTable::from_raw_parts(vec![Pte::zero(); 512], VPN::new(5 << 18), 1, &m);
    assert_eq!(t.level(), 1);
    let (start, end) = t.range(&m);
    assert_eq!(start.val(), 5 << 18);
    assert_eq!(end.val(), (5 << 18) + (1 << 18));
}

#[test]
fn erase_of_blank_table_reports_nothing() {
    let m = sv39();
    let mut t = blank_table(&m, 0);
    let out = t.erase(&m);
    assert!(out.is_empty());
}
