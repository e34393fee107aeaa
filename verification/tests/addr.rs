use page_table::{MaybeInvalidPPN, MmuMeta, Pos, Sv39, VAddr, PPN, VPN};

fn sv39() -> MmuMeta {
    Sv39::meta()
}

#[test]
fn test_index_in() {
    let m = sv39();
    for i in 0..=m.max_level() {
        let vpn = VPN::new(1 << (i * 9));
        for j in 0..=m.max_level() {
            assert_eq!(vpn.index_in(&m, j), if i == j { 1 } else { 0 });
        }
    }
}

#[test]
fn test_align_level() {
    let m = sv39();
    assert_eq!(VPN::new(1).align_level(&m), 0);
    assert_eq!(VPN::new(1 << 9).align_level(&m), 1);
    assert_eq!(VPN::new(1 << 18).align_level(&m), 2);
    assert_eq!(VPN::new(0).align_level(&m), 2);
}

#[test]
fn align_level_odd_multiples() {
    let m = sv39();
    assert_eq!(VPN::new(3 << 9).align_level(&m), 1);
    assert_eq!(VPN::new(5 << 18).align_level(&m), 2);
    assert_eq!(VPN::new(6 << 9).align_level(&m), 1);
    assert_eq!(VPN::new(7).align_level(&m), 0);
}

#[test]
fn vpn_floor_and_ceil() {
    let m = sv39();
    let vpn = VPN::new(0x12345);
    assert_eq!(vpn.floor(&m, 1).val(), 0x12345 & !0x1ff);
    assert_eq!(vpn.ceil(&m, 1), (0x12345 + 0x1ff) >> 9);
    assert_eq!(vpn.floor(&m, 0).val(), 0x12345);
}

#[test]
fn vpn_base_and_range() {
    let m = sv39();
    let vpn = VPN::new(7);
    assert_eq!(vpn.base(&m).val(&m), 7 << 12);
    let (start, end) = vpn.vaddr_range(&m, 0);
    assert_eq!(start, 7 << 12);
    assert_eq!(end, 8 << 12);
    let (start2, end2) = VPN::new(1 << 9).vaddr_range(&m, 1);
    assert_eq!(start2, 1u64 << 21);
    assert_eq!(end2, 2u64 << 21);
}

#[test]
fn vaddr_canonical_form() {
    let m = sv39();
    // bits above the 39-bit space are cut on construction
    let va = VAddr::new(0xffff_ffff_ffff_f000, &m);
    // and mirrored back from the top address bit when read
    assert_eq!(va.val(&m), 0xffff_ffff_ffff_f000);
    // a low address comes back unchanged
    let low = VAddr::new(0x1234_5000, &m);
    assert_eq!(low.val(&m), 0x1234_5000);
}

#[test]
fn vaddr_pages() {
    let m = sv39();
    let va = VAddr::new(0x3456, &m);
    assert_eq!(va.floor(&m).val(), 3);
    assert_eq!(va.ceil(&m).val(), 4);
    assert_eq!(va.offset(&m), 0x456);
    let aligned = VAddr::new(0x4000, &m);
    assert_eq!(aligned.ceil(&m).val(), 4);
}

#[test]
fn page_number_wrapping() {
    let vpn = VPN::new(u64::MAX);
    assert_eq!(vpn.wrapping_add(1).val(), 0);
    assert_eq!(VPN::new(5).wrapping_add(3).val(), 8);
}

#[test]
fn maybe_invalid_ppn() {
    let m = sv39();
    let max = PPN::max_of(&m);
    assert_eq!(max.val(), (1 << 44) - 1);
    assert!(MaybeInvalidPPN::new(max).get(&m).is_some());
    assert!(MaybeInvalidPPN::invalid(&m).get(&m).is_none());
    let some = MaybeInvalidPPN::new(PPN::new(42)).get(&m);
    assert_eq!(some.unwrap().val(), 42);
}

#[test]
fn pos_movement() {
    let m = sv39();
    let p = Pos::new(VPN::new(1000), 1);
    assert_eq!(p.next(&m).vpn.val(), 1000 + 512);
    assert_eq!(p.next(&m).level, 1);
    assert_eq!(p.prev(&m).vpn.val(), 1000 - 512);
    assert_eq!(p.up().level, 2);
    assert_eq!(p.down().level, 0);
    let p0 = Pos::new(VPN::new(5), 0);
    assert_eq!(p0.next(&m).vpn.val(), 6);
    assert_eq!(p0.prev(&m).vpn.val(), 4);
    let s = Pos::stop(&m);
    assert_eq!(s.level, 3);
    assert_eq!(s.vpn.val(), 0);
}
