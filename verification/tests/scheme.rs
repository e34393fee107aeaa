use page_table::{pt_level_bits, MmuMeta, Pte, Sv39, Sv48, Sv57, VmFlags, PPN};

fn sv39() -> MmuMeta {
    Sv39::meta()
}

#[test]
fn test_pages() {
    let m = sv39();
    assert_eq!(m.pages_in_table(0), 512);
    assert_eq!(m.pages_in_table(1), 512 * 512);
    assert_eq!(m.pages_in_table(2), 512 * 512 * 512);

    assert_eq!(m.bytes_in_table(0), 4096 * 512);
    assert_eq!(m.bytes_in_table(1), 4096 * 512 * 512);
    assert_eq!(m.bytes_in_table(2), 4096 * 512 * 512 * 512);
}

#[test]
fn bytes_in_page_per_level() {
    let m = sv39();
    assert_eq!(m.bytes_in_page(0), 4096);
    assert_eq!(m.bytes_in_page(1), 2 * 1024 * 1024);
    assert_eq!(m.bytes_in_page(2), 1024 * 1024 * 1024);
}

#[test]
fn sv_shapes() {
    let m39 = Sv39::meta();
    let m48 = Sv48::meta();
    let m57 = Sv57::meta();
    assert_eq!(m39.v_addr_bits(), 39);
    assert_eq!(m48.v_addr_bits(), 48);
    assert_eq!(m57.v_addr_bits(), 57);
    assert_eq!(m39.max_level(), 2);
    assert_eq!(m48.max_level(), 3);
    assert_eq!(m57.max_level(), 4);
    assert_eq!(m39.page_bits, 12);
    assert_eq!(m48.page_bits, 12);
    assert_eq!(m57.page_bits, 12);
}

#[test]
fn level_bits_from_page_bits() {
    assert_eq!(pt_level_bits(12), 9);
    assert_eq!(pt_level_bits(14), 11);
}

#[test]
fn ppn_field_mask() {
    let m = sv39();
    assert_eq!(m.ppn_mask(), 0x3f_ffff_ffff_fc00);
}

#[test]
fn flags_and_ppn_are_disjoint() {
    let m = sv39();
    // For raw entries of every shape, the flags view drops exactly the
    // page-number field.
    for raw in [
        0u64,
        0xff,
        0x3f_ffff_ffff_fc00,
        0xffff_ffff_ffff_ffff,
        (0x1234 << 10) | 0xcf,
    ] {
        let pte = Pte::new(raw);
        assert_eq!(pte.flags(&m).val() & m.ppn_mask(), 0);
    }
}

#[test]
fn set_ppn_round_trip() {
    let m = sv39();
    // Prior flag bits, high and low, do not leak into the page number.
    let flags = VmFlags::from_raw(0x8000_0000_0000_00cf, &m);
    let pte = flags.build_pte(&m, PPN::new(0x1234));
    assert_eq!(pte.ppn(&m).val(), 0x1234);
    assert_eq!(pte.flags(&m).val(), 0x8000_0000_0000_00cf);
    let max = PPN::max_of(&m);
    let pte2 = flags.build_pte(&m, max);
    assert_eq!(pte2.ppn(&m).val(), max.val());
}

#[test]
fn entry_classification_bits() {
    let m = sv39();
    let sub = VmFlags::from_raw(0x1, &m).build_pte(&m, PPN::new(0x55));
    assert!(sub.is_valid(&m));
    assert!(!sub.is_leaf(&m));
    assert!(!sub.is_huge(&m, 1));
    let leaf = VmFlags::from_raw(0xf, &m).build_pte(&m, PPN::new(0x66));
    assert!(leaf.is_valid(&m));
    assert!(leaf.is_leaf(&m));
    assert!(leaf.is_huge(&m, 1));
    assert!(!leaf.is_huge(&m, 0));
    assert!(!Pte::zero().is_valid(&m));
}

#[test]
fn flag_operations() {
    let m = sv39();
    let r = VmFlags::from_raw(0x2, &m);
    let w = VmFlags::from_raw(0x4, &m);
    let rw = r.bitor(w);
    assert_eq!(rw.val(), 0x6);
    assert!(rw.contains(r));
    assert!(!r.contains(rw));
    assert_eq!(rw.bitand(r).val(), 0x2);
    assert_eq!(rw.bitxor(r).val(), 0x4);
}

#[test]
fn parse_flag_letters() {
    let m = sv39();
    assert_eq!(page_table::riscv::parse_flags("VRWX", &m).val(), 0xf);
    assert_eq!(page_table::riscv::parse_flags("dagu xwrv", &m).val(), 0xff);
    assert_eq!(page_table::riscv::parse_flags("", &m).val(), 0);
    assert_eq!(page_table::riscv::parse_flags("zz__9", &m).val(), 0);
    assert_eq!(page_table::riscv::parse_flags("UV", &m).val(), 0x11);
}

#[test]
fn mixed_width_scheme() {
    // a scheme whose levels have different index widths
    let m = MmuMeta {
        p_addr_bits: 40,
        page_bits: 12,
        level_bits: vec![4, 6, 8],
        ppn_pos: 10,
        leaf_mask: 0xe,
        valid_mask: 0x1,
    };
    assert_eq!(m.v_addr_bits(), 30);
    assert_eq!(m.max_level(), 2);
    assert_eq!(m.pages_in_table(0), 16);
    assert_eq!(m.pages_in_table(1), 1 << 10);
    assert_eq!(m.pages_in_table(2), 1 << 18);
    let vpn = page_table::VPN::new((0xab << 10) | (0x2f << 4) | 0x9);
    assert_eq!(vpn.index_in(&m, 0), 0x9);
    assert_eq!(vpn.index_in(&m, 1), 0x2f);
    assert_eq!(vpn.index_in(&m, 2), 0xab);
    assert_eq!(vpn.floor(&m, 1).val(), 0xab << 10 | 0x2f << 4);
    assert_eq!(page_table::VPN::new(1 << 4).align_level(&m), 1);
    assert_eq!(page_table::VPN::new(1 << 10).align_level(&m), 2);
}
