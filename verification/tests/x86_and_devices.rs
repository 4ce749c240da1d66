use lib::scancode::{decode_scancode, key_name_of, status_message_of, ScancodeEvent};
use lib::x86::{
    msr_value, Cr0, Cr3, Cr4, DescriptorTablePointer, Efer, GdtDesc, GdtDescAccess, GdtDescFlags, Gdtr, LApic, LApicInfo,
    RFlags, virt_addr, walk_step, WalkStep, init_gdt, KERNEL_CODE_DESCRIPTOR, KERNEL_DATA_DESCRIPTOR,
};

#[test]
fn control_registers_decode_their_bits() {
    let cr0 = Cr0::from_bits(0x8005_0033);
    assert!(cr0.pe && cr0.mp && !cr0.em && !cr0.ts && cr0.et && cr0.ne);
    assert!(cr0.wp && cr0.am && !cr0.nw && !cr0.cd && cr0.pg);
    let cr3 = Cr3::from_bits(0x0012_3028);
    assert!(cr3.pwt && cr3.pcd);
    assert_eq!(cr3.pcid, 0x028);
    assert_eq!(cr3.pba_pml4, 0x123);
    let cr4 = Cr4::from_bits(0x20_0020);
    assert!(cr4.pae && !cr4.pse);
    let efer = Efer::from_bits(0xd01);
    assert!(efer.sce && efer.lme && efer.lma && efer.nxe && !efer.svme);
    let flags = RFlags::from_bits(0x3246);
    assert!(flags.zf && flags.pf && flags.if_ && !flags.cf);
    assert_eq!(flags.iopl, 3);
    assert_eq!(RFlags::from_bits(0x1202).iopl, 1);
    assert_eq!(RFlags::from_bits(0x0202).iopl, 0);
    assert_eq!(Cr3::from_bits(0x0012_3fff).pcid, 0xfff);
    assert_eq!(Cr3::from_bits(0x0012_3800).pcid, 0x800);
}

#[test]
fn gdt_descriptors() {
    let desc = GdtDesc {
        limit_low: 0xffff,
        base_low: 0x1234,
        base_mid: 0x56,
        access: GdtDescAccess(0x9a),
        flags_limit: GdtDescFlags(0xaf),
        base_high: 0x78,
    };
    assert_eq!(desc.limit(), 0xf_ffff);
    assert_eq!(desc.base(), 0x7856_1234);
    assert!(desc.access.p() && desc.access.s() && desc.access.e() && desc.access.rw() && !desc.access.a());
    assert!(desc.flags_limit.g() && desc.flags_limit.l() && !desc.flags_limit.db());
    let gdtr = Gdtr { limit: 23, base: 0x1000 };
    let mut iter = GdtDesc::table_iter(&gdtr, vec![desc, desc, desc, desc]);
    assert!(iter.next().is_some());
    assert!(iter.next().is_some());
    assert!(iter.next().is_none());
    let ptr = DescriptorTablePointer::for_table(3, 0x2000);
    assert_eq!(ptr.limit, 23);
    assert_eq!(ptr.base, 0x2000);
}

#[test]
fn msr_and_local_apic() {
    assert_eq!(msr_value(0x5678, 0x1234), 0x1234_0000_5678);
    let info = LApicInfo(0xfee0_0900);
    assert!(info.bsp());
    assert!(info.global_enable());
    assert_eq!(info.base_addr(), 0xfee0_0000);
    let apic = LApic::current(info);
    assert_eq!(apic.base, 0xfee0_0000);
    let eoi = apic.write_eoi();
    assert_eq!((eoi.addr, eoi.value), (0xfee0_00b0, 0));
    assert_eq!(apic.read_spurious_interrupt_vector(), 0xfee0_00f0);
    let w = apic.write_initial_count(1000);
    assert_eq!((w.addr, w.value), (0xfee0_0380, 1000));
}

#[test]
fn scancodes_decode_keys_and_status() {
    assert!(matches!(decode_scancode(0x1e), ScancodeEvent::Key { name: "a", released: false }));
    assert!(matches!(decode_scancode(0x9e), ScancodeEvent::Key { name: "a", released: true }));
    assert!(matches!(decode_scancode(0x2b), ScancodeEvent::Key { name: "\\", released: false }));
    assert!(matches!(decode_scancode(0x58), ScancodeEvent::Key { name: "f12", released: false }));
    assert!(matches!(decode_scancode(0xfa), ScancodeEvent::Status("Command acknowledged (ACK)")));
    assert!(matches!(decode_scancode(0xaa), ScancodeEvent::Status(_)));
    assert!(matches!(decode_scancode(0x54), ScancodeEvent::Unknown));
    assert!(matches!(decode_scancode(0xd9), ScancodeEvent::Unknown));
    assert_eq!(key_name_of(0x39), Some("space"));
    assert_eq!(key_name_of(0x80), None);
    assert_eq!(status_message_of(0x00), status_message_of(0xff));
    assert_eq!(status_message_of(0x01), None);
}

#[test]
fn page_table_walk_steps() {
    assert_eq!(virt_addr(1, 2, 3, 4), 0x80_8060_4000);
    assert_eq!(virt_addr(511, 0, 0, 0), 0xff80_0000_0000);
    assert_eq!(walk_step(4, 0, 0x1003), WalkStep::Descend(0x1000));
    assert_eq!(walk_step(2, 0, 0x1002), WalkStep::Skip);
    assert_eq!(
        walk_step(3, 0x4000_0000, 0x4000_0083),
        WalkStep::Page { virt: 0x4000_0000, phys: 0x4000_0000, size: 0x4000_0000 }
    );
    assert_eq!(walk_step(3, 0, 0x5003), WalkStep::Descend(0x5000));
    assert_eq!(
        walk_step(2, 0x20_0000, 0x60_0083),
        WalkStep::Page { virt: 0x20_0000, phys: 0x60_0000, size: 0x20_0000 }
    );
    assert_eq!(
        walk_step(1, 0x1000, 0x8000_0000_0020_1003),
        WalkStep::Page { virt: 0x1000, phys: 0x20_1000, size: 0x1000 }
    );
}

#[test]
fn gdt_is_filled_and_pointed_to() {
    let mut gdt = vec![7u64; 512];
    let ptr = init_gdt(&mut gdt, 0x5000);
    assert_eq!(&gdt[..4], &[0, KERNEL_CODE_DESCRIPTOR, KERNEL_DATA_DESCRIPTOR, 7]);
    assert_eq!(ptr.limit, 4095);
    assert_eq!(ptr.base, 0x5000);
    let mut big = vec![0u64; 8193];
    assert_eq!(init_gdt(&mut big, 0).limit, 7);
}

#[test]
fn walk_tally_counts_tables_and_pages() {
    let mut tally = lib::x86::WalkTally::new();
    tally.record(4, WalkStep::Descend(0x2000));
    tally.record(3, WalkStep::Page { virt: 0, phys: 0, size: 0x4000_0000 });
    tally.record(3, WalkStep::Descend(0x3000));
    tally.record(2, WalkStep::Page { virt: 0, phys: 0, size: 0x20_0000 });
    tally.record(2, WalkStep::Descend(0x4000));
    tally.record(1, WalkStep::Page { virt: 0, phys: 0, size: 0x1000 });
    tally.record(1, WalkStep::Skip);
    assert_eq!((tally.pages_1gb, tally.pages_2mb, tally.pages_4kb), (1, 1, 1));
    assert_eq!(tally.table_bytes, 4 * 4096);
}
