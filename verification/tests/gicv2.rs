use krun_devices::gicv2::regs::{
    GICC_ABPR, GICC_AEOIR, GICC_AHPPIR, GICC_AIAR, GICC_BPR, GICC_CTLR, GICC_DIR, GICC_EOIR,
    GICC_HPPIR, GICC_IAR, GICC_IIDR, GICC_PMR, GICC_RPR, GICC_RPR_IDLE, GICD_CTLR,
    GICD_CTLR_EN_GRP0, GICD_CTLR_EN_GRP1, GICD_ICENABLER, GICD_ICFGR, GICD_IDREGS, GICD_IIDR,
    GICD_ISENABLER, GICD_ISPENDR, GICD_ITARGETSR, GICD_SGIR, GICD_TYPER,
    GICD_TYPER_CPU_NUMBER_SHIFT, GICV2_BASE_SIZE, IRQ_NUM,
};
use krun_devices::gicv2::state::{bit_set, clear_bit, set_bit, sgi_targets, spi_target};
use krun_devices::gicv2::{gicv2_id_reg, GicV2, IrqError};
use krun_devices::layout::MMIO_MEM_START;
use krun_devices::vcpu::{VcpuList, GIC_INTID_SPURIOUS};

fn gic(cpus: u64) -> GicV2 {
    GicV2::new(VcpuList::new(cpus))
}

fn read32(gic: &mut GicV2, vcpuid: u64, offset: u64) -> u32 {
    let mut data = [0u8; 4];
    gic.read(vcpuid, offset, &mut data);
    u32::from_le_bytes(data)
}

fn write32(gic: &mut GicV2, vcpuid: u64, offset: u64, val: u32) -> Vec<(u64, u32)> {
    gic.write(vcpuid, offset, &val.to_le_bytes())
}

/// The distributor sits above the CPU interface in the registered window.
fn dist(offset: u64) -> u64 {
    GICV2_BASE_SIZE + offset
}

/// The register offset covering INTID `irq` in a 1-bit-per-INTID bank.
fn bank(base: u64, irq: u32) -> u64 {
    dist(base + ((irq / 32) * 4) as u64)
}

#[test]
fn fdt_contract_matches_what_guests_look_for() {
    let gic = gic(1);
    assert_eq!(gic.fdt_compatibility(), "arm,gic-400");
    assert_eq!(gic.version(), 2);
    let props = gic.device_properties();
    assert_eq!(props.len(), 4);
    assert_eq!(props[0], gic.get_dist_addr());
    assert_eq!(props[1], gic.get_dist_size());
    assert_eq!(props[2], gic.get_cpuif_addr());
    assert_eq!(props[3], gic.get_cpuif_size());
}

#[test]
fn mmio_window_covers_both_frames_and_does_not_overlap_devices() {
    let gic = gic(1);
    assert_eq!(gic.get_mmio_addr(), gic.get_cpuif_addr());
    assert_eq!(
        gic.get_mmio_size(),
        gic.get_cpuif_size() + gic.get_dist_size()
    );
    // Everything must stay below the MMIO device region.
    assert!(gic.get_dist_addr() + gic.get_dist_size() <= MMIO_MEM_START);
    assert!(gic.get_cpuif_addr() < gic.get_dist_addr());
}

#[test]
fn pidr2_reports_arch_rev_2() {
    let mut g = gic(1);
    // PIDR2 is the 7th ID register; ArchRev lives in bits [7:4].
    let pidr2 = read32(&mut g, 0, dist(GICD_IDREGS + 0x18));
    assert_eq!((pidr2 >> 4) & 0xf, 2, "PIDR2 = {pidr2:#x}");
}

#[test]
fn typer_reports_line_count_and_cpu_count() {
    let mut g = gic(4);
    let typer = read32(&mut g, 0, dist(GICD_TYPER));
    assert_eq!(typer & 0x1f, (IRQ_NUM / 32) - 1);
    assert_eq!((typer >> GICD_TYPER_CPU_NUMBER_SHIFT) & 0x7, 3);
}

#[test]
fn ctlr_round_trips_enable_bits() {
    let mut g = gic(1);
    write32(&mut g, 0, dist(GICD_CTLR), 0xffff_ffff);
    assert_eq!(
        read32(&mut g, 0, dist(GICD_CTLR)),
        GICD_CTLR_EN_GRP0 | GICD_CTLR_EN_GRP1
    );
}

#[test]
fn iar_reads_spurious_when_nothing_is_pending() {
    let mut g = gic(1);
    assert_eq!(read32(&mut g, 0, GICC_IAR), GIC_INTID_SPURIOUS);
}

#[test]
fn eoi_and_deactivate_are_accepted() {
    let mut g = gic(1);
    // A guest EOIs every interrupt it takes; these must not fault or fall through to the
    // "unhandled" path.
    write32(&mut g, 0, GICC_EOIR, 42);
    write32(&mut g, 0, GICC_DIR, 42);
    assert_eq!(read32(&mut g, 0, GICC_RPR), GICC_RPR_IDLE);
}

#[test]
fn spis_route_to_the_cpu_the_guest_targets() {
    let mut g = gic(2);
    // Point SPI 40 at CPU 1, and check set_irq would deliver it there.
    write32(&mut g, 0, dist(GICD_ITARGETSR + 40), 0x02);
    let mask = g.state.itargetsr[40];
    assert_eq!(mask, 0x02);
    assert_eq!(spi_target(mask, 2), 1);
}

#[test]
fn spi_routing_falls_back_to_cpu0_for_unusable_masks() {
    // An empty mask, or one naming a CPU this VM does not have, must still land somewhere rather
    // than dropping the interrupt.
    assert_eq!(spi_target(0x00, 2), 0);
    assert_eq!(spi_target(0x80, 2), 0);
    assert_eq!(spi_target(0x01, 1), 0);
    // Lowest set bit wins when several CPUs are targeted.
    assert_eq!(spi_target(0x06, 4), 1);
}

#[test]
fn enable_state_round_trips_and_reads_back_from_either_register() {
    let mut g = gic(1);
    write32(&mut g, 0, bank(GICD_ISENABLER, 40), 1 << (40 % 32));
    assert!(bit_set(&g.state.enabled, 40));
    // ICENABLER aliases the same state for reads.
    assert_eq!(
        read32(&mut g, 0, bank(GICD_ICENABLER, 40)) & (1 << (40 % 32)),
        1 << (40 % 32)
    );
    write32(&mut g, 0, bank(GICD_ICENABLER, 40), 1 << (40 % 32));
    assert!(!bit_set(&g.state.enabled, 40));
}

#[test]
fn an_spi_raised_before_it_is_enabled_is_held_not_dropped() {
    let mut g = gic(1);
    // Nothing enabled yet: this is the virtio-blk-before-unmask case.
    assert_eq!(g.state.route(40, 1), None);
    assert!(bit_set(&g.state.pending, 40));
    // And it is visible as pending to a guest that asks.
    assert_eq!(
        read32(&mut g, 0, bank(GICD_ISPENDR, 40)) & (1 << (40 % 32)),
        1 << (40 % 32)
    );
}

#[test]
fn enabling_a_line_flushes_what_was_held_on_it() {
    let mut g = gic(1);
    let state = &mut g.state;
    state.route(40, 1);
    // Enabling the bank that covers INTID 40 hands it back for delivery...
    let flush = state.enable_and_take_pending(32, 1 << (40 % 32), 1);
    assert_eq!(flush, vec![(0, 40)]);
    // ...exactly once, and it is no longer held.
    assert!(!bit_set(&state.pending, 40));
    assert!(state
        .enable_and_take_pending(32, 1 << (40 % 32), 1)
        .is_empty());
}

#[test]
fn an_enabled_spi_is_routed_straight_to_its_target() {
    let mut g = gic(1);
    let state = &mut g.state;
    state.enable_and_take_pending(32, 1 << (40 % 32), 1);
    assert_eq!(state.route(40, 1), Some(0));
    // Delivered, not held.
    assert!(!bit_set(&state.pending, 40));
}

#[test]
fn disabling_a_line_stops_delivery_again() {
    let mut g = gic(1);
    let state = &mut g.state;
    state.enable_and_take_pending(32, 1 << (40 % 32), 1);
    state.disable(32, 1 << (40 % 32));
    assert_eq!(state.route(40, 1), None);
}

#[test]
fn sgis_and_ppis_are_delivered_without_needing_an_enable() {
    let mut g = gic(1);
    // Banked interrupts (below INTID 32) bypass the enable gate: the timer PPI in particular must
    // not be held hostage to a register write.
    assert_eq!(g.state.route(16, 1), Some(0));
    assert_eq!(g.state.route(0, 1), Some(0));
}

#[test]
fn sgi_and_ppi_targets_are_banked_per_cpu() {
    let mut g = gic(2);
    // INTID 4 is an SGI: ITARGETSR is read-only and reflects the reader.
    let reg = dist(GICD_ITARGETSR + 4);
    write32(&mut g, 0, reg, 0xff);
    assert_eq!(read32(&mut g, 0, reg) & 0xff, 0x01);
    assert_eq!(read32(&mut g, 1, reg) & 0xff, 0x02);
}

#[test]
fn sgir_target_list_filters_select_the_right_cpus() {
    // Filter 0: use CPUTargetList. Targeting CPU 1 only.
    assert_eq!(sgi_targets(0, 0b0010, 0, 4), vec![1]);
    assert_eq!(sgi_targets(0, 0b1011, 0, 4), vec![0, 1, 3]);
    // A target list naming CPUs beyond this VM is clamped, not panicked on.
    assert_eq!(sgi_targets(0, 0xff, 0, 2), vec![0, 1]);
    // Filter 1: everyone except the requester.
    assert_eq!(sgi_targets(1, 0, 1, 4), vec![0, 2, 3]);
    // Filter 2: the requester only, whatever the target list says.
    assert_eq!(sgi_targets(2, 0xff, 3, 4), vec![3]);
    // Filter 3 is reserved.
    assert!(sgi_targets(3, 0xff, 0, 4).is_empty());
}

#[test]
fn sgir_is_write_only() {
    let mut g = gic(2);
    assert_eq!(read32(&mut g, 0, dist(GICD_SGIR)), 0);
}

#[test]
fn icfgr_round_trips_edge_configuration() {
    let mut g = gic(1);
    // INTID 32 is the first SPI; its config pair is bits [1:0] of the ICFGR word covering INTIDs
    // 32..48.
    let reg = dist(GICD_ICFGR + (32 / 4));
    write32(&mut g, 0, reg, 0x2);
    assert_eq!(read32(&mut g, 0, reg) & 0x3, 0x2);
    write32(&mut g, 0, reg, 0x0);
    assert_eq!(read32(&mut g, 0, reg) & 0x3, 0x0);
}

#[test]
fn unknown_offsets_are_ignored_rather_than_panicking() {
    let mut g = gic(1);
    // A guest probing a register we do not model must not take the VMM down. 0x50 is reserved
    // space between GICD_IIDR and GICD_IGROUPR; 0xA0 is reserved on the CPU interface.
    assert_eq!(read32(&mut g, 0, dist(0x0050)), 0);
    write32(&mut g, 0, dist(0x0050), 0xdead_beef);
    assert_eq!(read32(&mut g, 0, 0x00A0), 0);
    write32(&mut g, 0, 0x00A0, 0xdead_beef);
}

#[test]
fn window_addresses() {
    let g = gic(1);
    assert_eq!(g.get_dist_addr(), 0x09fd_0000);
    assert_eq!(g.get_cpuif_addr(), 0x09fc_0000);
    assert_eq!(g.get_mmio_size(), 0x2_0000);
    assert_eq!(g.vcpu_count(), 1);
    assert_eq!(g.fdt_maint_irq(), 9);
}

#[test]
fn bitmap_bits_are_independent() {
    let mut map = [0u32; 32];
    set_bit(&mut map, 33);
    set_bit(&mut map, 1023);
    assert_eq!(map[1], 2);
    assert_eq!(map[31], 0x8000_0000);
    assert!(bit_set(&map, 33) && bit_set(&map, 1023));
    assert!(!bit_set(&map, 32) && !bit_set(&map, 34));
    clear_bit(&mut map, 33);
    assert_eq!(map[1], 0);
    assert!(bit_set(&map, 1023));
}

#[test]
fn empty_mask_goes_to_cpu0_on_a_large_machine() {
    // A mask can only name CPUs 0 to 7, so an empty one must not land on CPU 8.
    assert_eq!(spi_target(0, 16), 0);
    assert_eq!(spi_target(0x80, 16), 7);
}

#[test]
fn target_list_names_no_cpu_past_its_bits() {
    assert_eq!(sgi_targets(0, 0xffff_ffff, 0, 40), (0..32).collect::<Vec<u64>>());
}

#[test]
fn id_registers_in_order() {
    let mut g = gic(1);
    let expected = [
        0x04, 0x00, 0x00, 0x00, 0x90, 0xb4, 0x2b, 0x00, 0x0d, 0xf0, 0x05, 0xb1,
    ];
    for (i, value) in expected.iter().enumerate() {
        assert_eq!(gicv2_id_reg(4 * i as u64), *value);
        assert_eq!(
            read32(&mut g, 0, dist(GICD_IDREGS + 4 * i as u64)),
            *value
        );
    }
    assert_eq!(gicv2_id_reg(48), 0);
    assert_eq!(read32(&mut g, 0, dist(GICD_IIDR)), 0x43b);
}

#[test]
fn raise_then_unmask_queues_for_the_target() {
    let mut g = gic(2);
    write32(&mut g, 0, dist(GICD_ITARGETSR + 40), 0x02);
    assert_eq!(g.set_irq(Some(40)), Ok(None));
    assert_eq!(read32(&mut g, 1, GICC_IAR), GIC_INTID_SPURIOUS);
    let delivered = write32(&mut g, 0, bank(GICD_ISENABLER, 40), 1 << 8);
    assert_eq!(delivered, vec![(1, 40)]);
    // Not a second time.
    assert!(write32(&mut g, 0, bank(GICD_ISENABLER, 40), 1 << 8).is_empty());
    assert_eq!(read32(&mut g, 0, bank(GICD_ISPENDR, 40)), 0);
    assert_eq!(read32(&mut g, 0, GICC_IAR), GIC_INTID_SPURIOUS);
    assert_eq!(read32(&mut g, 1, GICC_IAR), 40);
    assert_eq!(read32(&mut g, 1, GICC_IAR), GIC_INTID_SPURIOUS);
}

#[test]
fn enabled_line_is_delivered_at_once() {
    let mut g = gic(1);
    write32(&mut g, 0, bank(GICD_ISENABLER, 33), 1 << 1);
    assert_eq!(g.set_irq(Some(33)), Ok(Some(0)));
    assert_eq!(read32(&mut g, 0, GICC_AIAR), 33);
}

#[test]
fn device_without_a_line_cannot_raise() {
    let mut g = gic(1);
    assert_eq!(g.set_irq(None), Err(IrqError::NoLineConfigured));
}

#[test]
fn disabled_line_keeps_its_interrupt_for_later() {
    let mut g = gic(1);
    write32(&mut g, 0, bank(GICD_ISENABLER, 64), 1);
    write32(&mut g, 0, bank(GICD_ICENABLER, 64), 1);
    assert_eq!(g.set_irq(Some(64)), Ok(None));
    // Enabling another line of the word leaves it held.
    assert!(write32(&mut g, 0, bank(GICD_ISENABLER, 65), 2).is_empty());
    assert_eq!(read32(&mut g, 0, bank(GICD_ISPENDR, 64)), 1);
    assert_eq!(
        write32(&mut g, 0, bank(GICD_ISENABLER, 64), 1),
        vec![(0, 64)]
    );
}

#[test]
fn several_held_lines_flush_in_ascending_order() {
    let mut g = gic(1);
    for irq in [50, 41, 63] {
        assert_eq!(g.set_irq(Some(irq)), Ok(None));
    }
    assert_eq!(
        write32(&mut g, 0, bank(GICD_ISENABLER, 41), 0xffff_ffff),
        vec![(0, 41), (0, 50), (0, 63)]
    );
    assert_eq!(read32(&mut g, 0, GICC_IAR), 41);
    assert_eq!(read32(&mut g, 0, GICC_IAR), 50);
    assert_eq!(read32(&mut g, 0, GICC_IAR), 63);
}

#[test]
fn lines_past_the_last_are_not_enabled() {
    let mut g = gic(1);
    // The last word of the bank covers INTIDs 992 to 1023, of which 1020 to 1023 are not lines.
    write32(&mut g, 0, dist(GICD_ISENABLER + 0x7c), 0xffff_ffff);
    assert_eq!(read32(&mut g, 0, dist(GICD_ISENABLER + 0x7c)), 0x0fff_ffff);
}

#[test]
fn software_interrupts_are_queued_in_order() {
    let mut g = gic(3);
    // Filter 1: everyone but the requester, INTID 5.
    assert_eq!(
        write32(&mut g, 1, dist(GICD_SGIR), 0x0100_0005),
        vec![(0, 5), (2, 5)]
    );
    // Filter 0 with a target list, INTID 15.
    assert_eq!(
        write32(&mut g, 0, dist(GICD_SGIR), 0x0005_000f),
        vec![(0, 15), (2, 15)]
    );
    // Filter 2: the requester.
    assert_eq!(
        write32(&mut g, 2, dist(GICD_SGIR), 0x02ff_0001),
        vec![(2, 1)]
    );
    // Filter 3 is reserved.
    assert!(write32(&mut g, 2, dist(GICD_SGIR), 0x03ff_0001).is_empty());
    assert_eq!(read32(&mut g, 2, GICC_IAR), 5);
    assert_eq!(read32(&mut g, 2, GICC_IAR), 15);
    assert_eq!(read32(&mut g, 2, GICC_IAR), 1);
    assert_eq!(read32(&mut g, 2, GICC_IAR), GIC_INTID_SPURIOUS);
    assert_eq!(read32(&mut g, 1, GICC_IAR), GIC_INTID_SPURIOUS);
}

#[test]
fn cpu_interface_registers() {
    let mut g = gic(1);
    write32(&mut g, 0, GICC_CTLR, 0x1234_5678);
    write32(&mut g, 0, GICC_PMR, 0xf0);
    write32(&mut g, 0, GICC_BPR, 3);
    assert_eq!(read32(&mut g, 0, GICC_CTLR), 0x1234_5678);
    assert_eq!(read32(&mut g, 0, GICC_PMR), 0xf0);
    assert_eq!(read32(&mut g, 0, GICC_BPR), 3);
    write32(&mut g, 0, GICC_ABPR, 7);
    assert_eq!(read32(&mut g, 0, GICC_BPR), 7);
    write32(&mut g, 0, GICC_AEOIR, 7);
    assert_eq!(read32(&mut g, 0, GICC_HPPIR), GIC_INTID_SPURIOUS);
    assert_eq!(read32(&mut g, 0, GICC_AHPPIR), GIC_INTID_SPURIOUS);
    assert_eq!(read32(&mut g, 0, GICC_IIDR), 0x0002_043b);
}

#[test]
fn targets_read_back_byte_by_byte() {
    let mut g = gic(4);
    let reg = dist(GICD_ITARGETSR + 40);
    assert_eq!(read32(&mut g, 0, reg), 0x0101_0101);
    write32(&mut g, 0, reg, 0x0804_0201);
    assert_eq!(read32(&mut g, 3, reg), 0x0804_0201);
    // Across the border of the banked INTIDs only the SPI bytes change.
    let border = dist(GICD_ITARGETSR + 30);
    write32(&mut g, 0, border, 0x0404_0404);
    assert_eq!(read32(&mut g, 1, border), 0x0404_0202);
}

#[test]
fn accesses_of_other_widths_are_ignored() {
    let mut g = gic(1);
    let mut data = [0xaau8; 8];
    g.read(0, dist(GICD_TYPER), &mut data);
    assert_eq!(data, [0xaau8; 8]);
    assert!(g.write(0, dist(GICD_CTLR), &[3]).is_empty());
    assert_eq!(read32(&mut g, 0, dist(GICD_CTLR)), 0);
}

#[test]
fn queues_are_first_in_first_out() {
    let mut list = VcpuList::new(2);
    assert_eq!(list.get_cpu_count(), 2);
    list.set_irq_common(0, 40);
    list.set_irq_common(0, 41);
    list.set_irq_common(1, 3);
    assert_eq!(list.get_pending_irq(0), 40);
    assert_eq!(list.get_pending_irq(0), 41);
    assert_eq!(list.get_pending_irq(0), GIC_INTID_SPURIOUS);
    assert_eq!(list.get_pending_irq(1), 3);
}

#[test]
fn only_lines_that_exist_are_held() {
    let mut g = gic(1);
    assert_eq!(g.set_irq(Some(1019)), Ok(None));
    write32(&mut g, 0, dist(GICD_ISPENDR + 0x7c), 0xffff_ffff);
    write32(&mut g, 0, dist(GICD_ICENABLER + 0x7c), 0xffff_ffff);
    assert_eq!(read32(&mut g, 0, dist(GICD_ISPENDR + 0x7c)), 1 << 27);
}
