//! The register map of the controller and what each register reads and does.
//!
//! Register offsets are those of version 2.0 of the ARM Generic Interrupt Controller architecture.

use crate::bits::{bit, pack};
use crate::bytes::{from_le32, le32};
use crate::gicv2::state::{
    after_disable, after_enable, after_raise, flushed, raise_target, sgi_target_cpus, GicRegs,
    GIC_INTERNAL, MAXIRQ,
};
use crate::vcpu::{acknowledged, after_acknowledge, deliver_all, GIC_INTID_SPURIOUS};
use vstd::prelude::*;

verus! {

/// Number of interrupt IDs the distributor advertises.
pub const IRQ_NUM: u32 = 288;

// Distributor registers, offsets from the GICD base.
pub const GICD_CTLR: u64 = 0x0000;
pub const GICD_TYPER: u64 = 0x0004;
pub const GICD_IIDR: u64 = 0x0008;
pub const GICD_IGROUPR: u64 = 0x0080;
pub const GICD_ISENABLER: u64 = 0x0100;
pub const GICD_ICENABLER: u64 = 0x0180;
pub const GICD_ISPENDR: u64 = 0x0200;
pub const GICD_ISACTIVER: u64 = 0x0300;
pub const GICD_IPRIORITYR: u64 = 0x0400;
pub const GICD_ITARGETSR: u64 = 0x0800;
pub const GICD_ICFGR: u64 = 0x0C00;
pub const GICD_SGIR: u64 = 0x0F00;
/// Start of the SGI pending registers.
pub const GICD_CPENDSGIR: u64 = 0x0F10;
pub const GICD_IDREGS: u64 = 0x0FD0;
/// First offset behind the CoreSight ID registers.
pub const GICD_IDREGS_END: u64 = 0x1000;

// GICD_CTLR fields (non-secure view, no security extensions).
pub const GICD_CTLR_EN_GRP0: u32 = 1;
pub const GICD_CTLR_EN_GRP1: u32 = 2;

/// Position of CPUNumber in `GICD_TYPER`.
pub const GICD_TYPER_CPU_NUMBER_SHIFT: u32 = 5;

/// ARM as the implementer.
pub const GIC_IMPLEMENTER: u32 = 0x43b;

// CPU interface registers, offsets from the GICC base.
pub const GICC_CTLR: u64 = 0x0000;
pub const GICC_PMR: u64 = 0x0004;
pub const GICC_BPR: u64 = 0x0008;
pub const GICC_IAR: u64 = 0x000C;
pub const GICC_EOIR: u64 = 0x0010;
pub const GICC_RPR: u64 = 0x0014;
pub const GICC_HPPIR: u64 = 0x0018;
pub const GICC_ABPR: u64 = 0x001C;
pub const GICC_AIAR: u64 = 0x0020;
pub const GICC_AEOIR: u64 = 0x0024;
pub const GICC_AHPPIR: u64 = 0x0028;
pub const GICC_APR0: u64 = 0x00D0;
pub const GICC_NSAPR0: u64 = 0x00E0;
pub const GICC_IIDR: u64 = 0x00FC;
pub const GICC_DIR: u64 = 0x1000;

/// Idle priority: no interrupt is running, so `GICC_RPR` reads as the lowest possible priority.
pub const GICC_RPR_IDLE: u32 = 0xFF;

/// `GICC_IIDR`: architecture revision 2 in bits [19:16], ARM as the implementer.
pub const GICC_IIDR_VALUE: u32 = 0x2_043b;

/// Both the distributor and the CPU interface get a 64 KiB window, the CPU interface first.
pub const GICV2_BASE_SIZE: u64 = 0x0001_0000;

/// Everything a guest can observe or change: the registers and the vCPUs' interrupt queues.
#[verifier::ext_equal]
pub struct GicModel {
    pub regs: GicRegs,
    pub queues: Seq<Seq<u32>>,
}

/// The CoreSight ID registers: PIDR4-7, PIDR0-3, CIDR0-3. PIDR2 carries architecture revision 2.
pub open spec fn id_regs() -> Seq<u32> {
    seq![0x04, 0x00, 0x00, 0x00, 0x90, 0xB4, 0x2B, 0x00, 0x0D, 0xF0, 0x05, 0xB1]
}

/// The ID register at a byte offset from `GICD_IDREGS`; past the last one there is nothing.
pub open spec fn id_reg_at(offset: u64) -> u32 {
    if offset / 4 < 12 {
        id_regs()[offset as int / 4]
    } else {
        0
    }
}

/// Whether line `32 * word + i` is in `set`.
pub open spec fn in_word(set: Set<int>, word: int) -> spec_fn(int) -> bool {
    |i: int| set.contains(32 * word + i)
}

/// The word of a one-bit-per-INTID register bank that describes `set`.
pub open spec fn bank_word(set: Set<int>, word: int) -> u32 {
    pack(in_word(set, word), 32)
}

/// The target byte of INTID `irq` as vCPU `vcpuid` reads it. SGI and PPI targets are banked and
/// read as the reader itself; past the last INTID there is nothing.
pub open spec fn target_byte(regs: GicRegs, vcpuid: u64, irq: int) -> u8 {
    if irq >= MAXIRQ {
        0
    } else if irq < GIC_INTERNAL {
        1u8 << ((vcpuid % 8) as u8)
    } else {
        regs.targets[irq]
    }
}

/// The INTID whose configuration field comes `i` fields after that of `irq`. Fields wrap around
/// inside the 32-line word, which only an access that is not word-aligned can reach.
pub open spec fn config_line(irq: int, i: int) -> int {
    irq / 32 * 32 + (irq % 32 + i) % 32
}

/// Bit `j` of the configuration word that starts at `irq`: the upper bit of each two-bit field
/// tells an edge-triggered line.
pub open spec fn is_edge_bit(edge: Set<int>, irq: int) -> spec_fn(int) -> bool {
    |j: int| j % 2 == 1 && edge.contains(config_line(irq, j / 2))
}

/// The first INTID that the configuration word at `offset` describes.
pub open spec fn config_irq(offset: u64) -> int {
    (offset - GICD_ICFGR) * 4
}

/// Whether the lines from `irq` on have a configuration.
pub open spec fn is_configurable(irq: int) -> bool {
    GIC_INTERNAL <= irq < IRQ_NUM
}

/// What a 32-bit read of the distributor register at `offset` returns.
pub open spec fn dist_value(m: GicModel, vcpuid: u64, offset: u64) -> u32 {
    if offset == GICD_CTLR {
        m.regs.gicd_ctlr
    } else if offset == GICD_TYPER {
        // ITLinesNumber in bits [4:0], CPUNumber (count - 1) in [7:5].
        (IRQ_NUM / 32 - 1 + 32 * ((m.queues.len() - 1) % 8)) as u32
    } else if offset == GICD_IIDR {
        GIC_IMPLEMENTER
    } else if GICD_ISENABLER <= offset < GICD_ISPENDR {
        bank_word(m.regs.enabled, (offset - GICD_ISENABLER) % 0x80 / 4)
    } else if GICD_ISPENDR <= offset < GICD_ISACTIVER {
        bank_word(m.regs.pending, (offset - GICD_ISPENDR) % 0x80 / 4)
    } else if GICD_ITARGETSR <= offset < GICD_ICFGR {
        let first = offset - GICD_ITARGETSR;
        from_le32(Seq::new(4, |i: int| target_byte(m.regs, vcpuid, first + i))) as u32
    } else if GICD_ICFGR <= offset < GICD_SGIR && is_configurable(config_irq(offset)) {
        pack(is_edge_bit(m.regs.edge, config_irq(offset)), 32)
    } else if GICD_IDREGS <= offset < GICD_IDREGS_END {
        id_reg_at((offset - GICD_IDREGS) as u64)
    } else {
        0
    }
}

/// The fields of a `GICD_SGIR` write.
pub open spec fn sgi_intid(val: u32) -> u32 {
    val % 16
}

pub open spec fn sgi_target_list(val: u32) -> u32 {
    val / 0x1_0000 % 0x100
}

pub open spec fn sgi_filter(val: u32) -> u32 {
    val / 0x100_0000 % 4
}

/// The first INTID of the word at `offset` in a one-bit-per-INTID bank that starts at `bank`.
pub open spec fn bank_base(bank: u64, offset: u64) -> u32 {
    ((offset - bank) / 4 * 32) as u32
}

/// The target masks after writing `val` at the byte of INTID `first`. The banked entries are
/// read-only.
pub open spec fn after_retarget(targets: Seq<u8>, first: int, val: u32) -> Seq<u8> {
    Seq::new(
        targets.len(),
        |irq: int|
            if GIC_INTERNAL <= irq && first <= irq < first + 4 {
                le32(val)[irq - first]
            } else {
                targets[irq]
            },
    )
}

/// The edge-triggered lines after writing `val` to the configuration word that starts at `irq`.
pub open spec fn after_reconfigure(edge: Set<int>, irq: int, val: u32) -> Set<int> {
    Set::new(
        |line: int|
            if line / 32 == irq / 32 && (line - irq) % 32 < 16 {
                bit(val, 2 * ((line - irq) % 32) + 1)
            } else {
                edge.contains(line)
            },
    )
}

/// The registers after a 32-bit write to the distributor register at `offset`.
pub open spec fn after_dist_write(regs: GicRegs, offset: u64, val: u32) -> GicRegs {
    if offset == GICD_CTLR {
        GicRegs { gicd_ctlr: val % 4, ..regs }
    } else if GICD_ISENABLER <= offset < GICD_ICENABLER {
        after_enable(regs, bank_base(GICD_ISENABLER, offset), val)
    } else if GICD_ICENABLER <= offset < GICD_ISPENDR {
        after_disable(regs, bank_base(GICD_ICENABLER, offset), val)
    } else if GICD_ITARGETSR <= offset < GICD_ICFGR {
        GicRegs { targets: after_retarget(regs.targets, offset - GICD_ITARGETSR, val), ..regs }
    } else if GICD_ICFGR <= offset < GICD_SGIR && is_configurable(config_irq(offset)) {
        GicRegs { edge: after_reconfigure(regs.edge, config_irq(offset), val), ..regs }
    } else {
        regs
    }
}

/// `intid` for each vCPU of `targets`, in order.
pub open spec fn sgi_deliveries(targets: Seq<u64>, intid: u32) -> Seq<(u64, u32)> {
    Seq::new(targets.len(), |i: int| (targets[i], intid))
}

/// The interrupts that a 32-bit write to the distributor register at `offset` delivers: those
/// held on the lines it enables, or the software-generated one it requests.
pub open spec fn dist_deliveries(m: GicModel, vcpuid: u64, offset: u64, val: u32) -> Seq<
    (u64, u32),
> {
    if GICD_ISENABLER <= offset < GICD_ICENABLER {
        flushed(m.regs, bank_base(GICD_ISENABLER, offset), val, m.queues.len() as u64)
    } else if offset == GICD_SGIR {
        sgi_deliveries(
            sgi_target_cpus(
                sgi_filter(val),
                sgi_target_list(val),
                vcpuid,
                m.queues.len() as u64,
            ),
            sgi_intid(val),
        )
    } else {
        seq![]
    }
}

/// Whether a 32-bit read at `offset` of the CPU interface acknowledges an interrupt.
pub open spec fn is_ack(offset: u64) -> bool {
    offset == GICC_IAR || offset == GICC_AIAR
}

/// What a 32-bit read of the CPU-interface register at `offset` returns.
pub open spec fn cpuif_value(m: GicModel, vcpuid: u64, offset: u64) -> u32 {
    if offset == GICC_CTLR {
        m.regs.gicc_ctlr
    } else if offset == GICC_PMR {
        m.regs.gicc_pmr
    } else if offset == GICC_BPR || offset == GICC_ABPR {
        m.regs.gicc_bpr
    } else if is_ack(offset) {
        acknowledged(m.queues[vcpuid as int])
    } else if offset == GICC_RPR {
        GICC_RPR_IDLE
    } else if offset == GICC_HPPIR || offset == GICC_AHPPIR {
        GIC_INTID_SPURIOUS
    } else if offset == GICC_IIDR {
        GICC_IIDR_VALUE
    } else {
        0
    }
}

/// The device after a 32-bit read of the CPU interface: only an acknowledge changes anything.
pub open spec fn after_cpuif_read(m: GicModel, vcpuid: u64, offset: u64) -> GicModel {
    if is_ack(offset) {
        GicModel {
            queues: m.queues.update(
                vcpuid as int,
                after_acknowledge(m.queues[vcpuid as int]),
            ),
            ..m
        }
    } else {
        m
    }
}

/// The registers after a 32-bit write of the CPU interface. There is no active state, so ending
/// or deactivating an interrupt changes nothing.
pub open spec fn after_cpuif_write(regs: GicRegs, offset: u64, val: u32) -> GicRegs {
    if offset == GICC_CTLR {
        GicRegs { gicc_ctlr: val, ..regs }
    } else if offset == GICC_PMR {
        GicRegs { gicc_pmr: val, ..regs }
    } else if offset == GICC_BPR || offset == GICC_ABPR {
        GicRegs { gicc_bpr: val, ..regs }
    } else {
        regs
    }
}

/// What the bytes read from the device's window at `offset` are. Only 32-bit accesses are
/// served; any other leaves the buffer as it is.
pub open spec fn read_bytes(m: GicModel, vcpuid: u64, offset: u64, data: Seq<u8>) -> Seq<u8> {
    if data.len() != 4 {
        data
    } else if offset >= GICV2_BASE_SIZE {
        le32(dist_value(m, vcpuid, (offset - GICV2_BASE_SIZE) as u64))
    } else {
        le32(cpuif_value(m, vcpuid, offset))
    }
}

/// The device after a read of `len` bytes from its window at `offset`.
pub open spec fn after_read(m: GicModel, vcpuid: u64, offset: u64, len: nat) -> GicModel {
    if len != 4 || offset >= GICV2_BASE_SIZE {
        m
    } else {
        after_cpuif_read(m, vcpuid, offset)
    }
}

/// The interrupts that writing `data` to the window at `offset` delivers.
pub open spec fn write_deliveries(m: GicModel, vcpuid: u64, offset: u64, data: Seq<u8>) -> Seq<
    (u64, u32),
> {
    if data.len() == 4 && offset >= GICV2_BASE_SIZE {
        dist_deliveries(m, vcpuid, (offset - GICV2_BASE_SIZE) as u64, from_le32(data) as u32)
    } else {
        seq![]
    }
}

/// The device after writing `data` to the window at `offset`.
pub open spec fn after_write(m: GicModel, vcpuid: u64, offset: u64, data: Seq<u8>) -> GicModel {
    if data.len() != 4 {
        m
    } else if offset >= GICV2_BASE_SIZE {
        GicModel {
            regs: after_dist_write(
                m.regs,
                (offset - GICV2_BASE_SIZE) as u64,
                from_le32(data) as u32,
            ),
            queues: deliver_all(m.queues, write_deliveries(m, vcpuid, offset, data)),
        }
    } else {
        GicModel { regs: after_cpuif_write(m.regs, offset, from_le32(data) as u32), ..m }
    }
}

/// The state after a device raised `irq`.
pub open spec fn after_irq(m: GicModel, irq: u32) -> GicModel {
    GicModel {
        regs: after_raise(m.regs, irq),
        queues: match raise_target(m.regs, irq, m.queues.len() as u64) {
            None => m.queues,
            Some(cpu) => deliver_all(m.queues, seq![(cpu, irq)]),
        },
    }
}

/// Whether a read of `len` bytes at `offset` needs `vcpuid` to be one of the machine's vCPUs: an
/// acknowledge takes from that vCPU's queue.
pub open spec fn read_needs_vcpu(offset: u64, len: nat) -> bool {
    len == 4 && is_ack(offset)
}

/// Whether writing `data` at `offset` needs `vcpuid` to be one of the machine's vCPUs: an SGI to
/// the requester itself goes to that vCPU's queue.
pub open spec fn write_needs_vcpu(offset: u64, data: Seq<u8>) -> bool {
    data.len() == 4 && offset == GICV2_BASE_SIZE + GICD_SGIR && sgi_filter(
        from_le32(data) as u32,
    ) == 2
}

} // verus!
