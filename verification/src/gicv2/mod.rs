//! Userspace GICv2.
//!
//! Delivery goes through [`VcpuList`](crate::vcpu::VcpuList), which keeps a FIFO of pending
//! INTIDs per vCPU. There is no priority masking, no active-state tracking and no preemption: the
//! registers that would drive those are accepted and ignored.
//!
//! The enable state is tracked, and an interrupt raised on a masked line is held until the guest
//! unmasks it. Delivery is a FIFO drained by `GICC_IAR`, so an interrupt handed to a guest that
//! has no handler for it yet would not be early, it would be gone: a guest that brings up a
//! device and only then unmasks its line would lose the first completion and wait for it forever.
//!
//! The device occupies one window: the CPU interface first, the distributor right behind it.
//! Operations that deliver interrupts return the list of what they delivered, so that whoever
//! runs the vCPUs can wake the targets once the device is no longer borrowed.

pub mod access_laws;
pub mod laws;
pub mod regs;
pub mod state;

use crate::bits::{
    bit, lemma_bit_and_not, lemma_bit_cases, lemma_bit_or, lemma_bit_zero, lemma_pack_of_bits, pack,
};
use crate::bytes::{from_le32, le32};
use crate::gicv2::regs::{
    after_cpuif_read, after_cpuif_write, after_dist_write, after_irq, after_read,
    after_reconfigure,
    after_retarget, after_write, bank_word, config_line, cpuif_value, dist_deliveries, dist_value,
    id_reg_at, id_regs, in_word, is_ack, is_configurable, is_edge_bit, read_bytes,
    read_needs_vcpu, sgi_deliveries, sgi_filter, target_byte, write_deliveries, write_needs_vcpu,
    GicModel, GICC_ABPR, GICC_AHPPIR, GICC_AIAR, GICC_BPR, GICC_CTLR, GICC_HPPIR, GICC_IAR,
    GICC_IIDR, GICC_IIDR_VALUE, GICC_PMR, GICC_RPR, GICC_RPR_IDLE, GICD_CTLR, GICD_ICENABLER,
    GICD_ICFGR, GICD_IDREGS, GICD_IDREGS_END, GICD_IIDR, GICD_ISACTIVER, GICD_ISENABLER,
    GICD_ISPENDR, GICD_ITARGETSR, GICD_SGIR, GICD_TYPER, GICV2_BASE_SIZE, GIC_IMPLEMENTER,
    IRQ_NUM,
};
use crate::gicv2::state::{
    as_cpu, delivery_of, flushed, in_target_list, is_named_and_held, is_other_cpu,
    lemma_select_sound, lines, raise_target, sgi_target_cpus, sgi_targets, GicRegs, GicV2State,
    IrqBitmap, GIC_INTERNAL, MAXIRQ,
};
use crate::layout::MMIO_MEM_START;
use crate::vcpu::{deliver_all, VcpuList, GIC_INTID_SPURIOUS};
use vstd::prelude::*;

verus! {

/// GICv2 has no maintenance interrupt of its own to describe here; this is the PPI that a vGIC
/// is conventionally reported with.
pub const GICV2_MAINT_IRQ: u32 = 9;

/// CoreSight ID registers for a GICv2 distributor, by byte offset from `GICD_IDREGS`. The only
/// field a guest normally inspects is the architecture revision in PIDR2, which must read as 2
/// for the controller to be recognised as a GICv2.
pub fn gicv2_id_reg(offset: u64) -> (val: u32)
    ensures
        val == id_reg_at(offset),
{
    let ids: [u32; 12] = [
        0x04, 0x00, 0x00, 0x00,  // PIDR4-7
        0x90, 0xB4, 0x2B, 0x00,  // PIDR0-3
        0x0D, 0xF0, 0x05, 0xB1,  // CIDR0-3
    ];
    assert(ids@ =~= id_regs());
    if offset / 4 < 12 {
        ids[(offset / 4) as usize]
    } else {
        0
    }
}

/// The number that four bytes spell in little-endian order.
fn word_of(b0: u8, b1: u8, b2: u8, b3: u8) -> (val: u32)
    ensures
        val == from_le32(seq![b0, b1, b2, b3]),
{
    b0 as u32 + 0x100 * (b1 as u32) + 0x1_0000 * (b2 as u32) + 0x100_0000 * (b3 as u32)
}

/// Store `val` in a four-byte buffer in little-endian order.
fn put_word(data: &mut [u8], val: u32)
    requires
        old(data)@.len() == 4,
    ensures
        final(data)@ == le32(val),
{
    data[0] = (val % 0x100) as u8;
    data[1] = (val / 0x100 % 0x100) as u8;
    data[2] = (val / 0x1_0000 % 0x100) as u8;
    data[3] = (val / 0x100_0000) as u8;
    assert(data@ =~= le32(val));
}

/// The number in a four-byte buffer.
fn get_word(data: &[u8]) -> (val: u32)
    requires
        data@.len() == 4,
    ensures
        val == from_le32(data@),
{
    let val: u32 = word_of(data[0], data[1], data[2], data[3]);
    assert(seq![data@[0], data@[1], data@[2], data@[3]] =~= data@);
    val
}

/// Enabling lines delivers only to vCPUs that exist.
proof fn lemma_flushed_targets(regs: GicRegs, base: u32, val: u32, cpu_count: u64)
    requires
        cpu_count > 0,
    ensures
        forall|k: int|
            0 <= k < flushed(regs, base, val, cpu_count).len() ==> (#[trigger] flushed(
                regs,
                base,
                val,
                cpu_count,
            )[k]).0 < cpu_count,
{
    assert forall|k: int| 0 <= k < flushed(regs, base, val, cpu_count).len() implies (
    #[trigger] flushed(regs, base, val, cpu_count)[k]).0 < cpu_count by {
        lemma_select_sound(
            32,
            is_named_and_held(regs, base, val),
            delivery_of(regs, base, cpu_count),
            k,
        );
    }
}

/// An SGI goes only to vCPUs that exist, provided that its requester does.
proof fn lemma_sgi_targets(filter: u32, target_list: u32, self_id: u64, cpu_count: u64)
    requires
        filter == 2 ==> self_id < cpu_count,
    ensures
        forall|k: int|
            0 <= k < sgi_target_cpus(filter, target_list, self_id, cpu_count).len() ==> (
            #[trigger] sgi_target_cpus(filter, target_list, self_id, cpu_count)[k]) < cpu_count,
{
    let targets = sgi_target_cpus(filter, target_list, self_id, cpu_count);
    assert forall|k: int| 0 <= k < targets.len() implies #[trigger] targets[k] < cpu_count by {
        if filter == 0 {
            lemma_select_sound(cpu_count as nat, in_target_list(target_list), as_cpu(), k);
        } else if filter == 1 {
            lemma_select_sound(cpu_count as nat, is_other_cpu(self_id), as_cpu(), k);
        }
    }
}

impl GicV2State {
    /// The word of a one-bit-per-INTID bank is the packing of the set it stands for.
    proof fn lemma_bank_word(map: IrqBitmap, word: int)
        requires
            0 <= word < 32,
        ensures
            map@[word] == bank_word(lines(map), word),
    {
        let f = in_word(lines(map), word);
        assert forall|i: int| 0 <= i < 32 implies #[trigger] f(i) == bit(map@[word], i) by {
            assert((32 * word + i) / 32 == word);
            assert((32 * word + i) % 32 == i);
        }
        lemma_pack_of_bits(map@[word], f);
    }

    /// The target byte of an INTID, as `vcpuid` reads it.
    fn target_byte_of(&self, vcpuid: u64, irq: u32) -> (mask: u8)
        ensures
            mask == target_byte(self@, vcpuid, irq as int),
    {
        if irq >= MAXIRQ {
            0
        } else if irq < GIC_INTERNAL {
            1u8 << ((vcpuid % 8) as u8)
        } else {
            self.itargetsr[irq as usize]
        }
    }

    /// Program the target masks of the four INTIDs from `first` on.
    fn set_targets(&mut self, first: u32, val: u32)
        requires
            old(self).wf(),
            first < 1024,
        ensures
            final(self).wf(),
            final(self)@ == (GicRegs {
                targets: after_retarget(old(self)@.targets, first as int, val),
                ..old(self)@
            }),
    {
        let bytes: [u8; 4] = [
            (val % 0x100) as u8,
            (val / 0x100 % 0x100) as u8,
            (val / 0x1_0000 % 0x100) as u8,
            (val / 0x100_0000) as u8,
        ];
        assert(bytes@ =~= le32(val));
        let mut i: u32 = 0;
        while i < 4
            invariant
                i <= 4,
                first < 1024,
                bytes@ == le32(val),
                self@ == (GicRegs { targets: self@.targets, ..old(self)@ }),
                self@.targets.len() == 1020,
                old(self)@.targets.len() == 1020,
                old(self).wf(),
                self.wf(),
                forall|irq: int|
                    0 <= irq < 1020 ==> #[trigger] self@.targets[irq] == if GIC_INTERNAL <= irq
                        && first <= irq < first + i {
                        le32(val)[irq - first]
                    } else {
                        old(self)@.targets[irq]
                    },
            decreases 4 - i,
        {
            let irq: u32 = first + i;
            if irq >= GIC_INTERNAL && irq < MAXIRQ {
                self.itargetsr[irq as usize] = bytes[i as usize];
            }
            i = i + 1;
        }
        assert(self@.targets =~= after_retarget(old(self)@.targets, first as int, val));
    }

    /// The configuration word that starts at `irq`.
    fn config_word(&self, irq: u32) -> (val: u32)
        requires
            is_configurable(irq as int),
        ensures
            val == pack(is_edge_bit(self@.edge, irq as int), 32),
    {
        let word: u32 = self.edge_trigger[(irq / 32) as usize];
        let mut val: u32 = 0;
        let mut i: u32 = 0;
        let ghost f = is_edge_bit(self@.edge, irq as int);
        while i < 16
            invariant
                i <= 16,
                is_configurable(irq as int),
                word == self.edge_trigger@[irq as int / 32],
                f == is_edge_bit(self@.edge, irq as int),
                val == pack(f, (2 * i) as nat),
            decreases 16 - i,
        {
            let shift: u32 = (irq % 32 + i) % 32;
            proof {
                lemma_bit_cases(word, shift as int);
                let line = config_line(irq as int, i as int);
                assert(line / 32 == irq as int / 32 && line % 32 == shift);
                assert(self@.edge.contains(line) == bit(word, shift as int));
                assert(!f(2 * i as int));
                assert((2 * i + 1) / 2 == i as int);
                assert(f(2 * i + 1) == self@.edge.contains(line));
                assert(pack(f, (2 * i + 1) as nat) == pack(f, (2 * i) as nat));
            }
            if (word >> shift) & 1 != 0 {
                val = val | (1u32 << (2 * i + 1));
            }
            i = i + 1;
        }
        val
    }

    /// Program the configuration word that starts at `irq`.
    fn set_config(&mut self, irq: u32, val: u32)
        requires
            old(self).wf(),
            is_configurable(irq as int),
        ensures
            final(self).wf(),
            final(self)@ == (GicRegs {
                edge: after_reconfigure(old(self)@.edge, irq as int, val),
                ..old(self)@
            }),
    {
        let index: usize = (irq / 32) as usize;
        let before: u32 = self.edge_trigger[index];
        let mut word: u32 = before;
        let mut i: u32 = 0;
        while i < 16
            invariant
                i <= 16,
                is_configurable(irq as int),
                forall|k: int|
                    0 <= k < 32 ==> #[trigger] bit(word, k) == if (k - irq) % 32 < i {
                        bit(val, 2 * ((k - irq) % 32) + 1)
                    } else {
                        bit(before, k)
                    },
            decreases 16 - i,
        {
            let shift: u32 = (irq % 32 + i) % 32;
            let ghost prev = word;
            proof {
                lemma_bit_cases(val, 2 * i + 1);
            }
            if (val >> (2 * i + 1)) & 1 != 0 {
                word = word | (1u32 << shift);
            } else {
                word = word & !(1u32 << shift);
            }
            proof {
                assert((shift - irq) % 32 == i as int);
                assert forall|k: int| 0 <= k < 32 implies #[trigger] bit(word, k) == if (k - irq)
                    % 32 < i + 1 {
                    bit(val, 2 * ((k - irq) % 32) + 1)
                } else {
                    bit(before, k)
                } by {
                    lemma_bit_or(prev, shift as int, k);
                    lemma_bit_and_not(prev, shift as int, k);
                    assert(bit(prev, k) == if (k - irq) % 32 < i {
                        bit(val, 2 * ((k - irq) % 32) + 1)
                    } else {
                        bit(before, k)
                    });
                    assert((k - irq) % 32 == i as int ==> k == shift);
                }
            }
            i = i + 1;
        }
        self.edge_trigger[index] = word;
        proof {
            let edge = after_reconfigure(old(self)@.edge, irq as int, val);
            assert forall|line: int| self@.edge.contains(line) == edge.contains(line) by {
                assert((line % 32 - irq) % 32 == (line - irq) % 32);
                if 0 <= line < 1024 && line / 32 == irq as int / 32 {
                    assert(bit(word, line % 32) == if (line % 32 - irq) % 32 < 16 {
                        bit(val, 2 * ((line % 32 - irq) % 32) + 1)
                    } else {
                        bit(before, line % 32)
                    });
                }
            }
            assert(self@.edge =~= edge);
        }
    }
}

/// Why an interrupt could not be raised.
#[derive(Debug, PartialEq, Eq, Structural, Clone, Copy)]
pub enum IrqError {
    /// The device has no interrupt line configured.
    NoLineConfigured,
}

/// A controller out of reset with these queues: nothing enabled, nothing held, every interrupt for
/// vCPU 0.
pub open spec fn out_of_reset(queues: Seq<Seq<u32>>) -> GicModel {
    GicModel {
        regs: GicRegs {
            gicd_ctlr: 0,
            gicc_ctlr: 0,
            gicc_pmr: 0,
            gicc_bpr: 0,
            targets: Seq::new(MAXIRQ as nat, |irq: int| 0x01u8),
            edge: Set::empty(),
            enabled: Set::empty(),
            pending: Set::empty(),
        },
        queues,
    }
}

/// The interrupt controller.
pub struct GicV2 {
    pub dist_addr: u64,
    pub dist_size: u64,
    pub cpuif_addr: u64,
    pub cpuif_size: u64,
    pub vcpu_list: VcpuList,
    pub state: GicV2State,
    /// Device properties, for setting up the device tree entry.
    pub properties: [u64; 4],
}

impl View for GicV2 {
    type V = GicModel;

    open spec fn view(&self) -> GicModel {
        GicModel { regs: self.state@, queues: self.vcpu_list@ }
    }
}

impl GicV2 {
    /// The window lies right below the device region, the CPU interface first and the distributor
    /// right behind it; there is at least one vCPU.
    pub open spec fn wf(&self) -> bool {
        &&& self.state.wf()
        &&& self@.queues.len() > 0
        &&& self.dist_size == GICV2_BASE_SIZE
        &&& self.cpuif_size == GICV2_BASE_SIZE
        &&& self.dist_addr == MMIO_MEM_START - 3 * GICV2_BASE_SIZE
        &&& self.cpuif_addr == self.dist_addr - self.cpuif_size
        &&& self.properties@ == seq![
            self.dist_addr,
            self.dist_size,
            self.cpuif_addr,
            self.cpuif_size,
        ]
    }

    /// A controller out of reset: nothing enabled, nothing held, every SPI routed to vCPU 0.
    pub fn new(vcpu_list: VcpuList) -> (gic: Self)
        requires
            vcpu_list@.len() > 0,
        ensures
            gic.wf(),
            gic@ == out_of_reset(vcpu_list@),
    {
        let dist_size: u64 = GICV2_BASE_SIZE;
        let cpuif_size: u64 = GICV2_BASE_SIZE;
        let dist_addr: u64 = MMIO_MEM_START - 3 * GICV2_BASE_SIZE;
        let cpuif_addr: u64 = dist_addr - cpuif_size;
        // Default every SPI to CPU 0. A guest that never programs the targets (the common
        // uniprocessor case) still gets its interrupts delivered.
        let state = GicV2State {
            gicd_ctlr: 0,
            gicc_ctlr: 0,
            gicc_pmr: 0,
            gicc_bpr: 0,
            itargetsr: [0x01u8; 1020],
            edge_trigger: [0u32; 32],
            enabled: [0u32; 32],
            pending: [0u32; 32],
        };
        proof {
            assert forall|irq: int| !lines(state.enabled).contains(irq) && !lines(
                state.pending,
            ).contains(irq) && !lines(state.edge_trigger).contains(irq) by {
                lemma_bit_zero(irq % 32);
            }
            assert(lines(state.enabled) =~= Set::empty());
            assert(lines(state.pending) =~= Set::empty());
            assert(lines(state.edge_trigger) =~= Set::empty());
            assert(state.itargetsr@ =~= Seq::new(MAXIRQ as nat, |irq: int| 0x01u8));
        }
        GicV2 {
            dist_addr,
            dist_size,
            cpuif_addr,
            cpuif_size,
            vcpu_list,
            state,
            properties: [dist_addr, dist_size, cpuif_addr, cpuif_size],
        }
    }

    pub fn get_dist_addr(&self) -> (addr: u64)
        ensures
            addr == self.dist_addr,
    {
        self.dist_addr
    }

    pub fn get_dist_size(&self) -> (size: u64)
        ensures
            size == self.dist_size,
    {
        self.dist_size
    }

    pub fn get_cpuif_addr(&self) -> (addr: u64)
        ensures
            addr == self.cpuif_addr,
    {
        self.cpuif_addr
    }

    pub fn get_cpuif_size(&self) -> (size: u64)
        ensures
            size == self.cpuif_size,
    {
        self.cpuif_size
    }

    /// Start of the window that the device is registered with.
    pub fn get_mmio_addr(&self) -> (addr: u64)
        ensures
            addr == self.cpuif_addr,
    {
        self.cpuif_addr
    }

    /// Size of the window that the device is registered with.
    pub fn get_mmio_size(&self) -> (size: u64)
        requires
            self.wf(),
        ensures
            size == self.cpuif_size + self.dist_size,
    {
        self.cpuif_size + self.dist_size
    }

    /// Address and size of the distributor, then of the CPU interface.
    pub fn device_properties(&self) -> (props: Vec<u64>)
        ensures
            props@ == self.properties@,
    {
        let mut props: Vec<u64> = Vec::new();
        props.push(self.properties[0]);
        props.push(self.properties[1]);
        props.push(self.properties[2]);
        props.push(self.properties[3]);
        assert(props@ =~= self.properties@);
        props
    }

    pub fn vcpu_count(&self) -> (count: u64)
        ensures
            count == self@.queues.len(),
    {
        self.vcpu_list.get_cpu_count()
    }

    /// The string guests match on to find the controller.
    pub fn fdt_compatibility(&self) -> (compatible: String)
        ensures
            compatible@ == "arm,gic-400"@,
    {
        "arm,gic-400".to_string()
    }

    pub fn fdt_maint_irq(&self) -> (irq: u32)
        ensures
            irq == GICV2_MAINT_IRQ,
    {
        GICV2_MAINT_IRQ
    }

    pub fn version(&self) -> (version: u32)
        ensures
            version == 2,
    {
        2
    }

    /// Serve a 32-bit read of a distributor register.
    pub fn handle_dist_read32(&mut self, vcpuid: u64, offset: u64, data: &mut [u8])
        requires
            old(self).wf(),
            old(data)@.len() == 4,
        ensures
            *final(self) == *old(self),
            final(data)@ == le32(dist_value(old(self)@, vcpuid, offset)),
    {
        let mut val: u32 = 0;
        if offset == GICD_CTLR {
            val = self.state.gicd_ctlr;
        } else if offset == GICD_TYPER {
            let cpu_number: u32 = ((self.vcpu_list.get_cpu_count() - 1) % 8) as u32;
            val = IRQ_NUM / 32 - 1 + 32 * cpu_number;
        } else if offset == GICD_IIDR {
            val = GIC_IMPLEMENTER;
        } else if GICD_ISENABLER <= offset && offset < GICD_ISPENDR {
            // ISENABLER and ICENABLER read back the same enable state.
            let word: u64 = (offset - GICD_ISENABLER) % 0x80 / 4;
            val = self.state.enabled[word as usize];
            proof {
                GicV2State::lemma_bank_word(self.state.enabled, word as int);
            }
        } else if GICD_ISPENDR <= offset && offset < GICD_ISACTIVER {
            let word: u64 = (offset - GICD_ISPENDR) % 0x80 / 4;
            val = self.state.pending[word as usize];
            proof {
                GicV2State::lemma_bank_word(self.state.pending, word as int);
            }
        } else if GICD_ITARGETSR <= offset && offset < GICD_ICFGR {
            // One byte of CPU mask per INTID, so the register offset is the INTID of the first of
            // the four bytes in this word.
            let first: u32 = (offset - GICD_ITARGETSR) as u32;
            let b0: u8 = self.state.target_byte_of(vcpuid, first);
            let b1: u8 = self.state.target_byte_of(vcpuid, first + 1);
            let b2: u8 = self.state.target_byte_of(vcpuid, first + 2);
            let b3: u8 = self.state.target_byte_of(vcpuid, first + 3);
            val = word_of(b0, b1, b2, b3);
            assert(seq![b0, b1, b2, b3] =~= Seq::new(
                4,
                |i: int| target_byte(self@.regs, vcpuid, first + i),
            ));
        } else if GICD_ICFGR <= offset && offset < GICD_SGIR {
            let irq: u32 = ((offset - GICD_ICFGR) * 4) as u32;
            if GIC_INTERNAL <= irq && irq < IRQ_NUM {
                val = self.state.config_word(irq);
            }
        } else if GICD_IDREGS <= offset && offset < GICD_IDREGS_END {
            val = gicv2_id_reg(offset - GICD_IDREGS);
        }
        put_word(data, val);
    }

    /// Serve a 32-bit write of a distributor register, returning the interrupts it delivered.
    pub fn handle_dist_write32(&mut self, vcpuid: u64, offset: u64, data: &[u8]) -> (delivered: Vec<
        (u64, u32),
    >)
        requires
            old(self).wf(),
            data@.len() == 4,
            offset == GICD_SGIR && sgi_filter(from_le32(data@) as u32) == 2 ==> vcpuid < old(
                self,
            )@.queues.len(),
        ensures
            final(self).wf(),
            final(self)@.queues.len() == old(self)@.queues.len(),
            delivered@ == dist_deliveries(old(self)@, vcpuid, offset, from_le32(data@) as u32),
            final(self)@ == (GicModel {
                regs: after_dist_write(old(self)@.regs, offset, from_le32(data@) as u32),
                queues: deliver_all(old(self)@.queues, delivered@),
            }),
    {
        let val: u32 = get_word(data);
        let mut delivered: Vec<(u64, u32)> = Vec::new();
        if offset == GICD_CTLR {
            self.state.gicd_ctlr = val % 4;
        } else if GICD_ISENABLER <= offset && offset < GICD_ICENABLER {
            // Enabling a line flushes anything that arrived while it was masked.
            let base: u32 = ((offset - GICD_ISENABLER) / 4 * 32) as u32;
            let cpu_count: u64 = self.vcpu_list.get_cpu_count();
            delivered = self.state.enable_and_take_pending(base, val, cpu_count);
            proof {
                lemma_flushed_targets(old(self)@.regs, base, val, cpu_count);
            }
            self.deliver(&delivered);
        } else if GICD_ICENABLER <= offset && offset < GICD_ISPENDR {
            let base: u32 = ((offset - GICD_ICENABLER) / 4 * 32) as u32;
            self.state.disable(base, val);
        } else if GICD_ITARGETSR <= offset && offset < GICD_ICFGR {
            let first: u32 = (offset - GICD_ITARGETSR) as u32;
            self.state.set_targets(first, val);
        } else if GICD_ICFGR <= offset && offset < GICD_SGIR {
            let irq: u32 = ((offset - GICD_ICFGR) * 4) as u32;
            if GIC_INTERNAL <= irq && irq < IRQ_NUM {
                self.state.set_config(irq, val);
            }
        } else if offset == GICD_SGIR {
            let intid: u32 = val % 16;
            let target_list: u32 = val / 0x1_0000 % 0x100;
            let filter: u32 = val / 0x100_0000 % 4;
            let cpu_count: u64 = self.vcpu_list.get_cpu_count();
            let targets: Vec<u64> = sgi_targets(filter, target_list, vcpuid, cpu_count);
            proof {
                lemma_sgi_targets(filter, target_list, vcpuid, cpu_count);
            }
            let mut i: usize = 0;
            while i < targets.len()
                invariant
                    i <= targets@.len(),
                    delivered@ =~= sgi_deliveries(targets@.take(i as int), intid),
                decreases targets@.len() - i,
            {
                delivered.push((targets[i], intid));
                i = i + 1;
            }
            assert(targets@.take(i as int) =~= targets@);
            self.deliver(&delivered);
        }
        delivered
    }

    /// Queue each interrupt of `list` for the vCPU it names.
    fn deliver(&mut self, list: &Vec<(u64, u32)>)
        requires
            old(self).wf(),
            forall|i: int| 0 <= i < list@.len() ==> (#[trigger] list@[i]).0 < old(
                self,
            )@.queues.len(),
        ensures
            final(self).wf(),
            final(self)@.queues.len() == old(self)@.queues.len(),
            final(self)@ == (GicModel {
                queues: deliver_all(old(self)@.queues, list@),
                ..old(self)@
            }),
    {
        let mut i: usize = 0;
        assert(list@.take(0) =~= Seq::empty());
        while i < list.len()
            invariant
                i <= list@.len(),
                self.wf(),
                self@ == (GicModel {
                    queues: deliver_all(old(self)@.queues, list@.take(i as int)),
                    ..old(self)@
                }),
                self@.queues.len() == old(self)@.queues.len(),
                forall|i: int| 0 <= i < list@.len() ==> (#[trigger] list@[i]).0 < old(
                    self,
                )@.queues.len(),
            decreases list@.len() - i,
        {
            let (target, irq): (u64, u32) = list[i];
            assert(list@[i as int].0 < old(self)@.queues.len());
            assert(list@.take(i + 1).drop_last() =~= list@.take(i as int));
            self.vcpu_list.set_irq_common(target, irq);
            i = i + 1;
        }
        assert(list@.take(i as int) =~= list@);
    }

    /// Serve a 32-bit read of a CPU-interface register.
    pub fn handle_cpuif_read32(&mut self, vcpuid: u64, offset: u64, data: &mut [u8])
        requires
            old(self).wf(),
            old(data)@.len() == 4,
            is_ack(offset) ==> vcpuid < old(self)@.queues.len(),
        ensures
            final(self).wf(),
            final(self)@.queues.len() == old(self)@.queues.len(),
            final(data)@ == le32(cpuif_value(old(self)@, vcpuid, offset)),
            final(self)@ == after_cpuif_read(old(self)@, vcpuid, offset),
    {
        let val: u32 = if offset == GICC_CTLR {
            self.state.gicc_ctlr
        } else if offset == GICC_PMR {
            self.state.gicc_pmr
        } else if offset == GICC_BPR || offset == GICC_ABPR {
            self.state.gicc_bpr
        } else if offset == GICC_IAR || offset == GICC_AIAR {
            // Acknowledge: hand the guest the next pending INTID and drop it from the queue.
            self.vcpu_list.get_pending_irq(vcpuid)
        } else if offset == GICC_RPR {
            // Priorities are not modelled, so nothing is ever running.
            GICC_RPR_IDLE
        } else if offset == GICC_HPPIR || offset == GICC_AHPPIR {
            GIC_INTID_SPURIOUS
        } else if offset == GICC_IIDR {
            GICC_IIDR_VALUE
        } else {
            0
        };
        put_word(data, val);
    }

    /// Serve a 32-bit write of a CPU-interface register.
    pub fn handle_cpuif_write32(&mut self, vcpuid: u64, offset: u64, data: &[u8])
        requires
            old(self).wf(),
            data@.len() == 4,
        ensures
            final(self).wf(),
            final(self)@ == (GicModel {
                regs: after_cpuif_write(old(self)@.regs, offset, from_le32(data@) as u32),
                ..old(self)@
            }),
    {
        let val: u32 = get_word(data);
        if offset == GICC_CTLR {
            self.state.gicc_ctlr = val;
        } else if offset == GICC_PMR {
            self.state.gicc_pmr = val;
        } else if offset == GICC_BPR || offset == GICC_ABPR {
            self.state.gicc_bpr = val;
        }
        // Ending and deactivating an interrupt are accepted and dropped: there is no active state.
    }

    /// Raise an interrupt line. The result names the vCPU the interrupt was delivered to, or
    /// nobody if the line is masked and the interrupt is held.
    pub fn set_irq(&mut self, irq_line: Option<u32>) -> (raised: Result<Option<u64>, IrqError>)
        requires
            old(self).wf(),
            irq_line is Some ==> irq_line->0 < MAXIRQ,
        ensures
            final(self).wf(),
            final(self)@.queues.len() == old(self)@.queues.len(),
            match irq_line {
                None => raised == Err::<Option<u64>, IrqError>(IrqError::NoLineConfigured)
                    && *final(self) == *old(self),
                Some(irq) => {
                    let target = raise_target(
                        old(self)@.regs,
                        irq,
                        old(self)@.queues.len() as u64,
                    );
                    &&& raised == Ok::<Option<u64>, IrqError>(target)
                    &&& final(self)@ == after_irq(old(self)@, irq)
                },
            },
    {
        match irq_line {
            None => Err(IrqError::NoLineConfigured),
            Some(irq) => {
                let cpu_count: u64 = self.vcpu_list.get_cpu_count();
                let target: Option<u64> = self.state.route(irq, cpu_count);
                if let Some(cpu) = target {
                    self.vcpu_list.set_irq_common(cpu, irq);
                    proof {
                        let list = seq![(cpu, irq)];
                        assert(list.drop_last() =~= Seq::empty());
                        assert(deliver_all(old(self)@.queues, list.drop_last())
                            == old(self)@.queues);
                    }
                }
                Ok(target)
            },
        }
    }

    /// Serve a guest read of the device's window. Only 32-bit accesses are served.
    pub fn read(&mut self, vcpuid: u64, offset: u64, data: &mut [u8])
        requires
            old(self).wf(),
            read_needs_vcpu(offset, old(data)@.len()) ==> vcpuid < old(self)@.queues.len(),
        ensures
            final(self).wf(),
            final(self)@.queues.len() == old(self)@.queues.len(),
            final(data)@ == read_bytes(old(self)@, vcpuid, offset, old(data)@),
            final(self)@ == after_read(old(self)@, vcpuid, offset, old(data)@.len()),
    {
        // The CPU interface is mapped first, the distributor immediately after it.
        if data.len() == 4 {
            if offset >= self.cpuif_size {
                let offset: u64 = offset - self.cpuif_size;
                self.handle_dist_read32(vcpuid, offset, data);
            } else {
                self.handle_cpuif_read32(vcpuid, offset, data);
            }
        }
    }

    /// Serve a guest write of the device's window, returning the interrupts it delivered. Only
    /// 32-bit accesses are served.
    pub fn write(&mut self, vcpuid: u64, offset: u64, data: &[u8]) -> (delivered: Vec<(u64, u32)>)
        requires
            old(self).wf(),
            write_needs_vcpu(offset, data@) ==> vcpuid < old(self)@.queues.len(),
        ensures
            final(self).wf(),
            final(self)@.queues.len() == old(self)@.queues.len(),
            delivered@ == write_deliveries(old(self)@, vcpuid, offset, data@),
            final(self)@ == after_write(old(self)@, vcpuid, offset, data@),
    {
        if data.len() == 4 {
            if offset >= self.cpuif_size {
                let offset: u64 = offset - self.cpuif_size;
                return self.handle_dist_write32(vcpuid, offset, data);
            } else {
                self.handle_cpuif_write32(vcpuid, offset, data);
            }
        }
        Vec::new()
    }
}

} // verus!
