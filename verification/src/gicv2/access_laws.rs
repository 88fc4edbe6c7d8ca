//! What each access of a guest, and each interrupt of a device, does and leaves alone: register by
//! register, line by line and bit by bit.

use crate::bits::{bit, lemma_pack_bit};
use crate::bytes::{from_le32, le32, lemma_le32_round_trip};
use crate::gicv2::laws::{
    addressed_to, is_valid, law_delivery_is_fifo, law_sgi_targets, law_spi_target,
    lemma_word_of_bytes,
};
use crate::gicv2::regs::{
    after_irq, after_read, after_write, config_irq, in_word, is_edge_bit, read_bytes,
    sgi_filter, sgi_target_list, target_byte, write_deliveries, GicModel,
};
use crate::gicv2::state::{
    after_disable, after_enable, after_raise, as_cpu, delivery_of, flushed, in_target_list,
    is_named_and_held, is_other_cpu, lemma_select_complete, lemma_select_sorted,
    lemma_select_sound, lines, named_lines, raise_target, sgi_target_cpus, spi_target_cpu,
    GicRegs, IrqBitmap,
};
use crate::gicv2::{out_of_reset, GicV2};
use crate::vcpu::deliver_all;
use vstd::prelude::*;

verus! {

/// The 32-bit number that a read at `offset` returns.
pub open spec fn word_read(m: GicModel, vcpuid: u64, offset: u64) -> int {
    from_le32(read_bytes(m, vcpuid, offset, seq![0u8, 0, 0, 0]))
}

/// A bitmap stands for the lines whose bits are set: line `irq` is bit `irq % 32` of word
/// `irq / 32`.
pub proof fn law_bitmap_holds_one_bit_per_line(map: IrqBitmap, irq: int)
    ensures
        lines(map).contains(irq) <==> 0 <= irq < 1024 && bit(map@[irq / 32], irq % 32),
{
}

/// Out of reset nothing is enabled, held or edge-triggered, the control registers are zero, and
/// every interrupt is for vCPU 0.
pub proof fn law_reset(queues: Seq<Seq<u32>>, irq: int, cpu_count: u64)
    requires
        0 <= irq < 1020,
        cpu_count > 0,
    ensures
        ({
            let m = out_of_reset(queues);
            &&& m.queues == queues
            &&& m.regs.targets.len() == 1020
            &&& m.regs.targets[irq] == 1
            &&& spi_target_cpu(m.regs.targets[irq], cpu_count) == 0
            &&& !m.regs.enabled.contains(irq)
            &&& !m.regs.pending.contains(irq)
            &&& !m.regs.edge.contains(irq)
            &&& m.regs.gicd_ctlr == 0
            &&& m.regs.gicc_ctlr == 0
            &&& m.regs.gicc_pmr == 0
            &&& m.regs.gicc_bpr == 0
        }),
{
    assert((1u32 >> 0u32) & 1u32 == 1u32) by (bit_vector);
    assert(bit(1u32, 0));
}

/// The frames are 64 KiB each, at fixed addresses.
pub proof fn law_addresses(gic: GicV2)
    requires
        gic.wf(),
    ensures
        gic.dist_addr == 0x09fd_0000,
        gic.dist_size == 0x1_0000,
        gic.cpuif_addr == 0x09fc_0000,
        gic.cpuif_size == 0x1_0000,
        gic.properties@ == seq![0x09fd_0000u64, 0x1_0000, 0x09fc_0000, 0x1_0000],
{
}

/// Raising a line changes nothing but whether that line is held: every other line stays as it was,
/// and so do the enables, the targets, the trigger configuration and the control registers.
pub proof fn law_raising_touches_one_line(regs: GicRegs, irq: u32, k: int)
    ensures
        ({
            let after = after_raise(regs, irq);
            &&& k != irq ==> after.pending.contains(k) == regs.pending.contains(k)
            &&& after.enabled == regs.enabled
            &&& after.targets == regs.targets
            &&& after.edge == regs.edge
            &&& after.gicd_ctlr == regs.gicd_ctlr
            &&& after.gicc_ctlr == regs.gicc_ctlr
            &&& after.gicc_pmr == regs.gicc_pmr
            &&& after.gicc_bpr == regs.gicc_bpr
        }),
{
}

/// A raised interrupt is delivered if it is banked or enabled, and else held; never both, never
/// neither. It is delivered to the vCPU that its target mask selects.
pub proof fn law_raised_interrupt_is_delivered_or_held(regs: GicRegs, irq: u32, cpu_count: u64)
    ensures
        ({
            let goes = irq < 32 || regs.enabled.contains(irq as int);
            &&& goes ==> raise_target(regs, irq, cpu_count) == Some(
                spi_target_cpu(regs.targets[irq as int], cpu_count),
            )
            &&& goes ==> after_raise(regs, irq).pending.contains(irq as int)
                == regs.pending.contains(irq as int)
            &&& !goes ==> raise_target(regs, irq, cpu_count) is None
            &&& !goes ==> after_raise(regs, irq).pending.contains(irq as int)
        }),
{
}

/// What a raise does to the controller as a whole: every line but the raised one stays as it was,
/// no register changes, and one queue at most grows, by the raised interrupt at its end: that of
/// the vCPU that the line's target mask selects, if the line is banked or enabled.
pub proof fn law_raise(m: GicModel, irq: u32, k: int, cpu: int)
    requires
        is_valid(m),
        irq < 1020,
        0 <= cpu < m.queues.len(),
    ensures
        ({
            let after = after_irq(m, irq);
            let goes = irq < 32 || m.regs.enabled.contains(irq as int);
            let target = spi_target_cpu(m.regs.targets[irq as int], m.queues.len() as u64);
            &&& k != irq ==> after.regs.pending.contains(k) == m.regs.pending.contains(k)
            &&& after.regs.pending.contains(irq as int) == (!goes || m.regs.pending.contains(
                irq as int,
            ))
            &&& after.regs == (GicRegs { pending: after.regs.pending, ..m.regs })
            &&& after.queues.len() == m.queues.len()
            &&& after.queues[cpu] == if goes && cpu == target {
                m.queues[cpu].push(irq)
            } else {
                m.queues[cpu]
            }
        }),
{
    law_spi_target(m.regs.targets[irq as int], m.queues.len() as u64);
    let target = spi_target_cpu(m.regs.targets[irq as int], m.queues.len() as u64);
    let list = seq![(target, irq)];
    assert(list.drop_last() =~= Seq::empty());
    assert(deliver_all(m.queues, list.drop_last()) == m.queues);
}

/// Two devices that raise masked lines, in either order, are both held.
pub proof fn law_raises_commute(regs: GicRegs, a: u32, b: u32)
    requires
        a >= 32,
        b >= 32,
        !regs.enabled.contains(a as int),
        !regs.enabled.contains(b as int),
    ensures
        after_raise(after_raise(regs, a), b) == after_raise(after_raise(regs, b), a),
        after_raise(after_raise(regs, a), b).pending.contains(a as int),
        after_raise(after_raise(regs, a), b).pending.contains(b as int),
{
    assert(after_raise(after_raise(regs, a), b).pending =~= after_raise(
        after_raise(regs, b),
        a,
    ).pending);
}

/// An interrupt that is delivered to a vCPU with nothing pending is what that vCPU acknowledges
/// next, under its own number.
pub proof fn law_delivered_interrupt_is_acknowledged(m: GicModel, irq: u32, cpu: u64)
    requires
        is_valid(m),
        irq < 1020,
        raise_target(m.regs, irq, m.queues.len() as u64) == Some(cpu),
        m.queues[cpu as int].len() == 0,
    ensures
        ({
            let raised = after_irq(m, irq);
            &&& cpu < m.queues.len()
            &&& word_read(raised, cpu, 0xc) == irq
            &&& word_read(raised, cpu, 0x20) == irq
        }),
{
    law_spi_target(m.regs.targets[irq as int], m.queues.len() as u64);
    let list = seq![(cpu, irq)];
    assert(list.drop_last() =~= Seq::empty());
    assert(deliver_all(m.queues, list.drop_last()) == m.queues);
    lemma_le32_round_trip(irq);
}

/// Enabling: the lines of the word at `base` that `val` names become enabled and are no longer
/// held; every other line, and everything else, stays as it was.
pub proof fn law_enabling(regs: GicRegs, base: u32, val: u32, line: int)
    ensures
        ({
            let after = after_enable(regs, base, val);
            let named = base <= line < base + 32 && line < 1020 && bit(val, line - base);
            &&& after.enabled.contains(line) == (regs.enabled.contains(line) || named)
            &&& after.pending.contains(line) == (regs.pending.contains(line) && !named)
            &&& after.targets == regs.targets
            &&& after.edge == regs.edge
            &&& after.gicd_ctlr == regs.gicd_ctlr
            &&& after.gicc_ctlr == regs.gicc_ctlr
            &&& after.gicc_pmr == regs.gicc_pmr
            &&& after.gicc_bpr == regs.gicc_bpr
        }),
{
}

/// Disabling: the lines of the word at `base` that `val` names become disabled; every other line,
/// what is held, and everything else stays as it was.
pub proof fn law_disabling(regs: GicRegs, base: u32, val: u32, line: int)
    ensures
        ({
            let after = after_disable(regs, base, val);
            let named = base <= line < base + 32 && line < 1020 && bit(val, line - base);
            &&& after.enabled.contains(line) == (regs.enabled.contains(line) && !named)
            &&& after.pending == regs.pending
            &&& after.targets == regs.targets
            &&& after.edge == regs.edge
            &&& after.gicd_ctlr == regs.gicd_ctlr
            &&& after.gicc_ctlr == regs.gicc_ctlr
            &&& after.gicc_pmr == regs.gicc_pmr
            &&& after.gicc_bpr == regs.gicc_bpr
        }),
{
}

/// What enabling delivers: each held line that is named, to its target, once, in ascending order of
/// the lines, and nothing else.
pub proof fn law_enabling_delivers_what_was_held(
    regs: GicRegs,
    base: u32,
    val: u32,
    cpu_count: u64,
    line: u32,
)
    ensures
        ({
            let list = flushed(regs, base, val, cpu_count);
            let named = base <= line < base + 32 && line < 1020 && bit(val, line - base);
            &&& (named && regs.pending.contains(line as int)) <==> exists|k: int|
                0 <= k < list.len() && (#[trigger] list[k]).1 == line
            &&& forall|k: int|
                0 <= k < list.len() ==> (#[trigger] list[k]).0 == spi_target_cpu(
                    regs.targets[list[k].1 as int],
                    cpu_count,
                )
            &&& forall|a: int, b: int|
                0 <= a < b < list.len() ==> (#[trigger] list[a]).1 < (#[trigger] list[b]).1
        }),
{
    let p = is_named_and_held(regs, base, val);
    let f = delivery_of(regs, base, cpu_count);
    let list = flushed(regs, base, val, cpu_count);
    let named = base <= line < base + 32 && line < 1020 && bit(val, line - base);
    if named && regs.pending.contains(line as int) {
        assert(p(line - base));
        lemma_select_complete(32, p, f, line - base);
        assert(f(line - base).1 == line);
        let k = choose|k: int| 0 <= k < list.len() && list[k] == f(line - base);
        assert(list[k].1 == line);
    }
    assert forall|k: int| 0 <= k < list.len() implies (#[trigger] list[k]).0 == spi_target_cpu(
        regs.targets[list[k].1 as int],
        cpu_count,
    ) && named_lines(base, val).contains(list[k].1 as int) && regs.pending.contains(
        list[k].1 as int,
    ) by {
        lemma_select_sound(32, p, f, k);
        let j = choose|j: int| 0 <= j < 32 && p(j) && #[trigger] f(j) == list[k];
        assert((base + j) as u32 == base + j);
    }
    let key = |d: (u64, u32)| d.1 as int;
    assert forall|i: int, j: int| 0 <= i < j < 32 && p(i) && p(j) implies key(#[trigger] f(i))
        < key(#[trigger] f(j)) by {
        assert((base + i) as u32 == base + i);
        assert((base + j) as u32 == base + j);
    }
    lemma_select_sorted(32, p, f, key);
    assert forall|a: int, b: int| 0 <= a < b < list.len() implies (#[trigger] list[a]).1 < (
    #[trigger] list[b]).1 by {
        assert(key(list[a]) < key(list[b]));
    }
}

/// Writing a word of the enable bank enables its lines and delivers what they held; the word at
/// byte `offset` of the bank has the lines from `offset / 4 * 32` on.
pub proof fn law_write_to_the_enable_bank(m: GicModel, vcpuid: u64, offset: u64, val: u32)
    requires
        offset < 0x80,
    ensures
        ({
            let at = (0x1_0100 + offset) as u64;
            let base = (offset as int / 4 * 32) as u32;
            &&& after_write(m, vcpuid, at, le32(val)).regs == after_enable(m.regs, base, val)
            &&& write_deliveries(m, vcpuid, at, le32(val)) == flushed(
                m.regs,
                base,
                val,
                m.queues.len() as u64,
            )
        }),
{
    lemma_le32_round_trip(val);
}

/// Writing a word of the disable bank disables its lines and delivers nothing.
pub proof fn law_write_to_the_disable_bank(m: GicModel, vcpuid: u64, offset: u64, val: u32)
    requires
        offset < 0x80,
    ensures
        ({
            let at = (0x1_0180 + offset) as u64;
            let base = (offset as int / 4 * 32) as u32;
            &&& after_write(m, vcpuid, at, le32(val)).regs == after_disable(m.regs, base, val)
            &&& write_deliveries(m, vcpuid, at, le32(val)) == Seq::<(u64, u32)>::empty()
        }),
{
    lemma_le32_round_trip(val);
}

/// Whatever a write delivers joins the end of the queues that it is addressed to, in order; every
/// queue keeps what it had.
pub proof fn law_writes_queue_what_they_deliver(
    m: GicModel,
    vcpuid: u64,
    offset: u64,
    data: Seq<u8>,
    cpu: int,
)
    requires
        0 <= cpu < m.queues.len(),
        forall|k: int|
            0 <= k < write_deliveries(m, vcpuid, offset, data).len() ==> (
            #[trigger] write_deliveries(m, vcpuid, offset, data)[k]).0 < m.queues.len(),
    ensures
        after_write(m, vcpuid, offset, data).queues[cpu] == m.queues[cpu] + addressed_to(
            write_deliveries(m, vcpuid, offset, data),
            cpu,
        ),
        after_write(m, vcpuid, offset, data).queues.len() == m.queues.len(),
{
    let list = write_deliveries(m, vcpuid, offset, data);
    law_delivery_is_fifo(m.queues, list, cpu);
    if list.len() == 0 {
        assert(m.queues[cpu] + addressed_to(list, cpu) =~= m.queues[cpu]);
    }
}

/// The fields of a software interrupt request, by its bits.
proof fn lemma_sgi_fields(val: u32)
    ensures
        val % 16 == val & 0xf,
        sgi_filter(val) == (if bit(val, 24) { 1int } else { 0 }) + (if bit(val, 25) {
            2int
        } else {
            0
        }),
        forall|cpu: int|
            0 <= cpu < 32 ==> #[trigger] bit(sgi_target_list(val), cpu) == (cpu < 8 && bit(
                val,
                16 + cpu,
            )),
{
    assert(val % 16 == val & 0xf) by (bit_vector);
    let b24 = (val >> 24u32) & 1u32 == 1u32;
    let b25 = (val >> 25u32) & 1u32 == 1u32;
    let filter = val / 0x100_0000 % 4;
    assert((!b24 && !b25 ==> filter == 0) && (b24 && !b25 ==> filter == 1) && (!b24 && b25
        ==> filter == 2) && (b24 && b25 ==> filter == 3)) by (bit_vector)
        requires
            b24 == ((val >> 24u32) & 1u32 == 1u32),
            b25 == ((val >> 25u32) & 1u32 == 1u32),
            filter == val / 0x100_0000 % 4,
    ;
    let list = val / 0x1_0000 % 0x100;
    assert forall|cpu: int| 0 <= cpu < 32 implies #[trigger] bit(sgi_target_list(val), cpu) == (cpu
        < 8 && bit(val, 16 + cpu)) by {
        let c = cpu as u32;
        if c < 8 {
            let d = (16 + cpu) as u32;
            assert(((list >> c) & 1u32 == 1u32) == ((val >> d) & 1u32 == 1u32)) by (bit_vector)
                requires
                    c < 8,
                    d == 16 + c,
                    list == val / 0x1_0000 % 0x100,
            ;
        } else {
            assert((list >> c) & 1u32 != 1u32) by (bit_vector)
                requires
                    8 <= c < 32,
                    list == val / 0x1_0000 % 0x100,
            ;
        }
    }
}

/// A software interrupt request: with bits 25 and 24 clear, the INTID in bits 3 to 0 goes to each
/// vCPU below 8 whose bit, counted from bit 16, is set; with bit 24 alone to all but the writer;
/// with bit 25 alone to the writer; with both to nobody. Each gets it once, in ascending order, and
/// no register changes.
pub proof fn law_software_interrupt_request(m: GicModel, vcpuid: u64, val: u32, cpu: u64)
    requires
        m.queues.len() <= u64::MAX,
    ensures
        ({
            let list = write_deliveries(m, vcpuid, 0x1_0f00, le32(val));
            &&& after_write(m, vcpuid, 0x1_0f00, le32(val)).regs == m.regs
            &&& forall|k: int| 0 <= k < list.len() ==> (#[trigger] list[k]).1 == val & 0xf
            &&& forall|a: int, b: int|
                0 <= a < b < list.len() ==> (#[trigger] list[a]).0 < (#[trigger] list[b]).0
            &&& list.contains((cpu, val & 0xf)) <==> if !bit(val, 25) && !bit(val, 24) {
                cpu < m.queues.len() && cpu < 8 && bit(val, 16 + cpu)
            } else if !bit(val, 25) {
                cpu < m.queues.len() && cpu != vcpuid
            } else if !bit(val, 24) {
                cpu == vcpuid
            } else {
                false
            }
        }),
{
    lemma_le32_round_trip(val);
    lemma_sgi_fields(val);
    let list = write_deliveries(m, vcpuid, 0x1_0f00, le32(val));
    let count = m.queues.len() as u64;
    let filter = sgi_filter(val);
    let target_list = sgi_target_list(val);
    let targets = sgi_target_cpus(filter, target_list, vcpuid, count);
    law_sgi_targets(filter, target_list, vcpuid, count, cpu);
    lemma_sgi_targets_ascend(filter, target_list, vcpuid, count);
    assert(list.len() == targets.len());
    assert forall|k: int| 0 <= k < list.len() implies #[trigger] list[k] == (targets[k], val
        & 0xf) by {}
    if targets.contains(cpu) {
        let k = choose|k: int| 0 <= k < targets.len() && targets[k] == cpu;
        assert(list[k] == (cpu, val & 0xf));
    }
    if list.contains((cpu, val & 0xf)) {
        let k = choose|k: int| 0 <= k < list.len() && list[k] == (cpu, val & 0xf);
        assert(targets[k] == cpu);
    }
    assert(filter == 0 ==> (!bit(val, 25) && !bit(val, 24)));
    if cpu < 32 {
        assert(bit(target_list, cpu as int) == (cpu < 8 && bit(val, 16 + cpu)));
    }
}

/// The targets of a software interrupt are in ascending order.
pub proof fn lemma_sgi_targets_ascend(
    filter: u32,
    target_list: u32,
    self_id: u64,
    cpu_count: u64,
)
    ensures
        forall|a: int, b: int|
            0 <= a < b < sgi_target_cpus(filter, target_list, self_id, cpu_count).len() ==> (
            #[trigger] sgi_target_cpus(filter, target_list, self_id, cpu_count)[a]) < (
            #[trigger] sgi_target_cpus(filter, target_list, self_id, cpu_count)[b]),
{
    let key = |cpu: u64| cpu as int;
    let n = cpu_count as nat;
    let f = as_cpu();
    assert forall|i: int, j: int| 0 <= i < j < n implies key(#[trigger] f(i)) < key(
        #[trigger] f(j),
    ) by {}
    let targets = sgi_target_cpus(filter, target_list, self_id, cpu_count);
    if filter == 0 {
        lemma_select_sorted(n, in_target_list(target_list), f, key);
    } else if filter == 1 {
        lemma_select_sorted(n, is_other_cpu(self_id), f, key);
    }
    assert forall|a: int, b: int| 0 <= a < b < targets.len() implies (#[trigger] targets[a]) < (
    #[trigger] targets[b]) by {
        assert(key(targets[a]) < key(targets[b]));
    }
}

/// Writing the distributor's control register keeps the two group enable bits and changes nothing
/// else.
pub proof fn law_write_to_the_distributor_control(m: GicModel, vcpuid: u64, val: u32, i: int)
    requires
        0 <= i < 32,
    ensures
        ({
            let after = after_write(m, vcpuid, 0x1_0000, le32(val));
            &&& after.regs == (GicRegs { gicd_ctlr: after.regs.gicd_ctlr, ..m.regs })
            &&& after.queues == m.queues
            &&& bit(after.regs.gicd_ctlr, i) == (i < 2 && bit(val, i))
        }),
{
    lemma_le32_round_trip(val);
    let k = i as u32;
    let low = val % 4;
    assert(((low >> k) & 1u32 == 1u32) == (k < 2 && (val >> k) & 1u32 == 1u32)) by (bit_vector)
        requires
            k < 32,
            low == val % 4,
    ;
}

/// Writing target bytes: the four INTIDs from byte `offset` of the bank on get the four bytes of
/// `val`, the lowest first; but for those below 32, which are read-only. No other target, and
/// nothing else, changes.
pub proof fn law_write_to_the_targets(m: GicModel, vcpuid: u64, offset: u64, val: u32, irq: int)
    requires
        is_valid(m),
        offset < 0x400,
        0 <= irq < 1020,
    ensures
        ({
            let after = after_write(m, vcpuid, (0x1_0800 + offset) as u64, le32(val));
            &&& after.regs == (GicRegs { targets: after.regs.targets, ..m.regs })
            &&& after.queues == m.queues
            &&& after.regs.targets.len() == 1020
            &&& after.regs.targets[irq] == if irq >= 32 && offset <= irq < offset + 4 {
                le32(val)[irq - offset]
            } else {
                m.regs.targets[irq]
            }
        }),
{
    lemma_le32_round_trip(val);
}

/// Writing trigger configuration: the word at byte `offset` of the bank has the sixteen INTIDs from
/// `offset * 4` on, two bits each, of which the upper tells an edge. It takes effect for INTIDs 32
/// to 287; no other line, and nothing else, changes.
pub proof fn law_write_to_the_configuration(
    m: GicModel,
    vcpuid: u64,
    offset: u64,
    val: u32,
    line: int,
)
    requires
        offset < 0x300,
        offset % 4 == 0,
        0 <= line < 1024,
    ensures
        ({
            let after = after_write(m, vcpuid, (0x1_0c00 + offset) as u64, le32(val));
            let first = offset * 4;
            &&& after.regs == (GicRegs { edge: after.regs.edge, ..m.regs })
            &&& after.queues == m.queues
            &&& after.regs.edge.contains(line) == if 32 <= first < 288 && first <= line < first
                + 16 {
                bit(val, 2 * (line - first) + 1)
            } else {
                m.regs.edge.contains(line)
            }
        }),
{
    lemma_le32_round_trip(val);
    let at = (0x1_0c00 + offset) as u64;
    let irq = offset * 4;
    assert(config_irq((at - 0x1_0000) as u64) == irq);
    assert(irq % 16 == 0);
    if line / 32 == irq / 32 {
        assert((line - irq) % 32 == if line >= irq {
            line - irq
        } else {
            line - irq + 32
        });
    }
}

/// The same for a word that is not aligned: its fields wrap around inside the 32 INTIDs that it
/// starts in, so that the field of a line there is the line's distance from the first, modulo 32.
pub proof fn law_unaligned_write_to_the_configuration(
    m: GicModel,
    vcpuid: u64,
    offset: u64,
    val: u32,
    line: int,
)
    requires
        offset < 0x300,
        0 <= line < 1024,
    ensures
        ({
            let after = after_write(m, vcpuid, (0x1_0c00 + offset) as u64, le32(val));
            let field = (line - offset * 4) % 32;
            let written = 8 <= offset < 72 && line / 32 == offset as int / 8 && field < 16;
            &&& after.regs == (GicRegs { edge: after.regs.edge, ..m.regs })
            &&& after.queues == m.queues
            &&& !written ==> after.regs.edge.contains(line) == m.regs.edge.contains(line)
            &&& written ==> after.regs.edge.contains(line) == bit(val, 2 * field + 1)
        }),
{
    lemma_le32_round_trip(val);
    assert(config_irq(((0x1_0c00 + offset) - 0x1_0000) as u64) == offset * 4);
    assert((offset * 4) / 32 == offset as int / 8);
}

/// Writes to any other distributor offset change nothing and deliver nothing.
pub proof fn law_other_distributor_writes_do_nothing(
    m: GicModel,
    vcpuid: u64,
    offset: u64,
    data: Seq<u8>,
)
    requires
        offset >= 0x1_0000,
        !(offset == 0x1_0000 || 0x1_0100 <= offset < 0x1_0200 || 0x1_0800 <= offset <= 0x1_0f00),
    ensures
        after_write(m, vcpuid, offset, data) == m,
        write_deliveries(m, vcpuid, offset, data) == Seq::<(u64, u32)>::empty(),
{
}

/// Writes to the CPU interface: control, priority mask and binary point (also as its alias) keep
/// the word; every other offset changes nothing. Nothing is delivered, and no queue changes.
pub proof fn law_writes_to_the_cpu_interface(m: GicModel, vcpuid: u64, offset: u64, val: u32)
    requires
        offset < 0x1_0000,
    ensures
        ({
            let after = after_write(m, vcpuid, offset, le32(val));
            &&& write_deliveries(m, vcpuid, offset, le32(val)) == Seq::<(u64, u32)>::empty()
            &&& after.queues == m.queues
            &&& after.regs == if offset == 0 {
                GicRegs { gicc_ctlr: val, ..m.regs }
            } else if offset == 4 {
                GicRegs { gicc_pmr: val, ..m.regs }
            } else if offset == 8 || offset == 0x1c {
                GicRegs { gicc_bpr: val, ..m.regs }
            } else {
                m.regs
            }
        }),
{
    lemma_le32_round_trip(val);
}

/// Accesses that are not four bytes wide do nothing at all.
pub proof fn law_other_widths_do_nothing(
    m: GicModel,
    vcpuid: u64,
    offset: u64,
    data: Seq<u8>,
)
    requires
        data.len() != 4,
    ensures
        read_bytes(m, vcpuid, offset, data) == data,
        after_read(m, vcpuid, offset, data.len()) == m,
        after_write(m, vcpuid, offset, data) == m,
        write_deliveries(m, vcpuid, offset, data) == Seq::<(u64, u32)>::empty(),
{
}

/// What a four-byte read returns does not depend on the buffer.
pub proof fn law_reads_ignore_the_buffer(m: GicModel, vcpuid: u64, offset: u64, data: Seq<u8>)
    requires
        data.len() == 4,
    ensures
        read_bytes(m, vcpuid, offset, data) == read_bytes(
            m,
            vcpuid,
            offset,
            seq![0u8, 0, 0, 0],
        ),
        read_bytes(m, vcpuid, offset, data).len() == 4,
{
}

/// An acknowledge (a read of the CPU interface at 0xc, or of its alias at 0x20) returns the oldest
/// interrupt of the reader, under its own number, and takes that one alone out of its queue; with
/// nothing pending it returns 1023 and takes nothing. No other read changes anything.
pub proof fn law_acknowledge(m: GicModel, vcpuid: u64, offset: u64)
    requires
        vcpuid < m.queues.len(),
    ensures
        ({
            let queue = m.queues[vcpuid as int];
            let after = after_read(m, vcpuid, offset, 4);
            &&& after.regs == m.regs
            &&& offset != 0xc && offset != 0x20 ==> after == m
            &&& offset == 0xc || offset == 0x20 ==> {
                &&& word_read(m, vcpuid, offset) == if queue.len() == 0 {
                    1023
                } else {
                    queue[0] as int
                }
                &&& after.queues.len() == m.queues.len()
                &&& after.queues[vcpuid as int] == if queue.len() == 0 {
                    queue
                } else {
                    queue.skip(1)
                }
                &&& forall|k: int|
                    0 <= k < m.queues.len() && k != vcpuid ==> #[trigger] after.queues[k]
                        == m.queues[k]
            }
        }),
{
    let queue = m.queues[vcpuid as int];
    if queue.len() > 0 {
        lemma_le32_round_trip(queue[0]);
        assert(queue.drop_first() =~= queue.skip(1));
    } else {
        lemma_le32_round_trip(1023);
    }
}

/// What the other offsets of the CPU interface read as: control, priority mask and binary point
/// what they hold, the running priority 0xff, the highest pending interrupt 1023, the
/// identification 0x2043b, and all else zero.
pub proof fn law_reads_of_the_cpu_interface(m: GicModel, vcpuid: u64, offset: u64)
    requires
        offset < 0x1_0000,
        offset != 0xc && offset != 0x20,
    ensures
        word_read(m, vcpuid, offset) == if offset == 0 {
            m.regs.gicc_ctlr as int
        } else if offset == 4 {
            m.regs.gicc_pmr as int
        } else if offset == 8 || offset == 0x1c {
            m.regs.gicc_bpr as int
        } else if offset == 0x14 {
            0xff
        } else if offset == 0x18 || offset == 0x28 {
            1023
        } else if offset == 0xfc {
            0x2_043b
        } else {
            0
        },
{
    lemma_le32_round_trip(m.regs.gicc_ctlr);
    lemma_le32_round_trip(m.regs.gicc_pmr);
    lemma_le32_round_trip(m.regs.gicc_bpr);
    lemma_le32_round_trip(0xff);
    lemma_le32_round_trip(1023);
    lemma_le32_round_trip(0x2_043b);
    lemma_le32_round_trip(0);
}

/// The distributor's control register reads as what it holds; the type register states nine words
/// of lines and the number of vCPUs, less one, in three bits; the identification is 0x43b.
pub proof fn law_reads_of_the_distributor_control(m: GicModel, vcpuid: u64)
    requires
        m.queues.len() > 0,
    ensures
        word_read(m, vcpuid, 0x1_0000) == m.regs.gicd_ctlr,
        word_read(m, vcpuid, 0x1_0004) % 32 == 8,
        word_read(m, vcpuid, 0x1_0004) / 32 == (m.queues.len() - 1) % 8,
        word_read(m, vcpuid, 0x1_0008) == 0x43b,
{
    lemma_le32_round_trip(m.regs.gicd_ctlr);
    lemma_le32_round_trip((8 + 32 * ((m.queues.len() - 1) % 8)) as u32);
    lemma_le32_round_trip(0x43b);
}

/// The enable banks, at 0x100 and at 0x180 of the distributor, both read as the enabled lines, one
/// bit each; the pending banks, at 0x200 and at 0x280, as the held ones.
pub proof fn law_reads_of_the_banks(m: GicModel, vcpuid: u64, offset: u64, i: int)
    requires
        offset < 0x80,
        0 <= i < 32,
    ensures
        ({
            let line = offset as int / 4 * 32 + i;
            let enabled = m.regs.enabled.contains(line);
            let held = m.regs.pending.contains(line);
            &&& bit(word_read(m, vcpuid, (0x1_0100 + offset) as u64) as u32, i) == enabled
            &&& bit(word_read(m, vcpuid, (0x1_0180 + offset) as u64) as u32, i) == enabled
            &&& bit(word_read(m, vcpuid, (0x1_0200 + offset) as u64) as u32, i) == held
            &&& bit(word_read(m, vcpuid, (0x1_0280 + offset) as u64) as u32, i) == held
        }),
{
    let word = offset as int / 4;
    let enabled = in_word(m.regs.enabled, word);
    let held = in_word(m.regs.pending, word);
    lemma_pack_bit(enabled, 32, i);
    lemma_pack_bit(held, 32, i);
    lemma_le32_round_trip(crate::bits::pack(enabled, 32));
    lemma_le32_round_trip(crate::bits::pack(held, 32));
    assert(offset as int % 0x80 / 4 == word);
    assert((offset + 0x80) % 0x80 / 4 == word);
}

/// The target bank reads byte by byte: a banked INTID as the reader's own bit, an SPI as its target
/// byte, and zero past the last.
pub proof fn law_reads_of_the_targets(m: GicModel, vcpuid: u64, offset: u64, i: int)
    requires
        offset < 0x400,
        0 <= i < 4,
    ensures
        ({
            let irq = offset + i;
            read_bytes(m, vcpuid, (0x1_0800 + offset) as u64, seq![0u8, 0, 0, 0])[i] == if irq
                < 32 {
                1u8 << ((vcpuid % 8) as u8)
            } else if irq < 1020 {
                m.regs.targets[irq]
            } else {
                0
            }
        }),
{
    let first = offset as int;
    let bytes = Seq::new(4, |k: int| target_byte(m.regs, vcpuid, first + k));
    assert((0x1_0800 + offset) as u64 - 0x1_0000 - 0x800 == first);
    lemma_word_of_bytes(bytes);
}

/// The configuration bank reads, in the upper bit of each field, whether the INTID is
/// edge-triggered, for INTIDs 32 to 287, and zero in every other bit. The fields of a word that is
/// not aligned wrap around inside the 32 INTIDs that it starts in.
pub proof fn law_reads_of_the_configuration(m: GicModel, vcpuid: u64, offset: u64, i: int)
    requires
        offset < 0x300,
        0 <= i < 16,
    ensures
        ({
            let word = word_read(m, vcpuid, (0x1_0c00 + offset) as u64) as u32;
            let first = offset * 4;
            let line = first / 32 * 32 + (first + i) % 32;
            &&& bit(word, 2 * i + 1) == (32 <= first < 288 && m.regs.edge.contains(line))
            &&& !bit(word, 2 * i)
            &&& offset % 4 == 0 ==> line == first + i
        }),
{
    let at = (0x1_0c00 + offset) as u64;
    let irq = offset * 4;
    let f = is_edge_bit(m.regs.edge, irq);
    assert(config_irq((at - 0x1_0000) as u64) == irq);
    lemma_pack_bit(f, 32, 2 * i);
    lemma_pack_bit(f, 32, 2 * i + 1);
    lemma_le32_round_trip(crate::bits::pack(f, 32));
    lemma_le32_round_trip(0);
    crate::bits::lemma_bit_zero(2 * i);
    crate::bits::lemma_bit_zero(2 * i + 1);
    assert((2 * i + 1) / 2 == i);
    assert((irq % 32 + i) % 32 == (irq + i) % 32);
    if offset % 4 == 0 {
        assert(irq % 16 == 0);
    }
}

/// The identification registers at the end of the distributor.
pub proof fn law_reads_of_the_identification(m: GicModel, vcpuid: u64, offset: u64)
    requires
        offset < 0x30,
    ensures
        word_read(m, vcpuid, (0x1_0fd0 + offset) as u64) == seq![
            0x04int,
            0x00,
            0x00,
            0x00,
            0x90,
            0xb4,
            0x2b,
            0x00,
            0x0d,
            0xf0,
            0x05,
            0xb1,
        ][offset as int / 4],
{
    let id = crate::gicv2::regs::id_reg_at(offset);
    lemma_le32_round_trip(id);
    assert((0x1_0fd0 + offset) as u64 - 0x1_0000 - 0xfd0 == offset);
}

/// Every other offset of the distributor reads as zero, the software interrupt request among them.
pub proof fn law_other_distributor_reads_are_zero(m: GicModel, vcpuid: u64, offset: u64)
    requires
        offset >= 0x1_0000,
        !(offset == 0x1_0000 || offset == 0x1_0004 || offset == 0x1_0008 || 0x1_0100 <= offset
            < 0x1_0300 || 0x1_0800 <= offset < 0x1_0f00 || 0x1_0fd0 <= offset < 0x1_1000),
    ensures
        word_read(m, vcpuid, offset) == 0,
{
    lemma_le32_round_trip(0);
}

} // verus!
