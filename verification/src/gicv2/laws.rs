//! What a guest, and the devices behind the controller, can rely on.

use crate::bits::{bit, lemma_pack_bit};
use crate::bytes::{from_le32, le32, lemma_le32_round_trip};
use crate::gicv2::regs::{
    after_cpuif_write, after_dist_write, after_irq, after_read, after_reconfigure, after_write,
    bank_base, config_irq, config_line, cpuif_value, dist_deliveries, dist_value, in_word, is_ack,
    is_configurable, is_edge_bit, target_byte, write_deliveries, GicModel, GICC_ABPR, GICC_AEOIR,
    GICC_BPR, GICC_CTLR, GICC_DIR, GICC_EOIR, GICC_PMR, GICD_CTLR, GICD_ICENABLER, GICD_ICFGR,
    GICD_IDREGS, GICD_IDREGS_END, GICD_IIDR, GICD_ISACTIVER, GICD_ISENABLER, GICD_ISPENDR,
    GICD_ITARGETSR, GICD_SGIR, GICD_TYPER, GICV2_BASE_SIZE,
};
use crate::gicv2::state::{
    after_disable, after_enable, after_raise, as_cpu, delivery_of, flushed, in_target_list,
    is_named_and_held, is_other_cpu, lemma_select_complete, lemma_select_distinct,
    lemma_select_none, lemma_select_one, lemma_select_sound, lowest_cpu, named_lines,
    raise_target, sgi_target_cpus, spi_target_cpu, GicRegs, GIC_INTERNAL, MAXIRQ,
};
use crate::gicv2::GicV2;
use crate::layout::MMIO_MEM_START;
use crate::vcpu::{acknowledged, after_acknowledge, deliver_all, GIC_INTID_SPURIOUS};
use vstd::prelude::*;

verus! {

/// The states that a controller can be in.
pub open spec fn is_valid(m: GicModel) -> bool {
    &&& 0 < m.queues.len() <= u64::MAX
    &&& m.regs.targets.len() == MAXIRQ
    &&& forall|irq: int| #[trigger] m.regs.enabled.contains(irq) ==> 0 <= irq < MAXIRQ
    &&& forall|irq: int| #[trigger]
        m.regs.pending.contains(irq) ==> GIC_INTERNAL <= irq < 1024 && !m.regs.enabled.contains(irq)
    &&& forall|irq: int| #[trigger] m.regs.edge.contains(irq) ==> 0 <= irq < 1024
}

/// The first INTID of the enable bank word that holds `irq`.
pub open spec fn word_base(irq: u32) -> u32 {
    (irq / 32 * 32) as u32
}

/// The INTIDs of `list` that are addressed to `cpu`, in order.
pub open spec fn addressed_to(list: Seq<(u64, u32)>, cpu: int) -> Seq<u32>
    decreases list.len(),
{
    if list.len() == 0 {
        Seq::empty()
    } else if list.last().0 == cpu {
        addressed_to(list.drop_last(), cpu).push(list.last().1)
    } else {
        addressed_to(list.drop_last(), cpu)
    }
}

/// The queue after `n` acknowledges.
pub open spec fn after_acknowledges(queue: Seq<u32>, n: nat) -> Seq<u32>
    decreases n,
{
    if n == 0 {
        queue
    } else {
        after_acknowledge(after_acknowledges(queue, (n - 1) as nat))
    }
}

/// A controller is always in a valid state: an interrupt is held only on a masked line.
pub proof fn law_state_is_valid(gic: GicV2)
    requires
        gic.wf(),
    ensures
        is_valid(gic@),
{
    gic.vcpu_list.lemma_count_fits();
}

/// The window covers both frames without a gap, distributor above CPU interface, and stays below
/// the device region.
pub proof fn law_window(gic: GicV2)
    requires
        gic.wf(),
    ensures
        gic.cpuif_addr + gic.cpuif_size == gic.dist_addr,
        gic.dist_addr + gic.dist_size <= MMIO_MEM_START,
{
}

/// An interrupt raised on a masked line is held: nobody gets it, and it reads as pending.
pub proof fn law_masked_interrupt_is_held(m: GicModel, irq: u32)
    requires
        is_valid(m),
        GIC_INTERNAL <= irq < MAXIRQ,
        !m.regs.enabled.contains(irq as int),
    ensures
        after_irq(m, irq).queues == m.queues,
        after_irq(m, irq).regs.pending.contains(irq as int),
        forall|vcpuid: u64|
            bit(
                #[trigger] dist_value(
                    after_irq(m, irq),
                    vcpuid,
                    (GICD_ISPENDR + irq / 32 * 4) as u64,
                ),
                irq as int % 32,
            ),
{
    let after = after_irq(m, irq);
    let word = irq as int / 32;
    lemma_pack_bit(in_word(after.regs.pending, word), 32, irq as int % 32);
    assert(32 * word + irq as int % 32 == irq);
    assert forall|vcpuid: u64|
        bit(
            #[trigger] dist_value(after, vcpuid, (GICD_ISPENDR + irq / 32 * 4) as u64),
            irq as int % 32,
        ) by {
        assert((irq / 32 * 4) % 0x80 / 4 == word);
    }
}

/// An interrupt held on a line is delivered to its target once the line is enabled, exactly once:
/// it is then no longer held, and enabling the line again delivers nothing.
pub proof fn law_held_interrupt_is_delivered_once(
    regs: GicRegs,
    irq: u32,
    val: u32,
    cpu_count: u64,
)
    requires
        irq < MAXIRQ,
        regs.pending.contains(irq as int),
        bit(val, irq as int % 32),
    ensures
        ({
            let base = word_base(irq);
            let enabled = after_enable(regs, base, val);
            let list = flushed(regs, base, val, cpu_count);
            &&& list.contains((spi_target_cpu(regs.targets[irq as int], cpu_count), irq))
            &&& list.no_duplicates()
            &&& forall|k: int|
                0 <= k < list.len() && (#[trigger] list[k]).1 == irq ==> list[k].0
                    == spi_target_cpu(regs.targets[irq as int], cpu_count)
            &&& enabled.enabled.contains(irq as int)
            &&& !enabled.pending.contains(irq as int)
            &&& flushed(enabled, base, val, cpu_count) == Seq::<(u64, u32)>::empty()
        }),
{
    let base = word_base(irq);
    let enabled = after_enable(regs, base, val);
    let p = is_named_and_held(regs, base, val);
    let f = delivery_of(regs, base, cpu_count);
    let i = irq as int % 32;
    assert(base + i == irq);
    assert(p(i));
    lemma_select_complete(32, p, f, i);
    assert(f(i) == (spi_target_cpu(regs.targets[irq as int], cpu_count), irq));
    assert forall|a: int, b: int| 0 <= a < 32 && 0 <= b < 32 && a != b implies #[trigger] f(a)
        != #[trigger] f(b) by {
        assert((base + a) as u32 == base + a);
        assert((base + b) as u32 == base + b);
    }
    lemma_select_distinct(32, p, f);
    let list = flushed(regs, base, val, cpu_count);
    assert forall|k: int| 0 <= k < list.len() && (#[trigger] list[k]).1 == irq implies list[k].0
        == spi_target_cpu(regs.targets[irq as int], cpu_count) by {
        lemma_select_sound(32, p, f, k);
        let j = choose|j: int| 0 <= j < 32 && p(j) && #[trigger] f(j) == list[k];
        assert((base + j) as u32 == base + j);
    }
    lemma_select_none(
        32,
        is_named_and_held(enabled, base, val),
        delivery_of(enabled, base, cpu_count),
    );
}

/// A device that raises its line before the guest unmasks it loses nothing: unmasking the line
/// queues the interrupt for its target vCPU, behind whatever is pending there, and leaves every
/// other queue alone.
pub proof fn law_raise_then_unmask_delivers(m: GicModel, irq: u32, val: u32, vcpuid: u64)
    requires
        is_valid(m),
        GIC_INTERNAL <= irq < MAXIRQ,
        !m.regs.enabled.contains(irq as int),
        forall|i: int| 0 <= i < 32 ==> #[trigger] bit(val, i) == (i == irq as int % 32),
    ensures
        ({
            let raised = after_irq(m, irq);
            let offset = (GICV2_BASE_SIZE + GICD_ISENABLER + irq / 32 * 4) as u64;
            let target = spi_target_cpu(m.regs.targets[irq as int], m.queues.len() as u64);
            let unmasked = after_write(raised, vcpuid, offset, le32(val));
            &&& write_deliveries(raised, vcpuid, offset, le32(val)) == seq![(target, irq)]
            &&& target < m.queues.len()
            &&& unmasked.queues == m.queues.update(
                target as int,
                m.queues[target as int].push(irq),
            )
        }),
{
    let raised = after_irq(m, irq);
    let offset = (GICV2_BASE_SIZE + GICD_ISENABLER + irq / 32 * 4) as u64;
    let target = spi_target_cpu(m.regs.targets[irq as int], m.queues.len() as u64);
    lemma_le32_round_trip(val);
    let base = word_base(irq);
    let dist_offset = (offset - GICV2_BASE_SIZE) as u64;
    assert((dist_offset - GICD_ISENABLER) / 4 == irq / 32);
    assert(bank_base(GICD_ISENABLER, dist_offset) == base);
    let p = is_named_and_held(raised.regs, base, val);
    let f = delivery_of(raised.regs, base, m.queues.len() as u64);
    let i = irq as int % 32;
    assert(base + i == irq);
    assert forall|k: int| 0 <= k < 32 implies #[trigger] p(k) == (k == i) by {
        assert(named_lines(base, val).contains(base + k) ==> bit(val, k));
        assert(bit(val, i));
    }
    lemma_select_one(32, p, f, i);
    let list = seq![(target, irq)];
    assert(list.drop_last() =~= Seq::empty());
    assert(deliver_all(m.queues, list.drop_last()) == m.queues);
}

/// An interrupt raised on an enabled line is queued for its target straight away and is not held.
pub proof fn law_enabled_interrupt_is_delivered(m: GicModel, irq: u32)
    requires
        is_valid(m),
        irq < MAXIRQ,
        m.regs.enabled.contains(irq as int),
    ensures
        ({
            let target = spi_target_cpu(m.regs.targets[irq as int], m.queues.len() as u64);
            &&& after_irq(m, irq).regs == m.regs
            &&& after_irq(m, irq).queues == m.queues.update(
                target as int,
                m.queues[target as int].push(irq),
            )
        }),
{
    let target = spi_target_cpu(m.regs.targets[irq as int], m.queues.len() as u64);
    let list = seq![(target, irq)];
    assert(list.drop_last() =~= Seq::empty());
    assert(deliver_all(m.queues, list.drop_last()) == m.queues);
}

/// Disabling a line stops delivery again: what is raised on it afterwards is held.
pub proof fn law_disabling_stops_delivery(regs: GicRegs, irq: u32, val: u32, cpu_count: u64)
    requires
        GIC_INTERNAL <= irq < MAXIRQ,
        bit(val, irq as int % 32),
    ensures
        raise_target(after_disable(regs, word_base(irq), val), irq, cpu_count) is None,
        after_raise(after_disable(regs, word_base(irq), val), irq).pending.contains(irq as int),
{
    assert(word_base(irq) + irq as int % 32 == irq);
}

/// SGIs and PPIs are delivered whatever the enable state is, and are never held.
pub proof fn law_banked_interrupts_need_no_enable(regs: GicRegs, irq: u32, cpu_count: u64)
    requires
        irq < GIC_INTERNAL,
    ensures
        raise_target(regs, irq, cpu_count) == Some(
            spi_target_cpu(regs.targets[irq as int], cpu_count),
        ),
        after_raise(regs, irq) == regs,
{
}

/// No write of the guest drops a held interrupt: each one is still held afterwards, or was
/// delivered to its target, and not both.
pub proof fn law_writes_drop_nothing(
    m: GicModel,
    vcpuid: u64,
    offset: u64,
    data: Seq<u8>,
    irq: u32,
)
    requires
        is_valid(m),
        m.regs.pending.contains(irq as int),
    ensures
        after_write(m, vcpuid, offset, data).regs.pending.contains(irq as int)
            <==> !write_deliveries(m, vcpuid, offset, data).contains(
            (spi_target_cpu(m.regs.targets[irq as int], m.queues.len() as u64), irq),
        ),
{
    if data.len() == 4 && GICV2_BASE_SIZE + GICD_ISENABLER <= offset < GICV2_BASE_SIZE
        + GICD_ICENABLER {
        let dist_offset = (offset - GICV2_BASE_SIZE) as u64;
        let val = from_le32(data) as u32;
        let base = bank_base(GICD_ISENABLER, dist_offset);
        let count = m.queues.len() as u64;
        let p = is_named_and_held(m.regs, base, val);
        let f = delivery_of(m.regs, base, count);
        let list = flushed(m.regs, base, val, count);
        let one = (spi_target_cpu(m.regs.targets[irq as int], count), irq);
        if named_lines(base, val).contains(irq as int) {
            let i = irq - base;
            assert(p(i));
            lemma_select_complete(32, p, f, i);
            assert(f(i) == one);
        } else if list.contains(one) {
            let k = choose|k: int| 0 <= k < list.len() && list[k] == one;
            lemma_select_sound(32, p, f, k);
            let j = choose|j: int| 0 <= j < 32 && p(j) && #[trigger] f(j) == list[k];
            assert((base + j) as u32 == base + j);
        }
    }
}

/// A write of the guest never makes an interrupt pending that was not.
pub proof fn law_writes_hold_nothing_new(
    m: GicModel,
    vcpuid: u64,
    offset: u64,
    data: Seq<u8>,
)
    ensures
        after_write(m, vcpuid, offset, data).regs.pending.subset_of(m.regs.pending),
{
}

/// Delivering appends: each vCPU's queue keeps what it had and gets the interrupts addressed to
/// it, in the order of delivery.
pub proof fn law_delivery_is_fifo(queues: Seq<Seq<u32>>, list: Seq<(u64, u32)>, cpu: int)
    requires
        0 <= cpu < queues.len(),
        forall|i: int| 0 <= i < list.len() ==> (#[trigger] list[i]).0 < queues.len(),
    ensures
        deliver_all(queues, list).len() == queues.len(),
        deliver_all(queues, list)[cpu] == queues[cpu] + addressed_to(list, cpu),
    decreases list.len(),
{
    if list.len() == 0 {
        assert(queues[cpu] + addressed_to(list, cpu) =~= queues[cpu]);
    } else {
        let rest = list.drop_last();
        assert forall|i: int| 0 <= i < rest.len() implies (#[trigger] rest[i]).0
            < queues.len() by {
            assert(rest[i] == list[i]);
        }
        law_delivery_is_fifo(queues, rest, cpu);
        let last = list.last();
        assert(last == list[list.len() - 1]);
        assert(deliver_all(queues, list)[cpu] =~= queues[cpu] + addressed_to(list, cpu));
    }
}

/// Acknowledging hands out a vCPU's interrupts oldest first, each once, and reads as spurious
/// when none is left.
pub proof fn law_acknowledges_are_in_order(queue: Seq<u32>, n: nat)
    ensures
        acknowledged(after_acknowledges(queue, n)) == if n < queue.len() {
            queue[n as int]
        } else {
            GIC_INTID_SPURIOUS
        },
        after_acknowledges(queue, n) == if n < queue.len() {
            queue.skip(n as int)
        } else {
            Seq::empty()
        },
    decreases n,
{
    if n == 0 {
        assert(queue.skip(0) =~= queue);
        if queue.len() == 0 {
            assert(queue =~= Seq::empty());
        }
    } else {
        law_acknowledges_are_in_order(queue, (n - 1) as nat);
        if n - 1 < queue.len() {
            assert(queue.skip(n - 1).drop_first() =~= queue.skip(n as int));
            if n == queue.len() {
                assert(queue.skip(n as int) =~= Seq::empty());
            }
        }
    }
}

/// Reading changes nothing but by an acknowledge, which takes from the reader's queue alone.
pub proof fn law_reads_only_acknowledge(m: GicModel, vcpuid: u64, offset: u64, len: nat)
    requires
        is_valid(m),
        vcpuid < m.queues.len(),
    ensures
        after_read(m, vcpuid, offset, len).regs == m.regs,
        !(len == 4 && is_ack(offset)) ==> after_read(m, vcpuid, offset, len) == m,
        after_read(m, vcpuid, offset, len).queues.len() == m.queues.len(),
        forall|cpu: int|
            0 <= cpu < m.queues.len() && cpu != vcpuid ==> #[trigger] after_read(
                m,
                vcpuid,
                offset,
                len,
            ).queues[cpu] == m.queues[cpu],
{
}

/// The control registers read back what was written; of the distributor's, the two group enable
/// bits.
pub proof fn law_control_registers_round_trip(m: GicModel, vcpuid: u64, val: u32)
    ensures
        dist_value(
            GicModel { regs: after_dist_write(m.regs, GICD_CTLR, val), ..m },
            vcpuid,
            GICD_CTLR,
        ) == val % 4,
        forall|offset: u64|
            #![trigger after_cpuif_write(m.regs, offset, val)]
            offset == GICC_CTLR || offset == GICC_PMR || offset == GICC_BPR || offset
                == GICC_ABPR ==> cpuif_value(
                GicModel { regs: after_cpuif_write(m.regs, offset, val), ..m },
                vcpuid,
                offset,
            ) == val,
{
}

/// Enabling lines shows in both enable banks, and so does disabling them: bit for bit, a line
/// reads as enabled if it was or has been enabled since, and a disabled one does not.
pub proof fn law_enable_state_reads_back(
    m: GicModel,
    vcpuid: u64,
    word: int,
    val: u32,
    i: int,
)
    requires
        0 <= word < 32,
        0 <= i < 32,
        32 * word + i < MAXIRQ,
    ensures
        ({
            let set_at = (GICD_ISENABLER + 4 * word) as u64;
            let clear_at = (GICD_ICENABLER + 4 * word) as u64;
            let line = 32 * word + i;
            let enabled = GicModel { regs: after_dist_write(m.regs, set_at, val), ..m };
            let disabled = GicModel { regs: after_dist_write(m.regs, clear_at, val), ..m };
            &&& bit(dist_value(enabled, vcpuid, set_at), i) == (m.regs.enabled.contains(line)
                || bit(val, i))
            &&& bit(dist_value(disabled, vcpuid, set_at), i) == (m.regs.enabled.contains(line)
                && !bit(val, i))
            &&& dist_value(enabled, vcpuid, clear_at) == dist_value(enabled, vcpuid, set_at)
            &&& dist_value(disabled, vcpuid, clear_at) == dist_value(disabled, vcpuid, set_at)
        }),
{
    let set_at = (GICD_ISENABLER + 4 * word) as u64;
    let clear_at = (GICD_ICENABLER + 4 * word) as u64;
    let line = 32 * word + i;
    let enabled = GicModel { regs: after_dist_write(m.regs, set_at, val), ..m };
    let disabled = GicModel { regs: after_dist_write(m.regs, clear_at, val), ..m };
    assert((set_at - GICD_ISENABLER) % 0x80 / 4 == word);
    assert((clear_at - GICD_ISENABLER) % 0x80 / 4 == word);
    assert(bank_base(GICD_ISENABLER, set_at) == 32 * word);
    assert(bank_base(GICD_ICENABLER, clear_at) == 32 * word);
    lemma_pack_bit(in_word(enabled.regs.enabled, word), 32, i);
    lemma_pack_bit(in_word(disabled.regs.enabled, word), 32, i);
    assert(named_lines((32 * word) as u32, val).contains(line) == bit(val, i));
}

/// An SPI's target byte reads back as written, from every vCPU; a banked one reads as the reader
/// and cannot be written.
#[verifier::rlimit(40)]
pub proof fn law_targets_read_back(m: GicModel, vcpuid: u64, offset: u64, val: u32, i: int)
    requires
        is_valid(m),
        GICD_ITARGETSR <= offset < GICD_ICFGR,
        0 <= i < 4,
        offset - GICD_ITARGETSR + i < MAXIRQ,
    ensures
        ({
            let irq = offset - GICD_ITARGETSR + i;
            let written = GicModel { regs: after_dist_write(m.regs, offset, val), ..m };
            le32(dist_value(written, vcpuid, offset))[i] == if irq < GIC_INTERNAL {
                1u8 << ((vcpuid % 8) as u8)
            } else {
                le32(val)[i]
            }
        }),
{
    let first = offset - GICD_ITARGETSR;
    let written = GicModel { regs: after_dist_write(m.regs, offset, val), ..m };
    let bytes = Seq::new(4, |k: int| target_byte(written.regs, vcpuid, first + k));
    lemma_word_of_bytes(bytes);
}

/// The bytes of the number that four bytes spell are those bytes.
#[verifier::rlimit(40)]
pub proof fn lemma_word_of_bytes(bytes: Seq<u8>)
    requires
        bytes.len() == 4,
    ensures
        le32(from_le32(bytes) as u32) == bytes,
{
    let x = from_le32(bytes);
    assert(x / 0x100 == bytes[1] + 0x100 * bytes[2] + 0x1_0000 * bytes[3]);
    assert(x / 0x1_0000 == bytes[2] + 0x100 * bytes[3]);
    assert(x / 0x100_0000 == bytes[3]);
    assert(le32(x as u32) =~= bytes);
}

/// The trigger configuration of a word of SPIs reads back as written: the upper bit of each field
/// is kept, the lower one reads as zero.
pub proof fn law_configuration_reads_back(m: GicModel, vcpuid: u64, offset: u64, val: u32, i: int)
    requires
        GICD_ICFGR <= offset < GICD_SGIR,
        offset % 4 == 0,
        is_configurable(config_irq(offset)),
        0 <= i < 16,
    ensures
        ({
            let written = GicModel { regs: after_dist_write(m.regs, offset, val), ..m };
            let read = dist_value(written, vcpuid, offset);
            bit(read, 2 * i + 1) == bit(val, 2 * i + 1) && !bit(read, 2 * i)
        }),
{
    let irq = config_irq(offset);
    let edge = after_reconfigure(m.regs.edge, irq, val);
    let f = is_edge_bit(edge, irq);
    lemma_pack_bit(f, 32, 2 * i + 1);
    lemma_pack_bit(f, 32, 2 * i);
    assert(irq % 16 == 0);
    let line = config_line(irq, i);
    assert(line == irq + i);
    assert(line / 32 == irq / 32);
    assert((line - irq) % 32 == i);
    assert((2 * i + 1) / 2 == i);
}

/// Distributor offsets at which no register stands, and registers that hold nothing here.
pub open spec fn is_unmodelled(offset: u64) -> bool {
    ||| offset < GICD_ISENABLER && offset != GICD_CTLR && offset != GICD_TYPER && offset
        != GICD_IIDR
    ||| GICD_ISACTIVER <= offset < GICD_ITARGETSR
    ||| GICD_SGIR < offset < GICD_IDREGS
    ||| GICD_IDREGS_END <= offset
}

/// Offsets that no register covers read as zero and ignore writes.
pub proof fn law_unmodelled_registers_are_inert(m: GicModel, vcpuid: u64, offset: u64, val: u32)
    requires
        is_unmodelled(offset),
    ensures
        dist_value(m, vcpuid, offset) == 0,
        after_dist_write(m.regs, offset, val) == m.regs,
        dist_deliveries(m, vcpuid, offset, val) == Seq::<(u64, u32)>::empty(),
{
}

/// Ending or deactivating an interrupt changes nothing.
pub proof fn law_end_of_interrupt_changes_nothing(regs: GicRegs, offset: u64, val: u32)
    requires
        offset == GICC_EOIR || offset == GICC_AEOIR || offset == GICC_DIR,
    ensures
        after_cpuif_write(regs, offset, val) == regs,
{
}

/// An SPI goes to a vCPU that exists: the lowest one its mask names, or vCPU 0 where the mask
/// names none that the machine has.
pub proof fn law_spi_target(mask: u8, cpu_count: u64)
    requires
        cpu_count > 0,
    ensures
        ({
            let target = spi_target_cpu(mask, cpu_count);
            &&& target < cpu_count
            &&& (exists|cpu: int|
                0 <= cpu < 8 && cpu < cpu_count && #[trigger] bit(mask as u32, cpu)) ==> {
                &&& target < 8
                &&& bit(mask as u32, target as int)
                &&& forall|cpu: int|
                    0 <= cpu < target ==> !#[trigger] bit(mask as u32, cpu)
            }
            &&& (forall|cpu: int|
                0 <= cpu < 8 && cpu < cpu_count ==> !#[trigger] bit(mask as u32, cpu)) ==> target
                == 0
        }),
{
    lemma_lowest_cpu(mask, 0);
}

/// What the lowest named CPU is.
proof fn lemma_lowest_cpu(mask: u8, from: nat)
    requires
        from <= 8,
    ensures
        from <= lowest_cpu(mask, from) <= 8,
        lowest_cpu(mask, from) < 8 ==> bit(mask as u32, lowest_cpu(mask, from) as int),
        forall|cpu: int|
            from <= cpu < lowest_cpu(mask, from) ==> !#[trigger] bit(mask as u32, cpu),
    decreases 8 - from,
{
    if from < 8 && !bit(mask as u32, from as int) {
        lemma_lowest_cpu(mask, from + 1);
    }
}

/// An SGI goes to each vCPU that its filter selects, once, and to no other.
pub proof fn law_sgi_targets(filter: u32, target_list: u32, self_id: u64, cpu_count: u64, cpu: u64)
    ensures
        sgi_target_cpus(filter, target_list, self_id, cpu_count).no_duplicates(),
        filter == 0 ==> (sgi_target_cpus(filter, target_list, self_id, cpu_count).contains(cpu)
            <==> cpu < cpu_count && cpu < 32 && bit(target_list, cpu as int)),
        filter == 1 ==> (sgi_target_cpus(filter, target_list, self_id, cpu_count).contains(cpu)
            <==> cpu < cpu_count && cpu != self_id),
        filter == 2 ==> (sgi_target_cpus(filter, target_list, self_id, cpu_count).contains(cpu)
            <==> cpu == self_id),
        filter > 2 ==> !sgi_target_cpus(filter, target_list, self_id, cpu_count).contains(cpu),
{
    let targets = sgi_target_cpus(filter, target_list, self_id, cpu_count);
    if filter <= 1 {
        let p = if filter == 0 {
            in_target_list(target_list)
        } else {
            is_other_cpu(self_id)
        };
        let f = as_cpu();
        lemma_select_distinct(cpu_count as nat, p, f);
        if cpu < cpu_count && p(cpu as int) {
            lemma_select_complete(cpu_count as nat, p, f, cpu as int);
            assert(f(cpu as int) == cpu);
        }
        if targets.contains(cpu) {
            let k = choose|k: int| 0 <= k < targets.len() && targets[k] == cpu;
            lemma_select_sound(cpu_count as nat, p, f, k);
        }
    } else if filter == 2 {
        assert(targets[0] == self_id);
    }
}

/// Every access keeps the state valid.
pub proof fn law_accesses_keep_the_state_valid(
    m: GicModel,
    vcpuid: u64,
    offset: u64,
    data: Seq<u8>,
    irq: u32,
)
    requires
        is_valid(m),
        vcpuid < m.queues.len(),
        irq < MAXIRQ,
    ensures
        is_valid(after_write(m, vcpuid, offset, data)),
        is_valid(after_read(m, vcpuid, offset, data.len())),
        is_valid(after_irq(m, irq)),
{
    let list = write_deliveries(m, vcpuid, offset, data);
    let count = m.queues.len() as u64;
    assert forall|k: int| 0 <= k < list.len() implies (#[trigger] list[k]).0 < count by {
        let val = from_le32(data) as u32;
        let dist_offset = (offset - GICV2_BASE_SIZE) as u64;
        if GICD_ISENABLER <= dist_offset < GICD_ICENABLER {
            let base = bank_base(GICD_ISENABLER, dist_offset);
            lemma_select_sound(
                32,
                is_named_and_held(m.regs, base, val),
                delivery_of(m.regs, base, count),
                k,
            );
        } else {
            let filter = val / 0x100_0000 % 4;
            let target_list = val / 0x1_0000 % 0x100;
            let targets = sgi_target_cpus(filter, target_list, vcpuid, count);
            assert(targets.contains(targets[k]));
            law_sgi_targets(filter, target_list, vcpuid, count, targets[k]);
        }
    }
    law_delivery_is_fifo(m.queues, list, 0);
    let one = seq![(spi_target_cpu(m.regs.targets[irq as int], count), irq)];
    law_delivery_is_fifo(m.queues, one, 0);
}

/// Whether every held interrupt is on a line that exists.
pub open spec fn holds_only_lines(regs: GicRegs) -> bool {
    forall|irq: int| #[trigger] regs.pending.contains(irq) ==> irq < MAXIRQ
}

/// As long as devices only raise lines that exist, nothing else is ever held: neither out of reset
/// nor after any access or raise.
pub proof fn law_only_lines_are_held(
    m: GicModel,
    vcpuid: u64,
    offset: u64,
    data: Seq<u8>,
    irq: u32,
)
    requires
        irq < MAXIRQ,
    ensures
        m.regs.pending == Set::<int>::empty() ==> holds_only_lines(m.regs),
        holds_only_lines(m.regs) ==> {
            &&& holds_only_lines(after_write(m, vcpuid, offset, data).regs)
            &&& holds_only_lines(after_read(m, vcpuid, offset, data.len()).regs)
            &&& holds_only_lines(after_irq(m, irq).regs)
        },
{
}

} // verus!
