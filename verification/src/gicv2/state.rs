//! The distributor's interrupt state: which lines are enabled, which are held, and where they go.

use crate::bits::{bit, lemma_bit_and_not, lemma_bit_cases, lemma_bit_mask, lemma_bit_or};
use vstd::prelude::*;

verus! {

/// Architectural maximum INTID.
pub const MAXIRQ: u32 = 1020;

/// SGIs (0..16) plus PPIs (16..32) are banked per CPU.
pub const GIC_INTERNAL: u32 = 32;

/// Per-INTID target CPU masks. Only the entries at or above [`GIC_INTERNAL`] are meaningful.
pub type TargetMasks = [u8; 1020];

/// One bit per INTID.
pub type IrqBitmap = [u32; 32];

/// The INTIDs whose bit is set in `map`.
pub open spec fn lines(map: IrqBitmap) -> Set<int> {
    Set::new(|irq: int| 0 <= irq < 1024 && bit(map@[irq / 32], irq % 32))
}

/// Whether the bit of `irq` is set.
pub fn bit_set(map: &IrqBitmap, irq: u32) -> (set: bool)
    requires
        irq < 1024,
    ensures
        set == lines(*map).contains(irq as int),
{
    proof {
        lemma_bit_mask(map@[irq as int / 32], irq as int % 32);
    }
    map[(irq / 32) as usize] & (1u32 << (irq % 32)) != 0
}

/// Set the bit of `irq`.
pub fn set_bit(map: &mut IrqBitmap, irq: u32)
    requires
        irq < 1024,
    ensures
        lines(*final(map)) == lines(*old(map)).insert(irq as int),
{
    let word: usize = (irq / 32) as usize;
    map[word] = map[word] | (1u32 << (irq % 32));
    proof {
        assert forall|k: int| 0 <= k < 1024 implies lines(*map).contains(k) == lines(
            *old(map),
        ).insert(irq as int).contains(k) by {
            lemma_bit_or(old(map)@[word as int], irq as int % 32, k % 32);
        }
        assert(lines(*map) =~= lines(*old(map)).insert(irq as int));
    }
}

/// Clear the bit of `irq`.
pub fn clear_bit(map: &mut IrqBitmap, irq: u32)
    requires
        irq < 1024,
    ensures
        lines(*final(map)) == lines(*old(map)).remove(irq as int),
{
    let word: usize = (irq / 32) as usize;
    map[word] = map[word] & !(1u32 << (irq % 32));
    proof {
        assert forall|k: int| 0 <= k < 1024 implies lines(*map).contains(k) == lines(
            *old(map),
        ).remove(irq as int).contains(k) by {
            lemma_bit_and_not(old(map)@[word as int], irq as int % 32, k % 32);
        }
        assert(lines(*map) =~= lines(*old(map)).remove(irq as int));
    }
}

/// The values of `f` at the indices below `n` that satisfy `p`, in ascending order of the index.
pub open spec fn select<T>(n: nat, p: spec_fn(int) -> bool, f: spec_fn(int) -> T) -> Seq<T>
    decreases n,
{
    if n == 0 {
        Seq::empty()
    } else if p(n - 1) {
        select(((n - 1) as nat), p, f).push(f(n - 1))
    } else {
        select(((n - 1) as nat), p, f)
    }
}

/// Every selected value comes from an index that satisfies the condition.
pub proof fn lemma_select_sound<T>(n: nat, p: spec_fn(int) -> bool, f: spec_fn(int) -> T, k: int)
    requires
        0 <= k < select(n, p, f).len(),
    ensures
        exists|i: int| 0 <= i < n && p(i) && #[trigger] f(i) == select(n, p, f)[k],
    decreases n,
{
    if p(n - 1) && k == select((n - 1) as nat, p, f).len() {
        assert(f(n - 1) == select(n, p, f)[k]);
    } else {
        lemma_select_sound((n - 1) as nat, p, f, k);
    }
}

/// Every index that satisfies the condition is selected.
pub proof fn lemma_select_complete<T>(
    n: nat,
    p: spec_fn(int) -> bool,
    f: spec_fn(int) -> T,
    i: int,
)
    requires
        0 <= i < n,
        p(i),
    ensures
        select(n, p, f).contains(f(i)),
    decreases n,
{
    let rest = select((n - 1) as nat, p, f);
    if i == n - 1 {
        assert(select(n, p, f)[rest.len() as int] == f(i));
    } else {
        lemma_select_complete((n - 1) as nat, p, f, i);
        let k = choose|k: int| 0 <= k < rest.len() && rest[k] == f(i);
        assert(select(n, p, f)[k] == f(i));
    }
}

/// Where different indices have different values, nothing is selected twice.
pub proof fn lemma_select_distinct<T>(n: nat, p: spec_fn(int) -> bool, f: spec_fn(int) -> T)
    requires
        forall|i: int, j: int|
            #![trigger f(i), f(j)]
            0 <= i < n && 0 <= j < n && i != j ==> f(i) != f(j),
    ensures
        select(n, p, f).no_duplicates(),
    decreases n,
{
    if n > 0 {
        let rest = select((n - 1) as nat, p, f);
        lemma_select_distinct((n - 1) as nat, p, f);
        assert forall|k: int| 0 <= k < rest.len() implies rest[k] != f(n - 1) by {
            lemma_select_sound((n - 1) as nat, p, f, k);
        }
    }
}

/// Where no index satisfies the condition, nothing is selected.
pub proof fn lemma_select_none<T>(n: nat, p: spec_fn(int) -> bool, f: spec_fn(int) -> T)
    requires
        forall|i: int| 0 <= i < n ==> !#[trigger] p(i),
    ensures
        select(n, p, f) == Seq::<T>::empty(),
    decreases n,
{
    if n > 0 {
        lemma_select_none((n - 1) as nat, p, f);
    }
}

/// What is selected keeps the order of the indices.
pub proof fn lemma_select_sorted<T>(
    n: nat,
    p: spec_fn(int) -> bool,
    f: spec_fn(int) -> T,
    key: spec_fn(T) -> int,
)
    requires
        forall|i: int, j: int|
            #![trigger f(i), f(j)]
            0 <= i < j < n && p(i) && p(j) ==> key(f(i)) < key(f(j)),
    ensures
        forall|a: int, b: int|
            0 <= a < b < select(n, p, f).len() ==> key(#[trigger] select(n, p, f)[a]) < key(
                #[trigger] select(n, p, f)[b],
            ),
    decreases n,
{
    if n > 0 {
        let rest = select((n - 1) as nat, p, f);
        lemma_select_sorted((n - 1) as nat, p, f, key);
        if p(n - 1) {
            assert forall|a: int| 0 <= a < rest.len() implies key(#[trigger] rest[a]) < key(
                f(n - 1),
            ) by {
                lemma_select_sound((n - 1) as nat, p, f, a);
                let i = choose|i: int| 0 <= i < n - 1 && p(i) && #[trigger] f(i) == rest[a];
                assert(key(f(i)) < key(f(n - 1)));
            }
        }
    }
}

/// Where one index alone satisfies the condition, its value alone is selected.
pub proof fn lemma_select_one<T>(
    n: nat,
    p: spec_fn(int) -> bool,
    f: spec_fn(int) -> T,
    i: int,
)
    requires
        0 <= i < n,
        forall|k: int| 0 <= k < n ==> #[trigger] p(k) == (k == i),
    ensures
        select(n, p, f) == seq![f(i)],
    decreases n,
{
    assert(p(i));
    if i == n - 1 {
        lemma_select_none((n - 1) as nat, p, f);
        assert(select(n, p, f) =~= seq![f(i)]);
    } else {
        assert(!p(n - 1));
        lemma_select_one((n - 1) as nat, p, f, i);
    }
}

/// The lowest CPU from `from` on that a target mask names, or 8 if it names none.
pub open spec fn lowest_cpu(mask: u8, from: nat) -> nat
    decreases 8 - from,
{
    if from >= 8 {
        8
    } else if bit(mask as u32, from as int) {
        from
    } else {
        lowest_cpu(mask, from + 1)
    }
}

/// The vCPU that an SPI with this target mask goes to: the lowest one the mask names, or vCPU 0
/// if the mask is empty or names only CPUs that the machine does not have.
pub open spec fn spi_target_cpu(mask: u8, cpu_count: u64) -> u64 {
    if lowest_cpu(mask, 0) < 8 && lowest_cpu(mask, 0) < cpu_count {
        lowest_cpu(mask, 0) as u64
    } else {
        0
    }
}

/// Which vCPU an SPI goes to. GICv2 routes by CPU mask rather than by affinity, so deliver to the
/// lowest-numbered CPU the guest selected. A mask that is empty, or that names a CPU this machine
/// does not have, falls back to CPU 0 so the interrupt is never simply dropped.
pub fn spi_target(mask: u8, cpu_count: u64) -> (target: u64)
    ensures
        target == spi_target_cpu(mask, cpu_count),
{
    let mut cpu: u32 = 0;
    while cpu < 8
        invariant
            cpu <= 8,
            lowest_cpu(mask, 0) == lowest_cpu(mask, cpu as nat),
        decreases 8 - cpu,
    {
        proof {
            lemma_bit_cases(mask as u32, cpu as int);
        }
        if (mask as u32 >> cpu) & 1 != 0 {
            if (cpu as u64) < cpu_count {
                return cpu as u64;
            } else {
                return 0;
            }
        }
        cpu = cpu + 1;
    }
    0
}

/// Whether a vCPU is named by a `GICD_SGIR` target list. A vCPU past the last bit is not.
pub open spec fn in_target_list(target_list: u32) -> spec_fn(int) -> bool {
    |cpu: int| cpu < 32 && bit(target_list, cpu)
}

/// Whether a vCPU is another one than `self_id`.
pub open spec fn is_other_cpu(self_id: u64) -> spec_fn(int) -> bool {
    |cpu: int| cpu != self_id
}

/// An index as a vCPU id.
pub open spec fn as_cpu() -> spec_fn(int) -> u64 {
    |cpu: int| cpu as u64
}

/// The vCPUs that an SGI goes to, in ascending order.
pub open spec fn sgi_target_cpus(
    filter: u32,
    target_list: u32,
    self_id: u64,
    cpu_count: u64,
) -> Seq<u64> {
    if filter == 0 {
        select(cpu_count as nat, in_target_list(target_list), as_cpu())
    } else if filter == 1 {
        select(cpu_count as nat, is_other_cpu(self_id), as_cpu())
    } else if filter == 2 {
        seq![self_id]
    } else {
        seq![]
    }
}

/// Which vCPUs an SGI goes to, per the `GICD_SGIR` TargetListFilter field: those of the target
/// list, all but the requester, or the requester alone. The fourth filter is reserved and selects
/// nobody.
pub fn sgi_targets(filter: u32, target_list: u32, self_id: u64, cpu_count: u64) -> (targets: Vec<
    u64,
>)
    ensures
        targets@ == sgi_target_cpus(filter, target_list, self_id, cpu_count),
{
    let mut targets: Vec<u64> = Vec::new();
    if filter == 0 {
        let mut cpu: u64 = 0;
        while cpu < cpu_count
            invariant
                cpu <= cpu_count,
                targets@ == select(cpu as nat, in_target_list(target_list), as_cpu()),
            decreases cpu_count - cpu,
        {
            proof {
                if cpu < 32 {
                    lemma_bit_cases(target_list, cpu as int);
                }
            }
            if cpu < 32 && (target_list >> (cpu as u32)) & 1 != 0 {
                targets.push(cpu);
            }
            cpu = cpu + 1;
        }
    } else if filter == 1 {
        let mut cpu: u64 = 0;
        while cpu < cpu_count
            invariant
                cpu <= cpu_count,
                targets@ == select(cpu as nat, is_other_cpu(self_id), as_cpu()),
            decreases cpu_count - cpu,
        {
            if cpu != self_id {
                targets.push(cpu);
            }
            cpu = cpu + 1;
        }
    } else if filter == 2 {
        targets.push(self_id);
    }
    targets
}

/// The distributor and CPU-interface state as a guest can observe it.
#[verifier::ext_equal]
pub struct GicRegs {
    pub gicd_ctlr: u32,
    pub gicc_ctlr: u32,
    pub gicc_pmr: u32,
    pub gicc_bpr: u32,
    /// Target CPU mask per INTID.
    pub targets: Seq<u8>,
    /// The edge-triggered INTIDs.
    pub edge: Set<int>,
    /// The INTIDs the guest has enabled.
    pub enabled: Set<int>,
    /// The INTIDs that were raised while disabled and are held for delivery.
    pub pending: Set<int>,
}

/// The INTIDs that a word written to the enable bank at `base` names.
pub open spec fn named_lines(base: u32, val: u32) -> Set<int> {
    Set::new(|irq: int| base <= irq < base + 32 && irq < MAXIRQ && bit(val, irq - base))
}

/// Whether line `base + i` is named by `val` and held.
pub open spec fn is_named_and_held(regs: GicRegs, base: u32, val: u32) -> spec_fn(int) -> bool {
    |i: int| named_lines(base, val).contains(base + i) && regs.pending.contains(base + i)
}

/// The delivery of line `base + i`: its target vCPU and its INTID.
pub open spec fn delivery_of(regs: GicRegs, base: u32, cpu_count: u64) -> spec_fn(int) -> (
    u64,
    u32,
) {
    |i: int| (spi_target_cpu(regs.targets[base + i], cpu_count), (base + i) as u32)
}

/// What enabling the lines named by `val` delivers: the held ones among them, in ascending order.
pub open spec fn flushed(regs: GicRegs, base: u32, val: u32, cpu_count: u64) -> Seq<(u64, u32)> {
    select(32, is_named_and_held(regs, base, val), delivery_of(regs, base, cpu_count))
}

/// The state after enabling the lines named by `val`.
pub open spec fn after_enable(regs: GicRegs, base: u32, val: u32) -> GicRegs {
    GicRegs {
        enabled: regs.enabled.union(named_lines(base, val)),
        pending: regs.pending.difference(named_lines(base, val)),
        ..regs
    }
}

/// The state after disabling the lines named by `val`.
pub open spec fn after_disable(regs: GicRegs, base: u32, val: u32) -> GicRegs {
    GicRegs { enabled: regs.enabled.difference(named_lines(base, val)), ..regs }
}

/// Whether an interrupt raised now is held rather than delivered. SGIs and PPIs never are.
pub open spec fn is_held(regs: GicRegs, irq: u32) -> bool {
    irq >= GIC_INTERNAL && !regs.enabled.contains(irq as int)
}

/// The state after `irq` was raised.
pub open spec fn after_raise(regs: GicRegs, irq: u32) -> GicRegs {
    if is_held(regs, irq) {
        GicRegs { pending: regs.pending.insert(irq as int), ..regs }
    } else {
        regs
    }
}

/// Where an interrupt raised now goes: to a vCPU, or nowhere yet.
pub open spec fn raise_target(regs: GicRegs, irq: u32, cpu_count: u64) -> Option<u64> {
    if is_held(regs, irq) {
        None
    } else {
        Some(spi_target_cpu(regs.targets[irq as int], cpu_count))
    }
}

/// The mutable register state of the controller.
pub struct GicV2State {
    pub gicd_ctlr: u32,
    pub gicc_ctlr: u32,
    pub gicc_pmr: u32,
    pub gicc_bpr: u32,
    pub itargetsr: TargetMasks,
    pub edge_trigger: IrqBitmap,
    /// Interrupts the guest has enabled via `GICD_ISENABLER`. An interrupt delivered before the
    /// guest has a handler for it is lost, so delivery waits for this.
    pub enabled: IrqBitmap,
    /// Interrupts raised while disabled, delivered when the guest enables them.
    pub pending: IrqBitmap,
}

impl View for GicV2State {
    type V = GicRegs;

    open spec fn view(&self) -> GicRegs {
        GicRegs {
            gicd_ctlr: self.gicd_ctlr,
            gicc_ctlr: self.gicc_ctlr,
            gicc_pmr: self.gicc_pmr,
            gicc_bpr: self.gicc_bpr,
            targets: self.itargetsr@,
            edge: lines(self.edge_trigger),
            enabled: lines(self.enabled),
            pending: lines(self.pending),
        }
    }
}

impl GicV2State {
    /// Only lines that exist are ever enabled, and an interrupt is held only on a line that can
    /// be masked and is.
    pub open spec fn wf(&self) -> bool {
        &&& forall|irq: int| #[trigger] lines(self.enabled).contains(irq) ==> irq < MAXIRQ
        &&& forall|irq: int| #[trigger]
            lines(self.pending).contains(irq) ==> GIC_INTERNAL <= irq && !lines(
                self.enabled,
            ).contains(irq)
    }

    /// Decide what to do with an interrupt a device just raised: deliver it to a vCPU, or hold it
    /// because the guest has the line masked.
    pub fn route(&mut self, irq: u32, cpu_count: u64) -> (target: Option<u64>)
        requires
            old(self).wf(),
            irq < 1024,
        ensures
            final(self).wf(),
            final(self)@ == after_raise(old(self)@, irq),
            target == raise_target(old(self)@, irq, cpu_count),
    {
        if irq >= GIC_INTERNAL && !bit_set(&self.enabled, irq) {
            set_bit(&mut self.pending, irq);
            return None;
        }
        Some(spi_target(self.itargetsr[irq as usize], cpu_count))
    }

    /// Apply a `GICD_ISENABLER` write, returning the interrupts that were held on the newly
    /// enabled lines and are now deliverable.
    pub fn enable_and_take_pending(&mut self, base: u32, val: u32, cpu_count: u64) -> (flush: Vec<
        (u64, u32),
    >)
        requires
            old(self).wf(),
        ensures
            final(self).wf(),
            final(self)@ == after_enable(old(self)@, base, val),
            flush@ == flushed(old(self)@, base, val, cpu_count),
    {
        let mut flush: Vec<(u64, u32)> = Vec::new();
        let mut i: u32 = 0;
        let ghost regs = old(self)@;
        let ghost held = is_named_and_held(regs, base, val);
        let ghost what = delivery_of(regs, base, cpu_count);
        let ghost named = named_lines(base, val);
        while i < 32
            invariant
                i <= 32,
                regs == old(self)@,
                old(self).wf(),
                held == is_named_and_held(regs, base, val),
                what == delivery_of(regs, base, cpu_count),
                named == named_lines(base, val),
                flush@ == select(i as nat, held, what),
                self@ == (GicRegs { enabled: self@.enabled, pending: self@.pending, ..regs }),
                forall|k: int|
                    #![trigger self@.enabled.contains(k)]
                    self@.enabled.contains(k) <==> regs.enabled.contains(k) || (named.contains(k)
                        && k < base + i),
                forall|k: int|
                    #![trigger self@.pending.contains(k)]
                    self@.pending.contains(k) <==> regs.pending.contains(k) && !(named.contains(k)
                        && k < base + i),
            decreases 32 - i,
        {
            proof {
                lemma_bit_cases(val, i as int);
            }
            if (val >> i) & 1 != 0 && base < MAXIRQ - i {
                let irq: u32 = base + i;
                assert(named.contains(irq as int));
                let ghost before = self@;
                set_bit(&mut self.enabled, irq);
                if bit_set(&self.pending, irq) {
                    assert(before.pending.contains(irq as int));
                    clear_bit(&mut self.pending, irq);
                    flush.push((spi_target(self.itargetsr[irq as usize], cpu_count), irq));
                }
                assert(self@.targets =~= regs.targets);
            } else {
                assert(!named.contains(base + i));
            }
            i = i + 1;
        }
        proof {
            assert(self@.enabled =~= after_enable(regs, base, val).enabled);
            assert(self@.pending =~= after_enable(regs, base, val).pending);
        }
        flush
    }

    /// Apply a `GICD_ICENABLER` write.
    pub fn disable(&mut self, base: u32, val: u32)
        requires
            old(self).wf(),
        ensures
            final(self).wf(),
            final(self)@ == after_disable(old(self)@, base, val),
    {
        let mut i: u32 = 0;
        let ghost regs = old(self)@;
        let ghost named = named_lines(base, val);
        while i < 32
            invariant
                i <= 32,
                regs == old(self)@,
                old(self).wf(),
                named == named_lines(base, val),
                self@ == (GicRegs { enabled: self@.enabled, ..regs }),
                forall|k: int|
                    #![trigger self@.enabled.contains(k)]
                    self@.enabled.contains(k) <==> regs.enabled.contains(k) && !(named.contains(k)
                        && k < base + i),
            decreases 32 - i,
        {
            proof {
                lemma_bit_cases(val, i as int);
            }
            if (val >> i) & 1 != 0 && base < MAXIRQ - i {
                let irq: u32 = base + i;
                assert(named.contains(irq as int));
                clear_bit(&mut self.enabled, irq);
            } else {
                assert(!named.contains(base + i));
            }
            i = i + 1;
        }
        assert(self@.enabled =~= after_disable(regs, base, val).enabled);
    }
}

} // verus!
