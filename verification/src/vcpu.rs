//! Per-vCPU queues of pending interrupts.
//!
//! Every vCPU has a FIFO of the INTIDs delivered to it. Acknowledging takes the oldest one out;
//! there is no re-delivery, so an INTID leaves the queue once. Waking a vCPU that has something
//! to acknowledge is the business of whoever runs it.

use std::collections::VecDeque;
use vstd::prelude::*;

verus! {

/// What an acknowledge reads when nothing is pending.
pub const GIC_INTID_SPURIOUS: u32 = 1023;

/// The queues after the interrupts of `list` were delivered in order, each to the vCPU it names.
pub open spec fn deliver_all(queues: Seq<Seq<u32>>, list: Seq<(u64, u32)>) -> Seq<Seq<u32>>
    decreases list.len(),
{
    if list.len() == 0 {
        queues
    } else {
        let before = deliver_all(queues, list.drop_last());
        let (cpu, irq) = list.last();
        before.update(cpu as int, before[cpu as int].push(irq))
    }
}

/// What the next acknowledge of a vCPU with this queue reads.
pub open spec fn acknowledged(queue: Seq<u32>) -> u32 {
    if queue.len() == 0 {
        GIC_INTID_SPURIOUS
    } else {
        queue[0]
    }
}

/// What that acknowledge leaves of the queue.
pub open spec fn after_acknowledge(queue: Seq<u32>) -> Seq<u32> {
    if queue.len() == 0 {
        queue
    } else {
        queue.drop_first()
    }
}

/// The vCPUs of a machine, each with its queue of pending INTIDs.
pub struct VcpuList {
    queues: Vec<VecDeque<u32>>,
}

impl View for VcpuList {
    type V = Seq<Seq<u32>>;

    closed spec fn view(&self) -> Seq<Seq<u32>> {
        Seq::new(self.queues@.len(), |i: int| self.queues@[i]@)
    }
}

impl VcpuList {
    /// The number of vCPUs is a machine integer.
    pub proof fn lemma_count_fits(&self)
        ensures
            self@.len() <= usize::MAX,
    {
        assert(self@.len() == self.queues.len());
    }

    /// `cpu_count` vCPUs with nothing pending.
    pub fn new(cpu_count: u64) -> (list: Self)
        requires
            cpu_count <= usize::MAX,
        ensures
            list@ == Seq::new(cpu_count as nat, |i: int| Seq::<u32>::empty()),
    {
        let mut queues: Vec<VecDeque<u32>> = Vec::new();
        let mut i: u64 = 0;
        while i < cpu_count
            invariant
                i <= cpu_count,
                queues@.len() == i,
                forall|k: int| 0 <= k < i ==> #[trigger] queues@[k]@ == Seq::<u32>::empty(),
            decreases cpu_count - i,
        {
            queues.push(VecDeque::new());
            i = i + 1;
        }
        let list = VcpuList { queues };
        assert(list@ =~= Seq::new(cpu_count as nat, |i: int| Seq::<u32>::empty()));
        list
    }

    /// How many vCPUs there are.
    pub fn get_cpu_count(&self) -> (count: u64)
        ensures
            count == self@.len(),
    {
        self.queues.len() as u64
    }

    /// Queue `irq` for a vCPU, behind everything already pending there.
    pub fn set_irq_common(&mut self, vcpuid: u64, irq: u32)
        requires
            vcpuid < old(self)@.len(),
        ensures
            final(self)@ == old(self)@.update(
                vcpuid as int,
                old(self)@[vcpuid as int].push(irq),
            ),
    {
        assert(self@.len() == self.queues.len());
        self.queues[vcpuid as usize].push_back(irq);
        assert(self@ =~= old(self)@.update(vcpuid as int, old(self)@[vcpuid as int].push(irq)));
    }

    /// Take the oldest pending INTID of a vCPU, or read the spurious one if there is none.
    pub fn get_pending_irq(&mut self, vcpuid: u64) -> (intid: u32)
        requires
            vcpuid < old(self)@.len(),
        ensures
            intid == acknowledged(old(self)@[vcpuid as int]),
            final(self)@ == old(self)@.update(
                vcpuid as int,
                after_acknowledge(old(self)@[vcpuid as int]),
            ),
    {
        assert(self@.len() == self.queues.len());
        let next: Option<u32> = self.queues[vcpuid as usize].pop_front();
        assert(self@ =~= old(self)@.update(
            vcpuid as int,
            after_acknowledge(old(self)@[vcpuid as int]),
        ));
        match next {
            Some(intid) => intid,
            None => GIC_INTID_SPURIOUS,
        }
    }
}

} // verus!
