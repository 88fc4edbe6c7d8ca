//! Guest memory: which regions it has, and what is written to it.

use vm_memory::{Address, Bytes, GuestAddress, GuestMemory, GuestMemoryMmap, GuestMemoryRegion};
use vstd::prelude::*;

verus! {

#[verifier::external_type_specification]
#[verifier::external_body]
#[verifier::reject_recursive_types(B)]
pub struct ExGuestMemoryMmap<B>(vm_memory::GuestMemoryMmap<B>);

#[verifier::external_type_specification]
#[verifier::external_body]
pub struct ExGuestMemoryError(vm_memory::GuestMemoryError);

/// The regions that a `vm_memory::GuestMemoryMmap` holds, in the order in which it holds them, each
/// with its start address and its length in bytes. They are fixed when the value is made.
pub uninterp spec fn ram_regions(mem: GuestMemoryMmap<()>) -> Seq<(u64, u64)>;

/// The writes that were made through a `vm_memory::GuestMemoryMmap`, oldest first, each with its
/// address and the bytes that were stored from there on.
pub uninterp spec fn writes_to(mem: GuestMemoryMmap<()>) -> Seq<(u64, Seq<u8>)>;

/// Whether `addr` lies in one of the regions.
pub open spec fn is_ram(regions: Seq<(u64, u64)>, addr: int) -> bool {
    exists|i: int|
        0 <= i < regions.len() && (#[trigger] regions[i]).0 <= addr < regions[i].0 + regions[i].1
}

/// Whether all of the `len` bytes from `addr` on lie in the regions.
pub open spec fn is_backed(regions: Seq<(u64, u64)>, addr: int, len: int) -> bool {
    forall|a: int| addr <= a < addr + len ==> #[trigger] is_ram(regions, a)
}

/// Whether a write of `len` bytes from `addr` on stops after `n` of them: those lie in the regions,
/// and the next address does not.
pub open spec fn stops_after(regions: Seq<(u64, u64)>, addr: int, len: int, n: int) -> bool {
    &&& 0 <= n < len
    &&& is_backed(regions, addr, n)
    &&& !is_ram(regions, addr + n)
}

/// Whether no region is empty.
pub open spec fn has_no_empty_region(regions: Seq<(u64, u64)>) -> bool {
    forall|i: int| 0 <= i < regions.len() ==> (#[trigger] regions[i]).1 > 0
}

/// The byte at `addr` after `writes`, where it was `before` ahead of them: that of the last write
/// that covers the address.
pub open spec fn byte_after(before: u8, writes: Seq<(u64, Seq<u8>)>, addr: int) -> u8
    decreases writes.len(),
{
    if writes.len() == 0 {
        before
    } else {
        let (start, bytes) = writes.last();
        if start <= addr < start + bytes.len() {
            bytes[addr - start]
        } else {
            byte_after(before, writes.drop_last(), addr)
        }
    }
}

/// `GuestMemory::iter` of `GuestMemoryMmap`: hands out every region, in order; of each,
/// `start_addr` and `len`.
#[verifier::external_body]
fn list_regions(mem: &GuestMemoryMmap<()>) -> (regions: Vec<(u64, u64)>)
    ensures
        regions@ == ram_regions(*mem),
{
    mem.iter().map(|region| (region.start_addr().raw_value(), region.len())).collect()
}

/// `Bytes::write_slice` of `GuestMemoryMmap`: copies `bytes` into guest memory from `addr` on, over
/// as many adjacent regions as it takes, up to the first address that lies in no region. It
/// succeeds exactly if it met no such address; either way what it stored is one more write. An
/// empty region can make it panic, and writing nothing fails outside of the regions, so both are
/// left out, as is a write across the top of the address space.
///
/// What the memory holds is not stated beyond the writes: the guest, and whoever else has the
/// mapping, may write too.
#[verifier::external_body]
fn write_slice(mem: &mut GuestMemoryMmap<()>, addr: u64, bytes: &[u8]) -> (written: Result<
    (),
    vm_memory::GuestMemoryError,
>)
    requires
        bytes@.len() > 0,
        addr + bytes@.len() <= u64::MAX,
        has_no_empty_region(ram_regions(*old(mem))),
    ensures
        ram_regions(*final(mem)) == ram_regions(*old(mem)),
        written is Ok <==> is_backed(ram_regions(*old(mem)), addr as int, bytes@.len() as int),
        written is Ok ==> writes_to(*final(mem)) == writes_to(*old(mem)).push((addr, bytes@)),
        written is Err ==> exists|n: int|
            stops_after(ram_regions(*old(mem)), addr as int, bytes@.len() as int, n)
                && writes_to(*final(mem)) == writes_to(*old(mem)).push(
                (addr, #[trigger] bytes@.take(n)),
            ),
{
    mem.write_slice(bytes, GuestAddress(addr))
}

/// The memory of a guest. All that is written through it is recorded.
pub struct GuestRam {
    mem: GuestMemoryMmap<()>,
}

impl GuestRam {
    /// The regions, each with its start and its length.
    pub closed spec fn regions(&self) -> Seq<(u64, u64)> {
        ram_regions(self.mem)
    }

    /// The writes that were made, oldest first, each with its address and its bytes.
    pub closed spec fn writes(&self) -> Seq<(u64, Seq<u8>)> {
        writes_to(self.mem)
    }

    /// The memory that `mem` maps.
    pub fn new(mem: GuestMemoryMmap<()>) -> (ram: Self)
        ensures
            ram.regions() == ram_regions(mem),
            ram.writes() == writes_to(mem),
    {
        GuestRam { mem }
    }

    /// Every region, with its start and its length.
    pub fn list(&self) -> (regions: Vec<(u64, u64)>)
        ensures
            regions@ == self.regions(),
    {
        list_regions(&self.mem)
    }

    /// Write `bytes` from `addr` on, up to the first address that is not RAM; returns whether there
    /// was none.
    pub fn write(&mut self, addr: u64, bytes: &[u8]) -> (complete: bool)
        requires
            bytes@.len() > 0,
            addr + bytes@.len() <= u64::MAX,
            has_no_empty_region(old(self).regions()),
        ensures
            final(self).regions() == old(self).regions(),
            complete == is_backed(old(self).regions(), addr as int, bytes@.len() as int),
            complete ==> final(self).writes() == old(self).writes().push((addr, bytes@)),
            !complete ==> exists|n: int|
                stops_after(old(self).regions(), addr as int, bytes@.len() as int, n)
                    && final(self).writes() == old(self).writes().push(
                    (addr, #[trigger] bytes@.take(n)),
                ),
    {
        write_slice(&mut self.mem, addr, bytes).is_ok()
    }
}

} // verus!
