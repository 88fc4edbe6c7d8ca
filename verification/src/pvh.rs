//! PVH boot (the x86/HVM direct boot ABI): builds the `hvm_start_info` structure and its E820-style
//! memory map in guest RAM, so an external kernel that advertises a PVH `PHYS32_ENTRY` note can be
//! entered directly instead of through the Linux 64-bit boot protocol.
//!
//! The kernel is entered in 32-bit protected mode with paging off, `%ebx` pointing at the
//! `hvm_start_info` at [`PVH_INFO_START`].

pub mod laws;
pub mod memory;

use crate::bytes::{le32, le64, put_u32, put_u64};
use crate::layout::{CMDLINE_START, PVH_INFO_START, PVH_MEMMAP_START};
use crate::pvh::memory::{has_no_empty_region, is_backed, stops_after, GuestRam};
use vstd::prelude::*;

verus! {

/// `hvm_start_info.magic`: "xEn3" little-endian.
pub const XEN_HVM_START_MAGIC_VALUE: u32 = 0x336e_c578;

/// E820 usable RAM.
pub const E820_RAM: u32 = 1;

/// Size of an entry of the memory map.
pub const MEMMAP_ENTRY_SIZE: u64 = 24;

/// Size of the start info.
pub const START_INFO_SIZE: u64 = 56;

/// The boot info the guest receives, per the x86/HVM direct boot ABI. In memory the fields follow
/// one another in this order, little-endian.
#[allow(non_camel_case_types)]
#[derive(Copy, Clone, Debug, PartialEq, Eq, Structural)]
pub struct hvm_start_info {
    pub magic: u32,
    pub version: u32,
    pub flags: u32,
    pub nr_modules: u32,
    pub modlist_paddr: u64,
    pub cmdline_paddr: u64,
    pub rsdp_paddr: u64,
    pub memmap_paddr: u64,
    pub memmap_entries: u32,
    pub reserved: u32,
}

/// One entry of the PVH memory map. In memory the fields follow one another in this order,
/// little-endian.
#[allow(non_camel_case_types)]
#[derive(Copy, Clone, Debug, PartialEq, Eq, Structural)]
pub struct hvm_memmap_table_entry {
    pub addr: u64,
    pub size: u64,
    pub type_: u32,
    pub reserved: u32,
}

#[derive(Copy, Clone, Debug, PartialEq, Eq, Structural)]
pub enum Error {
    /// Writing the hvm_start_info / memmap to guest memory failed.
    WriteStartInfo,
}

/// An entry of the memory map as it lies in guest memory.
#[verifier::opaque]
pub open spec fn entry_bytes(entry: hvm_memmap_table_entry) -> Seq<u8> {
    le64(entry.addr) + le64(entry.size) + le32(entry.type_) + le32(entry.reserved)
}

/// The start info as it lies in guest memory.
#[verifier::opaque]
pub open spec fn start_info_bytes(info: hvm_start_info) -> Seq<u8> {
    le32(info.magic) + le32(info.version) + le32(info.flags) + le32(info.nr_modules) + le64(
        info.modlist_paddr,
    ) + le64(info.cmdline_paddr) + le64(info.rsdp_paddr) + le64(info.memmap_paddr) + le32(
        info.memmap_entries,
    ) + le32(info.reserved)
}

/// The entry of a RAM region: all of it is usable.
pub open spec fn ram_entry(region: (u64, u64)) -> hvm_memmap_table_entry {
    hvm_memmap_table_entry { addr: region.0, size: region.1, type_: E820_RAM, reserved: 0 }
}

/// The start info for a map of `entries` entries. There are no modules and no ACPI tables.
pub open spec fn start_info_for(entries: u32) -> hvm_start_info {
    hvm_start_info {
        magic: XEN_HVM_START_MAGIC_VALUE,
        version: 1,
        flags: 0,
        nr_modules: 0,
        modlist_paddr: 0,
        cmdline_paddr: CMDLINE_START,
        rsdp_paddr: 0,
        memmap_paddr: PVH_MEMMAP_START,
        memmap_entries: entries,
        reserved: 0,
    }
}

/// Where entry `i` of the memory map lies.
pub open spec fn entry_at(i: int) -> u64 {
    (PVH_MEMMAP_START + MEMMAP_ENTRY_SIZE * i) as u64
}

/// What a guest with these RAM regions finds in its memory, and where: the memory map entries, in
/// order, and then the start info.
pub open spec fn pvh_image(regions: Seq<(u64, u64)>) -> Seq<(u64, Seq<u8>)> {
    Seq::new(
        regions.len(),
        |i: int| (entry_at(i), entry_bytes(ram_entry(regions[i]))),
    ).push((PVH_INFO_START, start_info_bytes(start_info_for(regions.len() as u32))))
}

/// Whether the start info can count the regions, and none of them is empty.
pub open spec fn is_listable(regions: Seq<(u64, u64)>) -> bool {
    &&& regions.len() <= u32::MAX
    &&& has_no_empty_region(regions)
}

/// Whether the first `n` parts of the image lie in the regions.
pub open spec fn parts_backed(regions: Seq<(u64, u64)>, n: int) -> bool {
    forall|i: int|
        0 <= i < n ==> is_backed(
            regions,
            (#[trigger] pvh_image(regions)[i]).0 as int,
            pvh_image(regions)[i].1.len() as int,
        )
}

/// Whether guest memory has room for the whole image.
pub open spec fn image_backed(regions: Seq<(u64, u64)>) -> bool {
    parts_backed(regions, pvh_image(regions).len() as int)
}

/// Whether the image is written up to the first `n` bytes of part `k` and no further: all parts
/// before it lie in RAM, and of this one only so much.
pub open spec fn breaks_off(regions: Seq<(u64, u64)>, k: int, n: int) -> bool {
    let (addr, bytes) = pvh_image(regions)[k];
    &&& 0 <= k < pvh_image(regions).len()
    &&& parts_backed(regions, k)
    &&& stops_after(regions, addr as int, bytes.len() as int, n)
}

/// The writes that are made where the image is written up to the first `n` bytes of part `k`.
pub open spec fn broken_image(regions: Seq<(u64, u64)>, k: int, n: int) -> Seq<(u64, Seq<u8>)> {
    let (addr, bytes) = pvh_image(regions)[k];
    pvh_image(regions).take(k).push((addr, bytes.take(n)))
}

impl Default for hvm_start_info {
    fn default() -> (info: Self)
        ensures
            info == (hvm_start_info {
                magic: 0,
                version: 0,
                flags: 0,
                nr_modules: 0,
                modlist_paddr: 0,
                cmdline_paddr: 0,
                rsdp_paddr: 0,
                memmap_paddr: 0,
                memmap_entries: 0,
                reserved: 0,
            }),
    {
        hvm_start_info {
            magic: 0,
            version: 0,
            flags: 0,
            nr_modules: 0,
            modlist_paddr: 0,
            cmdline_paddr: 0,
            rsdp_paddr: 0,
            memmap_paddr: 0,
            memmap_entries: 0,
            reserved: 0,
        }
    }
}

impl Default for hvm_memmap_table_entry {
    fn default() -> (entry: Self)
        ensures
            entry == (hvm_memmap_table_entry { addr: 0, size: 0, type_: 0, reserved: 0 }),
    {
        hvm_memmap_table_entry { addr: 0, size: 0, type_: 0, reserved: 0 }
    }
}

impl hvm_start_info {
    /// The structure as it lies in guest memory.
    pub fn to_bytes(&self) -> (bytes: Vec<u8>)
        ensures
            bytes@ == start_info_bytes(*self),
            bytes@.len() == START_INFO_SIZE,
    {
        let mut bytes: Vec<u8> = Vec::new();
        put_u32(&mut bytes, self.magic);
        put_u32(&mut bytes, self.version);
        put_u32(&mut bytes, self.flags);
        put_u32(&mut bytes, self.nr_modules);
        put_u64(&mut bytes, self.modlist_paddr);
        put_u64(&mut bytes, self.cmdline_paddr);
        put_u64(&mut bytes, self.rsdp_paddr);
        put_u64(&mut bytes, self.memmap_paddr);
        put_u32(&mut bytes, self.memmap_entries);
        put_u32(&mut bytes, self.reserved);
        reveal(start_info_bytes);
        assert(bytes@ =~= start_info_bytes(*self));
        bytes
    }
}

impl hvm_memmap_table_entry {
    /// The structure as it lies in guest memory.
    pub fn to_bytes(&self) -> (bytes: Vec<u8>)
        ensures
            bytes@ == entry_bytes(*self),
            bytes@.len() == MEMMAP_ENTRY_SIZE,
    {
        let mut bytes: Vec<u8> = Vec::new();
        put_u64(&mut bytes, self.addr);
        put_u64(&mut bytes, self.size);
        put_u32(&mut bytes, self.type_);
        put_u32(&mut bytes, self.reserved);
        reveal(entry_bytes);
        assert(bytes@ =~= entry_bytes(*self));
        bytes
    }
}

/// The parts as their addresses and bytes.
pub open spec fn parts_view(parts: Seq<(u64, Vec<u8>)>) -> Seq<(u64, Seq<u8>)> {
    Seq::new(parts.len(), |i: int| (parts[i].0, parts[i].1@))
}

/// What a guest with these RAM regions is to find in its memory, in the order in which it is
/// written: the E820-style memory map, then the start info.
pub fn build_pvh_image(regions: &Vec<(u64, u64)>) -> (parts: Vec<(u64, Vec<u8>)>)
    requires
        regions@.len() <= u32::MAX,
    ensures
        parts_view(parts@) == pvh_image(regions@),
{
    // 1. Memory map: mark every guest RAM region usable. There are no ACPI tables to reserve here.
    let ghost image = pvh_image(regions@);
    let mut parts: Vec<(u64, Vec<u8>)> = Vec::new();
    let mut addr: u64 = PVH_MEMMAP_START;
    let mut entries: u32 = 0;
    while (entries as usize) < regions.len()
        invariant
            entries <= regions.len() <= u32::MAX,
            image == pvh_image(regions@),
            addr == PVH_MEMMAP_START + MEMMAP_ENTRY_SIZE * entries,
            parts_view(parts@) == image.take(entries as int),
        decreases regions.len() - entries,
    {
        let region = regions[entries as usize];
        let entry = hvm_memmap_table_entry {
            addr: region.0,
            size: region.1,
            type_: E820_RAM,
            reserved: 0,
        };
        let bytes = entry.to_bytes();
        assert(image[entries as int] == (addr, bytes@));
        assert(image.take(entries + 1) =~= image.take(entries as int).push(image[entries as int]));
        assert(parts_view(parts@.push((addr, bytes))) =~= parts_view(parts@).push((addr, bytes@)));
        parts.push((addr, bytes));
        addr = addr + MEMMAP_ENTRY_SIZE;
        entries = entries + 1;
    }

    // 2. The start info itself. rsdp_paddr = 0: no ACPI.
    let info = hvm_start_info {
        magic: XEN_HVM_START_MAGIC_VALUE,
        version: 1,
        cmdline_paddr: CMDLINE_START,
        memmap_paddr: PVH_MEMMAP_START,
        memmap_entries: entries,
        rsdp_paddr: 0,
        ..hvm_start_info::default()
    };
    let bytes = info.to_bytes();
    assert(image.last() == (PVH_INFO_START, bytes@));
    assert(image =~= image.take(entries as int).push(image.last()));
    assert(parts_view(parts@.push((PVH_INFO_START, bytes))) =~= parts_view(parts@).push(
        (PVH_INFO_START, bytes@),
    ));
    parts.push((PVH_INFO_START, bytes));
    parts
}

/// How long the parts of the image are, and that they end below the top of the address space.
pub proof fn lemma_image_parts(regions: Seq<(u64, u64)>, i: int)
    requires
        regions.len() <= u32::MAX,
        0 <= i <= regions.len(),
    ensures
        pvh_image(regions).len() == regions.len() + 1,
        i < regions.len() ==> pvh_image(regions)[i].0 == PVH_MEMMAP_START + MEMMAP_ENTRY_SIZE * i
            && pvh_image(regions)[i].1.len() == MEMMAP_ENTRY_SIZE,
        i == regions.len() ==> pvh_image(regions)[i].0 == PVH_INFO_START
            && pvh_image(regions)[i].1.len() == START_INFO_SIZE,
{
    reveal(entry_bytes);
    reveal(start_info_bytes);
}

/// Write the E820-style memory map (from the guest RAM regions) followed by the `hvm_start_info`
/// at the fixed layout addresses. The kernel cmdline is expected to already be at
/// [`CMDLINE_START`].
///
/// The start info always lands at [`PVH_INFO_START`], so the vcpu setup can load that constant
/// into `%ebx` without threading the address around.
pub fn configure_pvh(guest_mem: &mut GuestRam) -> (written: Result<(), Error>)
    requires
        is_listable(old(guest_mem).regions()),
    ensures
        final(guest_mem).regions() == old(guest_mem).regions(),
        written is Ok <==> image_backed(old(guest_mem).regions()),
        written is Ok ==> final(guest_mem).writes() == old(guest_mem).writes() + pvh_image(
            old(guest_mem).regions(),
        ),
        written matches Err(e) ==> e == Error::WriteStartInfo,
        written is Err ==> exists|k: int, n: int|
            breaks_off(old(guest_mem).regions(), k, n) && final(guest_mem).writes() == old(
                guest_mem,
            ).writes() + #[trigger] broken_image(old(guest_mem).regions(), k, n),
{
    let regions = guest_mem.list();
    let parts = build_pvh_image(&regions);
    let ghost image = pvh_image(regions@);
    let ghost before = guest_mem.writes();
    assert(parts@.len() == parts_view(parts@).len());
    assert(before + image.take(0) =~= before);
    let mut i: usize = 0;
    while i < parts.len()
        invariant
            i <= parts.len() == image.len(),
            regions@ == old(guest_mem).regions(),
            before == old(guest_mem).writes(),
            is_listable(regions@),
            image == pvh_image(regions@),
            parts_view(parts@) == image,
            parts_backed(regions@, i as int),
            guest_mem.regions() == regions@,
            guest_mem.writes() == before + image.take(i as int),
        decreases parts.len() - i,
    {
        let ghost (addr, bytes) = image[i as int];
        proof {
            lemma_image_parts(regions@, i as int);
            assert(image[i as int] == parts_view(parts@)[i as int]);
        }
        if !guest_mem.write(parts[i].0, parts[i].1.as_slice()) {
            proof {
                let n = choose|n: int|
                    stops_after(regions@, addr as int, bytes.len() as int, n)
                        && guest_mem.writes() == (before + image.take(i as int)).push(
                        (addr, #[trigger] bytes.take(n)),
                    );
                assert(breaks_off(regions@, i as int, n));
                assert(guest_mem.writes() =~= before + broken_image(regions@, i as int, n));
                assert(!is_backed(regions@, addr as int, bytes.len() as int));
            }
            return Err(Error::WriteStartInfo);
        }
        assert(guest_mem.writes() =~= before + image.take(i + 1));
        i = i + 1;
    }
    assert(image.take(i as int) =~= image);
    Ok(())
}

/// [`configure_pvh`] where the regions can be listed; `None`, with nothing written, where one of
/// them is empty or there are too many to count.
pub fn configure_pvh_if_listable(guest_mem: &mut GuestRam) -> (written: Option<Result<(), Error>>)
    ensures
        final(guest_mem).regions() == old(guest_mem).regions(),
        written is Some <==> is_listable(old(guest_mem).regions()),
        written is None ==> final(guest_mem).writes() == old(guest_mem).writes(),
        written matches Some(r) ==> (r is Ok <==> image_backed(old(guest_mem).regions())),
        written matches Some(Ok(_)) ==> final(guest_mem).writes() == old(guest_mem).writes()
            + pvh_image(old(guest_mem).regions()),
        written matches Some(Err(e)) ==> e == Error::WriteStartInfo,
        written matches Some(Err(_)) ==> exists|k: int, n: int|
            breaks_off(old(guest_mem).regions(), k, n) && final(guest_mem).writes() == old(
                guest_mem,
            ).writes() + #[trigger] broken_image(old(guest_mem).regions(), k, n),
{
    let regions = guest_mem.list();
    if regions.len() > u32::MAX as usize {
        return None;
    }
    let mut i: usize = 0;
    while i < regions.len()
        invariant
            i <= regions.len() <= u32::MAX,
            regions@ == guest_mem.regions(),
            forall|k: int| 0 <= k < i ==> (#[trigger] regions@[k]).1 > 0,
            *guest_mem == *old(guest_mem),
        decreases regions.len() - i,
    {
        if regions[i].1 == 0 {
            assert(regions@[i as int].1 == 0);
            return None;
        }
        i = i + 1;
    }
    Some(configure_pvh(guest_mem))
}

} // verus!
