//! What a kernel that is entered over PVH can rely on.

use crate::bytes::{
    from_le32, from_le64, le32, le64, lemma_le32_round_trip, lemma_le64_round_trip,
};
use crate::layout::{CMDLINE_START, PVH_INFO_START, PVH_MEMMAP_START};
use crate::pvh::memory::{byte_after, is_backed, is_ram};
use crate::pvh::{
    breaks_off, broken_image, entry_bytes, hvm_memmap_table_entry, hvm_start_info, image_backed,
    lemma_image_parts, pvh_image, ram_entry, start_info_bytes, start_info_for, E820_RAM,
    MEMMAP_ENTRY_SIZE, START_INFO_SIZE, XEN_HVM_START_MAGIC_VALUE,
};
use vstd::prelude::*;

verus! {

/// The memory map lists every RAM region, in order, as usable.
pub proof fn law_map_lists_every_region(regions: Seq<(u64, u64)>, i: int)
    requires
        regions.len() <= u32::MAX,
        0 <= i < regions.len(),
    ensures
        ({
            let (addr, bytes) = pvh_image(regions)[i];
            &&& addr == PVH_MEMMAP_START + MEMMAP_ENTRY_SIZE * i
            &&& from_le64(bytes.subrange(0, 8)) == regions[i].0
            &&& from_le64(bytes.subrange(8, 16)) == regions[i].1
            &&& from_le32(bytes.subrange(16, 20)) == E820_RAM
        }),
{
    reveal(entry_bytes);
    let bytes = pvh_image(regions)[i].1;
    let entry = ram_entry(regions[i]);
    lemma_image_parts(regions, i);
    lemma_le64_round_trip(entry.addr);
    lemma_le64_round_trip(entry.size);
    lemma_le32_round_trip(entry.type_);
    assert(bytes.subrange(0, 8) =~= le64(entry.addr));
    assert(bytes.subrange(8, 16) =~= le64(entry.size));
    assert(bytes.subrange(16, 20) =~= le32(entry.type_));
}

/// The start info carries the magic number and leads to the command line and to the memory map,
/// of which it states the length; it names no ACPI tables.
#[verifier::rlimit(40)]
pub proof fn law_start_info_leads_to_the_map(regions: Seq<(u64, u64)>)
    requires
        regions.len() <= u32::MAX,
    ensures
        ({
            let (addr, bytes) = pvh_image(regions).last();
            &&& addr == PVH_INFO_START
            &&& from_le32(bytes.subrange(0, 4)) == XEN_HVM_START_MAGIC_VALUE
            &&& from_le32(bytes.subrange(4, 8)) == 1
            &&& from_le64(bytes.subrange(24, 32)) == CMDLINE_START
            &&& from_le64(bytes.subrange(32, 40)) == 0
            &&& from_le64(bytes.subrange(40, 48)) == PVH_MEMMAP_START
            &&& from_le32(bytes.subrange(48, 52)) == regions.len()
        }),
{
    reveal(start_info_bytes);
    let bytes = pvh_image(regions).last().1;
    let info = start_info_for(regions.len() as u32);
    lemma_le32_round_trip(info.magic);
    lemma_le32_round_trip(info.version);
    lemma_le64_round_trip(info.cmdline_paddr);
    lemma_le64_round_trip(info.rsdp_paddr);
    lemma_le64_round_trip(info.memmap_paddr);
    lemma_le32_round_trip(info.memmap_entries);
    assert(bytes.subrange(0, 4) =~= le32(info.magic));
    assert(bytes.subrange(4, 8) =~= le32(info.version));
    assert(bytes.subrange(24, 32) =~= le64(info.cmdline_paddr));
    assert(bytes.subrange(32, 40) =~= le64(info.rsdp_paddr));
    assert(bytes.subrange(40, 48) =~= le64(info.memmap_paddr));
    assert(bytes.subrange(48, 52) =~= le32(info.memmap_entries));
}

/// No part of the image is written over another.
pub proof fn law_parts_do_not_overlap(regions: Seq<(u64, u64)>, i: int, j: int)
    requires
        regions.len() <= u32::MAX,
        0 <= i <= regions.len(),
        0 <= j <= regions.len(),
        i != j,
    ensures
        ({
            let (a, x) = pvh_image(regions)[i];
            let (b, y) = pvh_image(regions)[j];
            a + x.len() <= b || b + y.len() <= a
        }),
{
    lemma_image_parts(regions, i);
    lemma_image_parts(regions, j);
}

/// The image leaves the command line alone, as long as the map has no more entries than fit below
/// it.
pub proof fn law_image_stays_below_the_cmdline(regions: Seq<(u64, u64)>, i: int)
    requires
        PVH_MEMMAP_START + MEMMAP_ENTRY_SIZE * regions.len() <= CMDLINE_START,
        0 <= i <= regions.len(),
    ensures
        pvh_image(regions)[i].0 + pvh_image(regions)[i].1.len() <= CMDLINE_START,
{
    lemma_image_parts(regions, i);
}

/// A machine with a region of RAM that spans the whole image gets it.
pub proof fn law_low_ram_suffices(regions: Seq<(u64, u64)>, k: int)
    requires
        regions.len() <= u32::MAX,
        0 <= k < regions.len(),
        regions[k].0 <= PVH_INFO_START,
        PVH_MEMMAP_START + MEMMAP_ENTRY_SIZE * regions.len() <= regions[k].0 + regions[k].1,
    ensures
        image_backed(regions),
{
    assert forall|i: int| 0 <= i < pvh_image(regions).len() implies is_backed(
        regions,
        (#[trigger] pvh_image(regions)[i]).0 as int,
        pvh_image(regions)[i].1.len() as int,
    ) by {
        lemma_image_parts(regions, i);
        let addr = pvh_image(regions)[i].0 as int;
        let len = pvh_image(regions)[i].1.len() as int;
        assert forall|a: int| addr <= a < addr + len implies #[trigger] is_ram(regions, a) by {
            assert(regions[k].0 <= a < regions[k].0 + regions[k].1);
        }
    }
}

/// Without RAM where the start info goes, the guest cannot be set up.
pub proof fn law_start_info_needs_ram(regions: Seq<(u64, u64)>, addr: int)
    requires
        PVH_INFO_START <= addr < PVH_INFO_START + START_INFO_SIZE,
        !is_ram(regions, addr),
        regions.len() <= u32::MAX,
    ensures
        !image_backed(regions),
{
    let last = regions.len() as int;
    lemma_image_parts(regions, last);
    if image_backed(regions) {
        assert(is_backed(
            regions,
            pvh_image(regions)[last].0 as int,
            pvh_image(regions)[last].1.len() as int,
        ));
        assert(is_ram(regions, addr));
    }
}

/// Whether `addr` lies where the memory map goes.
pub open spec fn in_map(regions: Seq<(u64, u64)>, addr: int) -> bool {
    PVH_MEMMAP_START <= addr < PVH_MEMMAP_START + MEMMAP_ENTRY_SIZE * regions.len()
}

/// Whether `addr` lies where the start info goes.
pub open spec fn in_start_info(addr: int) -> bool {
    PVH_INFO_START <= addr < PVH_INFO_START + START_INFO_SIZE
}

/// Writes one behind the other change the byte one behind the other.
pub proof fn law_writes_add_up(
    before: u8,
    first: Seq<(u64, Seq<u8>)>,
    then: Seq<(u64, Seq<u8>)>,
    addr: int,
)
    ensures
        byte_after(before, first + then, addr) == byte_after(
            byte_after(before, first, addr),
            then,
            addr,
        ),
    decreases then.len(),
{
    if then.len() == 0 {
        assert(first + then =~= first);
    } else {
        assert((first + then).drop_last() =~= first + then.drop_last());
        law_writes_add_up(before, first, then.drop_last(), addr);
    }
}

/// A byte that no write covers stays what it was.
proof fn lemma_uncovered(before: u8, writes: Seq<(u64, Seq<u8>)>, addr: int)
    requires
        forall|i: int|
            0 <= i < writes.len() ==> !((#[trigger] writes[i]).0 <= addr < writes[i].0
                + writes[i].1.len()),
    ensures
        byte_after(before, writes, addr) == before,
    decreases writes.len(),
{
    if writes.len() > 0 {
        let rest = writes.drop_last();
        assert forall|i: int| 0 <= i < rest.len() implies !((#[trigger] rest[i]).0 <= addr
            < rest[i].0 + rest[i].1.len()) by {
            assert(rest[i] == writes[i]);
        }
        lemma_uncovered(before, rest, addr);
        assert(writes.last() == writes[writes.len() - 1]);
    }
}

/// Once the image is written, every byte of every part is where it belongs: at 0x6000 the start
/// info, and at 0x7000 the entries of the map, 24 bytes apart.
pub proof fn law_written_image_is_in_memory(
    regions: Seq<(u64, u64)>,
    before: u8,
    i: int,
    j: int,
)
    requires
        regions.len() <= u32::MAX,
        0 <= i <= regions.len(),
        0 <= j < pvh_image(regions)[i].1.len(),
    ensures
        byte_after(before, pvh_image(regions), pvh_image(regions)[i].0 + j)
            == pvh_image(regions)[i].1[j],
{
    let image = pvh_image(regions);
    let (start, bytes) = image[i];
    let addr = start + j;
    let first = image.take(i + 1);
    let then = image.skip(i + 1);
    lemma_image_parts(regions, i);
    assert(image =~= first + then);
    law_writes_add_up(before, first, then, addr);
    assert(first.last() == image[i]);
    assert forall|k: int| 0 <= k < then.len() implies !((#[trigger] then[k]).0 <= addr < then[k].0
        + then[k].1.len()) by {
        assert(then[k] == image[i + 1 + k]);
        lemma_image_parts(regions, i + 1 + k);
        law_parts_do_not_overlap(regions, i, i + 1 + k);
    }
    lemma_uncovered(byte_after(before, first, addr), then, addr);
}

/// The `len` bytes from `addr` on after `writes`, where memory was `before` ahead of them.
pub open spec fn bytes_after(
    before: spec_fn(int) -> u8,
    writes: Seq<(u64, Seq<u8>)>,
    addr: int,
    len: nat,
) -> Seq<u8> {
    Seq::new(len, |j: int| byte_after(before(addr + j), writes, addr + j))
}

/// Part `i` of the image is in memory once the image is written, whatever was written earlier.
proof fn lemma_part_is_in_memory(
    before: spec_fn(int) -> u8,
    earlier: Seq<(u64, Seq<u8>)>,
    regions: Seq<(u64, u64)>,
    i: int,
)
    requires
        regions.len() <= u32::MAX,
        0 <= i <= regions.len(),
    ensures
        bytes_after(
            before,
            earlier + pvh_image(regions),
            pvh_image(regions)[i].0 as int,
            pvh_image(regions)[i].1.len(),
        ) == pvh_image(regions)[i].1,
{
    let image = pvh_image(regions);
    let (addr, bytes) = image[i];
    let found = bytes_after(before, earlier + image, addr as int, bytes.len());
    assert forall|j: int| 0 <= j < bytes.len() implies found[j] == bytes[j] by {
        let was = before(addr + j);
        law_writes_add_up(was, earlier, image, addr + j);
        law_written_image_is_in_memory(regions, byte_after(was, earlier, addr + j), i, j);
    }
    assert(found =~= bytes);
}

/// Once the image is written, the start info is at [`PVH_INFO_START`], whatever memory held and
/// whatever was written before.
pub proof fn law_start_info_is_in_memory(
    before: spec_fn(int) -> u8,
    earlier: Seq<(u64, Seq<u8>)>,
    regions: Seq<(u64, u64)>,
)
    requires
        regions.len() <= u32::MAX,
    ensures
        bytes_after(
            before,
            earlier + pvh_image(regions),
            PVH_INFO_START as int,
            START_INFO_SIZE as nat,
        ) == start_info_bytes(start_info_for(regions.len() as u32)),
{
    lemma_image_parts(regions, regions.len() as int);
    lemma_part_is_in_memory(before, earlier, regions, regions.len() as int);
}

/// Once the image is written, the entry of region `i` is in its place in the map at
/// [`PVH_MEMMAP_START`], whatever memory held and whatever was written before.
pub proof fn law_map_is_in_memory(
    before: spec_fn(int) -> u8,
    earlier: Seq<(u64, Seq<u8>)>,
    regions: Seq<(u64, u64)>,
    i: int,
)
    requires
        regions.len() <= u32::MAX,
        0 <= i < regions.len(),
    ensures
        bytes_after(
            before,
            earlier + pvh_image(regions),
            PVH_MEMMAP_START + MEMMAP_ENTRY_SIZE * i,
            MEMMAP_ENTRY_SIZE as nat,
        ) == entry_bytes(ram_entry(regions[i])),
{
    lemma_image_parts(regions, i);
    lemma_part_is_in_memory(before, earlier, regions, i);
}

/// Writing the image changes no byte outside of the map and the start info.
pub proof fn law_written_image_changes_nothing_else(
    before: u8,
    earlier: Seq<(u64, Seq<u8>)>,
    regions: Seq<(u64, u64)>,
    addr: int,
)
    requires
        regions.len() <= u32::MAX,
        !in_map(regions, addr),
        !in_start_info(addr),
    ensures
        byte_after(before, earlier + pvh_image(regions), addr) == byte_after(
            before,
            earlier,
            addr,
        ),
{
    let image = pvh_image(regions);
    assert forall|i: int| 0 <= i < image.len() implies !((#[trigger] image[i]).0 <= addr
        < image[i].0 + image[i].1.len()) by {
        lemma_image_parts(regions, i);
    }
    law_writes_add_up(before, earlier, image, addr);
    lemma_uncovered(byte_after(before, earlier, addr), image, addr);
}

/// Where writing breaks off, no byte outside of the map and the start info is changed either; and
/// where it breaks off in the map, no byte of the start info is.
pub proof fn law_broken_image_changes_nothing_else(
    before: u8,
    earlier: Seq<(u64, Seq<u8>)>,
    regions: Seq<(u64, u64)>,
    k: int,
    n: int,
    addr: int,
)
    requires
        regions.len() <= u32::MAX,
        breaks_off(regions, k, n),
        !in_map(regions, addr),
        in_start_info(addr) ==> k < regions.len(),
    ensures
        byte_after(before, earlier + broken_image(regions, k, n), addr) == byte_after(
            before,
            earlier,
            addr,
        ),
{
    let image = pvh_image(regions);
    let writes = broken_image(regions, k, n);
    lemma_image_parts(regions, 0);
    assert forall|i: int| 0 <= i < writes.len() implies !((#[trigger] writes[i]).0 <= addr
        < writes[i].0 + writes[i].1.len()) by {
        lemma_image_parts(regions, i);
        assert(writes[i].0 == image[i].0);
        assert(writes[i].1.len() <= image[i].1.len());
    }
    law_writes_add_up(before, earlier, writes, addr);
    lemma_uncovered(byte_after(before, earlier, addr), writes, addr);
}

/// There is one place at most where writing the image can break off.
pub proof fn law_break_is_unique(
    regions: Seq<(u64, u64)>,
    k: int,
    n: int,
    other_k: int,
    other_n: int,
)
    requires
        regions.len() <= u32::MAX,
        breaks_off(regions, k, n),
        breaks_off(regions, other_k, other_n),
    ensures
        k == other_k,
        n == other_n,
{
    let image = pvh_image(regions);
    if k < other_k {
        assert(is_backed(regions, image[k].0 as int, image[k].1.len() as int));
        assert(is_ram(regions, image[k].0 + n));
    } else if other_k < k {
        assert(is_backed(regions, image[other_k].0 as int, image[other_k].1.len() as int));
        assert(is_ram(regions, image[other_k].0 + other_n));
    } else if n < other_n {
        assert(is_ram(regions, image[k].0 + n));
    } else if other_n < n {
        assert(is_ram(regions, image[k].0 + other_n));
    }
}

/// An entry of the map lies in memory as its address, its size, its type and a reserved word.
#[verifier::rlimit(40)]
pub proof fn law_entry_layout(entry: hvm_memmap_table_entry)
    ensures
        ({
            let bytes = entry_bytes(entry);
            &&& bytes.len() == 24
            &&& from_le64(bytes.subrange(0, 8)) == entry.addr
            &&& from_le64(bytes.subrange(8, 16)) == entry.size
            &&& from_le32(bytes.subrange(16, 20)) == entry.type_
            &&& from_le32(bytes.subrange(20, 24)) == entry.reserved
        }),
{
    reveal(entry_bytes);
    let bytes = entry_bytes(entry);
    assert(bytes.subrange(0, 8) =~= le64(entry.addr));
    assert(bytes.subrange(8, 16) =~= le64(entry.size));
    assert(bytes.subrange(16, 20) =~= le32(entry.type_));
    assert(bytes.subrange(20, 24) =~= le32(entry.reserved));
    lemma_le64_round_trip(entry.addr);
    lemma_le64_round_trip(entry.size);
    lemma_le32_round_trip(entry.type_);
    lemma_le32_round_trip(entry.reserved);
}

/// The start info lies in memory as its fields, one behind the other.
#[verifier::rlimit(60)]
pub proof fn law_start_info_layout(info: hvm_start_info)
    ensures
        ({
            let bytes = start_info_bytes(info);
            &&& bytes.len() == 56
            &&& from_le32(bytes.subrange(0, 4)) == info.magic
            &&& from_le32(bytes.subrange(4, 8)) == info.version
            &&& from_le32(bytes.subrange(8, 12)) == info.flags
            &&& from_le32(bytes.subrange(12, 16)) == info.nr_modules
            &&& from_le64(bytes.subrange(16, 24)) == info.modlist_paddr
            &&& from_le64(bytes.subrange(24, 32)) == info.cmdline_paddr
            &&& from_le64(bytes.subrange(32, 40)) == info.rsdp_paddr
            &&& from_le64(bytes.subrange(40, 48)) == info.memmap_paddr
            &&& from_le32(bytes.subrange(48, 52)) == info.memmap_entries
            &&& from_le32(bytes.subrange(52, 56)) == info.reserved
        }),
{
    reveal(start_info_bytes);
    let bytes = start_info_bytes(info);
    assert(bytes.subrange(0, 4) =~= le32(info.magic));
    assert(bytes.subrange(4, 8) =~= le32(info.version));
    assert(bytes.subrange(8, 12) =~= le32(info.flags));
    assert(bytes.subrange(12, 16) =~= le32(info.nr_modules));
    assert(bytes.subrange(16, 24) =~= le64(info.modlist_paddr));
    assert(bytes.subrange(24, 32) =~= le64(info.cmdline_paddr));
    assert(bytes.subrange(32, 40) =~= le64(info.rsdp_paddr));
    assert(bytes.subrange(40, 48) =~= le64(info.memmap_paddr));
    assert(bytes.subrange(48, 52) =~= le32(info.memmap_entries));
    assert(bytes.subrange(52, 56) =~= le32(info.reserved));
    lemma_le32_round_trip(info.magic);
    lemma_le32_round_trip(info.version);
    lemma_le32_round_trip(info.flags);
    lemma_le32_round_trip(info.nr_modules);
    lemma_le64_round_trip(info.modlist_paddr);
    lemma_le64_round_trip(info.cmdline_paddr);
    lemma_le64_round_trip(info.rsdp_paddr);
    lemma_le64_round_trip(info.memmap_paddr);
    lemma_le32_round_trip(info.memmap_entries);
    lemma_le32_round_trip(info.reserved);
}

/// What a kernel reads once the image is written: at 0x6000 the magic number, version 1, the
/// command line at 0x20000, the map at 0x7000 and the number of RAM regions, and zero in every
/// other field.
pub proof fn law_kernel_reads_the_start_info(
    before: spec_fn(int) -> u8,
    earlier: Seq<(u64, Seq<u8>)>,
    regions: Seq<(u64, u64)>,
)
    requires
        regions.len() <= u32::MAX,
    ensures
        ({
            let found = bytes_after(before, earlier + pvh_image(regions), 0x6000, 56);
            &&& from_le32(found.subrange(0, 4)) == 0x336e_c578
            &&& from_le32(found.subrange(4, 8)) == 1
            &&& from_le32(found.subrange(8, 12)) == 0
            &&& from_le32(found.subrange(12, 16)) == 0
            &&& from_le64(found.subrange(16, 24)) == 0
            &&& from_le64(found.subrange(24, 32)) == 0x2_0000
            &&& from_le64(found.subrange(32, 40)) == 0
            &&& from_le64(found.subrange(40, 48)) == 0x7000
            &&& from_le32(found.subrange(48, 52)) == regions.len()
            &&& from_le32(found.subrange(52, 56)) == 0
        }),
{
    law_start_info_is_in_memory(before, earlier, regions);
    law_start_info_layout(start_info_for(regions.len() as u32));
}

/// What a kernel reads once the image is written: at 0x7000, 24 bytes apart, the start and the
/// length of every RAM region, as usable RAM.
pub proof fn law_kernel_reads_the_map(
    before: spec_fn(int) -> u8,
    earlier: Seq<(u64, Seq<u8>)>,
    regions: Seq<(u64, u64)>,
    i: int,
)
    requires
        regions.len() <= u32::MAX,
        0 <= i < regions.len(),
    ensures
        ({
            let found = bytes_after(before, earlier + pvh_image(regions), 0x7000 + 24 * i, 24);
            &&& from_le64(found.subrange(0, 8)) == regions[i].0
            &&& from_le64(found.subrange(8, 16)) == regions[i].1
            &&& from_le32(found.subrange(16, 20)) == 1
            &&& from_le32(found.subrange(20, 24)) == 0
        }),
{
    law_map_is_in_memory(before, earlier, regions, i);
    law_entry_layout(ram_entry(regions[i]));
}

/// An address is RAM exactly if some region contains it.
pub proof fn law_ram_is_what_regions_contain(regions: Seq<(u64, u64)>, addr: int)
    ensures
        is_ram(regions, addr) <==> exists|i: int|
            0 <= i < regions.len() && (#[trigger] regions[i]).0 <= addr && addr - regions[i].0
                < regions[i].1,
{
}

/// The guest can be set up exactly if there is RAM for all of the start info and all of the map.
pub proof fn law_set_up_exactly_with_ram(regions: Seq<(u64, u64)>)
    requires
        regions.len() <= u32::MAX,
    ensures
        image_backed(regions) <==> forall|addr: int|
            0x6000 <= addr < 0x6038 || 0x7000 <= addr < 0x7000 + 24 * regions.len()
                ==> #[trigger] is_ram(regions, addr),
{
    let image = pvh_image(regions);
    let n = regions.len() as int;
    if image_backed(regions) {
        assert forall|addr: int|
            0x6000 <= addr < 0x6038 || 0x7000 <= addr < 0x7000 + 24 * n implies #[trigger] is_ram(
            regions,
            addr,
        ) by {
            let i = if addr < 0x6038 {
                n
            } else {
                (addr - 0x7000) / 24
            };
            lemma_image_parts(regions, i);
            assert(is_backed(regions, image[i].0 as int, image[i].1.len() as int));
        }
    }
    if forall|addr: int|
        0x6000 <= addr < 0x6038 || 0x7000 <= addr < 0x7000 + 24 * n ==> #[trigger] is_ram(
            regions,
            addr,
        ) {
        assert forall|i: int| 0 <= i < image.len() implies is_backed(
            regions,
            (#[trigger] image[i]).0 as int,
            image[i].1.len() as int,
        ) by {
            lemma_image_parts(regions, i);
        }
    }
}

/// The map is written before the start info, entry by entry.
pub proof fn law_start_info_is_written_last(regions: Seq<(u64, u64)>, i: int)
    requires
        regions.len() <= u32::MAX,
        0 <= i < regions.len(),
    ensures
        pvh_image(regions).len() == regions.len() + 1,
        pvh_image(regions)[i].0 == 0x7000 + 24 * i,
        pvh_image(regions)[i].1.len() == 24,
        pvh_image(regions).last().0 == 0x6000,
        pvh_image(regions).last().1.len() == 56,
{
    lemma_image_parts(regions, i);
    lemma_image_parts(regions, regions.len() as int);
}

/// Where writing breaks off, what was written is the start of the image: every part before the one
/// it broke off in, and the first bytes of that, up to the first address that is not RAM.
pub proof fn law_broken_image_is_a_start_of_the_image(
    regions: Seq<(u64, u64)>,
    k: int,
    n: int,
    i: int,
)
    requires
        regions.len() <= u32::MAX,
        breaks_off(regions, k, n),
        0 <= i <= k,
    ensures
        ({
            let writes = broken_image(regions, k, n);
            let (addr, bytes) = pvh_image(regions)[k];
            &&& writes.len() == k + 1
            &&& i < k ==> writes[i] == pvh_image(regions)[i]
            &&& writes[k].0 == addr
            &&& writes[k].1.len() == n
            &&& n < bytes.len()
            &&& forall|j: int| 0 <= j < n ==> #[trigger] writes[k].1[j] == bytes[j]
            &&& forall|j: int| 0 <= j < n ==> is_ram(regions, #[trigger] (addr + j))
            &&& !is_ram(regions, addr + n)
        }),
{
    let (addr, bytes) = pvh_image(regions)[k];
    assert forall|j: int| 0 <= j < n implies is_ram(regions, #[trigger] (addr + j)) by {}
}

} // verus!
