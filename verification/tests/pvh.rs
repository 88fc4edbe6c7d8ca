use krun_devices::layout::{CMDLINE_START, PVH_INFO_START, PVH_MEMMAP_START};
use krun_devices::pvh::memory::GuestRam;
use krun_devices::pvh::{
    build_pvh_image, configure_pvh, configure_pvh_if_listable, hvm_memmap_table_entry,
    hvm_start_info, Error, E820_RAM, XEN_HVM_START_MAGIC_VALUE,
};
use vm_memory::{Bytes, GuestAddress, GuestMemoryMmap};

fn memory(ranges: &[(u64, usize)]) -> GuestMemoryMmap<()> {
    let ranges: Vec<(GuestAddress, usize)> =
        ranges.iter().map(|r| (GuestAddress(r.0), r.1)).collect();
    GuestMemoryMmap::from_ranges(&ranges).unwrap()
}

/// A handle on the same memory.
fn ram(mem: &GuestMemoryMmap<()>) -> GuestRam {
    GuestRam::new(mem.clone())
}

fn read(mem: &GuestMemoryMmap<()>, at: u64, n: usize) -> Vec<u8> {
    let mut bytes = vec![0u8; n];
    mem.read_slice(&mut bytes, GuestAddress(at)).unwrap();
    bytes
}

#[test]
fn start_info_and_map_land_in_guest_memory() {
    let mem = memory(&[(0, 0x1_0000), (0x10_0000, 0x2000)]);
    assert_eq!(configure_pvh(&mut ram(&mem)), Ok(()));
    let info = read(&mem, PVH_INFO_START, 56);
    let mut expected = vec![];
    expected.extend_from_slice(b"\x78\xc5\x6e\x33");
    expected.extend_from_slice(&1u32.to_le_bytes());
    expected.extend_from_slice(&[0; 16]);
    expected.extend_from_slice(&CMDLINE_START.to_le_bytes());
    expected.extend_from_slice(&[0; 8]);
    expected.extend_from_slice(&PVH_MEMMAP_START.to_le_bytes());
    expected.extend_from_slice(&2u32.to_le_bytes());
    expected.extend_from_slice(&[0; 4]);
    assert_eq!(info, expected);
    let map = read(&mem, PVH_MEMMAP_START, 48);
    let mut expected = vec![];
    for (addr, size) in [(0u64, 0x1_0000u64), (0x10_0000, 0x2000)] {
        expected.extend_from_slice(&addr.to_le_bytes());
        expected.extend_from_slice(&size.to_le_bytes());
        expected.extend_from_slice(&E820_RAM.to_le_bytes());
        expected.extend_from_slice(&[0; 4]);
    }
    assert_eq!(map, expected);
    // Nothing behind the map is touched.
    assert_eq!(read(&mem, PVH_MEMMAP_START + 48, 64), vec![0; 64]);
}

#[test]
fn image_may_span_adjacent_regions() {
    let mem = memory(&[(0, 0x7010), (0x7010, 0x1000)]);
    assert_eq!(configure_pvh(&mut ram(&mem)), Ok(()));
    assert_eq!(read(&mem, PVH_MEMMAP_START + 24, 8), 0x7010u64.to_le_bytes());
}

#[test]
fn missing_ram_is_an_error() {
    // No room for the map.
    let mem = memory(&[(0, 0x7010)]);
    assert_eq!(configure_pvh(&mut ram(&mem)), Err(Error::WriteStartInfo));
    // No room for the start info.
    let mem = memory(&[(0x7000, 0x1000)]);
    assert_eq!(configure_pvh(&mut ram(&mem)), Err(Error::WriteStartInfo));
    assert_eq!(
        configure_pvh_if_listable(&mut ram(&mem)),
        Some(Err(Error::WriteStartInfo))
    );
    // No RAM at all.
    let mem: GuestMemoryMmap<()> = GuestMemoryMmap::new();
    assert_eq!(configure_pvh(&mut ram(&mem)), Err(Error::WriteStartInfo));
}

#[test]
fn listable_memory_is_configured() {
    let mem = memory(&[(0, 0x1_0000)]);
    assert_eq!(configure_pvh_if_listable(&mut ram(&mem)), Some(Ok(())));
    assert_eq!(
        read(&mem, PVH_INFO_START, 4),
        XEN_HVM_START_MAGIC_VALUE.to_le_bytes()
    );
}

#[test]
fn image_of_given_regions() {
    let parts = build_pvh_image(&vec![(0x1000, 0x2000)]);
    assert_eq!(parts.len(), 2);
    assert_eq!(parts[0].0, 0x7000);
    assert_eq!(
        parts[0].1,
        [
            0, 0x10, 0, 0, 0, 0, 0, 0, 0, 0x20, 0, 0, 0, 0, 0, 0, 1, 0, 0, 0, 0, 0, 0, 0
        ]
    );
    assert_eq!(parts[1].0, 0x6000);
    assert_eq!(parts[1].1.len(), 56);
    assert_eq!(&parts[1].1[48..52], &[1, 0, 0, 0]);
    assert_eq!(build_pvh_image(&vec![]).len(), 1);
}

#[test]
fn structures_default_to_zero() {
    assert_eq!(hvm_start_info::default().to_bytes(), vec![0; 56]);
    assert_eq!(hvm_memmap_table_entry::default().to_bytes(), vec![0; 24]);
    let info = hvm_start_info {
        flags: 1,
        nr_modules: 2,
        modlist_paddr: 3,
        rsdp_paddr: 4,
        reserved: 5,
        ..hvm_start_info::default()
    };
    let bytes = info.to_bytes();
    assert_eq!((bytes[8], bytes[12], bytes[16]), (1, 2, 3));
    assert_eq!((bytes[32], bytes[52]), (4, 5));
}

#[test]
fn parts_neither_overlap_nor_reach_the_command_line() {
    let regions: Vec<(u64, u64)> = (0..10).map(|i| (i * 0x10_0000, 0x1000)).collect();
    let mut ranges: Vec<(u64, u64)> = build_pvh_image(&regions)
        .iter()
        .map(|(addr, bytes)| (*addr, addr + bytes.len() as u64))
        .collect();
    ranges.sort();
    assert_eq!(ranges.len(), 11);
    assert_eq!(ranges[0], (PVH_INFO_START, PVH_INFO_START + 56));
    for pair in ranges.windows(2) {
        assert!(pair[0].1 <= pair[1].0);
    }
    assert!(ranges[10].1 <= CMDLINE_START);
}

#[test]
fn failed_map_write_leaves_the_start_info_alone() {
    // The first entry has a hole behind its 16th byte.
    let mem = memory(&[(0, 0x7010), (0x7014, 0x1000)]);
    mem.write_slice(&[0xee; 0x7010], GuestAddress(0)).unwrap();
    mem.write_slice(&[0xee; 0x1000], GuestAddress(0x7014)).unwrap();
    assert_eq!(configure_pvh(&mut ram(&mem)), Err(Error::WriteStartInfo));
    let entry = &build_pvh_image(&vec![(0, 0x7010), (0x7014, 0x1000)])[0].1;
    assert_eq!(read(&mem, PVH_MEMMAP_START, 16), entry[..16]);
    assert_eq!(read(&mem, 0, 0x7000), vec![0xee; 0x7000]);
    assert_eq!(read(&mem, 0x7014, 0x1000), vec![0xee; 0x1000]);
}

#[test]
fn nothing_else_is_written() {
    let mem = memory(&[(0, 0x1_0000)]);
    mem.write_slice(&[0xee; 0x1_0000], GuestAddress(0)).unwrap();
    assert_eq!(configure_pvh(&mut ram(&mem)), Ok(()));
    let after = read(&mem, 0, 0x1_0000);
    for (addr, byte) in after.iter().enumerate() {
        if !(0x6000..0x6038).contains(&addr) && !(0x7000..0x7018).contains(&addr) {
            assert_eq!(*byte, 0xee);
        }
    }
}

#[test]
fn writes_stop_at_the_first_hole() {
    let mem = memory(&[(0x1000, 0x10), (0x1020, 0x10)]);
    let mut ram = ram(&mem);
    assert_eq!(ram.list(), [(0x1000, 0x10), (0x1020, 0x10)]);
    assert!(ram.write(0x1008, &[1; 8]));
    assert!(!ram.write(0x100c, &[2; 0x18]));
    assert!(!ram.write(0x1010, &[3; 4]));
    assert_eq!(
        read(&mem, 0x1000, 16),
        [0, 0, 0, 0, 0, 0, 0, 0, 1, 1, 1, 1, 2, 2, 2, 2]
    );
    assert_eq!(read(&mem, 0x1020, 16), vec![0; 16]);
}
