use krun_devices::fwcfg::{
    FwCfg, DATA_OFFSET, FW_CFG_FILE_DIR, FW_CFG_ID, FW_CFG_SIGNATURE, SELECTOR_OFFSET,
};

fn select(dev: &mut FwCfg, key: u16) {
    dev.write(0, SELECTOR_OFFSET, &key.to_be_bytes());
}

/// The bus slice must carry the item's bytes in stream order: the firmware stores the register
/// value to its buffer verbatim, so the value must be little-endian-packed, first stream byte in
/// the LSB.
#[test]
fn data_reads_preserve_stream_order() {
    let mut dev = FwCfg::new();
    select(&mut dev, FW_CFG_SIGNATURE);
    let mut buf = [0u8; 4];
    dev.read(0, DATA_OFFSET, &mut buf);
    assert_eq!(buf, *b"QEMU");
    let value = u32::from_le_bytes(buf);
    assert_eq!(value, u32::from_le_bytes(*b"QEMU")); // SIGNATURE_32('Q','E','M','U')
}

#[test]
fn selecting_rewinds_and_reads_advance() {
    let mut dev = FwCfg::new();
    dev.add_file("etc/x", vec![1, 2, 3]);
    let sel = dev.files[0].1;
    select(&mut dev, sel);
    let mut b = [0u8; 1];
    dev.read(0, DATA_OFFSET, &mut b);
    assert_eq!(b[0], 1);
    dev.read(0, DATA_OFFSET, &mut b);
    assert_eq!(b[0], 2);
    select(&mut dev, sel);
    dev.read(0, DATA_OFFSET, &mut b);
    assert_eq!(b[0], 1);
    // Reads past the end return zeros.
    select(&mut dev, sel);
    let mut b8 = [0xffu8; 8];
    dev.read(0, DATA_OFFSET, &mut b8);
    assert_eq!(&b8[..3], &[1, 2, 3]); // stream order in the slice
    assert_eq!(&b8[3..], &[0, 0, 0, 0, 0]);
}

#[test]
fn file_dir_lists_files_big_endian() {
    let mut dev = FwCfg::new();
    dev.add_file("etc/table-loader", vec![0; 128]);
    dev.add_file("etc/acpi/tables", vec![0; 512]);
    let dir = dev.items.get(&FW_CFG_FILE_DIR).unwrap();
    assert_eq!(u32::from_be_bytes(dir[..4].try_into().unwrap()), 2);
    // First entry: size 128, selector 0x20, name.
    assert_eq!(u32::from_be_bytes(dir[4..8].try_into().unwrap()), 128);
    assert_eq!(u16::from_be_bytes(dir[8..10].try_into().unwrap()), 0x20);
    let name = &dir[12..12 + 16];
    assert_eq!(&name[..16], b"etc/table-loader");
}

#[test]
fn empty_device() {
    let mut dev = FwCfg::default();
    select(&mut dev, FW_CFG_ID);
    let mut buf = [0xffu8; 4];
    dev.read(0, DATA_OFFSET, &mut buf);
    assert_eq!(buf, [1, 0, 0, 0]);
    select(&mut dev, FW_CFG_FILE_DIR);
    dev.read(0, DATA_OFFSET, &mut buf);
    assert_eq!(buf, [0, 0, 0, 0]);
    assert_eq!(dev.items.len(), 3);
}

#[test]
fn replacing_a_file_keeps_its_selector() {
    let mut dev = FwCfg::new();
    dev.add_file("a", vec![1]);
    dev.add_file("b", vec![2, 2]);
    dev.add_file("a", vec![3, 3, 3]);
    assert_eq!(dev.files.len(), 2);
    assert_eq!(dev.files[0].1, 0x20);
    assert_eq!(dev.files[1].1, 0x21);
    assert_eq!(dev.items[&0x20], [3, 3, 3]);
    assert_eq!(dev.items[&0x21], [2, 2]);
    let dir = &dev.items[&FW_CFG_FILE_DIR];
    assert_eq!(dir.len(), 4 + 2 * 64);
    assert_eq!(&dir[4..12], &[0, 0, 0, 3, 0, 0x20, 0, 0]);
    assert_eq!(&dir[68..76], &[0, 0, 0, 2, 0, 0x21, 0, 0]);
    assert_eq!(dir[76], b'b');
    assert!(dir[77..132].iter().all(|b| *b == 0));
}

#[test]
fn directory_leads_to_the_content() {
    let mut dev = FwCfg::new();
    dev.add_file("etc/acpi/rsdp", vec![7; 36]);
    dev.add_file("etc/acpi/tables", vec![9, 8, 7]);
    select(&mut dev, FW_CFG_FILE_DIR);
    let mut count = [0u8; 4];
    dev.read(0, DATA_OFFSET, &mut count);
    let mut found = vec![];
    for _ in 0..u32::from_be_bytes(count) {
        let mut entry = [0u8; 64];
        dev.read(0, DATA_OFFSET, &mut entry);
        if &entry[8..24] == b"etc/acpi/tables\0" {
            dev.write(0, SELECTOR_OFFSET, &entry[4..6]);
            found = vec![0u8; u32::from_be_bytes(entry[..4].try_into().unwrap()) as usize];
            dev.read(0, DATA_OFFSET, &mut found);
        }
    }
    assert_eq!(found, [9, 8, 7]);
}

#[test]
fn reads_in_pieces_follow_the_stream() {
    let mut dev = FwCfg::new();
    dev.add_file("x", (0..20).collect());
    select(&mut dev, 0x20);
    let mut stream = vec![];
    for n in [1, 2, 4, 8, 8] {
        let mut piece = vec![0xffu8; n];
        dev.read(0, DATA_OFFSET, &mut piece);
        stream.extend_from_slice(&piece);
    }
    let mut expected: Vec<u8> = (0..20).collect();
    expected.extend_from_slice(&[0, 0, 0]);
    assert_eq!(stream, expected);
    assert_eq!(dev.offset, 23);
}

#[test]
fn other_accesses_do_nothing() {
    let mut dev = FwCfg::new();
    dev.add_file("x", vec![5, 6]);
    select(&mut dev, 0x20);
    // Not the data register.
    let mut buf = [0xffu8; 2];
    dev.read(0, SELECTOR_OFFSET, &mut buf);
    assert_eq!(buf, [0, 0]);
    assert_eq!(dev.offset, 0);
    // Writes to the data register, and selectors of another width.
    dev.write(0, DATA_OFFSET, &[0, 1]);
    dev.write(0, SELECTOR_OFFSET, &[0, 0, 0, 1]);
    dev.read(0, DATA_OFFSET, &mut buf);
    assert_eq!(buf, [5, 6]);
    // An item that is not there.
    select(&mut dev, 0x1234);
    let mut buf = [0xffu8; 2];
    dev.read(0, DATA_OFFSET, &mut buf);
    assert_eq!(buf, [0, 0]);
    assert_eq!(dev.offset, 0);
}

#[test]
fn position_stops_at_the_end_of_the_address_space() {
    let mut dev = FwCfg::new();
    dev.offset = usize::MAX - 1;
    let mut buf = [0xffu8; 4];
    dev.read(0, DATA_OFFSET, &mut buf);
    assert_eq!(buf, [0; 4]);
    assert_eq!(dev.offset, usize::MAX);
}
