use krun_devices::acpi::aml::{
    aml_int, aml_name, aml_pkg_length, aml_scope, aml_string, aml_virtio_device,
};
use krun_devices::acpi::loader::{
    fname, loader_add_checksum, loader_add_pointer, loader_allocate,
};
use krun_devices::acpi::tables::{
    build_dsdt, build_fadt, build_gtdt, build_rsdp, build_spcr, build_xsdt, finish_table, gas,
    header, sum_bytes,
};
use krun_devices::acpi::{
    build_acpi, build_madt, AcpiBlobs, AcpiInfo, FILE_LOADER, FILE_RSDP, FILE_TABLES,
};

fn info() -> AcpiInfo {
    AcpiInfo {
        mpidrs: vec![0, 1],
        gic_version: 3,
        gicd_base: 0x9fd_0000,
        gicr_base: 0x9fe_0000,
        gicr_size: 0x2_0000,
        gicc_base: 0,
        uart_base: 0xa00_1000,
        uart_irq: 33,
        virtio: vec![(0xa00_2000, 0x1000, 34), (0xa00_3000, 0x1000, 35)],
    }
}

fn u32_at(bytes: &[u8], at: usize) -> u32 {
    u32::from_le_bytes(bytes[at..at + 4].try_into().unwrap())
}

fn u64_at(bytes: &[u8], at: usize) -> u64 {
    u64::from_le_bytes(bytes[at..at + 8].try_into().unwrap())
}

/// A GICv2 must be described through the GICC physical base, with the GIC version byte set to 2
/// and no GICR structure at all.
#[test]
fn madt_describes_a_gicv2_consistently() {
    let mut i = info();
    i.gic_version = 2;
    i.gicr_base = 0;
    i.gicr_size = 0;
    i.gicc_base = 0x8010000;
    let madt = build_madt(&i);

    let mut off = 44; // past the MADT header + LocalApicAddress + Flags
    let mut saw_gicd = false;
    while off < madt.len() {
        let (typ, len) = (madt[off], madt[off + 1] as usize);
        match typ {
            0x0b => {
                // GICC physical base sits 32 bytes into the structure.
                let base = u64::from_le_bytes(madt[off + 32..off + 40].try_into().unwrap());
                assert_eq!(base, 0x8010000, "GICC must carry the CPU interface");
            }
            0x0c => {
                saw_gicd = true;
                assert_eq!(madt[off + 20], 2, "GIC version byte must be 2");
            }
            0x0e => panic!("a GICv2 must not publish a GICR structure"),
            _ => {}
        }
        off += len;
    }
    assert!(saw_gicd);
}

/// Walk the blob by each table's declared length; headers and sizes must tile it exactly. This is
/// the invariant the firmware's pointer patching depends on.
#[test]
fn tables_tile_the_blob() {
    let b = build_acpi(&info());
    let mut off = 0usize;
    let mut sigs = Vec::new();
    while off < b.tables.len() {
        let sig = &b.tables[off..off + 4];
        let len = u32::from_le_bytes(b.tables[off + 4..off + 8].try_into().unwrap()) as usize;
        assert!(len >= 36, "table too short");
        sigs.push(String::from_utf8_lossy(sig).to_string());
        off += len;
    }
    assert_eq!(off, b.tables.len(), "tables must tile the blob exactly");
    assert_eq!(sigs, ["DSDT", "FACP", "APIC", "GTDT", "SPCR", "XSDT"]);
}

#[test]
fn loader_is_whole_entries_and_names_match() {
    let b = build_acpi(&info());
    assert_eq!(b.loader.len() % 128, 0);
    // First entry: ALLOCATE etc/acpi/tables.
    assert_eq!(u32::from_le_bytes(b.loader[..4].try_into().unwrap()), 1);
    assert_eq!(&b.loader[4..4 + FILE_TABLES.len()], FILE_TABLES.as_bytes());
}

#[test]
fn rsdp_static_checksum_holds() {
    let b = build_acpi(&info());
    assert_eq!(b.rsdp.len(), 36);
    let sum: u8 = b.rsdp[..20].iter().fold(0u8, |a, x| a.wrapping_add(*x));
    assert_eq!(sum, 0, "first-20-byte checksum must be valid pre-patch");
    assert_eq!(&b.rsdp[..8], b"RSD PTR ");
}

/// The DSDT must contain one LNRO0005 string per virtio device: that string is the contract with
/// AcpiGetDevices("LNRO0005") consumers.
#[test]
fn dsdt_advertises_every_virtio_device() {
    let b = build_acpi(&info());
    let hay = &b.tables;
    let needle = b"LNRO0005";
    let count = hay.windows(needle.len()).filter(|w| w == needle).count();
    assert_eq!(count, 2);
}

#[test]
fn madt_has_gicc_per_cpu_plus_gicd_and_gicr() {
    let b = build_acpi(&info());
    // Find the MADT (sig APIC) and walk its subtables.
    let mut off = 0usize;
    loop {
        let sig = &b.tables[off..off + 4];
        let len = u32::from_le_bytes(b.tables[off + 4..off + 8].try_into().unwrap()) as usize;
        if sig == b"APIC" {
            let mut sub = off + 44;
            let mut kinds = Vec::new();
            while sub < off + len {
                kinds.push(b.tables[sub]);
                sub += b.tables[sub + 1] as usize;
            }
            assert_eq!(kinds, [0x0b, 0x0b, 0x0c, 0x0e]);
            return;
        }
        off += len;
    }
}

#[test]
fn package_lengths_at_the_borders() {
    assert_eq!(aml_pkg_length(0), [0x01]);
    assert_eq!(aml_pkg_length(0x3e), [0x3f]);
    assert_eq!(aml_pkg_length(0x3f), [0x41, 0x04]);
    assert_eq!(aml_pkg_length(0xffd), [0x4f, 0xff]);
    assert_eq!(aml_pkg_length(0xffe), [0x81, 0x00, 0x01]);
    assert_eq!(aml_pkg_length(0xf_fffc), [0x8f, 0xff, 0xff]);
    assert_eq!(aml_pkg_length(0xf_fffd), [0xc1, 0x00, 0x00, 0x01]);
    assert_eq!(aml_pkg_length(0x0fff_fffb), [0xcf, 0xff, 0xff, 0xff]);
}

#[test]
fn aml_objects() {
    assert_eq!(aml_int(0), [0x00]);
    assert_eq!(aml_int(1), [0x01]);
    assert_eq!(aml_int(2), [0x0a, 2]);
    assert_eq!(aml_int(0xff), [0x0a, 0xff]);
    assert_eq!(aml_int(0x100), [0x0b, 0x00, 0x01]);
    assert_eq!(aml_int(0xffff), [0x0b, 0xff, 0xff]);
    assert_eq!(aml_int(0x1_0000), [0x0c, 0x00, 0x00, 0x01, 0x00]);
    assert_eq!(aml_int(0x1_2345_6789), [0x0c, 0x89, 0x67, 0x45, 0x23]);
    assert_eq!(aml_string("ab"), [0x0d, b'a', b'b', 0]);
    assert_eq!(
        aml_name(b"_UID", &[0x01]),
        [0x08, b'_', b'U', b'I', b'D', 0x01]
    );
}

#[test]
fn device_node_bytes() {
    let node = aml_virtio_device(10, 0xa00_2000, 0x1000, 34);
    let mut expected = vec![0x5b, 0x82, 0x40, 0x04];
    expected.extend_from_slice(b"VR0A");
    expected.extend_from_slice(b"\x08_HID\x0dLNRO0005\x00");
    expected.extend_from_slice(b"\x08_UID\x0a\x0a");
    expected.extend_from_slice(b"\x08_CCA\x01");
    expected.extend_from_slice(b"\x08_CRS\x11\x1a\x0a\x17");
    expected.extend_from_slice(&[0x86, 0x09, 0x00, 0x01]);
    expected.extend_from_slice(&0xa00_2000u32.to_le_bytes());
    expected.extend_from_slice(&0x1000u32.to_le_bytes());
    expected.extend_from_slice(&[0x89, 0x06, 0x00, 0x01, 0x01]);
    expected.extend_from_slice(&34u32.to_le_bytes());
    expected.extend_from_slice(&[0x79, 0x00]);
    // The package length counts itself and everything behind the two opcode bytes.
    let total = expected.len() - 2;
    expected[2] = 0x40 | (total & 0xf) as u8;
    expected[3] = (total >> 4) as u8;
    assert_eq!(node, expected);
}

#[test]
fn device_names_are_upper_case_hex() {
    for (index, name) in [(0usize, "VR00"), (0x1f, "VR1F"), (0xff, "VRFF"), (0x100, "VR100")] {
        let node = aml_virtio_device(index, 0, 0, 0);
        assert_eq!(&node[4..4 + name.len()], name.as_bytes());
        assert_eq!(format!("VR{index:02X}"), name);
        let hid = 4 + name.len();
        assert_eq!(&node[hid..hid + 15], b"\x08_HID\x0dLNRO0005\x00");
    }
}

#[test]
fn scope_without_devices() {
    assert_eq!(
        aml_scope(&vec![]),
        [0x10, 0x06, 0x5c, b'_', b'S', b'B', b'_']
    );
    let mut i = info();
    i.virtio = vec![];
    let dsdt = build_dsdt(&i);
    assert_eq!(dsdt.len(), 43);
    assert_eq!(u32_at(&dsdt, 4), 43);
}

#[test]
fn header_fields() {
    let h = header(b"TEST", 7);
    let mut expected = b"TEST\0\0\0\0\x07\0KRUNVMKRUNVM  \x01\0\0\0KRUN\x01\0\0\0".to_vec();
    assert_eq!(h, expected);
    finish_table(&mut expected);
    assert_eq!(&expected[4..8], &[36, 0, 0, 0]);
}

#[test]
fn address_structure() {
    assert_eq!(
        gas(0, 32, 3, 0x1122_3344_5566_7788),
        [0, 32, 0, 3, 0x88, 0x77, 0x66, 0x55, 0x44, 0x33, 0x22, 0x11]
    );
}

#[test]
fn fadt_fields() {
    let t = build_fadt(0x1234);
    assert_eq!(t.len(), 276);
    assert_eq!(u32_at(&t, 4), 276);
    assert_eq!(&t[..4], b"FACP");
    assert_eq!(t[8], 6);
    assert_eq!(u32_at(&t, 112), 1 << 20);
    assert_eq!(&t[129..132], &[1, 0, 1]);
    assert_eq!(u64_at(&t, 140), 0x1234);
    assert_eq!(&t[268..], b"KRUNKRUN");
    assert!(t[36..112].iter().all(|b| *b == 0));
    assert!(t[116..129].iter().all(|b| *b == 0));
    assert!(t[132..140].iter().all(|b| *b == 0));
    assert!(t[148..268].iter().all(|b| *b == 0));
}

#[test]
fn gtdt_fields() {
    let t = build_gtdt();
    assert_eq!(t.len(), 96);
    assert_eq!(u64_at(&t, 36), u64::MAX);
    assert_eq!(u32_at(&t, 48), 29);
    assert_eq!(u32_at(&t, 56), 28);
    assert_eq!(u32_at(&t, 64), 27);
    assert_eq!(u32_at(&t, 72), 30);
    assert_eq!(u64_at(&t, 80), u64::MAX);
    assert_eq!(u32_at(&t, 88), 0);
    assert_eq!(u32_at(&t, 92), 96);
}

#[test]
fn spcr_fields() {
    let t = build_spcr(&info());
    assert_eq!(t.len(), 80);
    assert_eq!(&t[36..44], &[3, 0, 0, 0, 0, 32, 0, 3]);
    assert_eq!(u64_at(&t, 44), 0xa00_1000);
    assert_eq!(&t[52..54], &[8, 0]);
    assert_eq!(u32_at(&t, 54), 33);
    assert_eq!(&t[58..64], &[3, 0, 1, 0, 0, 0]);
    assert_eq!(&t[64..68], &[0xff; 4]);
    assert!(t[68..].iter().all(|b| *b == 0));
}

#[test]
fn gicc_fields() {
    let mut i = info();
    i.mpidrs = vec![0x8000_0000, 0x8000_0001];
    let t = build_madt(&i);
    let gicc = &t[44 + 80..44 + 160];
    assert_eq!(u32_at(gicc, 4), 1);
    assert_eq!(u32_at(gicc, 8), 1);
    assert_eq!(u32_at(gicc, 12), 1);
    assert_eq!(u64_at(gicc, 32), 0);
    assert_eq!(u64_at(gicc, 68), 0x8000_0001);
    let gicd = &t[44 + 160..44 + 184];
    assert_eq!(u64_at(gicd, 8), 0x9fd_0000);
    assert_eq!(gicd[20], 3);
    let gicr = &t[44 + 184..];
    assert_eq!(gicr.len(), 16);
    assert_eq!(u64_at(gicr, 4), 0x9fe_0000);
    assert_eq!(u32_at(gicr, 12), 0x2_0000);
}

#[test]
fn madt_ignores_the_other_controller() {
    let mut i = info();
    let v3 = build_madt(&i);
    i.gicc_base = 0x8010000;
    assert_eq!(build_madt(&i), v3);
    i.gic_version = 2;
    let v2 = build_madt(&i);
    i.gicr_base = 1;
    i.gicr_size = 2;
    assert_eq!(build_madt(&i), v2);
}

#[test]
fn xsdt_and_rsdp_fields() {
    let x = build_xsdt(1, 2, 3, 4);
    assert_eq!(x.len(), 68);
    assert_eq!(u64_at(&x, 36), 1);
    assert_eq!(u64_at(&x, 60), 4);
    let r = build_rsdp(0x500);
    assert_eq!(&r[9..15], b"KRUNVM");
    assert_eq!(r[15], 2);
    assert_eq!(u32_at(&r, 20), 36);
    assert_eq!(u64_at(&r, 24), 0x500);
    assert_eq!(&r[32..], &[0; 4]);
    assert_eq!(sum_bytes(&[0xff, 2, 3]), 4);
}

#[test]
fn loader_entries() {
    let mut out = vec![];
    loader_allocate(&mut out, "a", 0x40, 1);
    loader_add_pointer(&mut out, "b", "c", 0x1122);
    loader_add_checksum(&mut out, "d", 9, 1, 36);
    assert_eq!(out.len(), 3 * 128);
    assert_eq!(u32_at(&out, 0), 1);
    assert_eq!(out[4], b'a');
    assert_eq!(u32_at(&out, 60), 0x40);
    assert_eq!(out[64], 1);
    assert!(out[65..128].iter().all(|b| *b == 0));
    assert_eq!(u32_at(&out, 128), 2);
    assert_eq!(out[132], b'b');
    assert_eq!(out[188], b'c');
    assert_eq!(u32_at(&out, 244), 0x1122);
    assert_eq!(out[248], 8);
    assert_eq!(u32_at(&out, 256), 3);
    assert_eq!(out[260], b'd');
    assert_eq!(u32_at(&out, 316), 9);
    assert_eq!(u32_at(&out, 320), 1);
    assert_eq!(u32_at(&out, 324), 36);
    assert_eq!(fname("etc")[..4], *b"etc\0");
}

/// Runs a loader script the way firmware does.
fn run(b: &AcpiBlobs, tables_base: u64, rsdp_base: u64) -> (Vec<u8>, Vec<u8>) {
    let name = |at: usize| -> String {
        let field = &b.loader[at..at + 56];
        let end = field.iter().position(|c| *c == 0).unwrap();
        String::from_utf8(field[..end].to_vec()).unwrap()
    };
    let mut tables = vec![];
    let mut rsdp = vec![];
    for e in (0..b.loader.len()).step_by(128) {
        let file = name(e + 4);
        match u32_at(&b.loader, e) {
            1 => {
                if file == FILE_TABLES {
                    tables = b.tables.clone();
                } else {
                    assert_eq!(file, FILE_RSDP);
                    rsdp = b.rsdp.clone();
                }
            }
            2 => {
                let base = if name(e + 60) == FILE_TABLES {
                    tables_base
                } else {
                    rsdp_base
                };
                let at = u32_at(&b.loader, e + 116) as usize;
                let blob = if file == FILE_TABLES { &mut tables } else { &mut rsdp };
                let value = u64_at(blob, at) + base;
                blob[at..at + 8].copy_from_slice(&value.to_le_bytes());
            }
            3 => {
                let at = u32_at(&b.loader, e + 60) as usize;
                let start = u32_at(&b.loader, e + 64) as usize;
                let len = u32_at(&b.loader, e + 68) as usize;
                let blob = if file == FILE_TABLES { &mut tables } else { &mut rsdp };
                let sum = sum_bytes(&blob[start..start + len]);
                blob[at] = 0u8.wrapping_sub(sum);
            }
            _ => panic!("unknown command"),
        }
    }
    (tables, rsdp)
}

#[test]
fn script_relocates_every_pointer_and_fills_every_checksum() {
    let b = build_acpi(&info());
    let base = 0x7f00_0000;
    let (tables, rsdp) = run(&b, base, 0xf_0000);
    assert_eq!(sum_bytes(&rsdp), 0);
    assert_eq!(sum_bytes(&rsdp[..20]), 0);
    let xsdt = (u64_at(&rsdp, 24) - base) as usize;
    assert_eq!(&tables[xsdt..xsdt + 4], b"XSDT");
    let mut found = vec![];
    for i in 0..4 {
        let at = (u64_at(&tables, xsdt + 36 + 8 * i) - base) as usize;
        found.push(tables[at..at + 4].to_vec());
        if &tables[at..at + 4] == b"FACP" {
            let dsdt = (u64_at(&tables, at + 140) - base) as usize;
            assert_eq!(&tables[dsdt..dsdt + 4], b"DSDT");
        }
    }
    assert_eq!(found, [b"FACP", b"APIC", b"GTDT", b"SPCR"]);
    let mut off = 0;
    while off < tables.len() {
        let len = u32_at(&tables, off + 4) as usize;
        assert_eq!(sum_bytes(&tables[off..off + len]), 0);
        off += len;
    }
    assert_eq!(FILE_LOADER, "etc/table-loader");
}
