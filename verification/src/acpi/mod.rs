//! ACPI tables for aarch64 EFI boots, served to the firmware over fw_cfg.
//!
//! There are two fw_cfg files with the table content (`etc/acpi/tables`, `etc/acpi/rsdp`) and a
//! third (`etc/table-loader`) that holds a script of ALLOCATE / ADD_POINTER / ADD_CHECKSUM
//! commands. The firmware allocates the blobs in guest memory, adds the allocation base to every
//! pre-stored blob-relative pointer, fixes the checksums, and installs each table the pointer
//! graph reaches.
//!
//! Emitted tables: DSDT (with an LNRO0005 node per virtio-mmio device, which is how ACPI guests
//! enumerate them), FADT (v6, HW-reduced, PSCI via SMC), MADT (GICC per vCPU, the GICD, and the
//! GICR range of a GICv3), GTDT (arch timer PPIs) and SPCR (the PL011), rooted in an XSDT and a v2
//! RSDP. Checksums are left zero for the loader script to fill.

pub mod aml;
pub mod firmware;
pub mod laws;
pub mod layout_laws;
pub mod loader;
pub mod tables;

use crate::acpi::aml::{scope_body, AML_CONTENT_LIMIT};
use crate::acpi::loader::{
    entry_bytes, loader_add_checksum, loader_add_pointer, loader_allocate, script_bytes, Command,
    ZONE_FSEG, ZONE_HIGH,
};
use crate::acpi::tables::{
    build_dsdt, build_fadt, build_gtdt, build_rsdp, build_spcr, build_xsdt, dsdt_bytes, fadt_bytes,
    gtdt_bytes, madt_bytes, rsdp_bytes, spcr_bytes, table_bytes, xsdt_bytes, CHECKSUM_OFFSET,
    HEADER_SIZE, RSDP_CHECKSUM_OFFSET, RSDP_SIZE, XSDT_ADDRESS_OFFSET, X_DSDT_OFFSET,
};
use crate::bytes::put_bytes;
use vstd::prelude::*;
use vstd::utf8::{encode_utf8, is_ascii_chars_encode_utf8};

pub use crate::acpi::tables::build_madt;

verus! {

/// Everything the tables need to describe about the machine.
pub struct AcpiInfo {
    /// MPIDR per vCPU, in vCPU order.
    pub mpidrs: Vec<u64>,
    /// GIC architecture version, 2 or 3. The MADT has to describe one or the other consistently: a
    /// v2 is found through a physical CPU interface in each GICC, a v3 through the redistributors
    /// and the system registers. Publishing a mixture leaves the firmware unable to find any
    /// controller at all.
    pub gic_version: u32,
    /// Distributor base. Both versions.
    pub gicd_base: u64,
    /// GICv3 redistributor discovery range. Ignored when `gic_version` is 2.
    pub gicr_base: u64,
    pub gicr_size: u64,
    /// GICv2 physical CPU interface base. Ignored when `gic_version` is 3.
    pub gicc_base: u64,
    /// PL011 base and its interrupt (absolute GSIV/intid).
    pub uart_base: u64,
    pub uart_irq: u32,
    /// virtio-mmio devices: (base, size, absolute GSIV/intid).
    pub virtio: Vec<(u64, u64, u32)>,
}

/// The three fw_cfg files.
pub struct AcpiBlobs {
    pub rsdp: Vec<u8>,
    pub tables: Vec<u8>,
    pub loader: Vec<u8>,
}

pub const FILE_RSDP: &'static str = "etc/acpi/rsdp";

pub const FILE_TABLES: &'static str = "etc/acpi/tables";

pub const FILE_LOADER: &'static str = "etc/table-loader";

/// Where each table starts in the blob.
pub open spec fn fadt_at(info: AcpiInfo) -> nat {
    dsdt_bytes(info.virtio@).len()
}

pub open spec fn madt_at(info: AcpiInfo) -> nat {
    fadt_at(info) + fadt_bytes(0).len()
}

pub open spec fn gtdt_at(info: AcpiInfo) -> nat {
    madt_at(info) + madt_bytes(info).len()
}

pub open spec fn spcr_at(info: AcpiInfo) -> nat {
    gtdt_at(info) + gtdt_bytes().len()
}

pub open spec fn xsdt_at(info: AcpiInfo) -> nat {
    spcr_at(info) + spcr_bytes(info.uart_base, info.uart_irq).len()
}

/// The blob of tables, with blob offsets for addresses.
pub open spec fn tables_bytes(info: AcpiInfo) -> Seq<u8> {
    dsdt_bytes(info.virtio@) + fadt_bytes(0) + madt_bytes(info) + gtdt_bytes() + spcr_bytes(
        info.uart_base,
        info.uart_irq,
    ) + xsdt_bytes(
        fadt_at(info) as u32 as u64,
        madt_at(info) as u32 as u64,
        gtdt_at(info) as u32 as u64,
        spcr_at(info) as u32 as u64,
    )
}

/// The RSDP, with the blob offset of the XSDT for its address.
pub open spec fn served_rsdp(info: AcpiInfo) -> Seq<u8> {
    rsdp_bytes(xsdt_at(info) as u32 as u64)
}

/// Have the checksum of a table stored in its header.
pub open spec fn checksum_table(span: (u32, u32)) -> Command {
    Command::AddChecksum {
        file: encode_utf8(FILE_TABLES@),
        result_offset: (span.0 + CHECKSUM_OFFSET) as u32,
        start: span.0,
        len: span.1,
    }
}

/// Have the address of the tables added to the pointer `field` bytes into a table.
pub open spec fn relocate_pointer(span: (u32, u32), field: int) -> Command {
    Command::AddPointer {
        pointer_file: encode_utf8(FILE_TABLES@),
        pointee_file: encode_utf8(FILE_TABLES@),
        offset: (span.0 + field) as u32,
    }
}

/// The loader script for tables that lie at these offsets and have these lengths.
pub open spec fn script_for(
    dsdt: (u32, u32),
    fadt: (u32, u32),
    madt: (u32, u32),
    gtdt: (u32, u32),
    spcr: (u32, u32),
    xsdt: (u32, u32),
) -> Seq<Command> {
    seq![
        Command::Allocate { file: encode_utf8(FILE_TABLES@), align: 0x40, zone: ZONE_HIGH },
        checksum_table(dsdt),
        relocate_pointer(fadt, X_DSDT_OFFSET as int),
        checksum_table(fadt),
        checksum_table(madt),
        checksum_table(gtdt),
        checksum_table(spcr),
        relocate_pointer(xsdt, HEADER_SIZE as int),
        relocate_pointer(xsdt, HEADER_SIZE + 8),
        relocate_pointer(xsdt, HEADER_SIZE + 16),
        relocate_pointer(xsdt, HEADER_SIZE + 24),
        checksum_table(xsdt),
        Command::Allocate { file: encode_utf8(FILE_RSDP@), align: 0x10, zone: ZONE_FSEG },
        Command::AddPointer {
            pointer_file: encode_utf8(FILE_RSDP@),
            pointee_file: encode_utf8(FILE_TABLES@),
            offset: XSDT_ADDRESS_OFFSET,
        },
        Command::AddChecksum {
            file: encode_utf8(FILE_RSDP@),
            result_offset: RSDP_CHECKSUM_OFFSET,
            start: 0,
            len: RSDP_SIZE,
        },
    ]
}

/// The 32-bit offset and length of a table.
pub open spec fn span(at: nat, len: nat) -> (u32, u32) {
    (at as u32, len as u32)
}

/// The loader script.
pub open spec fn script(info: AcpiInfo) -> Seq<Command> {
    script_for(
        span(0, dsdt_bytes(info.virtio@).len()),
        span(fadt_at(info), fadt_bytes(0).len()),
        span(madt_at(info), madt_bytes(info).len()),
        span(gtdt_at(info), gtdt_bytes().len()),
        span(spcr_at(info), spcr_bytes(info.uart_base, info.uart_irq).len()),
        span(xsdt_at(info), xsdt_bytes(0, 0, 0, 0).len()),
    )
}

/// Whether the machine can be described: the device nodes fit into an AML package, and the 32-bit
/// offsets that the script names can be computed.
pub open spec fn is_describable(info: AcpiInfo) -> bool {
    &&& scope_body(info.virtio@).len() < AML_CONTENT_LIMIT
    &&& gtdt_at(info) as u32 + CHECKSUM_OFFSET <= u32::MAX
    &&& spcr_at(info) as u32 + CHECKSUM_OFFSET <= u32::MAX
    &&& xsdt_at(info) as u32 + HEADER_SIZE + 24 <= u32::MAX
}

/// How long the fixed tables are, and that the tables before the MADT have small offsets.
#[verifier::rlimit(40)]
pub proof fn lemma_table_lens(info: AcpiInfo)
    ensures
        forall|d: u64| (#[trigger] fadt_bytes(d)).len() == 276,
        gtdt_bytes().len() == 96,
        spcr_bytes(info.uart_base, info.uart_irq).len() == 80,
        forall|f: u64, m: u64, g: u64, s: u64| #[trigger] xsdt_bytes(f, m, g, s).len() == 68,
        forall|x: u64| (#[trigger] rsdp_bytes(x)).len() == 36,
        madt_bytes(info).len() >= 44,
        HEADER_SIZE <= dsdt_bytes(info.virtio@).len() <= scope_body(info.virtio@).len() + 41,
{
    reveal(table_bytes);
    reveal(dsdt_bytes);
    reveal(fadt_bytes);
    reveal(madt_bytes);
    reveal(gtdt_bytes);
    reveal(spcr_bytes);
    reveal(xsdt_bytes);
    reveal(rsdp_bytes);
}

/// The file names fit.
pub proof fn lemma_file_names()
    ensures
        encode_utf8(FILE_TABLES@).len() == 15,
        encode_utf8(FILE_RSDP@).len() == 13,
        encode_utf8(FILE_LOADER@).len() == 16,
        encode_utf8(FILE_TABLES@) != encode_utf8(FILE_RSDP@),
{
    reveal_strlit("etc/acpi/tables");
    reveal_strlit("etc/acpi/rsdp");
    reveal_strlit("etc/table-loader");
    is_ascii_chars_encode_utf8(FILE_TABLES@);
    is_ascii_chars_encode_utf8(FILE_RSDP@);
    is_ascii_chars_encode_utf8(FILE_LOADER@);
}

/// A script is its first commands and then the next one.
proof fn lemma_script_step(commands: Seq<Command>, n: int)
    requires
        0 <= n < commands.len(),
    ensures
        script_bytes(commands.take(n + 1)) == script_bytes(commands.take(n)) + entry_bytes(
            commands[n],
        ),
{
    assert(commands.take(n + 1).drop_last() =~= commands.take(n));
}

/// Append `t` to the blob; returns where it starts and how long it is.
fn push_table(tables: &mut Vec<u8>, t: Vec<u8>) -> (at_len: (u32, u32))
    ensures
        final(tables)@ == old(tables)@ + t@,
        at_len.0 == old(tables)@.len() as u32,
        at_len.1 == t@.len() as u32,
{
    let off: u32 = tables.len() as u32;
    let len: u32 = t.len() as u32;
    put_bytes(tables, t.as_slice());
    (off, len)
}

/// The loader script for tables that lie at these offsets and have these lengths.
#[verifier::rlimit(40)]
pub fn build_loader(
    dsdt: (u32, u32),
    fadt: (u32, u32),
    madt: (u32, u32),
    gtdt: (u32, u32),
    spcr: (u32, u32),
    xsdt: (u32, u32),
) -> (loader: Vec<u8>)
    requires
        dsdt.0 + CHECKSUM_OFFSET <= u32::MAX,
        fadt.0 + X_DSDT_OFFSET <= u32::MAX,
        madt.0 + CHECKSUM_OFFSET <= u32::MAX,
        gtdt.0 + CHECKSUM_OFFSET <= u32::MAX,
        spcr.0 + CHECKSUM_OFFSET <= u32::MAX,
        xsdt.0 + HEADER_SIZE + 24 <= u32::MAX,
    ensures
        loader@ == script_bytes(script_for(dsdt, fadt, madt, gtdt, spcr, xsdt)),
{
    proof {
        lemma_file_names();
    }
    let mut loader: Vec<u8> = Vec::new();
    loader_allocate(&mut loader, FILE_TABLES, 0x40, ZONE_HIGH);
    loader_add_checksum(&mut loader, FILE_TABLES, dsdt.0 + 9, dsdt.0, dsdt.1);
    loader_add_pointer(&mut loader, FILE_TABLES, FILE_TABLES, fadt.0 + 140);  // X_DSDT
    loader_add_checksum(&mut loader, FILE_TABLES, fadt.0 + 9, fadt.0, fadt.1);
    loader_add_checksum(&mut loader, FILE_TABLES, madt.0 + 9, madt.0, madt.1);
    loader_add_checksum(&mut loader, FILE_TABLES, gtdt.0 + 9, gtdt.0, gtdt.1);
    loader_add_checksum(&mut loader, FILE_TABLES, spcr.0 + 9, spcr.0, spcr.1);
    loader_add_pointer(&mut loader, FILE_TABLES, FILE_TABLES, xsdt.0 + 36);
    loader_add_pointer(&mut loader, FILE_TABLES, FILE_TABLES, xsdt.0 + 44);
    loader_add_pointer(&mut loader, FILE_TABLES, FILE_TABLES, xsdt.0 + 52);
    loader_add_pointer(&mut loader, FILE_TABLES, FILE_TABLES, xsdt.0 + 60);
    loader_add_checksum(&mut loader, FILE_TABLES, xsdt.0 + 9, xsdt.0, xsdt.1);
    loader_allocate(&mut loader, FILE_RSDP, 0x10, ZONE_FSEG);
    loader_add_pointer(&mut loader, FILE_RSDP, FILE_TABLES, 24);  // XsdtAddress
    loader_add_checksum(&mut loader, FILE_RSDP, 32, 0, 36);
    proof {
        let commands = script_for(dsdt, fadt, madt, gtdt, spcr, xsdt);
        lemma_script_step(commands, 0);
        lemma_script_step(commands, 1);
        lemma_script_step(commands, 2);
        lemma_script_step(commands, 3);
        lemma_script_step(commands, 4);
        lemma_script_step(commands, 5);
        lemma_script_step(commands, 6);
        lemma_script_step(commands, 7);
        lemma_script_step(commands, 8);
        lemma_script_step(commands, 9);
        lemma_script_step(commands, 10);
        lemma_script_step(commands, 11);
        lemma_script_step(commands, 12);
        lemma_script_step(commands, 13);
        lemma_script_step(commands, 14);
        assert(commands.take(15) =~= commands);
    }
    loader
}

/// The blobs that describe the machine.
#[verifier::rlimit(40)]
pub fn build_acpi(info: &AcpiInfo) -> (blobs: AcpiBlobs)
    requires
        is_describable(*info),
    ensures
        blobs.tables@ == tables_bytes(*info),
        blobs.rsdp@ == served_rsdp(*info),
        blobs.loader@ == script_bytes(script(*info)),
{
    proof {
        lemma_table_lens(*info);
    }
    // Concatenate the tables, remembering where each one lies.
    let mut tables: Vec<u8> = Vec::new();
    let dsdt = push_table(&mut tables, build_dsdt(info));
    assert(tables@ =~= dsdt_bytes(info.virtio@));
    let fadt = push_table(&mut tables, build_fadt(dsdt.0));
    let madt = push_table(&mut tables, build_madt(info));
    let gtdt = push_table(&mut tables, build_gtdt());
    let spcr = push_table(&mut tables, build_spcr(info));
    let xsdt = push_table(&mut tables, build_xsdt(fadt.0, madt.0, gtdt.0, spcr.0));
    let rsdp = build_rsdp(xsdt.0);
    let loader = build_loader(dsdt, fadt, madt, gtdt, spcr, xsdt);
    AcpiBlobs { rsdp, tables, loader }
}

} // verus!
