//! The tables themselves.
//!
//! Every table is a standard header followed by its fields, and declares its own length.
//! Checksums are left zero: the loader script has the firmware fill them in guest memory.

use crate::acpi::aml::{aml_scope, scope_body, scope_bytes, AML_CONTENT_LIMIT};
use crate::acpi::AcpiInfo;
use crate::bytes::{
    le16, le32, le64, put_bytes, put_u16, put_u32, put_u64, put_zeros, zeros,
};
use vstd::prelude::*;

verus! {

// GTDT interrupt IDs: the arch timer PPIs as absolute intids (PPI n => 16 + n).
pub const TIMER_IRQ_SECURE: u32 = 16 + 13;
pub const TIMER_IRQ_NONSECURE: u32 = 16 + 12;
pub const TIMER_IRQ_VIRT: u32 = 16 + 11;
pub const TIMER_IRQ_HYP: u32 = 16 + 14;

/// Length of the standard table header.
pub const HEADER_SIZE: usize = 36;

/// Offset of the checksum in the standard table header.
pub const CHECKSUM_OFFSET: u32 = 9;

/// Offset of X_DSDT in the FADT.
pub const X_DSDT_OFFSET: u32 = 140;

/// Offset of XsdtAddress in the RSDP.
pub const XSDT_ADDRESS_OFFSET: u32 = 24;

/// Offset of the extended checksum in the RSDP.
pub const RSDP_CHECKSUM_OFFSET: u32 = 32;

/// Length of the RSDP.
pub const RSDP_SIZE: u32 = 36;

/// `KRUNVM`.
pub open spec fn oem_id() -> Seq<u8> {
    seq!['K' as u8, 'R' as u8, 'U' as u8, 'N' as u8, 'V' as u8, 'M' as u8]
}

/// `KRUN`.
pub open spec fn creator_id() -> Seq<u8> {
    seq!['K' as u8, 'R' as u8, 'U' as u8, 'N' as u8]
}

/// The standard header of a table of `len` bytes: signature, length, revision, checksum, the OEM
/// and creator ids and their revisions.
pub open spec fn header_bytes(sig: Seq<u8>, revision: u8, len: u32) -> Seq<u8> {
    sig + le32(len) + seq![revision, 0u8] + oem_id() + oem_id() + seq![' ' as u8, ' ' as u8]
        + le32(1) + creator_id() + le32(1)
}

/// A table with the fields `body`, which declares its own length.
#[verifier::opaque]
pub open spec fn table_bytes(sig: Seq<u8>, revision: u8, body: Seq<u8>) -> Seq<u8> {
    header_bytes(sig, revision, (HEADER_SIZE + body.len()) as u32) + body
}

pub open spec fn dsdt_sig() -> Seq<u8> {
    seq!['D' as u8, 'S' as u8, 'D' as u8, 'T' as u8]
}

pub open spec fn fadt_sig() -> Seq<u8> {
    seq!['F' as u8, 'A' as u8, 'C' as u8, 'P' as u8]
}

pub open spec fn madt_sig() -> Seq<u8> {
    seq!['A' as u8, 'P' as u8, 'I' as u8, 'C' as u8]
}

pub open spec fn gtdt_sig() -> Seq<u8> {
    seq!['G' as u8, 'T' as u8, 'D' as u8, 'T' as u8]
}

pub open spec fn spcr_sig() -> Seq<u8> {
    seq!['S' as u8, 'P' as u8, 'C' as u8, 'R' as u8]
}

pub open spec fn xsdt_sig() -> Seq<u8> {
    seq!['X' as u8, 'S' as u8, 'D' as u8, 'T' as u8]
}

/// `RSD PTR `.
pub open spec fn rsdp_sig() -> Seq<u8> {
    seq![
        'R' as u8,
        'S' as u8,
        'D' as u8,
        ' ' as u8,
        'P' as u8,
        'T' as u8,
        'R' as u8,
        ' ' as u8,
    ]
}

/// The DSDT: a node per virtio-mmio device.
#[verifier::opaque]
pub open spec fn dsdt_bytes(virtio: Seq<(u64, u64, u32)>) -> Seq<u8> {
    table_bytes(dsdt_sig(), 2, scope_bytes(virtio))
}

/// The fields of the FADT, revision 6.1: hardware-reduced, PSCI-compliant, the DSDT at
/// `dsdt_offset`, and the hypervisor's identity.
pub open spec fn fadt_body(dsdt_offset: u64) -> Seq<u8> {
    zeros(76) + le32(0x10_0000) + zeros(13) + le16(1) + seq![1u8] + zeros(8) + le64(dsdt_offset)
        + zeros(120) + creator_id() + creator_id()
}

/// The FADT.
#[verifier::opaque]
pub open spec fn fadt_bytes(dsdt_offset: u64) -> Seq<u8> {
    table_bytes(fadt_sig(), 6, fadt_body(dsdt_offset))
}

/// The GICC structure of vCPU `index`: enabled, its CPU interface at `base`.
pub open spec fn gicc_bytes(index: u32, base: u64, mpidr: u64) -> Seq<u8> {
    seq![0x0bu8, 80u8] + le16(0) + le32(index) + le32(index) + le32(1) + zeros(16) + le64(base)
        + zeros(28) + le64(mpidr) + zeros(4)
}

/// The GICC structures of the first `n` vCPUs.
pub open spec fn giccs_bytes(mpidrs: Seq<u64>, base: u64, n: nat) -> Seq<u8>
    decreases n,
{
    if n == 0 {
        seq![]
    } else {
        giccs_bytes(mpidrs, base, (n - 1) as nat) + gicc_bytes(
            (n - 1) as u32,
            base,
            mpidrs[n - 1],
        )
    }
}

/// The GICD structure.
pub open spec fn gicd_bytes(base: u64, version: u8) -> Seq<u8> {
    seq![0x0cu8, 24u8] + zeros(6) + le64(base) + zeros(4) + seq![version] + zeros(3)
}

/// The GICR structure: the redistributor discovery range.
pub open spec fn gicr_bytes(base: u64, size: u32) -> Seq<u8> {
    seq![0x0eu8, 16u8] + zeros(2) + le64(base) + le32(size)
}

/// Where the GICCs say their CPU interface is. That of a GICv2 is driven through MMIO; any other
/// is driven through system registers, and then the field reads zero.
pub open spec fn gicc_base(info: AcpiInfo) -> u64 {
    if info.gic_version == 2 {
        info.gicc_base
    } else {
        0
    }
}

/// The GICR structures: none for a GICv2, which has no redistributors.
pub open spec fn gicrs_bytes(info: AcpiInfo) -> Seq<u8> {
    if info.gic_version == 2 {
        seq![]
    } else {
        gicr_bytes(info.gicr_base, info.gicr_size as u32)
    }
}

/// The interrupt controller structures of the MADT.
pub open spec fn madt_structures(info: AcpiInfo) -> Seq<u8> {
    giccs_bytes(info.mpidrs@, gicc_base(info), info.mpidrs@.len()) + gicd_bytes(
        info.gicd_base,
        info.gic_version as u8,
    ) + gicrs_bytes(info)
}

/// The MADT.
#[verifier::opaque]
pub open spec fn madt_bytes(info: AcpiInfo) -> Seq<u8> {
    table_bytes(madt_sig(), 5, zeros(8) + madt_structures(info))
}

/// A timer interrupt in the GTDT: level triggered, active high.
pub open spec fn timer_bytes(irq: u32) -> Seq<u8> {
    le32(irq) + le32(0)
}

/// The fields of the GTDT.
pub open spec fn gtdt_body() -> Seq<u8> {
    le64(u64::MAX) + le32(0) + timer_bytes(TIMER_IRQ_SECURE) + timer_bytes(TIMER_IRQ_NONSECURE)
        + timer_bytes(TIMER_IRQ_VIRT) + timer_bytes(TIMER_IRQ_HYP) + le64(u64::MAX) + le32(0)
        + le32(96)
}

/// The GTDT: the four arch timer interrupts, no memory-mapped timers.
#[verifier::opaque]
pub open spec fn gtdt_bytes() -> Seq<u8> {
    table_bytes(gtdt_sig(), 2, gtdt_body())
}

/// A Generic Address Structure.
pub open spec fn gas_bytes(space: u8, bit_width: u8, access_size: u8, addr: u64) -> Seq<u8> {
    seq![space, bit_width, 0u8, access_size] + le64(addr)
}

/// The fields of the SPCR.
pub open spec fn spcr_body(base: u64, irq: u32) -> Seq<u8> {
    seq![3u8, 0, 0, 0] + gas_bytes(0, 32, 3, base) + seq![8u8, 0] + le32(irq) + seq![
        3u8,
        0,
        1,
        0,
        0,
        0,
    ] + le16(0xffff) + le16(0xffff) + zeros(12)
}

/// The SPCR, revision 2: an ARM PL011 at `base` with interrupt `irq`, 9600 baud, no parity, one
/// stop bit, not a PCI device.
#[verifier::opaque]
pub open spec fn spcr_bytes(base: u64, irq: u32) -> Seq<u8> {
    table_bytes(spcr_sig(), 2, spcr_body(base, irq))
}

/// The addresses in an XSDT.
pub open spec fn xsdt_body(fadt: u64, madt: u64, gtdt: u64, spcr: u64) -> Seq<u8> {
    le64(fadt) + le64(madt) + le64(gtdt) + le64(spcr)
}

/// The XSDT, which lists every table but the DSDT.
#[verifier::opaque]
pub open spec fn xsdt_bytes(fadt: u64, madt: u64, gtdt: u64, spcr: u64) -> Seq<u8> {
    table_bytes(xsdt_sig(), 1, xsdt_body(fadt, madt, gtdt, spcr))
}

/// The sum of the bytes of `s`.
#[verifier::opaque]
pub open spec fn byte_sum(s: Seq<u8>) -> int
    decreases s.len(),
{
    if s.len() == 0 {
        0
    } else {
        byte_sum(s.drop_last()) + s.last()
    }
}

/// The byte that makes a sum that is `sum` without it a multiple of 256.
pub open spec fn balancing_byte(sum: int) -> u8 {
    ((256 - sum % 256) % 256) as u8
}

/// The first 20 bytes of the RSDP, with `checksum` as their checksum.
pub open spec fn rsdp_prefix(checksum: u8) -> Seq<u8> {
    rsdp_sig() + seq![checksum] + oem_id() + seq![2u8] + le32(0)
}

/// The RSDP, revision 2: the checksum over the first 20 bytes holds, the extended one is zero,
/// and the XSDT is at `xsdt`.
#[verifier::opaque]
pub open spec fn rsdp_bytes(xsdt: u64) -> Seq<u8> {
    rsdp_prefix(balancing_byte(byte_sum(rsdp_prefix(0)))) + le32(36) + le64(xsdt) + zeros(4)
}

/// Standard 36-byte table header. Length and checksum are patched later: the length once it is
/// known, the checksum by the loader script.
pub fn header(sig: &[u8; 4], revision: u8) -> (h: Vec<u8>)
    ensures
        h@ == header_bytes(sig@, revision, 0),
        h@.len() == HEADER_SIZE,
{
    let mut h: Vec<u8> = Vec::new();
    put_bytes(&mut h, sig.as_slice());
    put_u32(&mut h, 0);
    h.push(revision);
    h.push(0);
    put_bytes(
        &mut h,
        ['K' as u8, 'R' as u8, 'U' as u8, 'N' as u8, 'V' as u8, 'M' as u8].as_slice(),
    );
    put_bytes(
        &mut h,
        [
            'K' as u8,
            'R' as u8,
            'U' as u8,
            'N' as u8,
            'V' as u8,
            'M' as u8,
            ' ' as u8,
            ' ' as u8,
        ].as_slice(),
    );
    put_u32(&mut h, 1);
    put_bytes(&mut h, ['K' as u8, 'R' as u8, 'U' as u8, 'N' as u8].as_slice());
    put_u32(&mut h, 1);
    assert(h@ =~= header_bytes(sig@, revision, 0));
    h
}

/// Write the final length into a completed table.
pub fn finish_table(t: &mut Vec<u8>)
    requires
        old(t)@.len() >= 8,
    ensures
        final(t)@ == old(t)@.take(4) + le32(old(t)@.len() as u32) + old(t)@.skip(8),
{
    let len: u32 = t.len() as u32;
    t.set(4, (len % 0x100) as u8);
    t.set(5, (len / 0x100 % 0x100) as u8);
    t.set(6, (len / 0x1_0000 % 0x100) as u8);
    t.set(7, (len / 0x100_0000) as u8);
    assert(t@ =~= old(t)@.take(4) + le32(len) + old(t)@.skip(8));
}

/// A header, the fields `body` behind it and the length patched in make a table.
proof fn lemma_finished_table(sig: Seq<u8>, revision: u8, body: Seq<u8>)
    requires
        sig.len() == 4,
    ensures
        ({
            let t = header_bytes(sig, revision, 0) + body;
            t.take(4) + le32(t.len() as u32) + t.skip(8) == table_bytes(sig, revision, body)
        }),
{
    reveal(table_bytes);
    let t = header_bytes(sig, revision, 0) + body;
    assert(t.take(4) + le32(t.len() as u32) + t.skip(8) =~= table_bytes(sig, revision, body));
}

/// A 12-byte Generic Address Structure.
pub fn gas(space: u8, bit_width: u8, access_size: u8, addr: u64) -> (g: Vec<u8>)
    ensures
        g@ == gas_bytes(space, bit_width, access_size, addr),
{
    let mut g: Vec<u8> = Vec::new();
    put_bytes(&mut g, [space, bit_width, 0, access_size].as_slice());
    put_u64(&mut g, addr);
    assert(g@ =~= gas_bytes(space, bit_width, access_size, addr));
    g
}

/// The DSDT.
pub fn build_dsdt(info: &AcpiInfo) -> (t: Vec<u8>)
    requires
        scope_body(info.virtio@).len() < AML_CONTENT_LIMIT,
    ensures
        t@ == dsdt_bytes(info.virtio@),
{
    reveal(dsdt_bytes);
    let sig: [u8; 4] = ['D' as u8, 'S' as u8, 'D' as u8, 'T' as u8];
    let mut t = header(&sig, 2);
    put_bytes(&mut t, aml_scope(&info.virtio).as_slice());
    finish_table(&mut t);
    proof {
        assert(sig@ =~= dsdt_sig());
        lemma_finished_table(sig@, 2, scope_bytes(info.virtio@));
    }
    t
}

/// FADT revision 6.1: hardware-reduced, PSCI-compliant (via SMC). The X_DSDT field is pre-filled
/// with the DSDT's blob offset for the loader to relocate.
#[verifier::rlimit(40)]
pub fn build_fadt(dsdt_offset: u32) -> (t: Vec<u8>)
    ensures
        t@ == fadt_bytes(dsdt_offset as u64),
{
    reveal(fadt_bytes);
    let sig: [u8; 4] = ['F' as u8, 'A' as u8, 'C' as u8, 'P' as u8];
    let identity: [u8; 4] = ['K' as u8, 'R' as u8, 'U' as u8, 'N' as u8];
    let mut t = header(&sig, 6);
    let ghost head = t@;
    put_zeros(&mut t, 76);
    put_u32(&mut t, 0x10_0000);  // Flags: HW_REDUCED_ACPI
    put_zeros(&mut t, 13);
    put_u16(&mut t, 1);  // ArmBootArch: PSCI_COMPLIANT (SMC)
    t.push(1);  // FADT minor version -> 6.1
    put_zeros(&mut t, 8);
    put_u64(&mut t, dsdt_offset as u64);  // X_DSDT (patched)
    put_zeros(&mut t, 120);
    put_bytes(&mut t, identity.as_slice());  // Hypervisor identity
    put_bytes(&mut t, identity.as_slice());
    proof {
        assert(sig@ =~= fadt_sig());
        assert(identity@ =~= creator_id());
        assert(t@ =~= head + fadt_body(dsdt_offset as u64));
        lemma_finished_table(sig@, 6, fadt_body(dsdt_offset as u64));
    }
    finish_table(&mut t);
    t
}

/// Append the GICC structure of vCPU `index`.
fn put_gicc(t: &mut Vec<u8>, index: u32, base: u64, mpidr: u64)
    ensures
        final(t)@ == old(t)@ + gicc_bytes(index, base, mpidr),
{
    t.push(0x0b);
    t.push(80);
    put_u16(t, 0);  // reserved
    put_u32(t, index);  // CPU interface number
    put_u32(t, index);  // ACPI processor UID
    put_u32(t, 1);  // Flags: enabled
    put_zeros(t, 16);  // parking protocol version, performance interrupt, parked address
    put_u64(t, base);  // physical base
    put_zeros(t, 28);  // GICV, GICH, VGIC maintenance interrupt, GICR base
    put_u64(t, mpidr);
    put_zeros(t, 4);  // power efficiency class, reserved, SPE overflow interrupt
    assert(t@ =~= old(t)@ + gicc_bytes(index, base, mpidr));
}

/// The MADT: a GICC per vCPU, the GICD, and the GICR range unless the controller is a GICv2.
#[verifier::rlimit(40)]
pub fn build_madt(info: &AcpiInfo) -> (t: Vec<u8>)
    ensures
        t@ == madt_bytes(*info),
{
    reveal(madt_bytes);
    let v2 = info.gic_version == 2;
    let base: u64 = if v2 {
        info.gicc_base
    } else {
        0
    };
    let sig: [u8; 4] = ['A' as u8, 'P' as u8, 'I' as u8, 'C' as u8];
    let mut t = header(&sig, 5);
    let ghost head = t@;
    put_zeros(&mut t, 8);  // LocalApicAddress (n/a), Flags

    let mut i: usize = 0;
    while i < info.mpidrs.len()
        invariant
            i <= info.mpidrs.len(),
            t@ == head + zeros(8) + giccs_bytes(info.mpidrs@, base, i as nat),
        decreases info.mpidrs.len() - i,
    {
        put_gicc(&mut t, i as u32, base, info.mpidrs[i]);
        assert(t@ =~= head + zeros(8) + giccs_bytes(info.mpidrs@, base, (i + 1) as nat));
        i = i + 1;
    }

    // GICD.
    t.push(0x0c);
    t.push(24);
    put_zeros(&mut t, 6);  // reserved, GIC ID
    put_u64(&mut t, info.gicd_base);
    put_zeros(&mut t, 4);  // system vector base
    t.push(info.gic_version as u8);
    put_zeros(&mut t, 3);

    // GICR: a GICv2 has no redistributors, and the structure must be absent rather than zeroed.
    if !v2 {
        t.push(0x0e);
        t.push(16);
        put_zeros(&mut t, 2);
        put_u64(&mut t, info.gicr_base);
        put_u32(&mut t, info.gicr_size as u32);
    }
    proof {
        assert(sig@ =~= madt_sig());
        assert(t@ =~= head + (zeros(8) + madt_structures(*info)));
        lemma_finished_table(sig@, 5, zeros(8) + madt_structures(*info));
    }
    finish_table(&mut t);
    t
}

/// The GTDT.
pub fn build_gtdt() -> (t: Vec<u8>)
    ensures
        t@ == gtdt_bytes(),
{
    reveal(gtdt_bytes);
    let sig: [u8; 4] = ['G' as u8, 'T' as u8, 'D' as u8, 'T' as u8];
    let mut t = header(&sig, 2);
    let ghost head = t@;
    put_u64(&mut t, u64::MAX);  // CntControlBase: not present
    put_u32(&mut t, 0);  // reserved
    // Each interrupt with its flags: level triggered, active high.
    put_u32(&mut t, TIMER_IRQ_SECURE);
    put_u32(&mut t, 0);
    put_u32(&mut t, TIMER_IRQ_NONSECURE);
    put_u32(&mut t, 0);
    put_u32(&mut t, TIMER_IRQ_VIRT);
    put_u32(&mut t, 0);
    put_u32(&mut t, TIMER_IRQ_HYP);
    put_u32(&mut t, 0);
    put_u64(&mut t, u64::MAX);  // CntReadBase: not present
    put_u32(&mut t, 0);  // platform timer count
    put_u32(&mut t, 96);  // platform timer offset (end of table)
    proof {
        assert(sig@ =~= gtdt_sig());
        assert(t@ =~= head + gtdt_body());
        lemma_finished_table(sig@, 2, gtdt_body());
    }
    finish_table(&mut t);
    t
}

/// SPCR revision 2: an ARM PL011 (interface type 3) at the UART base. This is how ACPI-only
/// guests find their console.
#[verifier::rlimit(40)]
pub fn build_spcr(info: &AcpiInfo) -> (t: Vec<u8>)
    ensures
        t@ == spcr_bytes(info.uart_base, info.uart_irq),
{
    reveal(spcr_bytes);
    let sig: [u8; 4] = ['S' as u8, 'P' as u8, 'C' as u8, 'R' as u8];
    let mut t = header(&sig, 2);
    let ghost head = t@;
    put_bytes(&mut t, [3, 0, 0, 0].as_slice());  // interface type: ARM PL011
    put_bytes(&mut t, gas(0, 32, 3, info.uart_base).as_slice());  // SystemMemory, dword access
    t.push(8);  // interrupt type: ARMH GIC
    t.push(0);  // legacy IRQ (n/a)
    put_u32(&mut t, info.uart_irq);  // GSIV
    t.push(3);  // baud: 9600 (emulated; ignored in practice)
    t.push(0);  // parity: none
    t.push(1);  // stop bits: 1
    t.push(0);  // flow control
    t.push(0);  // terminal type
    t.push(0);  // language
    put_u16(&mut t, 0xffff);  // PCI device id: not PCI
    put_u16(&mut t, 0xffff);  // PCI vendor id
    put_zeros(&mut t, 12);  // PCI bus/device/function, flags and segment, reserved
    proof {
        assert(sig@ =~= spcr_sig());
        assert(t@ =~= head + spcr_body(info.uart_base, info.uart_irq));
        lemma_finished_table(sig@, 2, spcr_body(info.uart_base, info.uart_irq));
    }
    finish_table(&mut t);
    t
}

/// The XSDT, pointing (before relocation: at blob offsets) at everything but the DSDT.
pub fn build_xsdt(fadt: u32, madt: u32, gtdt: u32, spcr: u32) -> (t: Vec<u8>)
    ensures
        t@ == xsdt_bytes(fadt as u64, madt as u64, gtdt as u64, spcr as u64),
{
    reveal(xsdt_bytes);
    let sig: [u8; 4] = ['X' as u8, 'S' as u8, 'D' as u8, 'T' as u8];
    let mut t = header(&sig, 1);
    let ghost head = t@;
    put_u64(&mut t, fadt as u64);
    put_u64(&mut t, madt as u64);
    put_u64(&mut t, gtdt as u64);
    put_u64(&mut t, spcr as u64);
    proof {
        let body = xsdt_body(fadt as u64, madt as u64, gtdt as u64, spcr as u64);
        assert(sig@ =~= xsdt_sig());
        assert(t@ =~= head + body);
        lemma_finished_table(sig@, 1, body);
    }
    finish_table(&mut t);
    t
}

/// The sum of the bytes of `s`, modulo 256.
pub fn sum_bytes(s: &[u8]) -> (sum: u8)
    ensures
        sum == byte_sum(s@) % 256,
{
    reveal(byte_sum);
    let mut sum: u8 = 0;
    let mut i: usize = 0;
    while i < s.len()
        invariant
            i <= s.len(),
            sum == byte_sum(s@.take(i as int)) % 256,
        decreases s.len() - i,
    {
        reveal(byte_sum);
        sum = sum.wrapping_add(s[i]);
        assert(s@.take(i + 1).drop_last() =~= s@.take(i as int));
        i = i + 1;
    }
    assert(s@.take(i as int) =~= s@);
    sum
}

/// RSDP v2. The first-20-byte checksum is static (nothing is patched there); the extended
/// checksum is patched by the loader after XsdtAddress is.
#[verifier::rlimit(40)]
pub fn build_rsdp(xsdt_offset: u32) -> (rsdp: Vec<u8>)
    ensures
        rsdp@ == rsdp_bytes(xsdt_offset as u64),
{
    reveal(rsdp_bytes);
    let mut rsdp: Vec<u8> = Vec::new();
    put_bytes(
        &mut rsdp,
        [
            'R' as u8,
            'S' as u8,
            'D' as u8,
            ' ' as u8,
            'P' as u8,
            'T' as u8,
            'R' as u8,
            ' ' as u8,
        ].as_slice(),
    );
    rsdp.push(0);  // checksum over 0..20, fixed below
    put_bytes(
        &mut rsdp,
        ['K' as u8, 'R' as u8, 'U' as u8, 'N' as u8, 'V' as u8, 'M' as u8].as_slice(),
    );
    rsdp.push(2);  // revision
    put_u32(&mut rsdp, 0);  // RsdtAddress: none
    assert(rsdp@ =~= rsdp_prefix(0));
    let sum: u8 = sum_bytes(rsdp.as_slice());
    rsdp.set(8, 0u8.wrapping_sub(sum));
    assert(rsdp@ =~= rsdp_prefix(balancing_byte(byte_sum(rsdp_prefix(0)))));
    put_u32(&mut rsdp, 36);  // length
    put_u64(&mut rsdp, xsdt_offset as u64);  // XsdtAddress (patched)
    put_zeros(&mut rsdp, 4);  // extended checksum (patched), reserved
    rsdp
}

} // verus!
