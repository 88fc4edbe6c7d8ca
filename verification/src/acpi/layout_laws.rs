//! Where the fields of every table and of every AML object lie, and what they say of the machine.

use crate::acpi::aml::{
    buffer_bytes, crs_bytes, device_body, device_bytes, device_name, hex, hex_digit, int_bytes,
    lemma_device_len, name_op, package, pkg_length, scope_body, scope_bytes, string_bytes,
    AML_CONTENT_LIMIT,
};
use crate::acpi::laws::{
    law_dsdt_advertises_every_virtio_device, law_madt_structures, law_package_length_decodes,
    law_tables_tile_the_blob, nodes, nodes_at, pkg_total, pkg_width, split_structures,
    split_tables, structure_list, table_list,
};
use crate::acpi::tables::{
    byte_sum, dsdt_bytes, dsdt_sig, fadt_body, fadt_bytes, fadt_sig, gicc_base, gicc_bytes,
    gicd_bytes, gicr_bytes, gas_bytes, gtdt_body, gtdt_bytes, gtdt_sig, header_bytes, madt_bytes,
    madt_sig, madt_structures, rsdp_bytes, spcr_body, spcr_bytes, spcr_sig, table_bytes, xsdt_body,
    xsdt_bytes, xsdt_sig,
};
use crate::acpi::loader::Command;
use crate::acpi::{
    fadt_at, gtdt_at, lemma_table_lens, madt_at, script, served_rsdp, spcr_at, tables_bytes,
    xsdt_at, AcpiInfo,
};
use crate::bytes::{
    from_le32, from_le64, le32, le64, lemma_le32_round_trip, lemma_le64_round_trip, zeros,
};
use vstd::prelude::*;
use vstd::utf8::encode_utf8;

verus! {

/// The 32-bit number at `at`.
pub open spec fn u32_at(s: Seq<u8>, at: int) -> int {
    from_le32(s.subrange(at, at + 4))
}

/// The 64-bit number at `at`.
pub open spec fn u64_at(s: Seq<u8>, at: int) -> int {
    from_le64(s.subrange(at, at + 8))
}

/// Whether all bytes from `from` up to `to` are zero.
pub open spec fn zero_between(s: Seq<u8>, from: int, to: int) -> bool {
    forall|i: int| from <= i < to ==> #[trigger] s[i] == 0
}

/// Whether `s` has the bytes of `t` at `at`.
pub open spec fn has_at(s: Seq<u8>, at: int, t: Seq<u8>) -> bool {
    forall|i: int| 0 <= i < t.len() ==> #[trigger] s[at + i] == t[i]
}

/// Numbers in the middle of other bytes.
proof fn lemma_numbers(s: Seq<u8>, at: int, x: u32, y: u64)
    requires
        0 <= at,
    ensures
        at + 4 <= s.len() && s.subrange(at, at + 4) == le32(x) ==> u32_at(s, at) == x,
        at + 8 <= s.len() && s.subrange(at, at + 8) == le64(y) ==> u64_at(s, at) == y,
{
    lemma_le32_round_trip(x);
    lemma_le64_round_trip(y);
}

/// Whether `t` has a standard header: signature, its own length, revision, no checksum yet, and
/// whose it is.
pub open spec fn has_header(t: Seq<u8>, sig: Seq<u8>, revision: u8) -> bool {
    &&& 36 <= t.len()
    &&& t.subrange(0, 4) == sig
    &&& u32_at(t, 4) == t.len()
    &&& t[8] == revision
    &&& t[9] == 0
    &&& t.subrange(10, 16) == seq![0x4bu8, 0x52, 0x55, 0x4e, 0x56, 0x4d]
    &&& t.subrange(16, 24) == seq![0x4bu8, 0x52, 0x55, 0x4e, 0x56, 0x4d, 0x20, 0x20]
    &&& u32_at(t, 24) == 1
    &&& t.subrange(28, 32) == seq![0x4bu8, 0x52, 0x55, 0x4e]
    &&& u32_at(t, 32) == 1
}

/// Every table has a standard header and then its fields.
#[verifier::rlimit(60)]
pub proof fn law_table_layout(sig: Seq<u8>, revision: u8, body: Seq<u8>)
    requires
        sig.len() == 4,
        36 + body.len() <= u32::MAX,
    ensures
        has_header(table_bytes(sig, revision, body), sig, revision),
        table_bytes(sig, revision, body).len() == 36 + body.len(),
        table_bytes(sig, revision, body).skip(36) == body,
{
    reveal(table_bytes);
    let t = table_bytes(sig, revision, body);
    let len = t.len() as u32;
    assert(t.subrange(0, 4) =~= sig);
    assert(t.subrange(4, 8) =~= le32(len));
    assert(t.subrange(10, 16) =~= seq![0x4bu8, 0x52, 0x55, 0x4e, 0x56, 0x4d]);
    assert(t.subrange(16, 24) =~= seq![0x4bu8, 0x52, 0x55, 0x4e, 0x56, 0x4d, 0x20, 0x20]);
    assert(t.subrange(24, 28) =~= le32(1));
    assert(t.subrange(28, 32) =~= seq![0x4bu8, 0x52, 0x55, 0x4e]);
    assert(t.subrange(32, 36) =~= le32(1));
    assert(t.skip(36) =~= body);
    lemma_le32_round_trip(len);
    lemma_le32_round_trip(1);
}

/// A header before the fields is a header without them, but for the length, which is not there yet.
pub proof fn law_header_without_length(sig: Seq<u8>, revision: u8)
    requires
        sig.len() == 4,
    ensures
        header_bytes(sig, revision, 0).len() == 36,
        u32_at(header_bytes(sig, revision, 0), 4) == 0,
        header_bytes(sig, revision, 0).subrange(0, 4) == sig,
        header_bytes(sig, revision, 0).skip(8) == table_bytes(sig, revision, seq![]).skip(8),
{
    reveal(table_bytes);
    let h = header_bytes(sig, revision, 0);
    assert(h.subrange(4, 8) =~= le32(0));
    assert(h.subrange(0, 4) =~= sig);
    assert(h.skip(8) =~= table_bytes(sig, revision, seq![]).skip(8));
    lemma_le32_round_trip(0);
}

/// The field at `at` of a table is that at `at - 36` of its fields.
proof fn lemma_field(t: Seq<u8>, at: int)
    requires
        36 <= at < t.len(),
    ensures
        t[at] == t.skip(36)[at - 36],
{
}

/// Numbers among the fields of a table.
proof fn lemma_fields(t: Seq<u8>, at: int)
    requires
        36 <= at,
    ensures
        at + 4 <= t.len() ==> u32_at(t, at) == u32_at(t.skip(36), at - 36),
        at + 8 <= t.len() ==> u64_at(t, at) == u64_at(t.skip(36), at - 36),
{
    if at + 4 <= t.len() {
        assert(t.subrange(at, at + 4) =~= t.skip(36).subrange(at - 36, at - 32));
    }
    if at + 8 <= t.len() {
        assert(t.subrange(at, at + 8) =~= t.skip(36).subrange(at - 36, at - 28));
    }
}

/// The FADT: hardware-reduced, PSCI-compliant, minor revision 1, the DSDT at 140, the hypervisor's
/// identity at the end, and zero in every other field.
#[verifier::rlimit(60)]
pub proof fn law_fadt_layout(dsdt: u64)
    ensures
        ({
            let t = fadt_bytes(dsdt);
            &&& t.len() == 276
            &&& has_header(t, seq![0x46u8, 0x41, 0x43, 0x50], 6)
            &&& zero_between(t, 36, 112)
            &&& u32_at(t, 112) == 0x10_0000
            &&& zero_between(t, 116, 129)
            &&& t[129] == 1
            &&& t[130] == 0
            &&& t[131] == 1
            &&& zero_between(t, 132, 140)
            &&& u64_at(t, 140) == dsdt
            &&& zero_between(t, 148, 268)
            &&& has_at(t, 268, seq![0x4bu8, 0x52, 0x55, 0x4e, 0x4b, 0x52, 0x55, 0x4e])
        }),
{
    reveal(fadt_bytes);
    let t = fadt_bytes(dsdt);
    let body = fadt_body(dsdt);
    assert(fadt_sig() =~= seq![0x46u8, 0x41, 0x43, 0x50]);
    law_table_layout(fadt_sig(), 6, body);
    assert(body.subrange(76, 80) =~= le32(0x10_0000));
    assert(body.subrange(104, 112) =~= le64(dsdt));
    lemma_numbers(body, 76, 0x10_0000, 0);
    lemma_numbers(body, 104, 0, dsdt);
    lemma_fields(t, 112);
    lemma_fields(t, 140);
    assert forall|i: int| 36 <= i < 276 implies #[trigger] t[i] == body[i - 36] by {
        lemma_field(t, i);
    }
}

/// The GTDT: the timer interrupts 29, 28, 27 and 30, each level triggered, and no memory-mapped
/// timers.
#[verifier::rlimit(60)]
pub proof fn law_gtdt_layout()
    ensures
        ({
            let t = gtdt_bytes();
            &&& t.len() == 96
            &&& has_header(t, seq![0x47u8, 0x54, 0x44, 0x54], 2)
            &&& u64_at(t, 36) == u64::MAX
            &&& u32_at(t, 44) == 0
            &&& u32_at(t, 48) == 29
            &&& u32_at(t, 52) == 0
            &&& u32_at(t, 56) == 28
            &&& u32_at(t, 60) == 0
            &&& u32_at(t, 64) == 27
            &&& u32_at(t, 68) == 0
            &&& u32_at(t, 72) == 30
            &&& u32_at(t, 76) == 0
            &&& u64_at(t, 80) == u64::MAX
            &&& u32_at(t, 88) == 0
            &&& u32_at(t, 92) == 96
        }),
{
    reveal(gtdt_bytes);
    let t = gtdt_bytes();
    let body = gtdt_body();
    assert(gtdt_sig() =~= seq![0x47u8, 0x54, 0x44, 0x54]);
    law_table_layout(gtdt_sig(), 2, body);
    lemma_fields(t, 36);
    lemma_fields(t, 44);
    lemma_fields(t, 48);
    lemma_fields(t, 52);
    lemma_fields(t, 56);
    lemma_fields(t, 60);
    lemma_fields(t, 64);
    lemma_fields(t, 68);
    lemma_fields(t, 72);
    lemma_fields(t, 76);
    lemma_fields(t, 80);
    lemma_fields(t, 88);
    lemma_fields(t, 92);
    assert(body.subrange(0, 8) =~= le64(u64::MAX));
    assert(body.subrange(8, 12) =~= le32(0));
    assert(body.subrange(12, 16) =~= le32(29));
    assert(body.subrange(16, 20) =~= le32(0));
    assert(body.subrange(20, 24) =~= le32(28));
    assert(body.subrange(24, 28) =~= le32(0));
    assert(body.subrange(28, 32) =~= le32(27));
    assert(body.subrange(32, 36) =~= le32(0));
    assert(body.subrange(36, 40) =~= le32(30));
    assert(body.subrange(40, 44) =~= le32(0));
    assert(body.subrange(44, 52) =~= le64(u64::MAX));
    assert(body.subrange(52, 56) =~= le32(0));
    assert(body.subrange(56, 60) =~= le32(96));
    lemma_le64_round_trip(u64::MAX);
    lemma_le32_round_trip(0);
    lemma_le32_round_trip(29);
    lemma_le32_round_trip(28);
    lemma_le32_round_trip(27);
    lemma_le32_round_trip(30);
    lemma_le32_round_trip(96);
}

/// The SPCR: a PL011 in memory, accessed in double words, at `base`, with the GIC interrupt `irq`,
/// 9600 baud, no parity, one stop bit, not on PCI; zero in every other field.
#[verifier::rlimit(60)]
pub proof fn law_spcr_layout(base: u64, irq: u32)
    ensures
        ({
            let t = spcr_bytes(base, irq);
            &&& t.len() == 80
            &&& has_header(t, seq![0x53u8, 0x50, 0x43, 0x52], 2)
            &&& has_at(t, 36, seq![3u8, 0, 0, 0])
            &&& has_at(t, 40, seq![0u8, 32, 0, 3])
            &&& u64_at(t, 44) == base
            &&& has_at(t, 52, seq![8u8, 0])
            &&& u32_at(t, 54) == irq
            &&& has_at(t, 58, seq![3u8, 0, 1, 0, 0, 0])
            &&& has_at(t, 64, seq![0xffu8, 0xff, 0xff, 0xff])
            &&& zero_between(t, 68, 80)
        }),
{
    reveal(spcr_bytes);
    let t = spcr_bytes(base, irq);
    let body = spcr_body(base, irq);
    assert(spcr_sig() =~= seq![0x53u8, 0x50, 0x43, 0x52]);
    law_table_layout(spcr_sig(), 2, body);
    lemma_fields(t, 44);
    lemma_fields(t, 54);
    assert(body.subrange(8, 16) =~= le64(base));
    assert(body.subrange(18, 22) =~= le32(irq));
    lemma_le64_round_trip(base);
    lemma_le32_round_trip(irq);
    assert forall|i: int| 36 <= i < 80 implies #[trigger] t[i] == body[i - 36] by {
        lemma_field(t, i);
    }
}

/// The XSDT: the four addresses, one behind the other.
#[verifier::rlimit(60)]
pub proof fn law_xsdt_layout(fadt: u64, madt: u64, gtdt: u64, spcr: u64)
    ensures
        ({
            let t = xsdt_bytes(fadt, madt, gtdt, spcr);
            &&& t.len() == 68
            &&& has_header(t, seq![0x58u8, 0x53, 0x44, 0x54], 1)
            &&& u64_at(t, 36) == fadt
            &&& u64_at(t, 44) == madt
            &&& u64_at(t, 52) == gtdt
            &&& u64_at(t, 60) == spcr
        }),
{
    reveal(xsdt_bytes);
    let t = xsdt_bytes(fadt, madt, gtdt, spcr);
    let body = xsdt_body(fadt, madt, gtdt, spcr);
    assert(xsdt_sig() =~= seq![0x58u8, 0x53, 0x44, 0x54]);
    law_table_layout(xsdt_sig(), 1, body);
    lemma_fields(t, 36);
    lemma_fields(t, 44);
    lemma_fields(t, 52);
    lemma_fields(t, 60);
    assert(body.subrange(0, 8) =~= le64(fadt));
    assert(body.subrange(8, 16) =~= le64(madt));
    assert(body.subrange(16, 24) =~= le64(gtdt));
    assert(body.subrange(24, 32) =~= le64(spcr));
    lemma_le64_round_trip(fadt);
    lemma_le64_round_trip(madt);
    lemma_le64_round_trip(gtdt);
    lemma_le64_round_trip(spcr);
}

/// The RSDP: revision 2, no RSDT, its own length, the XSDT's address, and no extended checksum yet.
#[verifier::rlimit(60)]
pub proof fn law_rsdp_layout(xsdt: u64)
    ensures
        ({
            let t = rsdp_bytes(xsdt);
            &&& t.len() == 36
            &&& has_at(t, 0, seq![0x52u8, 0x53, 0x44, 0x20, 0x50, 0x54, 0x52, 0x20])
            &&& has_at(t, 9, seq![0x4bu8, 0x52, 0x55, 0x4e, 0x56, 0x4d])
            &&& t[15] == 2
            &&& u32_at(t, 16) == 0
            &&& u32_at(t, 20) == 36
            &&& u64_at(t, 24) == xsdt
            &&& zero_between(t, 32, 36)
        }),
{
    reveal(rsdp_bytes);
    let t = rsdp_bytes(xsdt);
    assert(t.subrange(16, 20) =~= le32(0));
    assert(t.subrange(20, 24) =~= le32(36));
    assert(t.subrange(24, 32) =~= le64(xsdt));
    lemma_le32_round_trip(0);
    lemma_le32_round_trip(36);
    lemma_le64_round_trip(xsdt);
}

/// A GICC: 80 bytes, the vCPU's number as CPU interface number and as processor UID, enabled, the
/// CPU interface's address, the MPIDR, and zero in every other field.
#[verifier::rlimit(60)]
pub proof fn law_gicc_layout(index: u32, base: u64, mpidr: u64)
    ensures
        ({
            let t = gicc_bytes(index, base, mpidr);
            &&& t.len() == 80
            &&& t[0] == 0x0b
            &&& t[1] == 80
            &&& zero_between(t, 2, 4)
            &&& u32_at(t, 4) == index
            &&& u32_at(t, 8) == index
            &&& u32_at(t, 12) == 1
            &&& zero_between(t, 16, 32)
            &&& u64_at(t, 32) == base
            &&& zero_between(t, 40, 68)
            &&& u64_at(t, 68) == mpidr
            &&& zero_between(t, 76, 80)
        }),
{
    let t = gicc_bytes(index, base, mpidr);
    assert(t.subrange(4, 8) =~= le32(index));
    assert(t.subrange(8, 12) =~= le32(index));
    assert(t.subrange(12, 16) =~= le32(1));
    assert(t.subrange(32, 40) =~= le64(base));
    assert(t.subrange(68, 76) =~= le64(mpidr));
    lemma_le32_round_trip(index);
    lemma_le32_round_trip(1);
    lemma_le64_round_trip(base);
    lemma_le64_round_trip(mpidr);
}

/// The GICD: 24 bytes, the distributor's address, the version, and zero in every other field.
pub proof fn law_gicd_layout(base: u64, version: u8)
    ensures
        ({
            let t = gicd_bytes(base, version);
            &&& t.len() == 24
            &&& t[0] == 0x0c
            &&& t[1] == 24
            &&& zero_between(t, 2, 8)
            &&& u64_at(t, 8) == base
            &&& zero_between(t, 16, 20)
            &&& t[20] == version
            &&& zero_between(t, 21, 24)
        }),
{
    let t = gicd_bytes(base, version);
    assert(t.subrange(8, 16) =~= le64(base));
    lemma_le64_round_trip(base);
}

/// The GICR: 16 bytes, the discovery range's address and length.
pub proof fn law_gicr_layout(base: u64, size: u32)
    ensures
        ({
            let t = gicr_bytes(base, size);
            &&& t.len() == 16
            &&& t[0] == 0x0e
            &&& t[1] == 16
            &&& zero_between(t, 2, 4)
            &&& u64_at(t, 4) == base
            &&& u32_at(t, 12) == size
        }),
{
    let t = gicr_bytes(base, size);
    assert(t.subrange(4, 12) =~= le64(base));
    assert(t.subrange(12, 16) =~= le32(size));
    lemma_le64_round_trip(base);
    lemma_le32_round_trip(size);
}

/// A Generic Address Structure: address space, width, no offset, access size, address.
pub proof fn law_address_structure_layout(space: u8, bit_width: u8, access_size: u8, addr: u64)
    ensures
        ({
            let t = gas_bytes(space, bit_width, access_size, addr);
            &&& t.len() == 12
            &&& t[0] == space
            &&& t[1] == bit_width
            &&& t[2] == 0
            &&& t[3] == access_size
            &&& u64_at(t, 4) == addr
        }),
{
    let t = gas_bytes(space, bit_width, access_size, addr);
    assert(t.subrange(4, 12) =~= le64(addr));
    lemma_le64_round_trip(addr);
}

/// What the MADT says of a vCPU: its GICC has its number as CPU interface number and as UID, is
/// enabled, and has its MPIDR and, for a GICv2 alone, the CPU interface.
#[verifier::rlimit(60)]
pub proof fn law_madt_describes_every_vcpu(info: AcpiInfo, k: int)
    requires
        0 <= k < info.mpidrs@.len() <= u32::MAX,
    ensures
        ({
            let list = split_structures(madt_bytes(info).skip(44));
            &&& list[k].len() == 80
            &&& list[k][0] == 0x0b
            &&& u32_at(list[k], 4) == k
            &&& u32_at(list[k], 8) == k
            &&& u32_at(list[k], 12) == 1
            &&& u64_at(list[k], 32) == if info.gic_version == 2 {
                info.gicc_base as int
            } else {
                0
            }
            &&& u64_at(list[k], 68) == info.mpidrs@[k]
        }),
{
    law_madt_structures(info);
    law_gicc_layout(k as u32, gicc_base(info), info.mpidrs@[k]);
    assert(structure_list(info)[k] == gicc_bytes(k as u32, gicc_base(info), info.mpidrs@[k]));
}

/// What the MADT says of the interrupt controller, however many vCPUs there are: the GICD behind
/// the GICCs has the distributor's address and the version, and behind that, but for a GICv2, the
/// GICR has the redistributors' range in 32 bits.
#[verifier::rlimit(60)]
pub proof fn law_madt_describes_the_controller(info: AcpiInfo)
    ensures
        ({
            let n = info.mpidrs@.len() as int;
            let list = split_structures(madt_bytes(info).skip(44));
            &&& list.len() == if info.gic_version == 2 { n + 1 } else { n + 2 }
            &&& list[n].len() == 24
            &&& list[n][0] == 0x0c
            &&& u64_at(list[n], 8) == info.gicd_base
            &&& list[n][20] == info.gic_version % 256
            &&& info.gic_version != 2 ==> {
                &&& list[n + 1].len() == 16
                &&& list[n + 1][0] == 0x0e
                &&& u64_at(list[n + 1], 4) == info.gicr_base
                &&& u32_at(list[n + 1], 12) == info.gicr_size % 0x1_0000_0000
            }
        }),
{
    let n = info.mpidrs@.len() as int;
    let size = info.gicr_size;
    let version = info.gic_version;
    assert(size as u32 == size % 0x1_0000_0000) by (bit_vector);
    assert(version as u8 == version % 256) by (bit_vector);
    law_madt_structures(info);
    law_gicd_layout(info.gicd_base, version as u8);
    law_gicr_layout(info.gicr_base, size as u32);
    assert(structure_list(info)[n] == gicd_bytes(info.gicd_base, version as u8));
}

/// The MADT has its header, no local interrupt controller address and no flags.
pub proof fn law_madt_header(info: AcpiInfo)
    requires
        madt_bytes(info).len() <= u32::MAX,
    ensures
        has_header(madt_bytes(info), seq![0x41u8, 0x50, 0x49, 0x43], 5),
        zero_between(madt_bytes(info), 36, 44),
{
    let t = madt_bytes(info);
    let body = zeros(8) + madt_structures(info);
    assert(madt_sig() =~= seq![0x41u8, 0x50, 0x49, 0x43]);
    assert(t == table_bytes(madt_sig(), 5, body)) by {
        reveal(madt_bytes);
    }
    assert(t.len() == 36 + body.len()) by {
        reveal(table_bytes);
    }
    law_table_layout(madt_sig(), 5, body);
    assert forall|i: int| 36 <= i < 44 implies #[trigger] t[i] == 0 by {
        lemma_field(t, i);
    }
}

/// An AML integer: 0 and 1 by their opcodes, up to 0xff in one byte behind 0x0a, up to 0xffff in
/// two behind 0x0b, and else its low 32 bits in four behind 0x0c, the lowest byte first.
pub proof fn law_aml_integer(n: u64)
    ensures
        ({
            let s = int_bytes(n);
            &&& n <= 1 ==> s.len() == 1 && s[0] == n
            &&& 2 <= n <= 0xff ==> s.len() == 2 && s[0] == 0x0a && s[1] == n
            &&& 0x100 <= n <= 0xffff ==> s.len() == 3 && s[0] == 0x0b && s[1] + 0x100 * s[2] == n
            &&& 0x1_0000 <= n ==> s.len() == 5 && s[0] == 0x0c
            &&& 0x1_0000 <= n ==> u32_at(s, 1) == n % 0x1_0000_0000
        }),
{
    if n > 0xffff {
        assert(int_bytes(n).subrange(1, 5) =~= le32(n as u32));
        lemma_le32_round_trip(n as u32);
        assert(n as u32 == n % 0x1_0000_0000) by (bit_vector);
    }
}

/// An AML string is its bytes between 0x0d and a zero; a name is 0x08, four bytes and a value.
pub proof fn law_aml_string_and_name(s: Seq<u8>, seg: Seq<u8>, value: Seq<u8>, i: int)
    requires
        seg.len() == 4,
    ensures
        string_bytes(s).len() == s.len() + 2,
        string_bytes(s)[0] == 0x0d,
        0 <= i < s.len() ==> string_bytes(s)[i + 1] == s[i],
        string_bytes(s).last() == 0,
        name_op(seg, value).len() == 5 + value.len(),
        name_op(seg, value)[0] == 0x08,
        0 <= i < 4 ==> name_op(seg, value)[i + 1] == seg[i],
        0 <= i < value.len() ==> name_op(seg, value)[i + 5] == value[i],
{
}

/// The value of a hexadecimal digit.
pub open spec fn digit_value(b: u8) -> int {
    if 0x30 <= b <= 0x39 {
        b - 0x30
    } else if 0x41 <= b <= 0x46 {
        b - 0x41 + 10
    } else {
        -1
    }
}

/// The value of a hexadecimal number.
pub open spec fn hex_value(s: Seq<u8>) -> int
    decreases s.len(),
{
    if s.len() == 0 {
        0
    } else {
        16 * hex_value(s.drop_last()) + digit_value(s.last())
    }
}

/// Hexadecimal numbers have upper-case digits, no leading zeros, and the value they stand for.
pub proof fn law_hex(n: nat, i: int)
    ensures
        hex_value(hex(n)) == n,
        hex(n).len() > 0,
        0 <= i < hex(n).len() ==> 0 <= digit_value(hex(n)[i]) < 16,
        hex(n).len() > 1 <==> n >= 16,
        hex(n).len() > 1 ==> hex(n)[0] != 0x30,
    decreases n,
{
    assert(digit_value(hex_digit(n % 16)) == n % 16);
    if n < 16 {
        assert(hex(n).drop_last() =~= Seq::empty());
        assert(hex_value(hex(n).drop_last()) == 0);
        assert(hex(n).last() == hex_digit(n));
    } else {
        law_hex(n / 16, i);
        law_hex(n / 16, 0);
        assert(hex(n).drop_last() =~= hex(n / 16));
        assert(hex(n)[0] == hex(n / 16)[0]);
        if n / 16 < 16 {
            assert(hex(n / 16)[0] == hex_digit(n / 16));
            assert(hex_digit(n / 16) != 0x30);
        }
    }
}

/// A zero in front changes no value.
proof fn lemma_leading_zero(s: Seq<u8>)
    ensures
        hex_value(seq![0x30u8] + s) == hex_value(s),
    decreases s.len(),
{
    let z = seq![0x30u8] + s;
    if s.len() == 0 {
        assert(z.drop_last() =~= s);
        assert(z.last() == 0x30);
    } else {
        assert(z.drop_last() =~= seq![0x30u8] + s.drop_last());
        assert(z.last() == s.last());
        lemma_leading_zero(s.drop_last());
    }
}

/// A device is called `VR` and its index in hexadecimal, of at least two digits.
pub proof fn law_device_name(index: nat, i: int)
    ensures
        ({
            let name = device_name(index);
            &&& name[0] == 0x56
            &&& name[1] == 0x52
            &&& name.len() >= 4
            &&& name.len() > 4 ==> name[2] != 0x30
            &&& hex_value(name.skip(2)) == index
            &&& 2 <= i < name.len() ==> 0 <= digit_value(name[i]) < 16
        }),
{
    let name = device_name(index);
    law_hex(index, 0);
    if index < 16 {
        assert(name.skip(2) =~= seq![0x30u8] + hex(index));
        lemma_leading_zero(hex(index));
        law_hex(index, i - 3);
    } else {
        assert(name.skip(2) =~= hex(index));
        law_hex(index, i - 2);
        assert(hex(index).drop_last() =~= hex(index / 16));
        law_hex(index / 16, 0);
    }
}

/// No two devices have the same name.
pub proof fn law_device_names_differ(a: nat, b: nat)
    requires
        a != b,
    ensures
        device_name(a) != device_name(b),
{
    law_device_name(a, 0);
    law_device_name(b, 0);
}

/// The resources of a device: its memory range, writable, in 32 bits each, and its interrupt,
/// level-high.
#[verifier::rlimit(60)]
pub proof fn law_resources_layout(base: u64, size: u64, gsiv: u32)
    ensures
        ({
            let t = crs_bytes(base, size, gsiv);
            &&& t.len() == 23
            &&& has_at(t, 0, seq![0x86u8, 0x09, 0x00, 0x01])
            &&& u32_at(t, 4) == base % 0x1_0000_0000
            &&& u32_at(t, 8) == size % 0x1_0000_0000
            &&& has_at(t, 12, seq![0x89u8, 0x06, 0x00, 0x01, 0x01])
            &&& u32_at(t, 17) == gsiv
            &&& has_at(t, 21, seq![0x79u8, 0x00])
        }),
{
    let t = crs_bytes(base, size, gsiv);
    assert(t.subrange(4, 8) =~= le32(base as u32));
    assert(t.subrange(8, 12) =~= le32(size as u32));
    assert(t.subrange(17, 21) =~= le32(gsiv));
    lemma_le32_round_trip(base as u32);
    lemma_le32_round_trip(size as u32);
    lemma_le32_round_trip(gsiv);
    assert(base as u32 == base % 0x1_0000_0000) by (bit_vector);
    assert(size as u32 == size % 0x1_0000_0000) by (bit_vector);
}

/// A device node, from its opcode to its last byte: the package length of all that follows it, the
/// name, the hardware id, the index as UID, the coherence attribute, and the resources.
#[verifier::rlimit(60)]
pub proof fn law_device_node_layout(index: nat, base: u64, size: u64, gsiv: u32)
    requires
        index <= u64::MAX,
    ensures
        ({
            let dev = device_bytes(index, base, size, gsiv);
            let name = device_name(index);
            let uid = int_bytes(index as u64);
            let at = 2 + pkg_width(dev.skip(2));
            &&& dev[0] == 0x5b
            &&& dev[1] == 0x82
            &&& 2 + pkg_total(dev.skip(2)) == dev.len()
            &&& dev.skip(at) == name + seq![
                0x08u8, 0x5f, 0x48, 0x49, 0x44, 0x0d, 0x4c, 0x4e, 0x52, 0x4f, 0x30, 0x30, 0x30,
                0x35, 0x00,
            ] + seq![0x08u8, 0x5f, 0x55, 0x49, 0x44] + uid + seq![
                0x08u8, 0x5f, 0x43, 0x43, 0x41, 0x01, 0x08, 0x5f, 0x43, 0x52, 0x53, 0x11, 0x1a,
                0x0a, 0x17,
            ] + crs_bytes(base, size, gsiv)
        }),
{
    reveal(device_bytes);
    let dev = device_bytes(index, base, size, gsiv);
    let body = device_body(index, base, size, gsiv);
    let crs = crs_bytes(base, size, gsiv);
    lemma_device_len(index, base, size, gsiv);
    law_package_length_decodes(body.len(), body);
    assert(dev.skip(2) =~= package(body));
    let at = 2 + pkg_width(dev.skip(2));
    assert(dev.skip(at) =~= body);
    assert(int_bytes(23) =~= seq![0x0au8, 0x17]);
    assert(pkg_length(25) =~= seq![0x1au8]);
    assert(buffer_bytes(crs) =~= seq![0x11u8, 0x1a, 0x0a, 0x17] + crs);
    assert(int_bytes(1) =~= seq![0x01u8]);
    assert(body =~= device_name(index) + seq![
        0x08u8, 0x5f, 0x48, 0x49, 0x44, 0x0d, 0x4c, 0x4e, 0x52, 0x4f, 0x30, 0x30, 0x30, 0x35, 0x00,
    ] + seq![0x08u8, 0x5f, 0x55, 0x49, 0x44] + int_bytes(index as u64) + seq![
        0x08u8, 0x5f, 0x43, 0x43, 0x41, 0x01, 0x08, 0x5f, 0x43, 0x52, 0x53, 0x11, 0x1a, 0x0a, 0x17,
    ] + crs);
}

/// The DSDT: one scope, `\_SB_`, that reaches to the end of the table, with a node for each device
/// in it, in order.
#[verifier::rlimit(60)]
pub proof fn law_dsdt_layout(virtio: Seq<(u64, u64, u32)>, k: int)
    requires
        scope_body(virtio).len() < AML_CONTENT_LIMIT,
        0 <= k < virtio.len() <= u64::MAX,
    ensures
        ({
            let t = dsdt_bytes(virtio);
            let list = nodes(t.skip(nodes_at(t)));
            &&& has_header(t, seq![0x44u8, 0x53, 0x44, 0x54], 2)
            &&& t[36] == 0x10
            &&& 37 + pkg_total(t.skip(37)) == t.len()
            &&& t.subrange(nodes_at(t) - 5, nodes_at(t)) == seq![0x5cu8, 0x5f, 0x53, 0x42, 0x5f]
            &&& list.len() == virtio.len()
            &&& list[k] == device_bytes(k as nat, virtio[k].0, virtio[k].1, virtio[k].2)
        }),
{
    let t = dsdt_bytes(virtio);
    let body = scope_body(virtio);
    law_dsdt_advertises_every_virtio_device(virtio);
    law_package_length_decodes(body.len(), body);
    assert(dsdt_sig() =~= seq![0x44u8, 0x53, 0x44, 0x54]);
    assert(t == table_bytes(dsdt_sig(), 2, scope_bytes(virtio))) by {
        reveal(dsdt_bytes);
    }
    law_table_layout(dsdt_sig(), 2, scope_bytes(virtio));
    assert(t.skip(37) =~= t.skip(36).skip(1));
    assert(scope_bytes(virtio).skip(1) =~= package(body));
    let at = nodes_at(t);
    assert(t.subrange(at - 5, at) =~= t.skip(36).subrange(at - 41, at - 36));
    assert(t.subrange(at - 5, at) =~= seq![0x5cu8, 0x5f, 0x53, 0x42, 0x5f]);
}

/// Bytes of a piece in the middle of a blob.
proof fn lemma_piece(blob: Seq<u8>, start: int, piece: Seq<u8>, at: int)
    requires
        0 <= start,
        start + piece.len() <= blob.len(),
        blob.subrange(start, start + piece.len() as int) == piece,
        0 <= at,
    ensures
        at + 4 <= piece.len() ==> blob.subrange(start + at, start + at + 4) == piece.subrange(
            at,
            at + 4,
        ),
        at + 8 <= piece.len() ==> u64_at(blob, start + at) == u64_at(piece, at),
{
    if at + 4 <= piece.len() {
        assert(blob.subrange(start + at, start + at + 4) =~= piece.subrange(at, at + 4));
    }
    if at + 8 <= piece.len() {
        assert(blob.subrange(start + at, start + at + 8) =~= piece.subrange(at, at + 8));
    }
}

/// The pieces of a blob of six.
pub proof fn lemma_pieces(d: Seq<u8>, f: Seq<u8>, m: Seq<u8>, g: Seq<u8>, s: Seq<u8>, x: Seq<u8>)
    ensures
        ({
            let blob = d + f + m + g + s + x;
            let f_at = d.len() as int;
            let m_at = f_at + f.len();
            let g_at = m_at + m.len();
            let s_at = g_at + g.len();
            let x_at = s_at + s.len();
            &&& blob.len() == x_at + x.len()
            &&& blob.subrange(0, f_at) == d
            &&& blob.subrange(f_at, m_at) == f
            &&& blob.subrange(m_at, g_at) == m
            &&& blob.subrange(g_at, s_at) == g
            &&& blob.subrange(s_at, x_at) == s
            &&& blob.subrange(x_at, x_at + x.len()) == x
        }),
{
    let blob = d + f + m + g + s + x;
    let f_at = d.len() as int;
    let m_at = f_at + f.len();
    let g_at = m_at + m.len();
    let s_at = g_at + g.len();
    let x_at = s_at + s.len();
    assert(blob.subrange(0, f_at) =~= d);
    assert(blob.subrange(f_at, m_at) =~= f);
    assert(blob.subrange(m_at, g_at) =~= m);
    assert(blob.subrange(g_at, s_at) =~= g);
    assert(blob.subrange(s_at, x_at) =~= s);
    assert(blob.subrange(x_at, x_at + x.len()) =~= x);
}

/// Whether the addresses in `tables`, less `base`, lead to the tables that they are meant for, from
/// `xsdt` on: those of the XSDT to the FADT, the MADT, the GTDT and the SPCR, and that of the FADT
/// to the DSDT.
pub open spec fn leads_to_every_table(tables: Seq<u8>, base: int, xsdt: int) -> bool {
    let at = xsdt - base;
    let fadt = u64_at(tables, at + 36) - base;
    let madt = u64_at(tables, at + 44) - base;
    let gtdt = u64_at(tables, at + 52) - base;
    let spcr = u64_at(tables, at + 60) - base;
    let dsdt = u64_at(tables, fadt + 140) - base;
    &&& tables.subrange(at, at + 4) == seq![0x58u8, 0x53, 0x44, 0x54]
    &&& tables.subrange(fadt, fadt + 4) == seq![0x46u8, 0x41, 0x43, 0x50]
    &&& tables.subrange(madt, madt + 4) == seq![0x41u8, 0x50, 0x49, 0x43]
    &&& tables.subrange(gtdt, gtdt + 4) == seq![0x47u8, 0x54, 0x44, 0x54]
    &&& tables.subrange(spcr, spcr + 4) == seq![0x53u8, 0x50, 0x43, 0x52]
    &&& tables.subrange(dsdt, dsdt + 4) == seq![0x44u8, 0x53, 0x44, 0x54]
}

/// Six pieces with the right signatures, and the right addresses in the second and in the last,
/// lead to each other.
#[verifier::rlimit(100)]
#[verifier::spinoff_prover]
pub proof fn lemma_pieces_lead_to_each_other(
    d: Seq<u8>,
    f: Seq<u8>,
    m: Seq<u8>,
    g: Seq<u8>,
    s: Seq<u8>,
    x: Seq<u8>,
    base: int,
)
    requires
        d.len() >= 4 && d.subrange(0, 4) == seq![0x44u8, 0x53, 0x44, 0x54],
        f.len() >= 148 && f.subrange(0, 4) == seq![0x46u8, 0x41, 0x43, 0x50],
        m.len() >= 4 && m.subrange(0, 4) == seq![0x41u8, 0x50, 0x49, 0x43],
        g.len() >= 4 && g.subrange(0, 4) == seq![0x47u8, 0x54, 0x44, 0x54],
        s.len() >= 4 && s.subrange(0, 4) == seq![0x53u8, 0x50, 0x43, 0x52],
        x.len() >= 68 && x.subrange(0, 4) == seq![0x58u8, 0x53, 0x44, 0x54],
        u64_at(f, 140) == base,
        u64_at(x, 36) == base + d.len(),
        u64_at(x, 44) == base + d.len() + f.len(),
        u64_at(x, 52) == base + d.len() + f.len() + m.len(),
        u64_at(x, 60) == base + d.len() + f.len() + m.len() + g.len(),
    ensures
        leads_to_every_table(
            d + f + m + g + s + x,
            base,
            base + d.len() + f.len() + m.len() + g.len() + s.len(),
        ),
{
    let blob = d + f + m + g + s + x;
    let f_at = d.len() as int;
    let m_at = f_at + f.len();
    let g_at = m_at + m.len();
    let s_at = g_at + g.len();
    let x_at = s_at + s.len();
    lemma_pieces(d, f, m, g, s, x);
    lemma_piece(blob, 0, d, 0);
    lemma_piece(blob, f_at, f, 0);
    lemma_piece(blob, f_at, f, 140);
    lemma_piece(blob, m_at, m, 0);
    lemma_piece(blob, g_at, g, 0);
    lemma_piece(blob, s_at, s, 0);
    lemma_piece(blob, x_at, x, 0);
    lemma_piece(blob, x_at, x, 36);
    lemma_piece(blob, x_at, x, 44);
    lemma_piece(blob, x_at, x, 52);
    lemma_piece(blob, x_at, x, 60);
    assert(u64_at(blob, x_at + 36) - base == f_at);
    assert(u64_at(blob, x_at + 44) - base == m_at);
    assert(u64_at(blob, x_at + 52) - base == g_at);
    assert(u64_at(blob, x_at + 60) - base == s_at);
    assert(u64_at(blob, f_at + 140) - base == 0);
}

/// What the tables of a machine start with.
pub proof fn lemma_signatures(info: AcpiInfo)
    requires
        tables_bytes(info).len() <= u32::MAX,
    ensures
        has_header(dsdt_bytes(info.virtio@), seq![0x44u8, 0x53, 0x44, 0x54], 2),
        has_header(madt_bytes(info), seq![0x41u8, 0x50, 0x49, 0x43], 5),
{
    lemma_table_lens(info);
    assert(dsdt_sig() =~= seq![0x44u8, 0x53, 0x44, 0x54]);
    assert(madt_sig() =~= seq![0x41u8, 0x50, 0x49, 0x43]);
    assert(dsdt_bytes(info.virtio@) == table_bytes(dsdt_sig(), 2, scope_bytes(info.virtio@))) by {
        reveal(dsdt_bytes);
    }
    assert(madt_bytes(info) == table_bytes(madt_sig(), 5, zeros(8) + madt_structures(info))) by {
        reveal(madt_bytes);
    }
    assert(dsdt_bytes(info.virtio@).len() == 36 + scope_bytes(info.virtio@).len()) by {
        reveal(table_bytes);
    }
    assert(madt_bytes(info).len() == 36 + (zeros(8) + madt_structures(info)).len()) by {
        reveal(table_bytes);
    }
    law_table_layout(dsdt_sig(), 2, scope_bytes(info.virtio@));
    law_table_layout(madt_sig(), 5, zeros(8) + madt_structures(info));
}

/// In the blobs as they are served, the addresses are offsets into the tables: that in the RSDP
/// leads to the XSDT, those in the XSDT to the tables it lists, and that in the FADT to the DSDT.
#[verifier::rlimit(60)]
pub proof fn law_served_addresses_are_offsets(info: AcpiInfo)
    requires
        tables_bytes(info).len() <= u32::MAX,
    ensures
        leads_to_every_table(tables_bytes(info), 0, u64_at(served_rsdp(info), 24)),
        served_rsdp(info).len() == 36,
{
    lemma_table_lens(info);
    lemma_signatures(info);
    law_rsdp_layout(xsdt_at(info) as u32 as u64);
    law_fadt_layout(0);
    law_gtdt_layout();
    law_spcr_layout(info.uart_base, info.uart_irq);
    let f = fadt_at(info) as u32 as u64;
    let m = madt_at(info) as u32 as u64;
    let g = gtdt_at(info) as u32 as u64;
    let s = spcr_at(info) as u32 as u64;
    law_xsdt_layout(f, m, g, s);
    lemma_pieces_lead_to_each_other(
        dsdt_bytes(info.virtio@),
        fadt_bytes(0),
        madt_bytes(info),
        gtdt_bytes(),
        spcr_bytes(info.uart_base, info.uart_irq),
        xsdt_bytes(f, m, g, s),
        0,
    );
}

/// The tables as they are served describe the machine: the second is a FADT, the third the MADT of
/// the machine, the fourth a GTDT, and the fifth states the address and the interrupt of its UART.
pub proof fn law_served_tables_describe_the_machine(info: AcpiInfo)
    requires
        tables_bytes(info).len() <= u32::MAX,
    ensures
        ({
            let list = split_tables(tables_bytes(info));
            &&& list.len() == 6
            &&& list[0] == dsdt_bytes(info.virtio@)
            &&& list[2] == madt_bytes(info)
            &&& list[3] == gtdt_bytes()
            &&& has_header(list[1], seq![0x46u8, 0x41, 0x43, 0x50], 6)
            &&& has_header(list[4], seq![0x53u8, 0x50, 0x43, 0x52], 2)
            &&& u64_at(list[4], 44) == info.uart_base
            &&& u32_at(list[4], 54) == info.uart_irq
            &&& has_header(list[5], seq![0x58u8, 0x53, 0x44, 0x54], 1)
        }),
{
    law_tables_tile_the_blob(info);
    law_fadt_layout(0);
    law_spcr_layout(info.uart_base, info.uart_irq);
    law_xsdt_layout(
        fadt_at(info) as u64,
        madt_at(info) as u64,
        gtdt_at(info) as u64,
        spcr_at(info) as u64,
    );
    assert(table_list(info).len() == 6);
}

/// The tables are placed in high memory, aligned to 64 bytes; the RSDP in the F segment, aligned to
/// 16 bytes.
pub proof fn law_blobs_are_placed(info: AcpiInfo)
    ensures
        script(info)[0] == (Command::Allocate {
            file: encode_utf8("etc/acpi/tables"@),
            align: 64,
            zone: 1,
        }),
        script(info)[12] == (Command::Allocate {
            file: encode_utf8("etc/acpi/rsdp"@),
            align: 16,
            zone: 2,
        }),
{
}

/// A package length takes one byte up to 62 bytes of content, two up to 4093, three up to 1048572,
/// and else four.
pub proof fn law_package_length_is_shortest(content: nat)
    ensures
        pkg_length(content).len() == if content <= 62 {
            1int
        } else if content <= 4093 {
            2
        } else if content <= 1_048_572 {
            3
        } else {
            4
        },
{
}

/// Bytes sum up: nothing to zero, one byte to itself, and two pieces to the sum of both.
pub proof fn law_byte_sum_adds_up(a: Seq<u8>, b: Seq<u8>, byte: u8)
    ensures
        byte_sum(seq![]) == 0,
        byte_sum(seq![byte]) == byte,
        byte_sum(a + b) == byte_sum(a) + byte_sum(b),
    decreases b.len(),
{
    reveal(byte_sum);
    assert(seq![byte].drop_last() =~= seq![]);
    assert(byte_sum(seq![byte].drop_last()) == 0);
    if b.len() == 0 {
        assert(a + b =~= a);
    } else {
        assert((a + b).drop_last() =~= a + b.drop_last());
        law_byte_sum_adds_up(a, b.drop_last(), byte);
    }
}

} // verus!
