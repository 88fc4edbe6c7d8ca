//! What the firmware and the guest can rely on.

use crate::acpi::aml::{
    device_body, device_bytes, device_name, devices_bytes, hex, lemma_device_len, name_op,
    package, pkg_length, scope_body, scope_bytes, string_bytes, virtio_hid, AML_CONTENT_LIMIT,
};
use crate::acpi::loader::{command_code, command_file, names_fit, CMD_ALLOCATE};
use crate::acpi::tables::{
    dsdt_bytes, dsdt_sig, fadt_body, fadt_bytes, fadt_sig, gicc_base, gicc_bytes, giccs_bytes,
    gicd_bytes, gicr_bytes, gtdt_body, gtdt_bytes, gtdt_sig, madt_bytes, madt_sig,
    madt_structures, spcr_body, spcr_bytes, spcr_sig, table_bytes, xsdt_body, xsdt_bytes,
    xsdt_sig, HEADER_SIZE,
};
use crate::acpi::{
    fadt_at, gtdt_at, is_describable, lemma_file_names, lemma_table_lens, madt_at, script, spcr_at,
    tables_bytes, AcpiInfo, FILE_RSDP, FILE_TABLES,
};
use crate::bytes::{
    from_le32, from_le64, le32, le64, lemma_le32_round_trip, lemma_le64_round_trip, zeros,
};
use vstd::prelude::*;
use vstd::utf8::encode_utf8;

verus! {

/// How many bytes the package length at the start of `s` takes.
pub open spec fn pkg_width(s: Seq<u8>) -> int {
    1 + s[0] as int / 64
}

/// The package length that `s` starts with, as an interpreter reads it.
pub open spec fn pkg_total(s: Seq<u8>) -> int {
    if s[0] < 64 {
        s[0] as int
    } else {
        s[0] as int % 16 + 16 * s[1] + if s[0] < 128 {
            0
        } else {
            0x1000 * s[2] + if s[0] < 192 {
                0
            } else {
                0x10_0000 * s[3]
            }
        }
    }
}

/// A package length decodes to the length of the package, its own bytes included.
#[verifier::rlimit(40)]
pub proof fn law_package_length_decodes(content: nat, rest: Seq<u8>)
    requires
        content < AML_CONTENT_LIMIT,
    ensures
        pkg_width(pkg_length(content) + rest) == pkg_length(content).len(),
        pkg_total(pkg_length(content) + rest) == content + pkg_length(content).len(),
{
}

/// The device nodes in `aml`, cut by their package lengths.
pub open spec fn nodes(aml: Seq<u8>) -> Seq<Seq<u8>>
    decreases aml.len(),
{
    if aml.len() == 0 {
        seq![]
    } else {
        let len = 2 + pkg_total(aml.skip(2));
        if 2 < len <= aml.len() {
            seq![aml.take(len)] + nodes(aml.skip(len))
        } else {
            seq![aml]
        }
    }
}

/// The node of device `k`.
pub open spec fn node_of(virtio: Seq<(u64, u64, u32)>) -> spec_fn(int) -> Seq<u8> {
    |k: int| device_bytes(k as nat, virtio[k].0, virtio[k].1, virtio[k].2)
}

/// The first node of an AML list is cut off whole.
#[verifier::rlimit(40)]
proof fn lemma_first_node(index: nat, base: u64, size: u64, gsiv: u32, rest: Seq<u8>)
    requires
        index <= u64::MAX,
    ensures
        nodes(device_bytes(index, base, size, gsiv) + rest) == seq![
            device_bytes(index, base, size, gsiv),
        ] + nodes(rest),
{
    reveal(device_bytes);
    let dev = device_bytes(index, base, size, gsiv);
    let body = device_body(index, base, size, gsiv);
    lemma_device_len(index, base, size, gsiv);
    law_package_length_decodes(body.len(), body + rest);
    assert((dev + rest).skip(2) =~= pkg_length(body.len()) + (body + rest));
    assert((dev + rest).take(dev.len() as int) =~= dev);
    assert((dev + rest).skip(dev.len() as int) =~= rest);
}

/// The nodes of the first `n` devices are cut off whole.
#[verifier::rlimit(40)]
proof fn lemma_nodes(virtio: Seq<(u64, u64, u32)>, n: nat, rest: Seq<u8>)
    requires
        n <= virtio.len() <= u64::MAX,
    ensures
        nodes(devices_bytes(virtio, n) + rest) == Seq::new(n, node_of(virtio)) + nodes(rest),
    decreases n,
{
    if n == 0 {
        assert(devices_bytes(virtio, n) + rest =~= rest);
        assert(Seq::new(n, node_of(virtio)) + nodes(rest) =~= nodes(rest));
    } else {
        let k = (n - 1) as nat;
        let (base, size, gsiv) = virtio[n - 1];
        let dev = device_bytes(k, base, size, gsiv);
        assert(devices_bytes(virtio, n) + rest =~= devices_bytes(virtio, k) + (dev + rest));
        lemma_nodes(virtio, k, dev + rest);
        lemma_first_node(k, base, size, gsiv, rest);
        assert(Seq::new(k, node_of(virtio)) + (seq![dev] + nodes(rest)) =~= Seq::new(
            n,
            node_of(virtio),
        ) + nodes(rest));
    }
}

/// Where the device nodes start in a DSDT.
pub open spec fn nodes_at(dsdt: Seq<u8>) -> int {
    HEADER_SIZE + 1 + pkg_width(dsdt.skip(HEADER_SIZE + 1)) + 5
}

/// The DSDT advertises every virtio device: the scope that its AML consists of holds one node per
/// device, in order, and nothing else.
#[verifier::rlimit(40)]
pub proof fn law_dsdt_advertises_every_virtio_device(virtio: Seq<(u64, u64, u32)>)
    requires
        scope_body(virtio).len() < AML_CONTENT_LIMIT,
        virtio.len() <= u64::MAX,
    ensures
        ({
            let dsdt = dsdt_bytes(virtio);
            &&& dsdt[HEADER_SIZE as int] == 0x10
            &&& HEADER_SIZE + 1 + pkg_total(dsdt.skip(HEADER_SIZE + 1)) == dsdt.len()
            &&& nodes(dsdt.skip(nodes_at(dsdt))) == Seq::new(virtio.len(), node_of(virtio))
        }),
{
    reveal(table_bytes);
    reveal(dsdt_bytes);
    let dsdt = dsdt_bytes(virtio);
    let body = scope_body(virtio);
    let devices = devices_bytes(virtio, virtio.len());
    law_package_length_decodes(body.len(), body);
    assert(dsdt.skip(HEADER_SIZE + 1) =~= package(body));
    assert(dsdt.skip(nodes_at(dsdt)) =~= devices + Seq::empty());
    lemma_nodes(virtio, virtio.len(), Seq::empty());
    assert(Seq::new(virtio.len(), node_of(virtio)) + nodes(Seq::empty()) =~= Seq::new(
        virtio.len(),
        node_of(virtio),
    ));
}

/// A device node names its hardware id right behind its own name.
#[verifier::rlimit(40)]
pub proof fn law_device_node_carries_the_hardware_id(index: nat, base: u64, size: u64, gsiv: u32)
    requires
        index <= u64::MAX,
    ensures
        ({
            let dev = device_bytes(index, base, size, gsiv);
            let at = 2 + pkg_width(dev.skip(2)) + device_name(index).len();
            dev.subrange(at, at + 15) == name_op(
                seq!['_' as u8, 'H' as u8, 'I' as u8, 'D' as u8],
                string_bytes(virtio_hid()),
            )
        }),
{
    reveal(device_bytes);
    let dev = device_bytes(index, base, size, gsiv);
    let body = device_body(index, base, size, gsiv);
    lemma_device_len(index, base, size, gsiv);
    law_package_length_decodes(body.len(), body);
    assert(dev.skip(2) =~= package(body));
    let at = 2 + pkg_width(dev.skip(2)) + device_name(index).len();
    assert(dev.subrange(at, at + 15) =~= name_op(
        seq!['_' as u8, 'H' as u8, 'I' as u8, 'D' as u8],
        string_bytes(virtio_hid()),
    ));
}

/// A device's name takes four bytes as long as there are no more than 256 devices.
pub proof fn law_device_names_take_four_bytes(index: nat)
    requires
        index < 256,
    ensures
        device_name(index).len() == 4,
{
    reveal_with_fuel(hex, 2);
}

/// The tables in `blob`, cut by the length that each declares.
pub open spec fn split_tables(blob: Seq<u8>) -> Seq<Seq<u8>>
    decreases blob.len(),
{
    if blob.len() == 0 {
        seq![]
    } else {
        let len = from_le32(blob.subrange(4, 8));
        if HEADER_SIZE <= len <= blob.len() {
            seq![blob.take(len)] + split_tables(blob.skip(len))
        } else {
            seq![blob]
        }
    }
}

/// Whether `t` starts with `sig` and declares its own length.
#[verifier::opaque]
pub open spec fn is_table(t: Seq<u8>, sig: Seq<u8>) -> bool {
    &&& HEADER_SIZE <= t.len()
    &&& t.take(4) == sig
    &&& from_le32(t.subrange(4, 8)) == t.len()
}

/// A header and the fields behind it are a table.
proof fn lemma_is_table(sig: Seq<u8>, revision: u8, body: Seq<u8>)
    requires
        sig.len() == 4,
        table_bytes(sig, revision, body).len() <= u32::MAX,
    ensures
        is_table(table_bytes(sig, revision, body), sig),
{
    reveal(table_bytes);
    reveal(is_table);
    let t = table_bytes(sig, revision, body);
    let len = (HEADER_SIZE + body.len()) as u32;
    lemma_le32_round_trip(len);
    assert(t.take(4) =~= sig);
    assert(t.subrange(4, 8) =~= le32(len));
}

/// A table is cut off whole.
proof fn lemma_first_table(t: Seq<u8>, sig: Seq<u8>, rest: Seq<u8>)
    requires
        is_table(t, sig),
    ensures
        split_tables(t + rest) == seq![t] + split_tables(rest),
{
    reveal(is_table);
    assert((t + rest).subrange(4, 8) =~= t.subrange(4, 8));
    assert((t + rest).take(t.len() as int) =~= t);
    assert((t + rest).skip(t.len() as int) =~= rest);
}

/// A blob of six tables is cut into them.
proof fn lemma_six_tables(t: Seq<Seq<u8>>, sigs: Seq<Seq<u8>>)
    requires
        t.len() == 6,
        forall|k: int| 0 <= k < 6 ==> is_table(#[trigger] t[k], sigs[k]),
    ensures
        split_tables(t[0] + t[1] + t[2] + t[3] + t[4] + t[5]) == t,
{
    let r5 = t[5] + Seq::<u8>::empty();
    let r4 = t[4] + r5;
    let r3 = t[3] + r4;
    let r2 = t[2] + r3;
    let r1 = t[1] + r2;
    assert(t[0] + t[1] + t[2] + t[3] + t[4] + t[5] =~= t[0] + r1);
    lemma_first_table(t[0], sigs[0], r1);
    lemma_first_table(t[1], sigs[1], r2);
    lemma_first_table(t[2], sigs[2], r3);
    lemma_first_table(t[3], sigs[3], r4);
    lemma_first_table(t[4], sigs[4], r5);
    lemma_first_table(t[5], sigs[5], Seq::empty());
    assert(split_tables(t[0] + r1) =~= t);
}

/// The tables of the blob, in order.
pub open spec fn table_list(info: AcpiInfo) -> Seq<Seq<u8>> {
    seq![
        dsdt_bytes(info.virtio@),
        fadt_bytes(0),
        madt_bytes(info),
        gtdt_bytes(),
        spcr_bytes(info.uart_base, info.uart_irq),
        xsdt_bytes(
            fadt_at(info) as u64,
            madt_at(info) as u64,
            gtdt_at(info) as u64,
            spcr_at(info) as u64,
        ),
    ]
}

/// The signatures of those tables.
pub open spec fn signature_list() -> Seq<Seq<u8>> {
    seq![dsdt_sig(), fadt_sig(), madt_sig(), gtdt_sig(), spcr_sig(), xsdt_sig()]
}

/// Each table of the blob starts with its signature and declares its own length.
#[verifier::rlimit(40)]
pub proof fn law_tables_declare_their_lengths(info: AcpiInfo)
    requires
        tables_bytes(info).len() <= u32::MAX,
    ensures
        forall|k: int|
            0 <= k < 6 ==> is_table(#[trigger] table_list(info)[k], signature_list()[k]),
{
    reveal(dsdt_bytes);
    reveal(fadt_bytes);
    reveal(madt_bytes);
    reveal(gtdt_bytes);
    reveal(spcr_bytes);
    reveal(xsdt_bytes);
    lemma_table_lens(info);
    lemma_is_table(dsdt_sig(), 2, scope_bytes(info.virtio@));
    lemma_is_table(fadt_sig(), 6, fadt_body(0));
    lemma_is_table(madt_sig(), 5, zeros(8) + madt_structures(info));
    lemma_is_table(gtdt_sig(), 2, gtdt_body());
    lemma_is_table(spcr_sig(), 2, spcr_body(info.uart_base, info.uart_irq));
    lemma_is_table(
        xsdt_sig(),
        1,
        xsdt_body(
            fadt_at(info) as u64,
            madt_at(info) as u64,
            gtdt_at(info) as u64,
            spcr_at(info) as u64,
        ),
    );
    let tables = table_list(info);
    let sigs = signature_list();
    assert(is_table(tables[0], sigs[0]));
    assert(is_table(tables[1], sigs[1]));
    assert(is_table(tables[2], sigs[2]));
    assert(is_table(tables[3], sigs[3]));
    assert(is_table(tables[4], sigs[4]));
    assert(is_table(tables[5], sigs[5]));
}

/// Walking the blob by each table's declared length gives the tables: headers and sizes tile the
/// blob exactly.
#[verifier::rlimit(40)]
pub proof fn law_tables_tile_the_blob(info: AcpiInfo)
    requires
        tables_bytes(info).len() <= u32::MAX,
    ensures
        split_tables(tables_bytes(info)) == table_list(info),
{
    law_tables_declare_their_lengths(info);
    lemma_table_lens(info);
    lemma_six_tables(table_list(info), signature_list());
}

/// The interrupt controller structures in `s`, cut by the length that each declares.
pub open spec fn split_structures(s: Seq<u8>) -> Seq<Seq<u8>>
    decreases s.len(),
{
    if s.len() == 0 {
        seq![]
    } else {
        let len = s[1] as int;
        if 2 <= len <= s.len() {
            seq![s.take(len)] + split_structures(s.skip(len))
        } else {
            seq![s]
        }
    }
}

/// A structure that declares its own length is cut off whole.
proof fn lemma_first_structure(t: Seq<u8>, rest: Seq<u8>)
    requires
        t.len() >= 2,
        t[1] == t.len(),
    ensures
        split_structures(t + rest) == seq![t] + split_structures(rest),
{
    assert((t + rest).take(t.len() as int) =~= t);
    assert((t + rest).skip(t.len() as int) =~= rest);
}

/// The GICC of vCPU `k`.
pub open spec fn gicc_of(info: AcpiInfo) -> spec_fn(int) -> Seq<u8> {
    |k: int| gicc_bytes(k as u32, gicc_base(info), info.mpidrs@[k])
}

/// The GICCs are cut off whole.
proof fn lemma_giccs(info: AcpiInfo, n: nat, rest: Seq<u8>)
    requires
        n <= info.mpidrs@.len(),
    ensures
        split_structures(giccs_bytes(info.mpidrs@, gicc_base(info), n) + rest) == Seq::new(
            n,
            gicc_of(info),
        ) + split_structures(rest),
    decreases n,
{
    let giccs = giccs_bytes(info.mpidrs@, gicc_base(info), n);
    if n == 0 {
        assert(giccs + rest =~= rest);
        assert(Seq::new(n, gicc_of(info)) + split_structures(rest) =~= split_structures(rest));
    } else {
        let k = (n - 1) as nat;
        let last = gicc_bytes(k as u32, gicc_base(info), info.mpidrs@[n - 1]);
        let before = giccs_bytes(info.mpidrs@, gicc_base(info), k);
        assert(giccs + rest =~= before + (last + rest));
        lemma_giccs(info, k, last + rest);
        lemma_first_structure(last, rest);
        assert(Seq::new(k, gicc_of(info)) + (seq![last] + split_structures(rest)) =~= Seq::new(
            n,
            gicc_of(info),
        ) + split_structures(rest));
    }
}

/// What the MADT describes: a GICC per vCPU, the GICD and, unless the controller is a GICv2, the
/// GICR range.
pub open spec fn structure_list(info: AcpiInfo) -> Seq<Seq<u8>> {
    let fixed = Seq::new(info.mpidrs@.len(), gicc_of(info)).push(
        gicd_bytes(info.gicd_base, info.gic_version as u8),
    );
    if info.gic_version == 2 {
        fixed
    } else {
        fixed.push(gicr_bytes(info.gicr_base, info.gicr_size as u32))
    }
}

/// Walking the MADT's structures by their declared lengths gives a GICC per vCPU, the GICD and,
/// unless the controller is a GICv2, the GICR range.
#[verifier::rlimit(40)]
pub proof fn law_madt_structures(info: AcpiInfo)
    ensures
        split_structures(madt_bytes(info).skip(44)) == structure_list(info),
{
    let gicd = gicd_bytes(info.gicd_base, info.gic_version as u8);
    let gicr = gicr_bytes(info.gicr_base, info.gicr_size as u32);
    let giccs = giccs_bytes(info.mpidrs@, gicc_base(info), info.mpidrs@.len());
    let e = Seq::<u8>::empty();
    assert(split_structures(e) =~= Seq::empty());
    assert(madt_bytes(info).skip(44) =~= madt_structures(info)) by {
        reveal(table_bytes);
        reveal(madt_bytes);
    }
    if info.gic_version == 2 {
        assert(madt_structures(info) =~= giccs + (gicd + e));
        lemma_giccs(info, info.mpidrs@.len(), gicd + e);
        lemma_first_structure(gicd, e);
    } else {
        assert(madt_structures(info) =~= giccs + (gicd + (gicr + e)));
        lemma_giccs(info, info.mpidrs@.len(), gicd + (gicr + e));
        lemma_first_structure(gicd, gicr + e);
        lemma_first_structure(gicr, e);
    }
    assert(split_structures(madt_bytes(info).skip(44)) =~= structure_list(info));
}

/// The MADT describes one kind of controller consistently: every GICC carries the physical CPU
/// interface exactly for a GICv2, the version byte says so, and the kinds of the structures agree.
#[verifier::rlimit(40)]
pub proof fn law_madt_is_consistent(info: AcpiInfo)
    requires
        info.gic_version < 256,
    ensures
        ({
            let list = structure_list(info);
            let n = info.mpidrs@.len() as int;
            &&& list.len() == if info.gic_version == 2 { n + 1 } else { n + 2 }
            &&& forall|k: int| 0 <= k < n ==> (#[trigger] list[k])[0] == 0x0b && from_le64(
                list[k].subrange(32, 40),
            ) == if info.gic_version == 2 { info.gicc_base as int } else { 0 }
            &&& list[n][0] == 0x0c
            &&& list[n][20] == info.gic_version
            &&& info.gic_version != 2 ==> list[n + 1][0] == 0x0e
        }),
{
    let list = structure_list(info);
    let n = info.mpidrs@.len() as int;
    assert forall|k: int| 0 <= k < n implies (#[trigger] list[k])[0] == 0x0b && from_le64(
        list[k].subrange(32, 40),
    ) == if info.gic_version == 2 { info.gicc_base as int } else { 0 } by {
        assert(list[k].subrange(32, 40) =~= le64(gicc_base(info)));
        lemma_le64_round_trip(gicc_base(info));
    }
}

/// The MADT of a GICv2 does not depend on the redistributor range, and that of any other
/// controller does not depend on the physical CPU interface.
pub proof fn law_madt_ignores_the_other_controller(a: AcpiInfo, b: AcpiInfo)
    requires
        a.mpidrs@ == b.mpidrs@,
        a.gic_version == b.gic_version,
        a.gicd_base == b.gicd_base,
        a.gic_version == 2 ==> a.gicc_base == b.gicc_base,
        a.gic_version != 2 ==> a.gicr_base == b.gicr_base && a.gicr_size == b.gicr_size,
    ensures
        madt_bytes(a) == madt_bytes(b),
{
    reveal(madt_bytes);
}

/// The loader script has fifteen whole entries, starts by placing the tables, and names no file
/// but the two it places.
pub proof fn law_loader_script(info: AcpiInfo)
    ensures
        script(info).len() == 15,
        forall|k: int| 0 <= k < 15 ==> names_fit(#[trigger] script(info)[k]),
        forall|k: int|
            0 <= k < 15 ==> command_file(#[trigger] script(info)[k]) == encode_utf8(FILE_TABLES@)
                || command_file(script(info)[k]) == encode_utf8(FILE_RSDP@),
        command_code(script(info)[0]) == CMD_ALLOCATE,
        command_file(script(info)[0]) == encode_utf8(FILE_TABLES@),
{
    lemma_file_names();
}

/// A device node takes less than 96 bytes.
proof fn lemma_devices_len(virtio: Seq<(u64, u64, u32)>, n: nat)
    requires
        n <= virtio.len() <= u64::MAX,
    ensures
        devices_bytes(virtio, n).len() <= 96 * n,
    decreases n,
{
    if n > 0 {
        let k = (n - 1) as nat;
        let (base, size, gsiv) = virtio[n - 1];
        lemma_devices_len(virtio, k);
        lemma_device_len(k, base, size, gsiv);
        reveal(device_bytes);
    }
}

/// A GICC takes 80 bytes.
proof fn lemma_giccs_len(mpidrs: Seq<u64>, base: u64, n: nat)
    ensures
        giccs_bytes(mpidrs, base, n).len() == 80 * n,
    decreases n,
{
    if n > 0 {
        lemma_giccs_len(mpidrs, base, (n - 1) as nat);
    }
}

/// A machine with no more than a million devices and no more than sixteen million vCPUs can be
/// described, and its tables are small enough for their 32-bit lengths and offsets.
#[verifier::rlimit(40)]
pub proof fn law_ordinary_machines_are_describable(info: AcpiInfo)
    requires
        info.virtio@.len() <= 0x10_0000,
        info.mpidrs@.len() <= 0x100_0000,
    ensures
        is_describable(info),
        tables_bytes(info).len() <= u32::MAX,
{
    lemma_table_lens(info);
    lemma_devices_len(info.virtio@, info.virtio@.len());
    lemma_giccs_len(info.mpidrs@, gicc_base(info), info.mpidrs@.len());
    reveal(table_bytes);
    reveal(madt_bytes);
    assert(madt_bytes(info).len() <= 84 + 80 * info.mpidrs@.len());
}

} // verus!
