//! The firmware's side: what running the loader script over the blobs leaves in guest memory.

use crate::acpi::aml::scope_bytes;
use crate::acpi::laws::{law_tables_tile_the_blob, split_tables, table_list};
use crate::acpi::layout_laws::{
    law_fadt_layout, law_gtdt_layout, law_rsdp_layout, law_spcr_layout, law_xsdt_layout,
    leads_to_every_table, lemma_pieces_lead_to_each_other, lemma_signatures, u64_at,
};
use crate::acpi::loader::Command;
use crate::acpi::tables::{
    balancing_byte, byte_sum, dsdt_bytes, dsdt_sig, fadt_body, fadt_bytes, fadt_sig, gtdt_body,
    gtdt_bytes, gtdt_sig, madt_bytes, madt_sig, madt_structures, rsdp_bytes, rsdp_prefix,
    spcr_body, spcr_bytes, spcr_sig, table_bytes, xsdt_body, xsdt_bytes, xsdt_sig,
    CHECKSUM_OFFSET, HEADER_SIZE, RSDP_CHECKSUM_OFFSET, RSDP_SIZE, XSDT_ADDRESS_OFFSET,
    X_DSDT_OFFSET,
};
use crate::acpi::{
    checksum_table, fadt_at, gtdt_at, lemma_file_names, lemma_table_lens, madt_at,
    relocate_pointer, script, served_rsdp, span, spcr_at, tables_bytes, xsdt_at, AcpiInfo,
    FILE_RSDP, FILE_TABLES,
};
use crate::bytes::{from_le64, le64, lemma_le64_round_trip, zeros};
use vstd::prelude::*;
use vstd::utf8::encode_utf8;

verus! {

/// A file in guest memory: where it lies and what it holds.
pub struct Blob {
    pub base: u64,
    pub bytes: Seq<u8>,
}

/// `s` with `base` added to the 64-bit number at `at`.
#[verifier::opaque]
pub open spec fn relocated(s: Seq<u8>, at: int, base: u64) -> Seq<u8> {
    s.take(at) + le64((from_le64(s.subrange(at, at + 8)) + base) as u64) + s.skip(at + 8)
}

/// `s` with the checksum of the `len` bytes from `start` at `at`.
#[verifier::opaque]
pub open spec fn checksummed(s: Seq<u8>, at: int, start: int, len: int) -> Seq<u8> {
    s.update(at, balancing_byte(byte_sum(s.subrange(start, start + len))))
}

/// Guest memory after one command. `files` are the fw_cfg files and `bases` the addresses at which
/// the firmware places them.
pub open spec fn after_command(
    files: Map<Seq<u8>, Seq<u8>>,
    bases: Map<Seq<u8>, u64>,
    memory: Map<Seq<u8>, Blob>,
    command: Command,
) -> Map<Seq<u8>, Blob> {
    match command {
        Command::Allocate { file, .. } => memory.insert(
            file,
            Blob { base: bases[file], bytes: files[file] },
        ),
        Command::AddPointer { pointer_file, pointee_file, offset } => memory.insert(
            pointer_file,
            Blob {
                base: memory[pointer_file].base,
                bytes: relocated(
                    memory[pointer_file].bytes,
                    offset as int,
                    memory[pointee_file].base,
                ),
            },
        ),
        Command::AddChecksum { file, result_offset, start, len } => memory.insert(
            file,
            Blob {
                base: memory[file].base,
                bytes: checksummed(
                    memory[file].bytes,
                    result_offset as int,
                    start as int,
                    len as int,
                ),
            },
        ),
    }
}

/// Guest memory after the first `n` commands.
pub open spec fn after_script(
    files: Map<Seq<u8>, Seq<u8>>,
    bases: Map<Seq<u8>, u64>,
    commands: Seq<Command>,
    n: nat,
) -> Map<Seq<u8>, Blob>
    decreases n,
{
    if n == 0 {
        Map::empty()
    } else {
        after_command(
            files,
            bases,
            after_script(files, bases, commands, (n - 1) as nat),
            commands[n - 1],
        )
    }
}

/// The parts of a blob, one behind the other.
pub open spec fn concat(parts: Seq<Seq<u8>>) -> Seq<u8>
    decreases parts.len(),
{
    if parts.len() == 0 {
        seq![]
    } else {
        concat(parts.drop_last()) + parts.last()
    }
}

/// A table with its checksum filled in.
pub open spec fn sealed(t: Seq<u8>) -> Seq<u8> {
    checksummed(t, CHECKSUM_OFFSET as int, 0, t.len() as int)
}

/// Where part `k` starts.
spec fn part_at(parts: Seq<Seq<u8>>, k: int) -> int {
    concat(parts.take(k)).len() as int
}

/// A blob is what stands before a part, the part, and what stands behind it.
proof fn lemma_concat_split(parts: Seq<Seq<u8>>, k: int)
    requires
        0 <= k < parts.len(),
    ensures
        concat(parts) == concat(parts.take(k)) + parts[k] + concat(parts.skip(k + 1)),
    decreases parts.len(),
{
    let last = parts.len() - 1;
    if k == last {
        assert(parts.take(k) =~= parts.drop_last());
        assert(concat(parts.skip(k + 1)) =~= Seq::empty());
    } else {
        lemma_concat_split(parts.drop_last(), k);
        assert(parts.drop_last().take(k) =~= parts.take(k));
        assert(parts.skip(k + 1).drop_last() =~= parts.drop_last().skip(k + 1));
    }
}

/// Exchanging a part leaves what stands before it and behind it alone.
proof fn lemma_concat_update(parts: Seq<Seq<u8>>, k: int, t: Seq<u8>)
    requires
        0 <= k < parts.len(),
    ensures
        concat(parts.update(k, t)) == concat(parts.take(k)) + t + concat(parts.skip(k + 1)),
{
    let changed = parts.update(k, t);
    lemma_concat_split(changed, k);
    assert(changed.take(k) =~= parts.take(k));
    assert(changed.skip(k + 1) =~= parts.skip(k + 1));
}

/// Bytes between others: reading and writing them.
proof fn lemma_between(pre: Seq<u8>, t: Seq<u8>, post: Seq<u8>, i: int, b: u8)
    requires
        0 <= i < t.len(),
    ensures
        (pre + t + post).subrange(pre.len() as int, pre.len() + t.len() as int) == t,
        t.subrange(0, t.len() as int) == t,
        (pre + t + post).update(pre.len() + i, b) == pre + t.update(i, b) + post,
{
    assert((pre + t + post).subrange(pre.len() as int, pre.len() + t.len() as int) =~= t);
    assert(t.subrange(0, t.len() as int) =~= t);
    assert((pre + t + post).update(pre.len() + i, b) =~= pre + t.update(i, b) + post);
}

/// Storing the checksum of a part in it changes that part alone.
proof fn lemma_checksum_part(parts: Seq<Seq<u8>>, k: int)
    requires
        0 <= k < parts.len(),
        parts[k].len() > CHECKSUM_OFFSET,
    ensures
        checksummed(
            concat(parts),
            part_at(parts, k) + CHECKSUM_OFFSET,
            part_at(parts, k),
            parts[k].len() as int,
        ) == concat(parts.update(k, sealed(parts[k]))),
{
    reveal(checksummed);
    lemma_concat_split(parts, k);
    lemma_concat_update(parts, k, sealed(parts[k]));
    lemma_between(
        concat(parts.take(k)),
        parts[k],
        concat(parts.skip(k + 1)),
        CHECKSUM_OFFSET as int,
        balancing_byte(byte_sum(parts[k])),
    );
}

/// Relocating a pointer in a part changes that part alone.
proof fn lemma_relocate_part(parts: Seq<Seq<u8>>, k: int, field: int, base: u64)
    requires
        0 <= k < parts.len(),
        0 <= field,
        field + 8 <= parts[k].len(),
    ensures
        relocated(concat(parts), part_at(parts, k) + field, base) == concat(
            parts.update(k, relocated(parts[k], field, base)),
        ),
{
    reveal(relocated);
    let pre = concat(parts.take(k));
    let t = parts[k];
    let post = concat(parts.skip(k + 1));
    let at = pre.len() + field;
    lemma_concat_split(parts, k);
    lemma_concat_update(parts, k, relocated(t, field, base));
    assert((pre + t + post).subrange(at, at + 8) =~= t.subrange(field, field + 8));
    assert(relocated(pre + t + post, at, base) =~= pre + relocated(t, field, base) + post);
}

/// Replacing a byte changes the sum by the difference.
proof fn lemma_sum_update(s: Seq<u8>, i: int, b: u8)
    requires
        0 <= i < s.len(),
    ensures
        byte_sum(s.update(i, b)) == byte_sum(s) - s[i] + b,
    decreases s.len(),
{
    reveal(byte_sum);
    if i == s.len() - 1 {
        assert(s.update(i, b).drop_last() =~= s.drop_last());
    } else {
        lemma_sum_update(s.drop_last(), i, b);
        assert(s.update(i, b).drop_last() =~= s.drop_last().update(i, b));
    }
}

/// Filling in a checksum that was zero makes the bytes sum to zero.
pub proof fn law_checksummed_bytes_sum_to_zero(s: Seq<u8>, at: int)
    requires
        0 <= at < s.len(),
        s[at] == 0,
    ensures
        byte_sum(checksummed(s, at, 0, s.len() as int)) % 256 == 0,
{
    reveal(checksummed);
    assert(s.subrange(0, s.len() as int) =~= s);
    lemma_sum_update(s, at, balancing_byte(byte_sum(s)));
}

/// The checksum over the first 20 bytes of the RSDP holds from the start, wherever the XSDT is.
pub proof fn law_rsdp_static_checksum_holds(xsdt: u64)
    ensures
        rsdp_bytes(xsdt).len() == RSDP_SIZE,
        byte_sum(rsdp_bytes(xsdt).take(20)) % 256 == 0,
{
    reveal(rsdp_bytes);
    let zero = rsdp_prefix(0);
    let byte = balancing_byte(byte_sum(zero));
    assert(rsdp_bytes(xsdt).take(20) =~= zero.update(8, byte));
    lemma_sum_update(zero, 8, byte);
}

/// Whether the tables lie at `base` and consist of `parts`.
spec fn holds(memory: Map<Seq<u8>, Blob>, base: u64, parts: Seq<Seq<u8>>) -> bool {
    memory[encode_utf8(FILE_TABLES@)] == (Blob { base, bytes: concat(parts) })
}

/// Where the parts of a blob of six start.
proof fn lemma_offsets(parts: Seq<Seq<u8>>)
    requires
        parts.len() == 6,
    ensures
        part_at(parts, 0) == 0,
        part_at(parts, 1) == parts[0].len(),
        part_at(parts, 2) == part_at(parts, 1) + parts[1].len(),
        part_at(parts, 3) == part_at(parts, 2) + parts[2].len(),
        part_at(parts, 4) == part_at(parts, 3) + parts[3].len(),
        part_at(parts, 5) == part_at(parts, 4) + parts[4].len(),
        concat(parts).len() == part_at(parts, 5) + parts[5].len(),
        concat(parts) == parts[0] + parts[1] + parts[2] + parts[3] + parts[4] + parts[5],
{
    assert(parts.take(0) =~= Seq::empty());
    assert(parts.take(1).drop_last() =~= parts.take(0));
    assert(parts.take(2).drop_last() =~= parts.take(1));
    assert(parts.take(3).drop_last() =~= parts.take(2));
    assert(parts.take(4).drop_last() =~= parts.take(3));
    assert(parts.take(5).drop_last() =~= parts.take(4));
    assert(parts.drop_last() =~= parts.take(5));
    assert(concat(parts.take(0)) =~= Seq::empty());
    assert(concat(parts.take(1)) =~= parts[0]);
    assert(concat(parts.take(2)) == parts[0] + parts[1]);
    assert(concat(parts.take(3)) == parts[0] + parts[1] + parts[2]);
    assert(concat(parts.take(4)) == parts[0] + parts[1] + parts[2] + parts[3]);
    assert(concat(parts.take(5)) == parts[0] + parts[1] + parts[2] + parts[3] + parts[4]);
}

/// An ADD_CHECKSUM command over part `k` seals it.
proof fn lemma_checksum_step(
    files: Map<Seq<u8>, Seq<u8>>,
    bases: Map<Seq<u8>, u64>,
    memory: Map<Seq<u8>, Blob>,
    base: u64,
    parts: Seq<Seq<u8>>,
    k: int,
)
    requires
        holds(memory, base, parts),
        parts.len() == 6,
        0 <= k < 6,
        parts[k].len() > CHECKSUM_OFFSET,
        concat(parts).len() <= u32::MAX,
    ensures
        holds(
            after_command(
                files,
                bases,
                memory,
                checksum_table(span(part_at(parts, k) as nat, parts[k].len())),
            ),
            base,
            parts.update(k, sealed(parts[k])),
        ),
{
    lemma_checksum_part(parts, k);
    lemma_concat_split(parts, k);
}

/// An ADD_POINTER command on a field of part `k` relocates it.
proof fn lemma_pointer_step(
    files: Map<Seq<u8>, Seq<u8>>,
    bases: Map<Seq<u8>, u64>,
    memory: Map<Seq<u8>, Blob>,
    base: u64,
    parts: Seq<Seq<u8>>,
    k: int,
    field: int,
)
    requires
        holds(memory, base, parts),
        parts.len() == 6,
        0 <= k < 6,
        0 <= field,
        field + 8 <= parts[k].len(),
        concat(parts).len() <= u32::MAX,
    ensures
        holds(
            after_command(
                files,
                bases,
                memory,
                relocate_pointer(span(part_at(parts, k) as nat, parts[k].len()), field),
            ),
            base,
            parts.update(k, relocated(parts[k], field, base)),
        ),
{
    lemma_relocate_part(parts, k, field, base);
    lemma_concat_split(parts, k);
}

/// A FADT as the address of its DSDT and what stands around it.
#[verifier::rlimit(40)]
proof fn lemma_fadt_fields(dsdt: u64)
    ensures
        fadt_bytes(dsdt) == fadt_bytes(0).take(140) + le64(dsdt) + fadt_bytes(0).skip(148),
        fadt_bytes(0).len() == 276,
{
    reveal(table_bytes);
    reveal(fadt_bytes);
    assert(fadt_bytes(dsdt) =~= fadt_bytes(0).take(140) + le64(dsdt) + fadt_bytes(0).skip(148));
}

/// Relocating X_DSDT.
proof fn lemma_relocated_fadt(dsdt: u64, base: u64)
    requires
        dsdt + base <= u64::MAX,
    ensures
        relocated(fadt_bytes(dsdt), X_DSDT_OFFSET as int, base) == fadt_bytes(
            (dsdt + base) as u64,
        ),
{
    lemma_fadt_fields(dsdt);
    lemma_fadt_fields((dsdt + base) as u64);
    lemma_moved(dsdt, base);
    lemma_relocated_bytes(
        fadt_bytes(0).take(140),
        le64(dsdt),
        fadt_bytes(0).skip(148),
        base,
    );
}

/// Relocating XsdtAddress.
#[verifier::rlimit(40)]
proof fn lemma_relocated_rsdp(xsdt: u64, base: u64)
    requires
        xsdt + base <= u64::MAX,
    ensures
        relocated(rsdp_bytes(xsdt), XSDT_ADDRESS_OFFSET as int, base) == rsdp_bytes(
            (xsdt + base) as u64,
        ),
{
    reveal(rsdp_bytes);
    let pre = rsdp_bytes(0).take(24);
    let post = rsdp_bytes(0).skip(32);
    lemma_moved(xsdt, base);
    lemma_relocated_bytes(pre, le64(xsdt), post, base);
    assert(rsdp_bytes(xsdt) =~= pre + le64(xsdt) + post);
    assert(rsdp_bytes((xsdt + base) as u64) =~= pre + le64((xsdt + base) as u64) + post);
}

/// The XSDT's addresses as bytes, with the header before them.
spec fn xsdt_fields(f: u64, m: u64, g: u64, s: u64) -> Seq<u8> {
    xsdt_bytes(0, 0, 0, 0).take(36) + le64(f) + le64(m) + le64(g) + le64(s)
}

/// An XSDT is its header and its four addresses.
#[verifier::rlimit(40)]
proof fn lemma_xsdt_fields(f: u64, m: u64, g: u64, s: u64)
    ensures
        xsdt_bytes(f, m, g, s) == xsdt_fields(f, m, g, s),
        xsdt_bytes(0, 0, 0, 0).len() == 68,
{
    reveal(table_bytes);
    reveal(xsdt_bytes);
    assert(xsdt_bytes(f, m, g, s) =~= xsdt_fields(f, m, g, s));
}

/// The number that eight bytes spell with `base` added.
#[verifier::opaque]
spec fn moved(a: Seq<u8>, base: u64) -> Seq<u8> {
    le64((from_le64(a) + base) as u64)
}

/// What moving a number gives.
proof fn lemma_moved(x: u64, base: u64)
    requires
        x + base <= u64::MAX,
    ensures
        le64(x).len() == 8,
        moved(le64(x), base) == le64((x + base) as u64),
{
    reveal(moved);
    lemma_le64_round_trip(x);
}

/// Eight bytes between others are relocated alone.
proof fn lemma_relocated_bytes(pre: Seq<u8>, a: Seq<u8>, post: Seq<u8>, base: u64)
    requires
        a.len() == 8,
    ensures
        relocated(pre + a + post, pre.len() as int, base) == pre + moved(a, base) + post,
{
    reveal(moved);
    reveal(relocated);
    let s = pre + a + post;
    let at = pre.len() as int;
    assert(s.subrange(at, at + 8) =~= a);
    assert(s.take(at) =~= pre);
    assert(s.skip(at + 8) =~= post);
}

/// Relocating one of four numbers.
#[verifier::rlimit(40)]
proof fn lemma_relocated_field(
    h: Seq<u8>,
    a: Seq<u8>,
    b: Seq<u8>,
    c: Seq<u8>,
    d: Seq<u8>,
    base: u64,
)
    requires
        h.len() == 36,
        a.len() == 8,
        b.len() == 8,
        c.len() == 8,
        d.len() == 8,
    ensures
        relocated(h + a + b + c + d, 36, base) == h + moved(a, base) + b + c + d,
        relocated(h + a + b + c + d, 44, base) == h + a + moved(b, base) + c + d,
        relocated(h + a + b + c + d, 52, base) == h + a + b + moved(c, base) + d,
        relocated(h + a + b + c + d, 60, base) == h + a + b + c + moved(d, base),
{
    let e = Seq::<u8>::empty();
    lemma_relocated_bytes(h, a, b + c + d, base);
    lemma_regroup(h, a, b, c, d);
    lemma_regroup(h, moved(a, base), b, c, d);
    lemma_relocated_bytes(h + a, b, c + d, base);
    lemma_regroup(h, a, moved(b, base), c, d);
    lemma_relocated_bytes(h + a + b, c, d, base);
    lemma_relocated_bytes(h + a + b + c, d, e, base);
    lemma_regroup(h, a, b, c, moved(d, base));
}

/// Ways to read five pieces.
proof fn lemma_regroup(h: Seq<u8>, a: Seq<u8>, b: Seq<u8>, c: Seq<u8>, d: Seq<u8>)
    ensures
        h + a + b + c + d == h + a + (b + c + d),
        h + a + b + c + d == h + a + b + (c + d),
        h + a + b + c + d == h + a + b + c + d + Seq::<u8>::empty(),
{
    let s = h + a + b + c + d;
    assert(s =~= h + a + (b + c + d));
    assert(s =~= h + a + b + (c + d));
    assert(s =~= s + Seq::<u8>::empty());
}

/// Relocating the first address of an XSDT.
proof fn lemma_relocated_f(f: u64, m: u64, g: u64, s: u64, base: u64)
    requires
        f + base <= u64::MAX,
    ensures
        relocated(xsdt_bytes(f, m, g, s), 36, base) == xsdt_bytes((f + base) as u64, m, g, s),
{
    lemma_xsdt_fields(f, m, g, s);
    lemma_xsdt_fields((f + base) as u64, m, g, s);
    lemma_moved(f, base);
    lemma_relocated_field(
        xsdt_bytes(0, 0, 0, 0).take(36),
        le64(f),
        le64(m),
        le64(g),
        le64(s),
        base,
    );
}

/// Relocating the second address of an XSDT.
proof fn lemma_relocated_m(f: u64, m: u64, g: u64, s: u64, base: u64)
    requires
        m + base <= u64::MAX,
    ensures
        relocated(xsdt_bytes(f, m, g, s), 44, base) == xsdt_bytes(f, (m + base) as u64, g, s),
{
    lemma_xsdt_fields(f, m, g, s);
    lemma_xsdt_fields(f, (m + base) as u64, g, s);
    lemma_moved(m, base);
    lemma_relocated_field(
        xsdt_bytes(0, 0, 0, 0).take(36),
        le64(f),
        le64(m),
        le64(g),
        le64(s),
        base,
    );
}

/// Relocating the third address of an XSDT.
proof fn lemma_relocated_g(f: u64, m: u64, g: u64, s: u64, base: u64)
    requires
        g + base <= u64::MAX,
    ensures
        relocated(xsdt_bytes(f, m, g, s), 52, base) == xsdt_bytes(f, m, (g + base) as u64, s),
{
    lemma_xsdt_fields(f, m, g, s);
    lemma_xsdt_fields(f, m, (g + base) as u64, s);
    lemma_moved(g, base);
    lemma_relocated_field(
        xsdt_bytes(0, 0, 0, 0).take(36),
        le64(f),
        le64(m),
        le64(g),
        le64(s),
        base,
    );
}

/// Relocating the fourth address of an XSDT.
proof fn lemma_relocated_s(f: u64, m: u64, g: u64, s: u64, base: u64)
    requires
        s + base <= u64::MAX,
    ensures
        relocated(xsdt_bytes(f, m, g, s), 60, base) == xsdt_bytes(f, m, g, (s + base) as u64),
{
    lemma_xsdt_fields(f, m, g, s);
    lemma_xsdt_fields(f, m, g, (s + base) as u64);
    lemma_moved(s, base);
    lemma_relocated_field(
        xsdt_bytes(0, 0, 0, 0).take(36),
        le64(f),
        le64(m),
        le64(g),
        le64(s),
        base,
    );
}

/// The fw_cfg files of a machine, by name.
pub open spec fn files_of(info: AcpiInfo) -> Map<Seq<u8>, Seq<u8>> {
    map![
        encode_utf8(FILE_TABLES@) => tables_bytes(info),
        encode_utf8(FILE_RSDP@) => served_rsdp(info),
    ]
}

/// The tables as the firmware installs them at `base`: every address is that of the table it
/// means, and every checksum is filled in.
pub open spec fn installed_tables(info: AcpiInfo, base: u64) -> Seq<Seq<u8>> {
    seq![
        sealed(dsdt_bytes(info.virtio@)),
        sealed(fadt_bytes(base)),
        sealed(madt_bytes(info)),
        sealed(gtdt_bytes()),
        sealed(spcr_bytes(info.uart_base, info.uart_irq)),
        sealed(
            xsdt_bytes(
                (fadt_at(info) + base) as u64,
                (madt_at(info) + base) as u64,
                (gtdt_at(info) + base) as u64,
                (spcr_at(info) + base) as u64,
            ),
        ),
    ]
}

/// The tables when all but the XSDT are done.
spec fn halfway(info: AcpiInfo, base: u64) -> Seq<Seq<u8>> {
    installed_tables(info, base).update(5, table_list(info)[5])
}

/// Command `n` seals part `k`.
proof fn lemma_seal_at(
    files: Map<Seq<u8>, Seq<u8>>,
    bases: Map<Seq<u8>, u64>,
    commands: Seq<Command>,
    n: nat,
    base: u64,
    parts: Seq<Seq<u8>>,
    k: int,
)
    requires
        holds(after_script(files, bases, commands, n), base, parts),
        parts.len() == 6,
        0 <= k < 6,
        commands[n as int] == checksum_table(span(part_at(parts, k) as nat, parts[k].len())),
        parts[k].len() > CHECKSUM_OFFSET,
        concat(parts).len() <= u32::MAX,
    ensures
        holds(
            after_script(files, bases, commands, n + 1),
            base,
            parts.update(k, sealed(parts[k])),
        ),
{
    lemma_checksum_step(files, bases, after_script(files, bases, commands, n), base, parts, k);
}

/// Command `n` relocates a field of part `k`.
proof fn lemma_relocate_at(
    files: Map<Seq<u8>, Seq<u8>>,
    bases: Map<Seq<u8>, u64>,
    commands: Seq<Command>,
    n: nat,
    base: u64,
    parts: Seq<Seq<u8>>,
    k: int,
    field: int,
)
    requires
        holds(after_script(files, bases, commands, n), base, parts),
        parts.len() == 6,
        0 <= k < 6,
        commands[n as int] == relocate_pointer(
            span(part_at(parts, k) as nat, parts[k].len()),
            field,
        ),
        0 <= field,
        field + 8 <= parts[k].len(),
        concat(parts).len() <= u32::MAX,
    ensures
        holds(
            after_script(files, bases, commands, n + 1),
            base,
            parts.update(k, relocated(parts[k], field, base)),
        ),
{
    lemma_pointer_step(
        files,
        bases,
        after_script(files, bases, commands, n),
        base,
        parts,
        k,
        field,
    );
}

/// Filling in a checksum or relocating a pointer changes no length.
proof fn lemma_step_lens(t: Seq<u8>, field: int, base: u64)
    requires
        0 <= field,
        field + 8 <= t.len(),
        HEADER_SIZE <= t.len(),
    ensures
        sealed(t).len() == t.len(),
        relocated(t, field, base).len() == t.len(),
{
    reveal(checksummed);
    reveal(relocated);
}

/// The commands up to the sixth, run over six parts.
#[verifier::rlimit(40)]
proof fn lemma_first_commands(
    files: Map<Seq<u8>, Seq<u8>>,
    bases: Map<Seq<u8>, u64>,
    commands: Seq<Command>,
    base: u64,
    p: Seq<Seq<u8>>,
)
    requires
        p.len() == 6,
        forall|k: int| 0 <= k < 6 ==> (#[trigger] p[k]).len() >= HEADER_SIZE,
        p[1].len() >= X_DSDT_OFFSET + 8,
        concat(p).len() <= u32::MAX,
        holds(after_script(files, bases, commands, 1), base, p),
        commands[1] == checksum_table(span(part_at(p, 0) as nat, p[0].len())),
        commands[2] == relocate_pointer(
            span(part_at(p, 1) as nat, p[1].len()),
            X_DSDT_OFFSET as int,
        ),
        commands[3] == checksum_table(span(part_at(p, 1) as nat, p[1].len())),
        commands[4] == checksum_table(span(part_at(p, 2) as nat, p[2].len())),
        commands[5] == checksum_table(span(part_at(p, 3) as nat, p[3].len())),
        commands[6] == checksum_table(span(part_at(p, 4) as nat, p[4].len())),
    ensures
        holds(
            after_script(files, bases, commands, 7),
            base,
            seq![
                sealed(p[0]),
                sealed(relocated(p[1], X_DSDT_OFFSET as int, base)),
                sealed(p[2]),
                sealed(p[3]),
                sealed(p[4]),
                p[5],
            ],
        ),
{
    let fadt = relocated(p[1], X_DSDT_OFFSET as int, base);
    lemma_step_lens(p[0], 0, base);
    lemma_step_lens(p[1], X_DSDT_OFFSET as int, base);
    lemma_step_lens(fadt, 0, base);
    lemma_step_lens(p[2], 0, base);
    lemma_step_lens(p[3], 0, base);
    lemma_step_lens(p[4], 0, base);
    let p1 = p.update(0, sealed(p[0]));
    let p2 = p1.update(1, fadt);
    let p3 = p2.update(1, sealed(fadt));
    let p4 = p3.update(2, sealed(p[2]));
    let p5 = p4.update(3, sealed(p[3]));
    let p6 = p5.update(4, sealed(p[4]));
    lemma_offsets(p);
    lemma_seal_at(files, bases, commands, 1, base, p, 0);
    lemma_offsets(p1);
    lemma_relocate_at(files, bases, commands, 2, base, p1, 1, X_DSDT_OFFSET as int);
    lemma_offsets(p2);
    lemma_seal_at(files, bases, commands, 3, base, p2, 1);
    lemma_offsets(p3);
    lemma_seal_at(files, bases, commands, 4, base, p3, 2);
    lemma_offsets(p4);
    lemma_seal_at(files, bases, commands, 5, base, p4, 3);
    lemma_offsets(p5);
    lemma_seal_at(files, bases, commands, 6, base, p5, 4);
    assert(p6 =~= seq![sealed(p[0]), sealed(fadt), sealed(p[2]), sealed(p[3]), sealed(p[4]), p[5]]);
}

/// The script's commands on the tables, in terms of where the tables lie in the blob.
#[verifier::rlimit(40)]
proof fn lemma_script_commands(info: AcpiInfo, p: Seq<Seq<u8>>)
    requires
        p == table_list(info),
    ensures
        ({
            let commands = script(info);
            let xsdt = span(part_at(p, 5) as nat, p[5].len());
            &&& commands[1] == checksum_table(span(part_at(p, 0) as nat, p[0].len()))
            &&& commands[2] == relocate_pointer(
                span(part_at(p, 1) as nat, p[1].len()),
                X_DSDT_OFFSET as int,
            )
            &&& commands[3] == checksum_table(span(part_at(p, 1) as nat, p[1].len()))
            &&& commands[4] == checksum_table(span(part_at(p, 2) as nat, p[2].len()))
            &&& commands[5] == checksum_table(span(part_at(p, 3) as nat, p[3].len()))
            &&& commands[6] == checksum_table(span(part_at(p, 4) as nat, p[4].len()))
            &&& commands[7] == relocate_pointer(xsdt, 36)
            &&& commands[8] == relocate_pointer(xsdt, 44)
            &&& commands[9] == relocate_pointer(xsdt, 52)
            &&& commands[10] == relocate_pointer(xsdt, 60)
            &&& commands[11] == checksum_table(xsdt)
        }),
{
    lemma_table_lens(info);
    lemma_offsets(p);
}

/// The first command places the tables.
#[verifier::rlimit(40)]
proof fn lemma_allocated(info: AcpiInfo, bases: Map<Seq<u8>, u64>, p: Seq<Seq<u8>>)
    requires
        p == table_list(info),
        tables_bytes(info).len() <= u32::MAX,
    ensures
        holds(
            after_script(files_of(info), bases, script(info), 1),
            bases[encode_utf8(FILE_TABLES@)],
            p,
        ),
        concat(p).len() <= u32::MAX,
{
    lemma_table_lens(info);
    lemma_file_names();
    lemma_offsets(p);
    reveal_with_fuel(after_script, 2);
    assert(concat(p) == tables_bytes(info));
}

/// The first seven commands do all tables but the XSDT.
#[verifier::rlimit(40)]
proof fn lemma_first_half(info: AcpiInfo, bases: Map<Seq<u8>, u64>, base: u64)
    requires
        tables_bytes(info).len() <= u32::MAX,
        base == bases[encode_utf8(FILE_TABLES@)],
    ensures
        holds(after_script(files_of(info), bases, script(info), 7), base, halfway(info, base)),
{
    let p = table_list(info);
    lemma_table_lens(info);
    lemma_allocated(info, bases, p);
    lemma_script_commands(info, p);
    lemma_first_commands(files_of(info), bases, script(info), base, p);
    lemma_relocated_fadt(0, base);
    assert(halfway(info, base) =~= seq![
        sealed(p[0]),
        sealed(fadt_bytes(base)),
        sealed(p[2]),
        sealed(p[3]),
        sealed(p[4]),
        p[5],
    ]);
}

/// The commands on the XSDT, run over six parts.
#[verifier::rlimit(40)]
proof fn lemma_last_commands(
    files: Map<Seq<u8>, Seq<u8>>,
    bases: Map<Seq<u8>, u64>,
    commands: Seq<Command>,
    base: u64,
    p: Seq<Seq<u8>>,
    x: Seq<Seq<u8>>,
)
    requires
        p.len() == 6,
        x.len() == 5,
        p[5] == x[0],
        forall|k: int| 0 <= k < 5 ==> (#[trigger] x[k]).len() == 68,
        x[1] == relocated(x[0], 36, base),
        x[2] == relocated(x[1], 44, base),
        x[3] == relocated(x[2], 52, base),
        x[4] == relocated(x[3], 60, base),
        concat(p).len() <= u32::MAX,
        holds(after_script(files, bases, commands, 7), base, p),
        commands[7] == relocate_pointer(span(part_at(p, 5) as nat, 68), 36),
        commands[8] == relocate_pointer(span(part_at(p, 5) as nat, 68), 44),
        commands[9] == relocate_pointer(span(part_at(p, 5) as nat, 68), 52),
        commands[10] == relocate_pointer(span(part_at(p, 5) as nat, 68), 60),
        commands[11] == checksum_table(span(part_at(p, 5) as nat, 68)),
    ensures
        holds(after_script(files, bases, commands, 12), base, p.update(5, sealed(x[4]))),
{
    let p1 = p.update(5, x[1]);
    let p2 = p.update(5, x[2]);
    let p3 = p.update(5, x[3]);
    let p4 = p.update(5, x[4]);
    lemma_offsets(p);
    lemma_relocate_at(files, bases, commands, 7, base, p, 5, 36);
    lemma_offsets(p1);
    lemma_relocate_at(files, bases, commands, 8, base, p1, 5, 44);
    assert(p1.update(5, x[2]) =~= p2);
    lemma_offsets(p2);
    lemma_relocate_at(files, bases, commands, 9, base, p2, 5, 52);
    assert(p2.update(5, x[3]) =~= p3);
    lemma_offsets(p3);
    lemma_relocate_at(files, bases, commands, 10, base, p3, 5, 60);
    assert(p3.update(5, x[4]) =~= p4);
    lemma_offsets(p4);
    lemma_seal_at(files, bases, commands, 11, base, p4, 5);
    assert(p4.update(5, sealed(x[4])) =~= p.update(5, sealed(x[4])));
}

/// The parts keep their places.
proof fn lemma_same_places(p: Seq<Seq<u8>>, q: Seq<Seq<u8>>)
    requires
        p.len() == 6,
        q.len() == 6,
        forall|k: int| 0 <= k < 6 ==> (#[trigger] q[k]).len() == p[k].len(),
    ensures
        part_at(q, 5) == part_at(p, 5),
        concat(q).len() == concat(p).len(),
{
    lemma_offsets(p);
    lemma_offsets(q);
}

/// The first twelve commands do all tables.
#[verifier::rlimit(40)]
proof fn lemma_tables_installed(info: AcpiInfo, bases: Map<Seq<u8>, u64>, base: u64)
    requires
        tables_bytes(info).len() <= u32::MAX,
        base == bases[encode_utf8(FILE_TABLES@)],
        base + tables_bytes(info).len() <= u64::MAX,
    ensures
        holds(
            after_script(files_of(info), bases, script(info), 12),
            base,
            installed_tables(info, base),
        ),
{
    let p = table_list(info);
    let q = halfway(info, base);
    let f = fadt_at(info) as u64;
    let m = madt_at(info) as u64;
    let g = gtdt_at(info) as u64;
    let s = spcr_at(info) as u64;
    let f1 = (f + base) as u64;
    let m1 = (m + base) as u64;
    let g1 = (g + base) as u64;
    let s1 = (s + base) as u64;
    let x = seq![
        xsdt_bytes(f, m, g, s),
        xsdt_bytes(f1, m, g, s),
        xsdt_bytes(f1, m1, g, s),
        xsdt_bytes(f1, m1, g1, s),
        xsdt_bytes(f1, m1, g1, s1),
    ];
    lemma_table_lens(info);
    lemma_first_half(info, bases, base);
    lemma_script_commands(info, p);
    lemma_allocated(info, bases, p);
    lemma_step_lens(p[0], 0, base);
    lemma_step_lens(fadt_bytes(base), 0, base);
    lemma_step_lens(p[2], 0, base);
    lemma_step_lens(p[3], 0, base);
    lemma_step_lens(p[4], 0, base);
    lemma_same_places(p, q);
    lemma_relocated_f(f, m, g, s, base);
    lemma_relocated_m(f1, m, g, s, base);
    lemma_relocated_g(f1, m1, g, s, base);
    lemma_relocated_s(f1, m1, g1, s, base);
    lemma_last_commands(files_of(info), bases, script(info), base, q, x);
    assert(q.update(5, sealed(x[4])) =~= installed_tables(info, base));
}

/// The RSDP as the firmware installs it, with the XSDT at `xsdt`.
pub open spec fn installed_rsdp(xsdt: u64) -> Seq<u8> {
    checksummed(rsdp_bytes(xsdt), RSDP_CHECKSUM_OFFSET as int, 0, RSDP_SIZE as int)
}

/// Running the script leaves the tables and the RSDP in guest memory with every pointer at the
/// address of the table it means and every checksum filled in.
#[verifier::rlimit(40)]
pub proof fn law_script_installs_the_tables(info: AcpiInfo, bases: Map<Seq<u8>, u64>)
    requires
        tables_bytes(info).len() <= u32::MAX,
        bases[encode_utf8(FILE_TABLES@)] + tables_bytes(info).len() <= u64::MAX,
    ensures
        ({
            let base = bases[encode_utf8(FILE_TABLES@)];
            let memory = after_script(files_of(info), bases, script(info), script(info).len());
            &&& memory[encode_utf8(FILE_TABLES@)] == (Blob {
                base,
                bytes: concat(installed_tables(info, base)),
            })
            &&& memory[encode_utf8(FILE_RSDP@)] == (Blob {
                base: bases[encode_utf8(FILE_RSDP@)],
                bytes: installed_rsdp((xsdt_at(info) + base) as u64),
            })
        }),
{
    let files = files_of(info);
    let commands = script(info);
    let base = bases[encode_utf8(FILE_TABLES@)];
    lemma_table_lens(info);
    lemma_file_names();
    lemma_tables_installed(info, bases, base);
    lemma_relocated_rsdp(xsdt_at(info) as u64, base);
    let m12 = after_script(files, bases, commands, 12);
    let m13 = after_command(files, bases, m12, commands[12]);
    let m14 = after_command(files, bases, m13, commands[13]);
    let m15 = after_command(files, bases, m14, commands[14]);
    assert(after_script(files, bases, commands, 13) == m13);
    assert(after_script(files, bases, commands, 14) == m14);
    assert(after_script(files, bases, commands, 15) == m15);
}

/// A sealed table sums to zero.
proof fn lemma_sealed_table(sig: Seq<u8>, revision: u8, body: Seq<u8>)
    requires
        sig.len() == 4,
    ensures
        byte_sum(sealed(table_bytes(sig, revision, body))) % 256 == 0,
{
    let t = table_bytes(sig, revision, body);
    assert(t.len() > 9 && t[9] == 0) by {
        reveal(table_bytes);
    }
    law_checksummed_bytes_sum_to_zero(t, 9);
}

/// Every installed table sums to zero.
#[verifier::rlimit(40)]
pub proof fn law_installed_tables_sum_to_zero(info: AcpiInfo, base: u64)
    ensures
        forall|k: int|
            0 <= k < 6 ==> byte_sum(#[trigger] installed_tables(info, base)[k]) % 256 == 0,
{
    let x = installed_tables(info, base);
    reveal(dsdt_bytes);
    lemma_sealed_table(dsdt_sig(), 2, scope_bytes(info.virtio@));
    assert(byte_sum(x[0]) % 256 == 0);
    reveal(fadt_bytes);
    lemma_sealed_table(fadt_sig(), 6, fadt_body(base));
    assert(byte_sum(x[1]) % 256 == 0);
    reveal(madt_bytes);
    lemma_sealed_table(madt_sig(), 5, zeros(8) + madt_structures(info));
    assert(byte_sum(x[2]) % 256 == 0);
    reveal(gtdt_bytes);
    lemma_sealed_table(gtdt_sig(), 2, gtdt_body());
    assert(byte_sum(x[3]) % 256 == 0);
    reveal(spcr_bytes);
    lemma_sealed_table(spcr_sig(), 2, spcr_body(info.uart_base, info.uart_irq));
    assert(byte_sum(x[4]) % 256 == 0);
    reveal(xsdt_bytes);
    lemma_sealed_table(
        xsdt_sig(),
        1,
        xsdt_body(
            (fadt_at(info) + base) as u64,
            (madt_at(info) + base) as u64,
            (gtdt_at(info) + base) as u64,
            (spcr_at(info) + base) as u64,
        ),
    );
    assert(byte_sum(x[5]) % 256 == 0);
}

/// Both checksums of the installed RSDP hold.
pub proof fn law_installed_rsdp_sums_to_zero(xsdt: u64)
    ensures
        byte_sum(installed_rsdp(xsdt)) % 256 == 0,
        byte_sum(installed_rsdp(xsdt).take(20)) % 256 == 0,
{
    let rsdp = rsdp_bytes(xsdt);
    law_rsdp_static_checksum_holds(xsdt);
    assert(rsdp[32] == 0) by {
        reveal(rsdp_bytes);
    }
    law_checksummed_bytes_sum_to_zero(rsdp, 32);
    assert(installed_rsdp(xsdt).take(20) =~= rsdp.take(20)) by {
        reveal(checksummed);
    }
}

/// Filling in the checksum of a table changes no byte but that.
proof fn lemma_sealed(t: Seq<u8>)
    requires
        t.len() > 9,
    ensures
        sealed(t).len() == t.len(),
        forall|i: int| 0 <= i < t.len() && i != 9 ==> #[trigger] sealed(t)[i] == t[i],
        sealed(t).subrange(0, 4) == t.subrange(0, 4),
        forall|at: int|
            36 <= at && at + 8 <= t.len() ==> #[trigger] u64_at(sealed(t), at) == u64_at(t, at),
{
    reveal(checksummed);
    assert(sealed(t).subrange(0, 4) =~= t.subrange(0, 4));
    assert forall|at: int| 36 <= at && at + 8 <= t.len() implies #[trigger] u64_at(sealed(t), at)
        == u64_at(t, at) by {
        assert(sealed(t).subrange(at, at + 8) =~= t.subrange(at, at + 8));
    }
}

/// In guest memory, the address in the installed RSDP leads to the XSDT, those in the XSDT to the
/// tables it lists, and that in the FADT to the DSDT, wherever the firmware placed them.
#[verifier::rlimit(60)]
pub proof fn law_installed_addresses_lead_to_the_tables(info: AcpiInfo, base: u64)
    requires
        tables_bytes(info).len() <= u32::MAX,
        base + tables_bytes(info).len() <= u64::MAX,
    ensures
        leads_to_every_table(
            concat(installed_tables(info, base)),
            base as int,
            u64_at(installed_rsdp((xsdt_at(info) + base) as u64), 24),
        ),
{
    let list = installed_tables(info, base);
    let f = (fadt_at(info) + base) as u64;
    let m = (madt_at(info) + base) as u64;
    let g = (gtdt_at(info) + base) as u64;
    let s = (spcr_at(info) + base) as u64;
    let x = (xsdt_at(info) + base) as u64;
    lemma_table_lens(info);
    lemma_signatures(info);
    law_fadt_layout(base);
    law_gtdt_layout();
    law_spcr_layout(info.uart_base, info.uart_irq);
    law_xsdt_layout(f, m, g, s);
    law_rsdp_layout(x);
    lemma_sealed(dsdt_bytes(info.virtio@));
    lemma_sealed(fadt_bytes(base));
    lemma_sealed(madt_bytes(info));
    lemma_sealed(gtdt_bytes());
    lemma_sealed(spcr_bytes(info.uart_base, info.uart_irq));
    lemma_sealed(xsdt_bytes(f, m, g, s));
    lemma_offsets(list);
    assert(u64_at(installed_rsdp(x), 24) == x) by {
        reveal(checksummed);
        assert(installed_rsdp(x).subrange(24, 32) =~= rsdp_bytes(x).subrange(24, 32));
    }
    lemma_pieces_lead_to_each_other(
        list[0],
        list[1],
        list[2],
        list[3],
        list[4],
        list[5],
        base as int,
    );
}

/// Installing the tables changes nothing in them but checksums and addresses.
#[verifier::rlimit(60)]
pub proof fn law_installing_changes_checksums_and_addresses_alone(
    info: AcpiInfo,
    base: u64,
    k: int,
    i: int,
)
    requires
        tables_bytes(info).len() <= u32::MAX,
        0 <= k < 6,
        0 <= i < installed_tables(info, base)[k].len(),
        i != 9,
        k == 1 ==> !(140 <= i < 148),
        k == 5 ==> i < 36,
    ensures
        split_tables(tables_bytes(info))[k].len() == installed_tables(info, base)[k].len(),
        installed_tables(info, base)[k][i] == split_tables(tables_bytes(info))[k][i],
{
    let f = (fadt_at(info) + base) as u64;
    let m = (madt_at(info) + base) as u64;
    let g = (gtdt_at(info) + base) as u64;
    let s = (spcr_at(info) + base) as u64;
    let list = table_list(info);
    law_tables_tile_the_blob(info);
    lemma_table_lens(info);
    lemma_sealed(dsdt_bytes(info.virtio@));
    lemma_sealed(fadt_bytes(base));
    lemma_sealed(madt_bytes(info));
    lemma_sealed(gtdt_bytes());
    lemma_sealed(spcr_bytes(info.uart_base, info.uart_irq));
    lemma_sealed(xsdt_bytes(f, m, g, s));
    if k == 1 {
        lemma_fadt_fields(base);
        lemma_le64_round_trip(base);
    } else if k == 5 {
        lemma_xsdt_fields(f, m, g, s);
        lemma_xsdt_fields(
            fadt_at(info) as u64,
            madt_at(info) as u64,
            gtdt_at(info) as u64,
            spcr_at(info) as u64,
        );
    }
}

} // verus!
