//! The AML that the DSDT carries: one device node per virtio-mmio device.

use crate::bytes::{le16, le32, put_bytes, put_u16, put_u32};
use vstd::prelude::*;
use vstd::utf8::{encode_utf8, is_ascii_chars_encode_utf8};

verus! {

/// Contents shorter than this fit into an AML package.
pub const AML_CONTENT_LIMIT: usize = 0x0fff_fffc;

/// How many bytes follow the lead byte of the package length of `content` bytes.
pub open spec fn pkg_follow(content: nat) -> nat {
    if content + 1 <= 0x3f {
        0
    } else if content + 2 < 0x1000 {
        1
    } else if content + 3 < 0x10_0000 {
        2
    } else {
        3
    }
}

/// The package length that precedes `content` bytes. It counts its own bytes too. Where it fits
/// six bits it is the lead byte itself; else the lead byte holds the number of bytes that follow
/// and the low four bits, and the others hold the rest, least significant first.
pub open spec fn pkg_length(content: nat) -> Seq<u8> {
    let follow = pkg_follow(content);
    let total = content + 1 + follow;
    if follow == 0 {
        seq![total as u8]
    } else {
        seq![(0x40 * follow + total % 16) as u8] + le32((total / 16) as u32).take(follow as int)
    }
}

/// `content` as an AML package.
pub open spec fn package(content: Seq<u8>) -> Seq<u8> {
    pkg_length(content.len()) + content
}

/// `Name(seg, value)`.
pub open spec fn name_op(seg: Seq<u8>, value: Seq<u8>) -> Seq<u8> {
    seq![0x08u8] + seg + value
}

/// A string object.
pub open spec fn string_bytes(s: Seq<u8>) -> Seq<u8> {
    seq![0x0du8] + s + seq![0x00u8]
}

/// An integer object, in the shortest form that holds it; of a number beyond 32 bits, the low 32.
pub open spec fn int_bytes(n: u64) -> Seq<u8> {
    if n <= 1 {
        seq![n as u8]
    } else if n <= 0xff {
        seq![0x0au8, n as u8]
    } else if n <= 0xffff {
        seq![0x0bu8] + le16(n as u16)
    } else {
        seq![0x0cu8] + le32(n as u32)
    }
}

/// `Buffer(data.len()) { data }`.
pub open spec fn buffer_bytes(data: Seq<u8>) -> Seq<u8> {
    seq![0x11u8] + package(int_bytes(data.len() as u64) + data)
}

/// An upper-case hexadecimal digit.
pub open spec fn hex_digit(d: nat) -> u8 {
    if d < 10 {
        (0x30 + d) as u8
    } else {
        (0x41 + d - 10) as u8
    }
}

/// A number in upper-case hexadecimal, without leading zeros.
pub open spec fn hex(n: nat) -> Seq<u8>
    decreases n,
{
    if n < 16 {
        seq![hex_digit(n)]
    } else {
        hex(n / 16).push(hex_digit(n % 16))
    }
}

/// The name of device `index`: `VR` and the index in at least two hexadecimal digits.
pub open spec fn device_name(index: nat) -> Seq<u8> {
    seq!['V' as u8, 'R' as u8] + if index < 16 {
        seq!['0' as u8] + hex(index)
    } else {
        hex(index)
    }
}

/// The hardware id of a virtio-mmio device, `LNRO0005`.
pub open spec fn virtio_hid() -> Seq<u8> {
    seq![
        'L' as u8,
        'N' as u8,
        'R' as u8,
        'O' as u8,
        '0' as u8,
        '0' as u8,
        '0' as u8,
        '5' as u8,
    ]
}

/// The resources of a device: a writable `Memory32Fixed`, a level-high `ExtendedInterrupt` with
/// one entry, and an end tag whose checksum is ignored.
pub open spec fn crs_bytes(base: u64, size: u64, gsiv: u32) -> Seq<u8> {
    seq![0x86u8, 0x09, 0x00, 0x01] + le32(base as u32) + le32(size as u32) + seq![
        0x89u8,
        0x06,
        0x00,
        0x01,
        0x01,
    ] + le32(gsiv) + seq![0x79u8, 0x00]
}

/// What stands in the package of a device node.
pub open spec fn device_body(index: nat, base: u64, size: u64, gsiv: u32) -> Seq<u8> {
    device_name(index) + name_op(
        seq!['_' as u8, 'H' as u8, 'I' as u8, 'D' as u8],
        string_bytes(virtio_hid()),
    ) + name_op(seq!['_' as u8, 'U' as u8, 'I' as u8, 'D' as u8], int_bytes(index as u64))
        + name_op(seq!['_' as u8, 'C' as u8, 'C' as u8, 'A' as u8], int_bytes(1)) + name_op(
        seq!['_' as u8, 'C' as u8, 'R' as u8, 'S' as u8],
        buffer_bytes(crs_bytes(base, size, gsiv)),
    )
}

/// `Device(VRnn) { _HID "LNRO0005"; _UID n; _CCA 1; _CRS {mem, irq} }`.
#[verifier::opaque]
pub open spec fn device_bytes(index: nat, base: u64, size: u64, gsiv: u32) -> Seq<u8> {
    seq![0x5bu8, 0x82] + package(device_body(index, base, size, gsiv))
}

/// The nodes of the first `n` devices.
pub open spec fn devices_bytes(virtio: Seq<(u64, u64, u32)>, n: nat) -> Seq<u8>
    decreases n,
{
    if n == 0 {
        seq![]
    } else {
        let (base, size, gsiv) = virtio[n - 1];
        devices_bytes(virtio, (n - 1) as nat) + device_bytes((n - 1) as nat, base, size, gsiv)
    }
}

/// What stands in the package of the scope `\_SB_`: its name and the devices.
pub open spec fn scope_body(virtio: Seq<(u64, u64, u32)>) -> Seq<u8> {
    seq![0x5cu8, '_' as u8, 'S' as u8, 'B' as u8, '_' as u8] + devices_bytes(virtio, virtio.len())
}

/// `Scope(\_SB_) { devices }`.
pub open spec fn scope_bytes(virtio: Seq<(u64, u64, u32)>) -> Seq<u8> {
    seq![0x10u8] + package(scope_body(virtio))
}

/// AML PkgLength preceding `content_len` bytes of content. The encoded length includes its own
/// bytes.
pub fn aml_pkg_length(content_len: usize) -> (out: Vec<u8>)
    requires
        content_len < AML_CONTENT_LIMIT,
    ensures
        out@ == pkg_length(content_len as nat),
{
    let mut out: Vec<u8> = Vec::new();
    if content_len + 1 <= 0x3f {
        out.push((content_len + 1) as u8);
        return out;
    }
    let extra: usize = if content_len + 2 < 0x1000 {
        1
    } else if content_len + 3 < 0x10_0000 {
        2
    } else {
        3
    };
    let total: usize = content_len + 1 + extra;
    out.push((0x40 * extra + total % 16) as u8);
    let ghost lead = out@;
    let ghost all = le32((total / 16) as u32);
    let mut rest: usize = total / 16;
    let mut i: usize = 0;
    while i < extra
        invariant
            i <= extra <= 3,
            total / 16 < 0x100_0000,
            all == le32((total / 16) as u32),
            out@ == lead + all.take(i as int),
            i == 0 ==> rest == total / 16,
            i == 1 ==> rest == total / 16 / 0x100,
            i == 2 ==> rest == total / 16 / 0x1_0000,
        decreases extra - i,
    {
        out.push((rest % 0x100) as u8);
        assert(out@ =~= lead + all.take(i + 1));
        rest = rest / 0x100;
        i = i + 1;
    }
    out
}

/// `Name(<seg>, <encoded value>)`.
pub fn aml_name(seg: &[u8; 4], value: &[u8]) -> (out: Vec<u8>)
    ensures
        out@ == name_op(seg@, value@),
{
    let mut out: Vec<u8> = Vec::new();
    out.push(0x08);
    put_bytes(&mut out, seg.as_slice());
    put_bytes(&mut out, value);
    assert(out@ =~= name_op(seg@, value@));
    out
}

/// A string object.
pub fn aml_string(s: &str) -> (out: Vec<u8>)
    ensures
        out@ == string_bytes(encode_utf8(s@)),
{
    let mut out: Vec<u8> = Vec::new();
    out.push(0x0d);
    put_bytes(&mut out, s.as_bytes());
    out.push(0);
    assert(out@ =~= string_bytes(encode_utf8(s@)));
    out
}

/// An integer object.
pub fn aml_int(n: u64) -> (out: Vec<u8>)
    ensures
        out@ == int_bytes(n),
{
    let mut out: Vec<u8> = Vec::new();
    if n <= 1 {
        out.push(n as u8);
    } else if n <= 0xff {
        out.push(0x0a);
        out.push(n as u8);
    } else if n <= 0xffff {
        out.push(0x0b);
        put_u16(&mut out, n as u16);
    } else {
        out.push(0x0c);
        put_u32(&mut out, n as u32);
    }
    assert(out@ =~= int_bytes(n));
    out
}

/// Append `n` in upper-case hexadecimal.
fn put_hex(out: &mut Vec<u8>, n: usize)
    ensures
        final(out)@ == old(out)@ + hex(n as nat),
    decreases n,
{
    if n >= 16 {
        put_hex(out, n / 16);
    }
    let d: u8 = (n % 16) as u8;
    if d < 10 {
        out.push(0x30 + d);
    } else {
        out.push(0x41 + (d - 10));
    }
    assert(out@ =~= old(out)@ + hex(n as nat));
}

/// `16` to the power of `k`.
spec fn pow16(k: nat) -> nat
    decreases k,
{
    if k == 0 {
        1
    } else {
        16 * pow16((k - 1) as nat)
    }
}

/// A number below `16` to the power of `k` has at most `k` digits.
proof fn lemma_hex_len(n: nat, k: nat)
    requires
        k > 0,
        n < pow16(k),
    ensures
        1 <= hex(n).len() <= k,
    decreases k,
{
    if n >= 16 {
        reveal_with_fuel(pow16, 2);
        lemma_hex_len(n / 16, (k - 1) as nat);
    }
}

/// How long the parts of a device node are.
#[verifier::rlimit(40)]
pub proof fn lemma_device_len(index: nat, base: u64, size: u64, gsiv: u32)
    requires
        index <= u64::MAX,
    ensures
        crs_bytes(base, size, gsiv).len() == 23,
        buffer_bytes(crs_bytes(base, size, gsiv)).len() == 27,
        62 <= device_body(index, base, size, gsiv).len() <= 90,
{
    reveal_with_fuel(pow16, 17);
    lemma_hex_len(index, 16);
}

/// `Device(VRnn) { _HID "LNRO0005"; _UID n; _CCA 1; _CRS {mem, irq} }`: what consumers that look
/// for `LNRO0005` nodes find.
#[verifier::rlimit(40)]
pub fn aml_virtio_device(index: usize, base: u64, size: u64, gsiv: u32) -> (dev: Vec<u8>)
    ensures
        dev@ == device_bytes(index as nat, base, size, gsiv),
{
    // _CRS resource buffer: Memory32Fixed + ExtendedInterrupt + EndTag.
    let mut res: Vec<u8> = Vec::new();
    put_bytes(&mut res, [0x86, 0x09, 0x00, 0x01].as_slice());
    put_u32(&mut res, base as u32);
    put_u32(&mut res, size as u32);
    put_bytes(&mut res, [0x89, 0x06, 0x00, 0x01, 0x01].as_slice());
    put_u32(&mut res, gsiv);
    put_bytes(&mut res, [0x79, 0x00].as_slice());
    assert(res@ =~= crs_bytes(base, size, gsiv));
    proof {
        lemma_device_len(index as nat, base, size, gsiv);
    }

    // _CRS value: Buffer(len) { res }
    let mut buf_content = aml_int(res.len() as u64);
    put_bytes(&mut buf_content, res.as_slice());
    let mut crs_value: Vec<u8> = Vec::new();
    crs_value.push(0x11);
    put_bytes(&mut crs_value, aml_pkg_length(buf_content.len()).as_slice());
    put_bytes(&mut crs_value, buf_content.as_slice());
    assert(crs_value@ =~= buffer_bytes(res@));

    let mut body: Vec<u8> = Vec::new();
    body.push('V' as u8);
    body.push('R' as u8);
    if index < 16 {
        body.push('0' as u8);
    }
    put_hex(&mut body, index);
    assert(body@ =~= device_name(index as nat));
    let hid = aml_string("LNRO0005");
    proof {
        reveal_strlit("LNRO0005");
        is_ascii_chars_encode_utf8("LNRO0005"@);
        assert(encode_utf8("LNRO0005"@) =~= virtio_hid());
    }
    put_bytes(
        &mut body,
        aml_name(&['_' as u8, 'H' as u8, 'I' as u8, 'D' as u8], hid.as_slice()).as_slice(),
    );
    put_bytes(
        &mut body,
        aml_name(
            &['_' as u8, 'U' as u8, 'I' as u8, 'D' as u8],
            aml_int(index as u64).as_slice(),
        ).as_slice(),
    );
    put_bytes(
        &mut body,
        aml_name(&['_' as u8, 'C' as u8, 'C' as u8, 'A' as u8], aml_int(1).as_slice()).as_slice(),
    );
    put_bytes(
        &mut body,
        aml_name(&['_' as u8, 'C' as u8, 'R' as u8, 'S' as u8], crs_value.as_slice()).as_slice(),
    );
    assert(body@ =~= device_body(index as nat, base, size, gsiv));

    let mut dev: Vec<u8> = Vec::new();
    dev.push(0x5b);
    dev.push(0x82);
    put_bytes(&mut dev, aml_pkg_length(body.len()).as_slice());
    put_bytes(&mut dev, body.as_slice());
    reveal(device_bytes);
    assert(dev@ =~= device_bytes(index as nat, base, size, gsiv));
    dev
}

/// `Scope(\_SB_) { devices }`.
pub fn aml_scope(virtio: &Vec<(u64, u64, u32)>) -> (aml: Vec<u8>)
    requires
        scope_body(virtio@).len() < AML_CONTENT_LIMIT,
    ensures
        aml@ == scope_bytes(virtio@),
{
    let mut body: Vec<u8> = Vec::new();
    put_bytes(&mut body, [0x5c, '_' as u8, 'S' as u8, 'B' as u8, '_' as u8].as_slice());
    let ghost root = body@;
    let mut i: usize = 0;
    while i < virtio.len()
        invariant
            i <= virtio.len(),
            root == seq![0x5cu8, '_' as u8, 'S' as u8, 'B' as u8, '_' as u8],
            body@ == root + devices_bytes(virtio@, i as nat),
        decreases virtio.len() - i,
    {
        let (base, size, gsiv) = virtio[i];
        put_bytes(&mut body, aml_virtio_device(i, base, size, gsiv).as_slice());
        assert(body@ =~= root + devices_bytes(virtio@, (i + 1) as nat));
        i = i + 1;
    }
    let mut aml: Vec<u8> = Vec::new();
    aml.push(0x10);
    put_bytes(&mut aml, aml_pkg_length(body.len()).as_slice());
    put_bytes(&mut aml, body.as_slice());
    assert(aml@ =~= scope_bytes(virtio@));
    aml
}

} // verus!
