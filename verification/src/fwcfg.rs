//! The fw_cfg device (MMIO flavor), just enough of it to hand ACPI tables to the firmware.
//!
//! The firmware finds the device through a `qemu,fw-cfg-mmio` device tree node, reads the ACPI
//! table loader script from it, and installs the tables it describes.
//!
//! Register layout:
//!
//!   base + 0  data register. Reading N bytes pops the next N bytes of the selected item, in
//!             stream order; past the end the stream is zeros.
//!   base + 8  selector, 16-bit, written big-endian. Selecting rewinds.
//!
//! There is no DMA interface: the device tree node advertises a 16-byte region, which makes the
//! guest fall back to MMIO reads.

pub mod laws;

use crate::bytes::{
    be16, be32, from_be16, le32, padded, put_bytes, put_u16_be, put_u32, put_u32_be, put_zeros,
    zeros,
};
use std::collections::BTreeMap;
use vstd::laws_cmp::group_laws_cmp;
use vstd::prelude::*;
use vstd::utf8::encode_utf8;

verus! {

broadcast use group_laws_cmp;

// Well-known selector keys.
pub const FW_CFG_SIGNATURE: u16 = 0x0000;
pub const FW_CFG_ID: u16 = 0x0001;
pub const FW_CFG_FILE_DIR: u16 = 0x0019;

/// First selector handed out to named files.
pub const FW_CFG_FILE_FIRST: u16 = 0x0020;

/// Size of a file name in a directory entry, including the NUL.
pub const FW_CFG_FNAME_SIZE: usize = 56;

/// Size of a directory entry.
pub const FW_CFG_ENTRY_SIZE: usize = 64;

pub const DATA_OFFSET: u64 = 0;
pub const SELECTOR_OFFSET: u64 = 8;

/// The device as a guest sees it: the items by key, the named files in the order they were added,
/// and where in which item the next read starts.
#[verifier::ext_equal]
pub struct FwCfgModel {
    pub items: Map<u16, Seq<u8>>,
    pub files: Seq<(Seq<char>, u16)>,
    pub selector: u16,
    pub offset: nat,
}

/// `QEMU`.
pub open spec fn signature_bytes() -> Seq<u8> {
    seq!['Q' as u8, 'E' as u8, 'M' as u8, 'U' as u8]
}

/// A file name field: the name and zeros behind it.
pub open spec fn name_field(name: Seq<char>) -> Seq<u8> {
    padded(encode_utf8(name), FW_CFG_FNAME_SIZE as nat)
}

/// A directory entry: size, selector, two reserved bytes, name.
pub open spec fn entry_bytes(size: u32, select: u16, name: Seq<char>) -> Seq<u8> {
    be32(size) + be16(select) + be16(0) + name_field(name)
}

/// The size of an item as the directory states it; an item that is not there has none.
pub open spec fn item_size(items: Map<u16, Seq<u8>>, select: u16) -> u32 {
    if items.contains_key(select) {
        items[select].len() as u32
    } else {
        0
    }
}

/// The directory entries of the first `n` files.
pub open spec fn entries_bytes(
    items: Map<u16, Seq<u8>>,
    files: Seq<(Seq<char>, u16)>,
    n: nat,
) -> Seq<u8>
    decreases n,
{
    if n == 0 {
        seq![]
    } else {
        let (name, select) = files[n - 1];
        entries_bytes(items, files, (n - 1) as nat) + entry_bytes(
            item_size(items, select),
            select,
            name,
        )
    }
}

/// The directory: how many files there are, then an entry per file.
pub open spec fn dir_bytes(items: Map<u16, Seq<u8>>, files: Seq<(Seq<char>, u16)>) -> Seq<u8> {
    be32(files.len() as u32) + entries_bytes(items, files, files.len())
}

/// The selector of the first file from `i` on that is called `name`.
pub open spec fn selector_of(files: Seq<(Seq<char>, u16)>, name: Seq<char>, i: nat) -> Option<u16>
    decreases files.len() - i,
{
    if i >= files.len() {
        None
    } else if files[i as int].0 == name {
        Some(files[i as int].1)
    } else {
        selector_of(files, name, i + 1)
    }
}

/// A selector that is found is that of a file with the name; where none is found, no file has it.
pub proof fn lemma_selector_of(files: Seq<(Seq<char>, u16)>, name: Seq<char>, i: nat)
    ensures
        selector_of(files, name, i) matches Some(select) ==> exists|k: int|
            i <= k < files.len() && #[trigger] files[k] == (name, select),
        selector_of(files, name, i) is None ==> forall|k: int|
            i <= k < files.len() ==> (#[trigger] files[k]).0 != name,
    decreases files.len() - i,
{
    if i < files.len() && files[i as int].0 != name {
        lemma_selector_of(files, name, i + 1);
    } else if i < files.len() {
        assert(files[i as int] == (name, files[i as int].1));
    }
}

/// Entries only depend on the sizes of the listed items.
proof fn lemma_entries_agree(
    items: Map<u16, Seq<u8>>,
    other: Map<u16, Seq<u8>>,
    files: Seq<(Seq<char>, u16)>,
    n: nat,
)
    requires
        n <= files.len(),
        forall|i: int|
            0 <= i < n ==> item_size(items, (#[trigger] files[i]).1) == item_size(
                other,
                files[i].1,
            ),
    ensures
        entries_bytes(items, files, n) == entries_bytes(other, files, n),
    decreases n,
{
    if n > 0 {
        lemma_entries_agree(items, other, files, (n - 1) as nat);
        assert(item_size(items, files[n - 1].1) == item_size(other, files[n - 1].1));
    }
}

/// Adding a file keeps the device valid.
proof fn lemma_added_is_valid(m: FwCfgModel, name: Seq<char>, content: Seq<u8>)
    requires
        is_valid(m),
        encode_utf8(name).len() < FW_CFG_FNAME_SIZE,
        selector_of(m.files, name, 0) is None ==> FW_CFG_FILE_FIRST + m.files.len() <= u16::MAX,
    ensures
        is_valid(after_add_file(m, name, content)),
{
    lemma_selector_of(m.files, name, 0);
    let after = after_add_file(m, name, content);
    let items = m.items.insert(selector_for(m, name), content);
    lemma_entries_agree(items, after.items, after.files, after.files.len());
}

/// The states that the device can be in: selectors are handed out in order, no two files have the
/// same name, every file has content, and the directory lists them all.
pub open spec fn is_valid(m: FwCfgModel) -> bool {
    &&& FW_CFG_FILE_FIRST + m.files.len() <= 0x1_0000
    &&& forall|i: int|
        0 <= i < m.files.len() ==> (#[trigger] m.files[i]).1 == FW_CFG_FILE_FIRST + i
            && encode_utf8(m.files[i].0).len() < FW_CFG_FNAME_SIZE && m.items.contains_key(
            m.files[i].1,
        )
    &&& forall|i: int, j: int|
        0 <= i < j < m.files.len() ==> (#[trigger] m.files[i]).0 != (#[trigger] m.files[j]).0
    &&& m.items.contains_key(FW_CFG_SIGNATURE)
    &&& m.items[FW_CFG_SIGNATURE] == signature_bytes()
    &&& m.items.contains_key(FW_CFG_ID)
    &&& m.items[FW_CFG_ID] == le32(1)
    &&& m.items.contains_key(FW_CFG_FILE_DIR)
    &&& m.items[FW_CFG_FILE_DIR] == dir_bytes(m.items, m.files)
}

/// The files after adding one called `name`: a new name gets the next selector.
pub open spec fn files_with(m: FwCfgModel, name: Seq<char>) -> Seq<(Seq<char>, u16)> {
    if selector_of(m.files, name, 0) is Some {
        m.files
    } else {
        m.files.push((name, (FW_CFG_FILE_FIRST + m.files.len()) as u16))
    }
}

/// The selector that a file called `name` has or would get.
pub open spec fn selector_for(m: FwCfgModel, name: Seq<char>) -> u16 {
    match selector_of(m.files, name, 0) {
        Some(select) => select,
        None => (FW_CFG_FILE_FIRST + m.files.len()) as u16,
    }
}

/// The device after adding or replacing a file. What is selected stays selected.
pub open spec fn after_add_file(m: FwCfgModel, name: Seq<char>, content: Seq<u8>) -> FwCfgModel {
    let items = m.items.insert(selector_for(m, name), content);
    let files = files_with(m, name);
    FwCfgModel { items: items.insert(FW_CFG_FILE_DIR, dir_bytes(items, files)), files, ..m }
}

/// `n` bytes of an item from `offset` on; past its end there are zeros.
pub open spec fn stream(item: Seq<u8>, offset: nat, n: nat) -> Seq<u8> {
    Seq::new(
        n,
        |i: int|
            if offset + i < item.len() {
                item[offset + i]
            } else {
                0u8
            },
    )
}

/// Whether a read at `offset` pops bytes of an item.
pub open spec fn pops(m: FwCfgModel, offset: u64) -> bool {
    offset == DATA_OFFSET && m.items.contains_key(m.selector)
}

/// What a read of `n` bytes at `offset` returns.
pub open spec fn read_bytes(m: FwCfgModel, offset: u64, n: nat) -> Seq<u8> {
    if pops(m, offset) {
        stream(m.items[m.selector], m.offset, n)
    } else {
        zeros(n)
    }
}

/// The position `n` bytes on; it stops at the end of the address space, which lies past the end of
/// every item.
pub open spec fn advanced(offset: nat, n: nat) -> nat {
    if offset + n <= usize::MAX {
        offset + n
    } else {
        usize::MAX as nat
    }
}

/// The device after a read of `n` bytes at `offset`.
pub open spec fn after_read(m: FwCfgModel, offset: u64, n: nat) -> FwCfgModel {
    if pops(m, offset) {
        FwCfgModel { offset: advanced(m.offset, n), ..m }
    } else {
        m
    }
}

/// The device after a write: two bytes at the selector select an item and rewind, everything else
/// is ignored.
pub open spec fn after_write(m: FwCfgModel, offset: u64, data: Seq<u8>) -> FwCfgModel {
    if offset == SELECTOR_OFFSET && data.len() == 2 {
        FwCfgModel { selector: from_be16(data) as u16, offset: 0, ..m }
    } else {
        m
    }
}

/// The device.
pub struct FwCfg {
    /// Item content by selector key.
    pub items: BTreeMap<u16, Vec<u8>>,
    /// Named files in insertion order: (name, selector).
    pub files: Vec<(String, u16)>,
    pub selector: u16,
    pub offset: usize,
}

/// The contents of the items.
pub open spec fn contents(items: Map<u16, Vec<u8>>) -> Map<u16, Seq<u8>> {
    Map::new(|key: u16| items.contains_key(key), |key: u16| items[key]@)
}

/// The names and selectors of the files.
pub open spec fn listing(files: Seq<(String, u16)>) -> Seq<(Seq<char>, u16)> {
    Seq::new(files.len(), |i: int| (files[i].0@, files[i].1))
}

impl View for FwCfg {
    type V = FwCfgModel;

    open spec fn view(&self) -> FwCfgModel {
        FwCfgModel {
            items: contents(self.items@),
            files: listing(self.files@),
            selector: self.selector,
            offset: self.offset as nat,
        }
    }
}

/// The device without files, the signature selected.
pub open spec fn empty_device() -> FwCfgModel {
    FwCfgModel {
        items: map![
            FW_CFG_SIGNATURE => signature_bytes(),
            FW_CFG_ID => le32(1),
            FW_CFG_FILE_DIR => be32(0),
        ],
        files: seq![],
        selector: 0,
        offset: 0,
    }
}

impl Default for FwCfg {
    fn default() -> (dev: Self)
        ensures
            dev.wf(),
            dev@ == empty_device(),
    {
        Self::new()
    }
}

impl FwCfg {
    pub open spec fn wf(&self) -> bool {
        is_valid(self@)
    }

    /// A device without files.
    pub fn new() -> (dev: Self)
        ensures
            dev.wf(),
            dev@ == empty_device(),
    {
        let mut items: BTreeMap<u16, Vec<u8>> = BTreeMap::new();
        let mut signature: Vec<u8> = Vec::new();
        put_bytes(&mut signature, ['Q' as u8, 'E' as u8, 'M' as u8, 'U' as u8].as_slice());
        // Feature bitmap: bit 0 = traditional interface, bit 1 = DMA (absent).
        let mut id: Vec<u8> = Vec::new();
        put_u32(&mut id, 1);
        let mut dir: Vec<u8> = Vec::new();
        put_u32_be(&mut dir, 0);
        items.insert(FW_CFG_SIGNATURE, signature);
        items.insert(FW_CFG_ID, id);
        items.insert(FW_CFG_FILE_DIR, dir);
        let dev = FwCfg { items, files: Vec::new(), selector: 0, offset: 0 };
        proof {
            assert(signature@ =~= signature_bytes());
            assert(id@ =~= le32(1));
            assert(dir@ =~= be32(0));
            assert(dev@.items =~= empty_device().items);
            assert(dev@.files =~= empty_device().files);
            assert(dir_bytes(dev@.items, dev@.files) =~= be32(0));
        }
        dev
    }

    /// Add (or replace) a named file and rebuild the directory listing.
    pub fn add_file(&mut self, name: &str, content: Vec<u8>)
        requires
            old(self).wf(),
            encode_utf8(name@).len() < FW_CFG_FNAME_SIZE,
            selector_of(old(self)@.files, name@, 0) is None ==> FW_CFG_FILE_FIRST + old(
                self,
            )@.files.len() <= u16::MAX,
        ensures
            final(self).wf(),
            final(self)@ == after_add_file(old(self)@, name@, content@),
    {
        let ghost before = self@;
        let wanted: String = name.to_string();
        let mut select: Option<u16> = None;
        let mut i: usize = 0;
        while i < self.files.len() && select.is_none()
            invariant
                i <= self.files.len(),
                self@ == before,
                wanted@ == name@,
                select is None ==> selector_of(before.files, name@, 0) == selector_of(
                    before.files,
                    name@,
                    i as nat,
                ),
                select is Some ==> selector_of(before.files, name@, 0) == select,
            decreases self.files.len() - i,
        {
            if self.files[i].0 == wanted {
                select = Some(self.files[i].1);
            }
            i = i + 1;
        }
        let select: u16 = match select {
            Some(s) => s,
            None => {
                let s: u16 = FW_CFG_FILE_FIRST + self.files.len() as u16;
                self.files.push((wanted, s));
                s
            },
        };
        let ghost added = self@;
        let ghost item = content@;
        self.items.insert(select, content);
        proof {
            assert(added.files =~= files_with(before, name@));
            assert(self@.items =~= before.items.insert(select, item));
            assert(self@.files =~= added.files);
            lemma_selector_of(before.files, name@, 0);
        }
        self.rebuild_dir();
        proof {
            lemma_added_is_valid(before, name@, item);
        }
    }

    /// The FILE_DIR item: a big-endian count, then one entry per file (size u32 BE, select u16 BE,
    /// reserved u16, NUL-padded name).
    pub fn rebuild_dir(&mut self)
        requires
            forall|i: int|
                0 <= i < old(self)@.files.len() ==> encode_utf8(
                    (#[trigger] old(self)@.files[i]).0,
                ).len() <= FW_CFG_FNAME_SIZE,
        ensures
            final(self)@ == (FwCfgModel {
                items: old(self)@.items.insert(
                    FW_CFG_FILE_DIR,
                    dir_bytes(old(self)@.items, old(self)@.files),
                ),
                ..old(self)@
            }),
    {
        let ghost m = self@;
        let mut dir: Vec<u8> = Vec::new();
        put_u32_be(&mut dir, self.files.len() as u32);
        let ghost head = dir@;
        let mut i: usize = 0;
        while i < self.files.len()
            invariant
                i <= self.files.len(),
                self@ == m,
                head == be32(m.files.len() as u32),
                dir@ == head + entries_bytes(m.items, m.files, i as nat),
                forall|k: int|
                    0 <= k < m.files.len() ==> encode_utf8((#[trigger] m.files[k]).0).len()
                        <= FW_CFG_FNAME_SIZE,
            decreases self.files.len() - i,
        {
            let select: u16 = self.files[i].1;
            let size: u32 = match self.items.get(&select) {
                Some(content) => content.len() as u32,
                None => 0,
            };
            assert(m.files[i as int] == (self.files@[i as int].0@, select));
            assert(size == item_size(m.items, select));
            put_u32_be(&mut dir, size);
            put_u16_be(&mut dir, select);
            put_u16_be(&mut dir, 0);
            let name = self.files[i].0.as_str().as_bytes();
            put_bytes(&mut dir, name);
            put_zeros(&mut dir, FW_CFG_FNAME_SIZE - name.len());
            assert(dir@ =~= head + entries_bytes(m.items, m.files, (i + 1) as nat));
            i = i + 1;
        }
        let ghost listed = dir@;
        self.items.insert(FW_CFG_FILE_DIR, dir);
        proof {
            assert(self@.items =~= m.items.insert(FW_CFG_FILE_DIR, listed));
        }
    }

    /// Read from the device's window.
    pub fn read(&mut self, _vcpuid: u64, offset: u64, data: &mut [u8])
        ensures
            final(self)@ == after_read(old(self)@, offset, old(data)@.len()),
            final(data)@ == read_bytes(old(self)@, offset, old(data)@.len()),
    {
        let n: usize = data.len();
        let ghost m = self@;
        let item: Option<&Vec<u8>> = if offset == DATA_OFFSET {
            self.items.get(&self.selector)
        } else {
            None
        };
        let start: usize = self.offset;
        let mut i: usize = 0;
        while i < n
            invariant
                i <= n,
                data@.len() == n,
                n == old(data)@.len(),
                m == old(self)@,
                start == m.offset,
                item is Some <==> pops(m, offset),
                item matches Some(content) ==> content@ == m.items[m.selector],
                data@.take(i as int) == read_bytes(m, offset, n as nat).take(i as int),
            decreases n - i,
        {
            let byte: u8 = match item {
                Some(content) => {
                    if start < content.len() && i < content.len() - start {
                        content[start + i]
                    } else {
                        0
                    }
                },
                None => 0,
            };
            data[i] = byte;
            assert(data@.take(i + 1) =~= read_bytes(m, offset, n as nat).take(i + 1));
            i = i + 1;
        }
        if item.is_some() {
            self.offset = start.saturating_add(n);
        }
        assert(data@.take(n as int) =~= data@);
        assert(read_bytes(m, offset, n as nat).take(n as int) =~= read_bytes(m, offset, n as nat));
    }

    /// Write to the device's window.
    pub fn write(&mut self, _vcpuid: u64, offset: u64, data: &[u8])
        ensures
            final(self)@ == after_write(old(self)@, offset, data@),
    {
        // Selector writes are big-endian on the bus; a 16-bit store of the byte-swapped selector
        // arrives here as [hi, lo].
        if offset == SELECTOR_OFFSET && data.len() == 2 {
            self.selector = data[0] as u16 * 0x100 + data[1] as u16;
            self.offset = 0;
        }
        // Data-register writes (legacy) are ignored.
    }
}

} // verus!
