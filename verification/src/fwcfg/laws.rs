//! What a guest that reads the device can rely on.

use crate::bytes::{
    be16, be32, from_be16, from_be32, le32, lemma_be16_round_trip, lemma_be32_round_trip, zeros,
};
use crate::fwcfg::{
    after_add_file, after_read, after_write, empty_device, entries_bytes, entry_bytes, is_valid,
    item_size, lemma_selector_of, name_field, read_bytes, selector_for, selector_of,
    signature_bytes, FwCfgModel, DATA_OFFSET, FW_CFG_ENTRY_SIZE, FW_CFG_FILE_DIR,
    FW_CFG_FILE_FIRST, FW_CFG_FNAME_SIZE, FW_CFG_ID, FW_CFG_SIGNATURE, SELECTOR_OFFSET,
};
use vstd::prelude::*;
use vstd::utf8::encode_utf8;

verus! {

/// The device after selecting `key`.
pub open spec fn selected(m: FwCfgModel, key: u16) -> FwCfgModel {
    after_write(m, SELECTOR_OFFSET, be16(key))
}

/// Selecting an item rewinds to its start and changes nothing else.
pub proof fn law_selecting_rewinds(m: FwCfgModel, key: u16)
    ensures
        selected(m, key) == (FwCfgModel { selector: key, offset: 0, ..m }),
{
    lemma_be16_round_trip(key);
}

/// Two reads return what one read of both lengths returns, and leave the device where it would.
pub proof fn law_reads_advance(m: FwCfgModel, a: nat, b: nat)
    requires
        m.offset + a + b <= usize::MAX,
    ensures
        read_bytes(m, DATA_OFFSET, a) + read_bytes(after_read(m, DATA_OFFSET, a), DATA_OFFSET, b)
            == read_bytes(m, DATA_OFFSET, a + b),
        after_read(after_read(m, DATA_OFFSET, a), DATA_OFFSET, b) == after_read(
            m,
            DATA_OFFSET,
            a + b,
        ),
{
    assert(read_bytes(m, DATA_OFFSET, a) + read_bytes(
        after_read(m, DATA_OFFSET, a),
        DATA_OFFSET,
        b,
    ) =~= read_bytes(m, DATA_OFFSET, a + b));
}

/// Selecting an item and reading gives its bytes in order, then zeros.
pub proof fn law_selected_item_is_read_in_order(m: FwCfgModel, key: u16, extra: nat)
    requires
        m.items.contains_key(key),
    ensures
        read_bytes(selected(m, key), DATA_OFFSET, m.items[key].len() + extra) == m.items[key]
            + zeros(extra),
{
    law_selecting_rewinds(m, key);
    assert(read_bytes(selected(m, key), DATA_OFFSET, m.items[key].len() + extra)
        =~= m.items[key] + zeros(extra));
}

/// An item that is not there reads as zeros, and so does everything but the data register; neither
/// changes the device.
pub proof fn law_other_reads_are_zeros(m: FwCfgModel, offset: u64, n: nat)
    requires
        offset != DATA_OFFSET || !m.items.contains_key(m.selector),
    ensures
        read_bytes(m, offset, n) == zeros(n),
        after_read(m, offset, n) == m,
{
}

/// Writes to anything but the selector are ignored, and so are those that are not two bytes wide.
pub proof fn law_other_writes_are_ignored(m: FwCfgModel, offset: u64, data: Seq<u8>)
    requires
        offset != SELECTOR_OFFSET || data.len() != 2,
    ensures
        after_write(m, offset, data) == m,
{
}

/// Accesses of the guest keep the device valid and change neither the items nor the files.
pub proof fn law_accesses_change_no_content(m: FwCfgModel, offset: u64, n: nat, data: Seq<u8>)
    ensures
        after_read(m, offset, n).items == m.items,
        after_read(m, offset, n).files == m.files,
        after_write(m, offset, data).items == m.items,
        after_write(m, offset, data).files == m.files,
        is_valid(m) ==> is_valid(after_read(m, offset, n)) && is_valid(
            after_write(m, offset, data),
        ),
{
}

/// A file that was added is found under its name and read back; every other file, the signature
/// and the feature bitmap keep their content.
pub proof fn law_added_file_is_read_back(m: FwCfgModel, name: Seq<char>, content: Seq<u8>)
    requires
        is_valid(m),
        selector_of(m.files, name, 0) is None ==> FW_CFG_FILE_FIRST + m.files.len() <= u16::MAX,
    ensures
        ({
            let after = after_add_file(m, name, content);
            let select = selector_for(m, name);
            &&& selector_of(after.files, name, 0) == Some(select)
            &&& read_bytes(selected(after, select), DATA_OFFSET, content.len()) == content
            &&& forall|key: u16|
                key != select && key != FW_CFG_FILE_DIR && m.items.contains_key(key)
                    ==> after.items.contains_key(key) && #[trigger] after.items[key]
                    == m.items[key]
            &&& after.items[FW_CFG_SIGNATURE] == m.items[FW_CFG_SIGNATURE]
            &&& after.items[FW_CFG_ID] == m.items[FW_CFG_ID]
        }),
{
    let after = after_add_file(m, name, content);
    let select = selector_for(m, name);
    lemma_selector_of(m.files, name, 0);
    if selector_of(m.files, name, 0) is None {
        lemma_pushed_is_found(m.files, name, select, 0);
    }
    law_selected_item_is_read_in_order(after, select, 0);
    assert(content + zeros(0) =~= content);
}

/// A name that is pushed is found.
proof fn lemma_pushed_is_found(
    files: Seq<(Seq<char>, u16)>,
    name: Seq<char>,
    select: u16,
    i: nat,
)
    requires
        i <= files.len(),
        forall|k: int| i <= k < files.len() ==> (#[trigger] files[k]).0 != name,
    ensures
        selector_of(files.push((name, select)), name, i) == Some(select),
    decreases files.len() - i,
{
    if i < files.len() {
        assert(files.push((name, select))[i as int] == files[i as int]);
        lemma_pushed_is_found(files, name, select, i + 1);
    }
}

/// Replacing a file keeps its selector, and adding one leaves every other file in its place.
pub proof fn law_selectors_are_stable(m: FwCfgModel, name: Seq<char>, content: Seq<u8>, i: int)
    requires
        is_valid(m),
        0 <= i < m.files.len(),
    ensures
        after_add_file(m, name, content).files[i] == m.files[i],
        m.files[i].0 == name ==> {
            &&& selector_for(m, name) == m.files[i].1
            &&& after_add_file(m, name, content).files == m.files
        },
{
    lemma_selector_of(m.files, name, 0);
}

/// A new file goes to the end of the directory and gets the next selector.
pub proof fn law_new_file_gets_the_next_selector(m: FwCfgModel, name: Seq<char>, content: Seq<u8>)
    requires
        is_valid(m),
        FW_CFG_FILE_FIRST + m.files.len() <= u16::MAX,
        forall|i: int| 0 <= i < m.files.len() ==> (#[trigger] m.files[i]).0 != name,
    ensures
        after_add_file(m, name, content).files == m.files.push(
            (name, (FW_CFG_FILE_FIRST + m.files.len()) as u16),
        ),
{
    lemma_selector_of(m.files, name, 0);
}

/// No two files have the same selector, and none has that of a well-known item.
pub proof fn law_selectors_are_distinct(m: FwCfgModel, i: int, j: int)
    requires
        is_valid(m),
        0 <= i < m.files.len(),
        0 <= j < m.files.len(),
    ensures
        m.files[i].1 == m.files[j].1 ==> i == j,
        m.files[i].1 != FW_CFG_SIGNATURE,
        m.files[i].1 != FW_CFG_ID,
        m.files[i].1 != FW_CFG_FILE_DIR,
{
}

/// Entry `i` of a directory.
pub open spec fn dir_entry(dir: Seq<u8>, i: int) -> Seq<u8> {
    dir.subrange(4 + FW_CFG_ENTRY_SIZE * i, 4 + FW_CFG_ENTRY_SIZE * (i + 1))
}

/// The entries are one behind the other.
proof fn lemma_entries(m: FwCfgModel, n: nat, i: int)
    requires
        is_valid(m),
        n <= m.files.len(),
        0 <= i < n,
    ensures
        entries_bytes(m.items, m.files, n).len() == FW_CFG_ENTRY_SIZE * n,
        entries_bytes(m.items, m.files, n).subrange(
            FW_CFG_ENTRY_SIZE * i,
            FW_CFG_ENTRY_SIZE * (i + 1),
        ) == entry_bytes(item_size(m.items, m.files[i].1), m.files[i].1, m.files[i].0),
    decreases n,
{
    let k = (n - 1) as nat;
    let rest = entries_bytes(m.items, m.files, k);
    let (name, select) = m.files[n - 1];
    let last = entry_bytes(item_size(m.items, select), select, name);
    let all = entries_bytes(m.items, m.files, n);
    let from = FW_CFG_ENTRY_SIZE * i;
    let to = FW_CFG_ENTRY_SIZE * (i + 1);
    assert(encode_utf8(name).len() < FW_CFG_FNAME_SIZE);
    assert(last.len() == FW_CFG_ENTRY_SIZE);
    if k > 0 {
        lemma_entries(
            m,
            k,
            if i < k {
                i
            } else {
                0
            },
        );
    } else {
        assert(rest =~= Seq::empty());
    }
    if i < k {
        assert(all.subrange(from, to) =~= rest.subrange(from, to));
    } else {
        assert(all.subrange(from, to) =~= last);
    }
}

/// The directory states how many files there are and has an entry for each, in order: size and
/// selector big-endian, then the padded name.
pub proof fn law_directory_lists_every_file(m: FwCfgModel, i: int)
    requires
        is_valid(m),
        0 <= i < m.files.len(),
    ensures
        ({
            let dir = m.items[FW_CFG_FILE_DIR];
            let entry = dir_entry(dir, i);
            &&& dir.len() == 4 + FW_CFG_ENTRY_SIZE * m.files.len()
            &&& from_be32(dir.take(4)) == m.files.len()
            &&& from_be32(entry.take(4)) == item_size(m.items, m.files[i].1)
            &&& from_be16(entry.subrange(4, 6)) == m.files[i].1
            &&& entry.subrange(8, 64) == name_field(m.files[i].0)
        }),
{
    let dir = m.items[FW_CFG_FILE_DIR];
    let entry = dir_entry(dir, i);
    let (name, select) = m.files[i];
    let size = item_size(m.items, select);
    lemma_entries(m, m.files.len(), i);
    let entries = entries_bytes(m.items, m.files, m.files.len());
    assert(dir =~= be32(m.files.len() as u32) + entries);
    assert(dir.take(4) =~= be32(m.files.len() as u32));
    lemma_be32_round_trip(m.files.len() as u32);
    assert(entry =~= entries.subrange(FW_CFG_ENTRY_SIZE * i, FW_CFG_ENTRY_SIZE * (i + 1)));
    assert(entry == entry_bytes(size, select, name));
    assert(entry.take(4) =~= be32(size));
    lemma_be32_round_trip(size);
    assert(entry.subrange(4, 6) =~= be16(select));
    lemma_be16_round_trip(select);
    assert(entry.subrange(8, 64) =~= name_field(name));
}

/// A guest that writes the selector bytes of a directory entry back to the device and reads as
/// many bytes as the entry states gets the file.
pub proof fn law_directory_leads_to_every_file(m: FwCfgModel, i: int)
    requires
        is_valid(m),
        0 <= i < m.files.len(),
        m.items[m.files[i].1].len() <= u32::MAX,
    ensures
        ({
            let entry = dir_entry(m.items[FW_CFG_FILE_DIR], i);
            let at_file = after_write(m, SELECTOR_OFFSET, entry.subrange(4, 6));
            read_bytes(at_file, DATA_OFFSET, from_be32(entry.take(4)) as nat)
                == m.items[m.files[i].1]
        }),
{
    let item = m.items[m.files[i].1];
    law_directory_lists_every_file(m, i);
    law_selected_item_is_read_in_order(m, m.files[i].1, 0);
    assert(item + zeros(0) =~= item);
}

/// A new device has the signature selected, and three items: the signature, a feature word with
/// the traditional interface alone, and an empty directory.
pub proof fn law_empty_device(key: u16)
    ensures
        ({
            let m = empty_device();
            &&& m.selector == 0
            &&& m.offset == 0
            &&& m.files.len() == 0
            &&& m.items.contains_key(key) <==> key == 0 || key == 1 || key == 0x19
            &&& m.items[0] == seq![0x51u8, 0x45, 0x4d, 0x55]
            &&& m.items[1] == seq![1u8, 0, 0, 0]
            &&& m.items[0x19] == seq![0u8, 0, 0, 0]
        }),
{
    assert(le32(1) =~= seq![1u8, 0, 0, 0]);
    assert(be32(0) =~= seq![0u8, 0, 0, 0]);
    assert(signature_bytes() =~= seq![0x51u8, 0x45, 0x4d, 0x55]);
}

/// A read of the data register returns, byte by byte, what the selected item holds from the
/// position on, and zeros past its end; it moves the position on by as much and changes nothing
/// else.
pub proof fn law_read_pops_the_next_bytes(m: FwCfgModel, n: nat, i: int)
    requires
        m.items.contains_key(m.selector),
        m.offset + n <= usize::MAX,
        0 <= i < n,
    ensures
        ({
            let item = m.items[m.selector];
            &&& read_bytes(m, 0, n).len() == n
            &&& read_bytes(m, 0, n)[i] == if m.offset + i < item.len() {
                item[m.offset + i]
            } else {
                0
            }
            &&& after_read(m, 0, n) == (FwCfgModel { offset: m.offset + n, ..m })
        }),
{
}

/// Two bytes written to the selector register, at 8, select the item whose key they spell, the high
/// byte first, and rewind; nothing else changes.
pub proof fn law_write_selects(m: FwCfgModel, high: u8, low: u8)
    ensures
        after_write(m, 8, seq![high, low]) == (FwCfgModel {
            selector: (0x100 * high + low) as u16,
            offset: 0,
            ..m
        }),
{
}

/// Adding a file leaves the selection alone, gives the file exactly its content, and touches no
/// item but that and the directory; no item disappears, and none appears but that of the file.
pub proof fn law_adding_a_file_touches_little(
    m: FwCfgModel,
    name: Seq<char>,
    content: Seq<u8>,
    key: u16,
)
    requires
        is_valid(m),
        selector_of(m.files, name, 0) is None ==> FW_CFG_FILE_FIRST + m.files.len() <= u16::MAX,
    ensures
        ({
            let after = after_add_file(m, name, content);
            let select = selector_for(m, name);
            &&& after.selector == m.selector
            &&& after.offset == m.offset
            &&& after.items[select] == content
            &&& after.items.contains_key(key) <==> m.items.contains_key(key) || key == select
            &&& key != select && key != 0x19 && m.items.contains_key(key) ==> after.items[key]
                == m.items[key]
        }),
{
    lemma_selector_of(m.files, name, 0);
}

/// A file keeps its selector if it has one, and else gets 0x20 plus the number of files there are.
pub proof fn law_selector_of_a_file(m: FwCfgModel, name: Seq<char>, i: int)
    requires
        is_valid(m),
        FW_CFG_FILE_FIRST + m.files.len() <= u16::MAX,
    ensures
        0 <= i < m.files.len() && m.files[i].0 == name ==> selector_for(m, name) == 0x20 + i,
        (forall|k: int| 0 <= k < m.files.len() ==> (#[trigger] m.files[k]).0 != name)
            ==> selector_for(m, name) == 0x20 + m.files.len(),
{
    lemma_selector_of(m.files, name, 0);
}

/// The directory byte by byte: the number of files in the first four bytes; then 64 bytes per file,
/// in the order of the selectors. Of these, four state the size of the content, two the selector,
/// two are zero, and 56 hold the name and zeros behind it. All numbers are big-endian.
pub proof fn law_directory_layout(m: FwCfgModel, i: int, j: int)
    requires
        is_valid(m),
        0 <= i < m.files.len(),
        0 <= j < 56,
    ensures
        ({
            let dir = m.items[0x19];
            let at = 4 + 64 * i;
            let (name, select) = m.files[i];
            let size = m.items[select].len();
            &&& dir.len() == 4 + 64 * m.files.len()
            &&& 0x100_0000 * dir[0] + 0x1_0000 * dir[1] + 0x100 * dir[2] + dir[3] == m.files.len()
            &&& size <= u32::MAX ==> 0x100_0000 * dir[at] + 0x1_0000 * dir[at + 1] + 0x100 * dir[at
                + 2] + dir[at + 3] == size
            &&& 0x100 * dir[at + 4] + dir[at + 5] == 0x20 + i
            &&& dir[at + 6] == 0
            &&& dir[at + 7] == 0
            &&& dir[at + 8 + j] == if j < encode_utf8(name).len() {
                encode_utf8(name)[j]
            } else {
                0
            }
        }),
{
    let dir = m.items[FW_CFG_FILE_DIR];
    let (name, select) = m.files[i];
    let size = item_size(m.items, select);
    let at = 4 + 64 * i;
    lemma_entries(m, m.files.len(), i);
    let count = be32(m.files.len() as u32);
    let entries = entries_bytes(m.items, m.files, m.files.len());
    let entry = entry_bytes(size, select, name);
    assert(entries.subrange(64 * i, 64 * (i + 1)) == entry);
    assert(dir =~= count + entries);
    assert(encode_utf8(name).len() < 56);
    assert forall|k: int| 0 <= k < 64 implies dir[at + k] == #[trigger] entry[k] by {
        assert(entries.subrange(64 * i, 64 * (i + 1))[k] == entries[64 * i + k]);
    }
    assert(forall|k: int| 0 <= k < 4 ==> dir[k] == count[k]);
    lemma_be32_round_trip(m.files.len() as u32);
    lemma_be32_round_trip(size);
    lemma_be16_round_trip(select);
    assert(entry[0] == be32(size)[0] && entry[1] == be32(size)[1] && entry[2] == be32(size)[2]
        && entry[3] == be32(size)[3]);
    assert(entry[4] == be16(select)[0] && entry[5] == be16(select)[1]);
    assert(entry[6] == be16(0)[0] && entry[7] == be16(0)[1]);
    assert(entry[8 + j] == name_field(name)[j]);
}

} // verus!
