//! The loader script: what the firmware does with the blobs before it installs the tables.

use crate::bytes::{from_le32, le32, lemma_le32_round_trip, padded, put_bytes, put_u32};
use vstd::prelude::*;
use vstd::utf8::encode_utf8;

verus! {

pub const LOADER_ENTRY_SIZE: usize = 128;
pub const CMD_ALLOCATE: u32 = 1;
pub const CMD_ADD_POINTER: u32 = 2;
pub const CMD_ADD_CHECKSUM: u32 = 3;
pub const ZONE_HIGH: u8 = 1;
pub const ZONE_FSEG: u8 = 2;

/// Size of a file name field; shorter names are padded with zeros.
pub const FNAME_SIZE: usize = 56;

/// A command of the script.
pub enum Command {
    /// Place `file` in guest memory, at a multiple of `align`.
    Allocate { file: Seq<u8>, align: u32, zone: u8 },
    /// Add the address of `pointee_file` to the 64-bit number at `offset` of `pointer_file`.
    AddPointer { pointer_file: Seq<u8>, pointee_file: Seq<u8>, offset: u32 },
    /// Store the checksum of `len` bytes from `start` of `file` at `result_offset`.
    AddChecksum { file: Seq<u8>, result_offset: u32, start: u32, len: u32 },
}

/// A file name field.
pub open spec fn fname_bytes(name: Seq<u8>) -> Seq<u8> {
    padded(name, FNAME_SIZE as nat)
}

/// A command as the script spells it.
#[verifier::opaque]
pub open spec fn entry_bytes(command: Command) -> Seq<u8> {
    padded(
        match command {
            Command::Allocate { file, align, zone } => le32(CMD_ALLOCATE) + fname_bytes(file)
                + le32(align) + seq![zone],
            Command::AddPointer { pointer_file, pointee_file, offset } => le32(CMD_ADD_POINTER)
                + fname_bytes(pointer_file) + fname_bytes(pointee_file) + le32(offset) + seq![8u8],
            Command::AddChecksum { file, result_offset, start, len } => le32(CMD_ADD_CHECKSUM)
                + fname_bytes(file) + le32(result_offset) + le32(start) + le32(len),
        },
        LOADER_ENTRY_SIZE as nat,
    )
}

/// A whole script.
pub open spec fn script_bytes(commands: Seq<Command>) -> Seq<u8>
    decreases commands.len(),
{
    if commands.len() == 0 {
        seq![]
    } else {
        script_bytes(commands.drop_last()) + entry_bytes(commands.last())
    }
}

/// The file name field of `name`.
pub fn fname(name: &str) -> (f: [u8; 56])
    requires
        encode_utf8(name@).len() <= FNAME_SIZE,
    ensures
        f@ == fname_bytes(encode_utf8(name@)),
{
    let bytes = name.as_bytes();
    let mut f: [u8; 56] = [0u8; 56];
    let mut i: usize = 0;
    while i < bytes.len()
        invariant
            i <= bytes.len() <= 56,
            f@ == padded(bytes@.take(i as int), 56),
        decreases bytes.len() - i,
    {
        f[i] = bytes[i];
        assert(f@ =~= padded(bytes@.take(i + 1), 56));
        i = i + 1;
    }
    assert(bytes@.take(i as int) =~= bytes@);
    f
}

/// Append `e` as an entry.
fn put_entry(out: &mut Vec<u8>, e: Vec<u8>)
    requires
        e@.len() <= LOADER_ENTRY_SIZE,
    ensures
        final(out)@ == old(out)@ + padded(e@, LOADER_ENTRY_SIZE as nat),
{
    let ghost start = e@;
    let mut e = e;
    e.resize(LOADER_ENTRY_SIZE, 0);
    assert(e@ =~= padded(start, LOADER_ENTRY_SIZE as nat));
    put_bytes(out, e.as_slice());
}

/// Append an ALLOCATE command.
pub fn loader_allocate(out: &mut Vec<u8>, file: &str, align: u32, zone: u8)
    requires
        encode_utf8(file@).len() <= FNAME_SIZE,
    ensures
        final(out)@ == old(out)@ + entry_bytes(
            Command::Allocate { file: encode_utf8(file@), align, zone },
        ),
{
    let mut e: Vec<u8> = Vec::new();
    put_u32(&mut e, CMD_ALLOCATE);
    put_bytes(&mut e, fname(file).as_slice());
    put_u32(&mut e, align);
    e.push(zone);
    assert(e@ =~= le32(CMD_ALLOCATE) + fname_bytes(encode_utf8(file@)) + le32(align) + seq![zone]);
    reveal(entry_bytes);
    put_entry(out, e);
}

/// Append an ADD_POINTER command. All pointers are 64-bit.
pub fn loader_add_pointer(out: &mut Vec<u8>, pointer_file: &str, pointee_file: &str, offset: u32)
    requires
        encode_utf8(pointer_file@).len() <= FNAME_SIZE,
        encode_utf8(pointee_file@).len() <= FNAME_SIZE,
    ensures
        final(out)@ == old(out)@ + entry_bytes(
            Command::AddPointer {
                pointer_file: encode_utf8(pointer_file@),
                pointee_file: encode_utf8(pointee_file@),
                offset,
            },
        ),
{
    let mut e: Vec<u8> = Vec::new();
    put_u32(&mut e, CMD_ADD_POINTER);
    put_bytes(&mut e, fname(pointer_file).as_slice());
    put_bytes(&mut e, fname(pointee_file).as_slice());
    put_u32(&mut e, offset);
    e.push(8);
    assert(e@ =~= le32(CMD_ADD_POINTER) + fname_bytes(encode_utf8(pointer_file@)) + fname_bytes(
        encode_utf8(pointee_file@),
    ) + le32(offset) + seq![8u8]);
    reveal(entry_bytes);
    put_entry(out, e);
}

/// Append an ADD_CHECKSUM command.
pub fn loader_add_checksum(
    out: &mut Vec<u8>,
    file: &str,
    result_offset: u32,
    start: u32,
    len: u32,
)
    requires
        encode_utf8(file@).len() <= FNAME_SIZE,
    ensures
        final(out)@ == old(out)@ + entry_bytes(
            Command::AddChecksum { file: encode_utf8(file@), result_offset, start, len },
        ),
{
    let mut e: Vec<u8> = Vec::new();
    put_u32(&mut e, CMD_ADD_CHECKSUM);
    put_bytes(&mut e, fname(file).as_slice());
    put_u32(&mut e, result_offset);
    put_u32(&mut e, start);
    put_u32(&mut e, len);
    assert(e@ =~= le32(CMD_ADD_CHECKSUM) + fname_bytes(encode_utf8(file@)) + le32(result_offset)
        + le32(start) + le32(len));
    reveal(entry_bytes);
    put_entry(out, e);
}

/// Whether the file names of a command fit their fields.
pub open spec fn names_fit(command: Command) -> bool {
    match command {
        Command::Allocate { file, .. } => file.len() <= FNAME_SIZE,
        Command::AddPointer { pointer_file, pointee_file, .. } => pointer_file.len()
            <= FNAME_SIZE && pointee_file.len() <= FNAME_SIZE,
        Command::AddChecksum { file, .. } => file.len() <= FNAME_SIZE,
    }
}

/// The number of a command.
pub open spec fn command_code(command: Command) -> u32 {
    match command {
        Command::Allocate { .. } => CMD_ALLOCATE,
        Command::AddPointer { .. } => CMD_ADD_POINTER,
        Command::AddChecksum { .. } => CMD_ADD_CHECKSUM,
    }
}

/// The file that a command changes.
pub open spec fn command_file(command: Command) -> Seq<u8> {
    match command {
        Command::Allocate { file, .. } => file,
        Command::AddPointer { pointer_file, .. } => pointer_file,
        Command::AddChecksum { file, .. } => file,
    }
}

/// Every entry is whole, and starts with the command's number and the name of the file that it
/// changes.
pub proof fn law_entry_starts_with_command_and_file(command: Command)
    requires
        names_fit(command),
    ensures
        entry_bytes(command).len() == LOADER_ENTRY_SIZE,
        from_le32(entry_bytes(command).take(4)) == command_code(command),
        entry_bytes(command).subrange(4, 60) == fname_bytes(command_file(command)),
{
    reveal(entry_bytes);
    lemma_le32_round_trip(command_code(command));
    assert(entry_bytes(command).take(4) =~= le32(command_code(command)));
    assert(entry_bytes(command).subrange(4, 60) =~= fname_bytes(command_file(command)));
}

/// A script is whole entries, one per command, in order.
pub proof fn law_script_is_whole_entries(commands: Seq<Command>, k: int)
    requires
        forall|i: int| 0 <= i < commands.len() ==> names_fit(#[trigger] commands[i]),
        0 <= k < commands.len(),
    ensures
        script_bytes(commands).len() == LOADER_ENTRY_SIZE * commands.len(),
        script_bytes(commands).subrange(LOADER_ENTRY_SIZE * k, LOADER_ENTRY_SIZE * (k + 1))
            == entry_bytes(commands[k]),
    decreases commands.len(),
{
    let n = commands.len() - 1;
    let rest = commands.drop_last();
    let last = entry_bytes(commands.last());
    assert(commands.last() == commands[n]);
    law_entry_starts_with_command_and_file(commands.last());
    if n > 0 {
        assert forall|i: int| 0 <= i < rest.len() implies names_fit(#[trigger] rest[i]) by {
            assert(rest[i] == commands[i]);
        }
        law_script_is_whole_entries(
            rest,
            if k < n {
                k
            } else {
                0
            },
        );
    } else {
        assert(script_bytes(rest) =~= Seq::empty());
    }
    let from = LOADER_ENTRY_SIZE * k;
    let to = LOADER_ENTRY_SIZE * (k + 1);
    if k < n {
        assert(script_bytes(commands).subrange(from, to) =~= script_bytes(rest).subrange(from, to));
    } else {
        assert(script_bytes(commands).subrange(from, to) =~= last);
    }
}

/// The number that the firmware reads at `at` of an entry.
pub open spec fn number_at(entry: Seq<u8>, at: int) -> int {
    from_le32(entry.subrange(at, at + 4))
}

/// Whether the firmware reads `name` from the 56-byte field at `at` of an entry: its bytes, and
/// zeros behind them.
pub open spec fn names_file(entry: Seq<u8>, at: int, name: Seq<u8>) -> bool {
    forall|j: int|
        0 <= j < 56 ==> #[trigger] entry[at + j] == if j < name.len() {
            name[j]
        } else {
            0
        }
}

/// The firmware gets every command back from its entry: the number of the command first, then the
/// file that it changes, then what the command needs, and zeros behind that.
#[verifier::rlimit(40)]
pub proof fn law_entry_decodes_to_its_command(command: Command, i: int)
    requires
        names_fit(command),
        0 <= i < 128,
    ensures
        ({
            let entry = entry_bytes(command);
            &&& entry.len() == 128
            &&& match command {
                Command::Allocate { file, align, zone } => {
                    &&& number_at(entry, 0) == 1
                    &&& names_file(entry, 4, file)
                    &&& number_at(entry, 60) == align
                    &&& entry[64] == zone
                    &&& i >= 65 ==> entry[i] == 0
                },
                Command::AddPointer { pointer_file, pointee_file, offset } => {
                    &&& number_at(entry, 0) == 2
                    &&& names_file(entry, 4, pointer_file)
                    &&& names_file(entry, 60, pointee_file)
                    &&& number_at(entry, 116) == offset
                    &&& entry[120] == 8
                    &&& i >= 121 ==> entry[i] == 0
                },
                Command::AddChecksum { file, result_offset, start, len } => {
                    &&& number_at(entry, 0) == 3
                    &&& names_file(entry, 4, file)
                    &&& number_at(entry, 60) == result_offset
                    &&& number_at(entry, 64) == start
                    &&& number_at(entry, 68) == len
                    &&& i >= 72 ==> entry[i] == 0
                },
            }
        }),
{
    reveal(entry_bytes);
    let entry = entry_bytes(command);
    match command {
        Command::Allocate { file, align, zone } => {
            assert(entry.subrange(0, 4) =~= le32(CMD_ALLOCATE));
            assert(entry.subrange(60, 64) =~= le32(align));
            lemma_le32_round_trip(CMD_ALLOCATE);
            lemma_le32_round_trip(align);
        },
        Command::AddPointer { pointer_file, pointee_file, offset } => {
            assert(entry.subrange(0, 4) =~= le32(CMD_ADD_POINTER));
            assert(entry.subrange(116, 120) =~= le32(offset));
            lemma_le32_round_trip(CMD_ADD_POINTER);
            lemma_le32_round_trip(offset);
        },
        Command::AddChecksum { file, result_offset, start, len } => {
            assert(entry.subrange(0, 4) =~= le32(CMD_ADD_CHECKSUM));
            assert(entry.subrange(60, 64) =~= le32(result_offset));
            assert(entry.subrange(64, 68) =~= le32(start));
            assert(entry.subrange(68, 72) =~= le32(len));
            lemma_le32_round_trip(CMD_ADD_CHECKSUM);
            lemma_le32_round_trip(result_offset);
            lemma_le32_round_trip(start);
            lemma_le32_round_trip(len);
        },
    }
}

} // verus!
