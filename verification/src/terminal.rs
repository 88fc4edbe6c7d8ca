//! The attributes of the terminal that a guest's console is attached to.
//!
//! Reading the attributes from a terminal and writing them back is the caller's business; what
//! they become is decided here. They are those of Linux: the flag words, the control characters,
//! the line discipline and the speeds.

use crate::bits::bit;
use nix::sys::termios::{cfmakeraw, Termios};
use vstd::prelude::*;

verus! {

// The flags that are known; the attributes of a terminal are read and written without any others.
pub const KNOWN_INPUT: u32 = 0x7dff;
pub const KNOWN_OUTPUT: u32 = 0xffbf;
pub const KNOWN_CONTROL: u32 = 0xd00f_1fff;
pub const KNOWN_LOCAL: u32 = 0x1_dffb;

// Input flags.
pub const IGNBRK: u32 = 0x1;
pub const BRKINT: u32 = 0x2;
pub const PARMRK: u32 = 0x8;
pub const ISTRIP: u32 = 0x20;
pub const INLCR: u32 = 0x40;
pub const IGNCR: u32 = 0x80;
pub const ICRNL: u32 = 0x100;
pub const IXON: u32 = 0x400;

// Output flags.
pub const OPOST: u32 = 0x1;
pub const ONLCR: u32 = 0x4;

// Control flags.
pub const CSIZE: u32 = 0x30;
pub const CS8: u32 = 0x30;
pub const PARENB: u32 = 0x100;

// Local flags.
pub const ISIG: u32 = 0x1;
pub const ICANON: u32 = 0x2;
pub const ECHO: u32 = 0x8;
pub const ECHONL: u32 = 0x40;
pub const IEXTEN: u32 = 0x8000;

/// The attributes of a terminal.
#[derive(Copy, Clone, Debug, PartialEq, Eq)]
pub struct TermAttrs {
    pub input_flags: u32,
    pub output_flags: u32,
    pub control_flags: u32,
    pub local_flags: u32,
    pub line_discipline: u8,
    pub control_chars: [u8; 32],
    pub input_speed: u32,
    pub output_speed: u32,
}

/// The attributes that a terminal had before it was put into raw mode, to be restored.
#[must_use]
pub struct TerminalMode(pub TermAttrs);

/// What `cfmakeraw` makes of the control characters.
pub uninterp spec fn raw_control_chars(chars: Seq<u8>) -> Seq<u8>;

/// The input flags in raw mode: no break handling, no parity marks, no stripping, no translation
/// of newlines and carriage returns, no flow control.
pub open spec fn raw_input(flags: u32) -> u32 {
    flags & KNOWN_INPUT & !(IGNBRK | BRKINT | PARMRK | ISTRIP | INLCR | IGNCR | ICRNL | IXON)
}

/// The output flags in raw mode: no processing.
pub open spec fn raw_output(flags: u32) -> u32 {
    flags & KNOWN_OUTPUT & !OPOST
}

/// The control flags in raw mode: eight bits, no parity.
pub open spec fn raw_control(flags: u32) -> u32 {
    (flags & KNOWN_CONTROL & !(CSIZE | PARENB)) | CS8
}

/// The local flags in raw mode: no echo, no line editing, no signals.
pub open spec fn raw_local(flags: u32) -> u32 {
    flags & KNOWN_LOCAL & !(ECHO | ECHONL | ICANON | ISIG | IEXTEN)
}

/// The output flags of a console, given those of raw mode.
pub open spec fn console_output(raw: u32) -> u32 {
    raw | OPOST | ONLCR
}

/// The local flags of a console, given those of raw mode.
pub open spec fn console_local(raw: u32, handle_signals: bool) -> u32 {
    if handle_signals {
        raw | ISIG
    } else {
        raw
    }
}

/// `nix::sys::termios::cfmakeraw`, on the attributes as a `Termios`: makes the flags those of raw
/// mode as termios(3) lists them, of the flags that the crate knows, and leaves the line
/// discipline and the speeds as they are. What it does to the control characters depends on them
/// alone and has a name of its own; termios(3) does not say what it is.
#[verifier::external_body]
fn make_raw(attrs: &TermAttrs) -> (raw: TermAttrs)
    ensures
        raw.input_flags == raw_input(attrs.input_flags),
        raw.output_flags == raw_output(attrs.output_flags),
        raw.control_flags == raw_control(attrs.control_flags),
        raw.local_flags == raw_local(attrs.local_flags),
        raw.line_discipline == attrs.line_discipline,
        raw.control_chars@ == raw_control_chars(attrs.control_chars@),
        raw.input_speed == attrs.input_speed,
        raw.output_speed == attrs.output_speed,
{
    let mut termios = Termios::from(nix::libc::termios {
        c_iflag: attrs.input_flags, c_oflag: attrs.output_flags, c_cflag: attrs.control_flags,
        c_lflag: attrs.local_flags, c_line: attrs.line_discipline, c_cc: attrs.control_chars,
        c_ispeed: attrs.input_speed, c_ospeed: attrs.output_speed,
    });
    cfmakeraw(&mut termios);
    let raw = nix::libc::termios::from(termios);
    TermAttrs {
        input_flags: raw.c_iflag, output_flags: raw.c_oflag, control_flags: raw.c_cflag,
        local_flags: raw.c_lflag, line_discipline: raw.c_line, control_chars: raw.c_cc,
        input_speed: raw.c_ispeed, output_speed: raw.c_ospeed,
    }
}

/// The attributes of a guest's console, given those of raw mode.
///
/// Raw input only: raw mode also switches output processing off, and a guest whose console has no
/// tty layer to insert carriage returns then staircases across the screen. ONLCR expands the
/// guest's \n to \r\n on output; guests that already send \r\n are unaffected.
pub fn console_attrs(raw: &TermAttrs, handle_signals_by_terminal: bool) -> (attrs: TermAttrs)
    ensures
        attrs == (TermAttrs {
            output_flags: console_output(raw.output_flags),
            local_flags: console_local(raw.local_flags, handle_signals_by_terminal),
            ..*raw
        }),
{
    let mut attrs: TermAttrs = *raw;
    attrs.output_flags = attrs.output_flags | OPOST | ONLCR;
    if handle_signals_by_terminal {
        attrs.local_flags = attrs.local_flags | ISIG;
    }
    attrs
}

/// What a terminal with the attributes `attrs` is to be set to for a guest's console, and the old
/// state to be restored.
pub fn raw_mode(attrs: TermAttrs, handle_signals_by_terminal: bool) -> (modes: (
    TermAttrs,
    TerminalMode,
))
    ensures
        modes.0.input_flags == raw_input(attrs.input_flags),
        modes.0.output_flags == console_output(raw_output(attrs.output_flags)),
        modes.0.control_flags == raw_control(attrs.control_flags),
        modes.0.local_flags == console_local(
            raw_local(attrs.local_flags),
            handle_signals_by_terminal,
        ),
        modes.0.line_discipline == attrs.line_discipline,
        modes.0.control_chars@ == raw_control_chars(attrs.control_chars@),
        modes.0.input_speed == attrs.input_speed,
        modes.0.output_speed == attrs.output_speed,
        modes.1.0 == attrs,
{
    let raw = make_raw(&attrs);
    (console_attrs(&raw, handle_signals_by_terminal), TerminalMode(attrs))
}

/// A console's output is processed and its newlines are expanded, whatever the terminal did
/// before.
pub proof fn law_console_expands_newlines(output_flags: u32)
    ensures
        (raw_output(output_flags) | OPOST | ONLCR) & OPOST == OPOST,
        (raw_output(output_flags) | OPOST | ONLCR) & ONLCR == ONLCR,
{
    let raw = raw_output(output_flags);
    assert((raw | 0x1u32 | 0x4u32) & 0x1u32 == 0x1u32) by (bit_vector);
    assert((raw | 0x1u32 | 0x4u32) & 0x4u32 == 0x4u32) by (bit_vector);
}

/// A console's terminal handles signals exactly if it was asked to, and neither echoes nor edits
/// lines either way.
pub proof fn law_console_handles_signals_as_asked(local_flags: u32)
    ensures
        raw_local(local_flags) & ISIG == 0,
        (raw_local(local_flags) | ISIG) & ISIG == ISIG,
        raw_local(local_flags) & (ECHO | ICANON) == 0,
        (raw_local(local_flags) | ISIG) & (ECHO | ICANON) == 0,
{
    let f = local_flags;
    let off = 0x8u32 | 0x40u32 | 0x2u32 | 0x1u32 | 0x8000u32;
    let raw = raw_local(f);
    assert(raw == f & 0x1_dffbu32 & !off);
    assert(raw & 0x1u32 == 0 && (raw | 0x1u32) & 0x1u32 == 0x1u32 && raw & (0x8u32 | 0x2u32) == 0
        && (raw | 0x1u32) & (0x8u32 | 0x2u32) == 0) by (bit_vector)
        requires
            raw == f & 0x1_dffbu32 & !off,
            off == 0x8u32 | 0x40u32 | 0x2u32 | 0x1u32 | 0x8000u32,
    ;
}

/// Raw mode keeps these flags of a terminal, and no others: of the input flags IGNPAR, INPCK,
/// IXANY, IXOFF, IMAXBEL and IUTF8; of the output flags all known ones but OPOST; of the control
/// flags all known ones but those of size and parity, with a size of eight bits; of the local flags
/// ECHOE, ECHOK, NOFLSH, TOSTOP, ECHOCTL, ECHOPRT, ECHOKE, FLUSHO, PENDIN and EXTPROC.
pub proof fn law_raw_flags(flags: u32)
    ensures
        raw_input(flags) == flags & 0x7814,
        raw_output(flags) == flags & 0xffbe,
        raw_control(flags) == (flags & 0xd00f_1ecf) | 0x30,
        raw_local(flags) == flags & 0x1_5fb0,
{
    assert(flags & 0x7dffu32 & !(0x1u32 | 0x2u32 | 0x8u32 | 0x20u32 | 0x40u32 | 0x80u32 | 0x100u32
        | 0x400u32) == flags & 0x7814u32) by (bit_vector);
    assert(flags & 0xffbfu32 & !0x1u32 == flags & 0xffbeu32) by (bit_vector);
    assert((flags & 0xd00f_1fffu32 & !(0x30u32 | 0x100u32)) | 0x30u32 == (flags & 0xd00f_1ecfu32)
        | 0x30u32) by (bit_vector);
    assert(flags & 0x1_dffbu32 & !(0x8u32 | 0x40u32 | 0x2u32 | 0x1u32 | 0x8000u32) == flags
        & 0x1_5fb0u32) by (bit_vector);
}

/// A console has the output flags of raw mode and two more, and the local flags of raw mode and, if
/// the terminal is to handle signals, one more; every other flag is that of raw mode.
pub proof fn law_console_flags(raw: u32, handle_signals: bool, i: int)
    requires
        0 <= i < 32,
    ensures
        bit(console_output(raw), i) == (bit(raw, i) || i == 0 || i == 2),
        bit(console_local(raw, handle_signals), i) == (bit(raw, i) || (handle_signals && i == 0)),
{
    let k = i as u32;
    assert((((raw | 0x1u32 | 0x4u32) >> k) & 1u32 == 1u32) == ((raw >> k) & 1u32 == 1u32 || k == 0
        || k == 2)) by (bit_vector)
        requires
            k < 32,
    ;
    assert((((raw | 0x1u32) >> k) & 1u32 == 1u32) == ((raw >> k) & 1u32 == 1u32 || k == 0))
        by (bit_vector)
        requires
            k < 32,
    ;
}

/// What a console's terminal does, whatever it did before: input as it comes, without echo, line
/// editing, translation of newlines or flow control; output with newlines expanded; characters of
/// eight bits; signals as asked.
pub proof fn law_console(flags: u32, handle_signals: bool)
    ensures
        raw_input(flags) & 0x5eb == 0,
        console_output(raw_output(flags)) & 0x5 == 0x5,
        raw_control(flags) & 0x130 == 0x30,
        console_local(raw_local(flags), handle_signals) & 0x804a == 0,
        console_local(raw_local(flags), handle_signals) & 0x1 == if handle_signals {
            1u32
        } else {
            0
        },
{
    law_raw_flags(flags);
    assert(flags & 0x7814u32 & 0x5ebu32 == 0) by (bit_vector);
    assert(((flags & 0xffbeu32) | 0x1u32 | 0x4u32) & 0x5u32 == 0x5u32) by (bit_vector);
    assert(((flags & 0xd00f_1ecfu32) | 0x30u32) & 0x130u32 == 0x30u32) by (bit_vector);
    assert(flags & 0x1_5fb0u32 & 0x804au32 == 0 && ((flags & 0x1_5fb0u32) | 0x1u32) & 0x804au32
        == 0 && flags & 0x1_5fb0u32 & 0x1u32 == 0 && ((flags & 0x1_5fb0u32) | 0x1u32) & 0x1u32
        == 0x1u32) by (bit_vector);
}

} // verus!
