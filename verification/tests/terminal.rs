use krun_devices::terminal::{
    console_attrs, raw_mode, TermAttrs, BRKINT, CS8, CSIZE, ECHO, ECHONL, ICANON, ICRNL, IEXTEN,
    IGNBRK, IGNCR, INLCR, ISIG, ISTRIP, IXON, KNOWN_CONTROL, KNOWN_INPUT, KNOWN_LOCAL,
    KNOWN_OUTPUT, ONLCR, OPOST, PARENB, PARMRK,
};
use nix::sys::termios::{ControlFlags, InputFlags, LocalFlags, OutputFlags};

fn attrs(flags: u32) -> TermAttrs {
    TermAttrs {
        input_flags: flags,
        output_flags: flags,
        control_flags: flags,
        local_flags: flags,
        line_discipline: 3,
        control_chars: [7; 32],
        input_speed: 13,
        output_speed: 15,
    }
}

#[test]
fn flags_are_those_of_the_system() {
    assert_eq!(KNOWN_INPUT, InputFlags::all().bits());
    assert_eq!(KNOWN_OUTPUT, OutputFlags::all().bits());
    assert_eq!(KNOWN_CONTROL, ControlFlags::all().bits());
    assert_eq!(KNOWN_LOCAL, LocalFlags::all().bits());
    assert_eq!(IGNBRK, InputFlags::IGNBRK.bits());
    assert_eq!(BRKINT, InputFlags::BRKINT.bits());
    assert_eq!(PARMRK, InputFlags::PARMRK.bits());
    assert_eq!(ISTRIP, InputFlags::ISTRIP.bits());
    assert_eq!(INLCR, InputFlags::INLCR.bits());
    assert_eq!(IGNCR, InputFlags::IGNCR.bits());
    assert_eq!(ICRNL, InputFlags::ICRNL.bits());
    assert_eq!(IXON, InputFlags::IXON.bits());
    assert_eq!(OPOST, OutputFlags::OPOST.bits());
    assert_eq!(ONLCR, OutputFlags::ONLCR.bits());
    assert_eq!(CSIZE, ControlFlags::CSIZE.bits());
    assert_eq!(CS8, ControlFlags::CS8.bits());
    assert_eq!(PARENB, ControlFlags::PARENB.bits());
    assert_eq!(ISIG, LocalFlags::ISIG.bits());
    assert_eq!(ICANON, LocalFlags::ICANON.bits());
    assert_eq!(ECHO, LocalFlags::ECHO.bits());
    assert_eq!(ECHONL, LocalFlags::ECHONL.bits());
    assert_eq!(IEXTEN, LocalFlags::IEXTEN.bits());
}

#[test]
fn raw_mode_with_everything_set() {
    let before = attrs(0xffff_ffff);
    let (new, old) = raw_mode(before, false);
    assert_eq!(new.input_flags, 0x7814);
    assert_eq!(new.output_flags, 0xffbf);
    assert_eq!(new.control_flags, 0xd00f_1eff);
    assert_eq!(new.local_flags, 0x1_5fb0);
    assert_eq!(new.line_discipline, 3);
    assert_eq!((new.input_speed, new.output_speed), (13, 15));
    assert_eq!(old.0, before);
}

#[test]
fn raw_mode_with_nothing_set() {
    let (new, old) = raw_mode(attrs(0), false);
    assert_eq!(new.input_flags, 0);
    assert_eq!(new.output_flags, OPOST | ONLCR);
    assert_eq!(new.control_flags, CS8);
    assert_eq!(new.local_flags, 0);
    assert_eq!(old.0, attrs(0));
}

#[test]
fn signals_are_handled_as_asked() {
    for flags in [0, 0xffff_ffff] {
        let (new, _old) = raw_mode(attrs(flags), true);
        assert_eq!(new.local_flags & ISIG, ISIG);
        assert_eq!(new.local_flags & (ECHO | ICANON), 0);
        let (new, _old) = raw_mode(attrs(flags), false);
        assert_eq!(new.local_flags & ISIG, 0);
    }
}

#[test]
fn every_flag_is_handled_on_its_own() {
    let off = raw_mode(attrs(0), false).0;
    let all = raw_mode(attrs(0xffff_ffff), false).0;
    for i in 0..32 {
        let (new, _old) = raw_mode(attrs(1 << i), false);
        assert_eq!(new.input_flags, all.input_flags & (1 << i) | off.input_flags);
        assert_eq!(new.output_flags, all.output_flags & (1 << i) | off.output_flags);
        assert_eq!(new.control_flags, all.control_flags & (1 << i) | off.control_flags);
        assert_eq!(new.local_flags, all.local_flags & (1 << i) | off.local_flags);
    }
}

#[test]
fn control_characters_depend_on_themselves_alone() {
    let a = raw_mode(attrs(0), false).0;
    let b = raw_mode(attrs(0xffff_ffff), true).0;
    assert_eq!(a.control_chars, b.control_chars);
    // Reads return as soon as there is one character.
    assert_eq!(a.control_chars[6], 1);
    assert_eq!(a.control_chars[5], 0);
    assert_eq!(a.control_chars[0], 7);
}

#[test]
fn console_keeps_the_other_raw_attributes() {
    let raw = attrs(0x100);
    let new = console_attrs(&raw, true);
    assert_eq!(new.output_flags, 0x105);
    assert_eq!(new.local_flags, 0x101);
    assert_eq!(new.input_flags, 0x100);
    assert_eq!(new.control_flags, 0x100);
    assert_eq!(console_attrs(&raw, false).local_flags, 0x100);
}
