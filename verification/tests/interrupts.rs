use rust_os::gdt::{kernel_segs, selector, set_usermode_segs};
use rust_os::interrupts::{installed, setup_idt, Handlers, IDTEntry, Key, KeyBuffer, VectorAction};
use rust_os::keyboard::{classify, Decoded, Echo, KeyboardState};
use rust_os::port::{end_of_interrupt, init_pics, Pic, PicPair, Port, PortWrite};
use rust_os::userspace::{exit_qemu, QemuExitCode};

fn handlers() -> Handlers {
    Handlers {
        div_by_zero: 0xffff_8000_0010_0000,
        breakpoint: 0xffff_8000_0010_0300,
        double_fault: 0xffff_8000_0010_0800,
        gpf: 0xffff_8000_0010_0d00,
        page_fault: 0xffff_8000_0010_0e00,
        timer: 0xffff_8000_0010_2000,
        keyboard: 0xffff_8000_0010_2100,
        ide: 0x1234_5678_9abc_def0,
    }
}

fn byte(port: u16, value: u8) -> PortWrite {
    PortWrite { port, width: 1, value: value as u32 }
}

#[test]
fn selectors() {
    assert_eq!(kernel_segs(), (8, 16));
    assert_eq!(set_usermode_segs(), (51, 43));
    assert_eq!(selector(3, 0), 24);
}

#[test]
fn descriptor_of_a_handler() {
    let e = IDTEntry::new(0x1234_5678_9abc_def0, 8, 0, true, 0);
    assert_eq!(e.handler_low, 0xdef0);
    assert_eq!(e.handler_mid, 0x9abc);
    assert_eq!(e.handler_hi, 0x1234_5678);
    assert_eq!(e.gdt_selector, 8);
    assert_eq!(e.options, 0x8e00);
    assert_eq!(e.reserved, 0);
    assert_eq!(e.to_words(), (0x9abc_8e00_0008_def0, 0x1234_5678));
}

#[test]
fn descriptor_options() {
    assert_eq!(IDTEntry::new(0, 8, 1, true, 0).options, 0x8e01);
    assert_eq!(IDTEntry::new(0, 8, 0, false, 0).options, 0x8f00);
    assert_eq!(IDTEntry::new(0, 8, 0, true, 3).options, 0xee00);
    assert_eq!(IDTEntry::new(0, 8, 9, true, 7).options, 0xee01);
    assert_eq!(IDTEntry::empty(8).options, 0);
    assert_eq!(IDTEntry::empty(8).to_words(), (0x8_0000, 0));
}

#[test]
fn installed_vectors() {
    let idt = setup_idt(&handlers(), 8);
    assert_eq!(idt.limit(), 4095);
    let present: Vec<usize> = (0..256).filter(|&v| idt.0[v].options & 0x8000 != 0).collect();
    assert_eq!(present, vec![0, 3, 8, 13, 14, 32, 33, 46]);
    for v in 0..256 {
        assert_eq!(idt.0[v].gdt_selector, 8);
        if v != 8 {
            assert_eq!(idt.0[v].options & 7, 0);
        }
    }
    assert_eq!(idt.0[32], IDTEntry::new(handlers().timer, 8, 0, true, 0));
    assert_eq!(idt.0[46].handler_hi, 0x1234_5678);
    assert_eq!(idt.0[1], IDTEntry::empty(8));
}

#[test]
fn double_fault_containment() {
    let idt = setup_idt(&handlers(), 8);
    assert_eq!(idt.0[8].options & 7, 1);
    assert_eq!(idt.0[8].options, 0x8e01);
    assert_eq!(
        installed(&handlers(), 8),
        Some((handlers().double_fault, 1, VectorAction::LogAndHalt))
    );
    assert_eq!(installed(&handlers(), 14).unwrap().2, VectorAction::LogAndHalt);
    assert_eq!(installed(&handlers(), 13).unwrap().2, VectorAction::LogAndHalt);
    assert_eq!(installed(&handlers(), 0).unwrap().2, VectorAction::LogAndContinue);
    assert_eq!(installed(&handlers(), 3).unwrap().2, VectorAction::LogAndContinue);
    assert_eq!(installed(&handlers(), 32).unwrap().2, VectorAction::SwitchTask);
    assert_eq!(installed(&handlers(), 33).unwrap().2, VectorAction::ReadKey);
    assert_eq!(installed(&handlers(), 46).unwrap().2, VectorAction::EoiOnly);
    assert_eq!(installed(&handlers(), 47), None);
}

#[test]
fn end_of_interrupt_goes_to_the_slave_for_its_vectors() {
    assert_eq!(end_of_interrupt(32), vec![byte(0x20, 0x20)]);
    assert_eq!(end_of_interrupt(39), vec![byte(0x20, 0x20)]);
    assert_eq!(end_of_interrupt(40), vec![byte(0xA0, 0x20), byte(0x20, 0x20)]);
    assert_eq!(end_of_interrupt(46), vec![byte(0xA0, 0x20), byte(0x20, 0x20)]);
    assert_eq!(end_of_interrupt(47), vec![byte(0xA0, 0x20), byte(0x20, 0x20)]);
    assert_eq!(end_of_interrupt(48), vec![byte(0x20, 0x20)]);
    assert_eq!(end_of_interrupt(0), vec![byte(0x20, 0x20)]);
}

#[test]
fn typed_ports() {
    let p: Port<u16> = Port::new(0x1f0);
    assert_eq!(p.write(0xbeef), PortWrite { port: 0x1f0, width: 2, value: 0xbeef });
    let p: Port<u32> = Port::new(0xf4);
    assert_eq!(p.write(0x11), PortWrite { port: 0xf4, width: 4, value: 0x11 });
    assert_eq!(exit_qemu(QemuExitCode::Failed), PortWrite { port: 0xf4, width: 4, value: 0x11 });
    assert_eq!(exit_qemu(QemuExitCode::Success).value, 0x10);
}

#[test]
fn programming_the_controllers() {
    let w = init_pics(0xb8, 0x8e);
    assert_eq!(w.len(), 18);
    assert_eq!(w[0], byte(0x20, 0x11));
    assert_eq!(w[1], byte(0x11, 0));
    assert_eq!(w[2], byte(0xA0, 0x11));
    assert_eq!(w[4], byte(0x21, 0x20));
    assert_eq!(w[6], byte(0xA1, 0x28));
    assert_eq!(w[8], byte(0x21, 4));
    assert_eq!(w[10], byte(0xA1, 2));
    assert_eq!(w[12], byte(0x21, 1));
    assert_eq!(w[14], byte(0xA1, 1));
    assert_eq!(w[16], byte(0x21, 0xb8));
    assert_eq!(w[17], byte(0xA1, 0x8e));
}

#[test]
fn programming_twice_is_programming_once() {
    let start = Pic { awaiting: 0, wants_mode: false, offset: 8, cascade: 0, mode: 0, mask: 0xb8 };
    let mut pics = PicPair { master: start, slave: Pic { offset: 0x70, mask: 0x8e, ..start } };
    pics.run(&init_pics(pics.master.mask, pics.slave.mask));
    let once = pics;
    assert_eq!(once.master.offset, 32);
    assert_eq!(once.slave.offset, 40);
    assert_eq!(once.master.cascade, 4);
    assert_eq!(once.slave.cascade, 2);
    assert_eq!(once.master.mask, 0xb8);
    assert_eq!(once.slave.mask, 0x8e);
    assert_eq!(once.master.awaiting, 0);
    pics.run(&init_pics(pics.master.mask, pics.slave.mask));
    assert_eq!(pics, once);
    // an end of interrupt programs nothing
    pics.run(&end_of_interrupt(46));
    assert_eq!(pics, once);
}

#[test]
fn keys_become_lines() {
    let mut b = KeyBuffer::new();
    let mut stdin = None;
    assert_eq!(b.on_key(Key::Unicode('l'), &mut stdin), Some('l'));
    assert_eq!(b.on_key(Key::Raw, &mut stdin), None);
    assert_eq!(b.on_key(Key::Unicode('s'), &mut stdin), Some('s'));
    assert_eq!(b.on_key(Key::Unicode('\u{20ac}'), &mut stdin), Some('\u{20ac}'));
    assert_eq!(stdin, None);
    assert_eq!(b.on_key(Key::Enter, &mut stdin), None);
    assert_eq!(stdin, Some(vec![b'l', b's', 0xac]));
    assert_eq!(b.keys, Vec::<u8>::new());
    assert_eq!(b.on_key(Key::Unicode('x'), &mut stdin), Some('x'));
    assert_eq!(stdin, Some(vec![b'l', b's', 0xac]));
    assert_eq!(b.on_key(Key::Enter, &mut stdin), None);
    assert_eq!(stdin, Some(vec![b'x']));
    assert_eq!(b.on_key(Key::Enter, &mut stdin), None);
    assert_eq!(stdin, Some(vec![]));
}

fn shown(echo: Option<Echo>) -> String {
    match echo {
        Some(Echo::Char(c)) => format!("{}", c),
        Some(Echo::Key(code)) => format!("<{:?}>", code),
        None => String::new(),
    }
}

#[test]
fn scancodes_become_lines() {
    let mut k = KeyboardState::new();
    let mut stdin = None;
    // h down, h up, left shift down, i down, i up, left shift up
    assert_eq!(shown(k.on_scancode(0x23, &mut stdin)), "h");
    assert_eq!(shown(k.on_scancode(0xa3, &mut stdin)), "");
    assert_eq!(shown(k.on_scancode(0x2a, &mut stdin)), "");
    assert_eq!(shown(k.on_scancode(0x17, &mut stdin)), "I");
    assert_eq!(shown(k.on_scancode(0x97, &mut stdin)), "");
    assert_eq!(shown(k.on_scancode(0xaa, &mut stdin)), "");
    // F1 is shown by name and is no part of the line
    assert_eq!(shown(k.on_scancode(0x3b, &mut stdin)), "<F1>");
    assert_eq!(shown(k.on_scancode(0xbb, &mut stdin)), "");
    assert_eq!(stdin, None);
    // Enter
    assert_eq!(shown(k.on_scancode(0x1c, &mut stdin)), "");
    assert_eq!(stdin, Some(vec![b'h', b'I']));
    assert_eq!(shown(k.on_scancode(0x9c, &mut stdin)), "");
    assert_eq!(stdin, Some(vec![b'h', b'I']));
    assert_eq!(shown(k.on_scancode(0x1c, &mut stdin)), "");
    assert_eq!(stdin, Some(vec![]));
}

#[test]
fn decoded_keys_become_lines() {
    let mut k = KeyboardState::new();
    let mut stdin = None;
    assert_eq!(shown(k.on_decoded(Decoded::Unicode('o'), false, &mut stdin)), "o");
    // what the comparison gave counts for nothing where the key has a character
    assert_eq!(shown(k.on_decoded(Decoded::Unicode('k'), true, &mut stdin)), "k");
    let f2 = Decoded::RawKey(pc_keyboard::KeyCode::F2);
    assert_eq!(shown(k.on_decoded(f2, false, &mut stdin)), "<F2>");
    assert_eq!(stdin, None);
    let enter = Decoded::RawKey(pc_keyboard::KeyCode::Enter);
    assert_eq!(shown(k.on_decoded(enter, true, &mut stdin)), "");
    assert_eq!(stdin, Some(vec![b'o', b'k']));
    assert_eq!(shown(k.on_decoded(Decoded::Unicode('x'), false, &mut stdin)), "x");
    assert_eq!(shown(k.on_decoded(Decoded::Unicode('\n'), false, &mut stdin)), "");
    assert_eq!(stdin, Some(vec![b'x']));
    assert_eq!(classify(Decoded::Unicode('\n'), false).0, Key::Enter);
    assert_eq!(classify(Decoded::Unicode('a'), true).0, Key::Unicode('a'));
    let (key, code) = classify(Decoded::RawKey(pc_keyboard::KeyCode::F1), false);
    assert_eq!(key, Key::Raw);
    assert_eq!(code, Some(pc_keyboard::KeyCode::F1));
    let (key, code) = classify(Decoded::RawKey(pc_keyboard::KeyCode::Enter), true);
    assert_eq!(key, Key::Enter);
    assert_eq!(code, None);
}
