use rust_os::vga_buffer::{_print, cls, set_color, Color, ScreenWriter};

fn text(line: [u8; 80]) -> String {
    String::from_utf8(line.to_vec()).unwrap()
}

#[test]
fn test_vga_out() {
    let mut w = ScreenWriter::new();
    for i in 0..200 {
        _print(&mut w, &format!("output {}\n", i));
    }
    let line = w.get_line(1);
    assert_eq!(&line[0..10], "output 199".as_bytes());
    assert_eq!(&w.get_line(2)[0..10], "output 198".as_bytes());
    assert_eq!(&w.get_line(19)[0..10], "output 181".as_bytes());
    assert_eq!(text(w.get_line(0)), " ".repeat(80));
}

#[test]
fn starts_empty_at_the_bottom() {
    let mut w = ScreenWriter::new();
    for l in 0..20 {
        assert_eq!(text(w.get_line(l)), " ".repeat(80));
    }
    w.write(b'a');
    w.write(b'b');
    assert_eq!(&w.get_line(0)[0..3], b"ab ");
    w.new_line();
    assert_eq!(&w.get_line(1)[0..3], b"ab ");
    assert_eq!(w.get_line(0)[0], b' ');
}

#[test]
fn full_line_wraps() {
    let mut w = ScreenWriter::new();
    for _ in 0..79 {
        w.write(b'x');
    }
    assert_eq!(text(w.get_line(0)), format!("{} ", "x".repeat(79)));
    w.write(b'y');
    assert_eq!(text(w.get_line(1)), format!("{}y", "x".repeat(79)));
    assert_eq!(text(w.get_line(0)), " ".repeat(80));
    w.write(b'z');
    assert_eq!(w.get_line(0)[0], b'z');
}

#[test]
fn characters_are_cut_to_a_byte() {
    let mut w = ScreenWriter::new();
    w.write_str("a\u{e9}\u{20ac}");
    assert_eq!(&w.get_line(0)[0..4], &[b'a', 0xe9, 0xac, b' ']);
}

#[test]
fn clearing() {
    let mut w = ScreenWriter::new();
    _print(&mut w, "one\ntwo\nthree");
    assert_eq!(&w.get_line(2)[0..3], b"one");
    assert_eq!(&w.get_line(0)[0..5], b"three");
    w.clear_line(17);
    assert_eq!(text(w.get_line(2)), " ".repeat(80));
    assert_eq!(&w.get_line(1)[0..3], b"two");
    cls(&mut w);
    for l in 0..20 {
        assert_eq!(text(w.get_line(l)), " ".repeat(80));
    }
    // the cursor stays where it was
    w.write(b'!');
    assert_eq!(&w.get_line(0)[0..6], b"     !");
}

#[test]
fn colours() {
    assert_eq!(Color::Black.code(), 0);
    assert_eq!(Color::Green.code(), 2);
    assert_eq!(Color::LightGray.code(), 7);
    assert_eq!(Color::White.code(), 15);
    let mut w = ScreenWriter::new();
    set_color(&mut w, Color::Green, Color::Black, false);
    w.write(b'g');
    w.set_fg(Color::Yellow);
    w.set_bg(Color::Blue);
    w.set_blink(true);
    w.write(b'y');
    assert_eq!(&w.get_line(0)[0..2], b"gy");
}
