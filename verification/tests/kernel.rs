use blog_os::QemuExitCode;
use blog_os::interrupts::InterruptIndex;
use blog_os::interrupts::PIC_1_OFFSET;
use blog_os::interrupts::PIC_2_OFFSET;
use blog_os::testfn;
use blog_os::vga_buffer::Color;
use blog_os::vga_buffer::Writer;

#[test]
fn qemu_exit_codes() {
    assert_eq!(QemuExitCode::Success.code(), 0x10);
    assert_eq!(QemuExitCode::Failed.code(), 0x11);
}

#[test]
fn testfn_does_nothing() {
    testfn();
}

#[test]
fn interrupt_vectors() {
    assert_eq!(PIC_1_OFFSET, 32);
    assert_eq!(PIC_2_OFFSET, 40);
    assert_eq!(InterruptIndex::Timer.as_u8(), 32);
    assert_eq!(InterruptIndex::KeyBoard.as_u8(), 33);
    assert_eq!(InterruptIndex::Timer.as_usize(), 32);
    assert_eq!(InterruptIndex::KeyBoard.as_usize(), 33);
}

#[test]
fn color_palette_numbers() {
    assert_eq!(Color::Black.as_u8(), 0);
    assert_eq!(Color::Blue.as_u8(), 1);
    assert_eq!(Color::LightGray.as_u8(), 7);
    assert_eq!(Color::Yellow.as_u8(), 14);
    assert_eq!(Color::White.as_u8(), 15);
}

#[test]
fn writer_fills_bottom_row() {
    let mut w = Writer::new(Color::Yellow, Color::Black);
    assert_eq!(w.column_position(), 0);
    w.write_byte(b'H');
    w.write_string(b"ello!");
    assert_eq!(w.column_position(), 6);
    assert_eq!(w.char_at(24, 0), b'H');
    assert_eq!(w.char_at(24, 1), b'e');
    assert_eq!(w.char_at(24, 5), b'!');
    assert_eq!(w.char_at(24, 6), b' ');
}

#[test]
fn writer_scrolls_on_newline() {
    let mut w = Writer::new(Color::White, Color::Black);
    w.write_string(b"abc\n");
    assert_eq!(w.column_position(), 0);
    // The line moved up one row; the bottom row is cleared.
    assert_eq!(w.char_at(23, 0), b'a');
    assert_eq!(w.char_at(23, 2), b'c');
    assert_eq!(w.char_at(24, 0), b' ');
    w.write_string(b"d");
    assert_eq!(w.char_at(24, 0), b'd');
}

#[test]
fn writer_wraps_long_lines() {
    let mut w = Writer::new(Color::White, Color::Black);
    for _ in 0..80 {
        w.write_byte(b'x');
    }
    assert_eq!(w.column_position(), 80);
    // The 81st character forces a scroll and lands at the left edge.
    w.write_byte(b'y');
    assert_eq!(w.column_position(), 1);
    assert_eq!(w.char_at(24, 0), b'y');
    assert_eq!(w.char_at(23, 79), b'x');
}

#[test]
fn writer_replaces_unprintable_bytes() {
    let mut w = Writer::new(Color::White, Color::Black);
    w.write_string(&[0x01, 0x9f]);
    assert_eq!(w.char_at(24, 0), 0xfe);
    assert_eq!(w.char_at(24, 1), 0xfe);
}
