use kernel_heap::allocator::{heap_page_range, HEAP_SIZE, HEAP_START};
use kernel_heap::interrupts::{init_idt, InterruptIndex, PIC_1_OFFSET, PIC_2_OFFSET};
use kernel_heap::memory::{
    entry_frame, page_table_indices, translate_in_frame, EmptyFrameAllocator, FrameLookup,
};
use kernel_heap::vga_buffer::{
    color_value, screen_byte, Color, ColorCode, Writer, BUFFER_HEIGHT, BUFFER_WIDTH,
};

#[test]
fn heap_page_range_covers_the_region() {
    let (first, last) = heap_page_range(HEAP_START, HEAP_SIZE as u64);
    assert_eq!(first, 0x4_4444_4440);
    assert_eq!(last, 0x4_4444_4458);
    assert_eq!(last - first + 1, 25);
    let (a, b) = heap_page_range(4096, 1);
    assert_eq!(a, 1);
    assert_eq!(b, 1);
    let (c, d) = heap_page_range(4095, 2);
    assert_eq!(c, 0);
    assert_eq!(d, 1);
}

#[test]
fn interrupt_vectors_sit_behind_the_controller_offset() {
    assert_eq!(PIC_1_OFFSET, 32);
    assert_eq!(PIC_2_OFFSET, 40);
    assert_eq!(InterruptIndex::Timer.as_u8(), 32);
    assert_eq!(InterruptIndex::Keyboard.as_u8(), 33);
    assert_eq!(InterruptIndex::Timer.as_usize(), 32);
    assert_eq!(InterruptIndex::Keyboard.as_usize(), 33);
}

#[test]
fn idt_layout_is_fixed() {
    let cfg = init_idt();
    assert_eq!(cfg.breakpoint_vector, 3);
    assert_eq!(cfg.double_fault_vector, 8);
    assert_eq!(cfg.double_fault_stack_index, 0);
    assert_eq!(cfg.timer_vector, 32);
    assert_eq!(cfg.keyboard_vector, 33);
}

#[test]
fn empty_frame_allocator_never_yields() {
    let mut fa = EmptyFrameAllocator;
    assert_eq!(fa.allocate_frame(), None);
    assert_eq!(fa.allocate_frame(), None);
}

#[test]
fn page_table_indices_decompose_the_address() {
    let virt: u64 = (1u64 << 39) + (2u64 << 30) + (3u64 << 21) + (4u64 << 12) + 5;
    assert_eq!(page_table_indices(virt), (1, 2, 3, 4));
    assert_eq!(page_table_indices(0), (0, 0, 0, 0));
    let top: u64 = 0x0000_7fff_ffff_ffff;
    assert_eq!(page_table_indices(top), (255, 511, 511, 511));
}

#[test]
fn entry_frame_decodes_flags_and_base() {
    assert!(matches!(entry_frame(0), FrameLookup::NotPresent));
    assert!(matches!(entry_frame(0xabc000), FrameLookup::NotPresent));
    assert!(matches!(entry_frame(0xabc000 | 1), FrameLookup::Frame(0xabc000)));
    assert!(matches!(entry_frame(0xabc000 | 1 | (1 << 7)), FrameLookup::HugeFrame));
    // flag bits outside the frame mask do not leak into the base
    assert!(matches!(entry_frame(0xabc063), FrameLookup::Frame(0xabc000)));
}

#[test]
fn translate_in_frame_adds_the_page_offset() {
    assert_eq!(translate_in_frame(0xabc000, 0x1234), 0xabc234);
    assert_eq!(translate_in_frame(0, 0xfff), 0xfff);
}

#[test]
fn color_codes_pack_background_over_foreground() {
    assert_eq!(color_value(Color::Black), 0);
    assert_eq!(color_value(Color::White), 15);
    assert_eq!(ColorCode::new(Color::Cyan, Color::Black).value(), 3);
    assert_eq!(ColorCode::new(Color::Yellow, Color::Blue).value(), 30);
    assert_eq!(ColorCode::new(Color::White, Color::White).value(), 255);
}

#[test]
fn screen_bytes_filter_unprintable_characters() {
    assert_eq!(screen_byte(b'a'), b'a');
    assert_eq!(screen_byte(b' '), b' ');
    assert_eq!(screen_byte(0x7e), 0x7e);
    assert_eq!(screen_byte(b'\n'), b'\n');
    assert_eq!(screen_byte(0x1f), 0xfe);
    assert_eq!(screen_byte(0x7f), 0xfe);
    assert_eq!(screen_byte(0xff), 0xfe);
}

#[test]
fn writer_places_bytes_in_the_bottom_row() {
    let mut w = Writer::new(ColorCode::new(Color::Yellow, Color::Black));
    w.write_string(b"abc");
    assert_eq!(w.column(), 3);
    assert_eq!(w.cell(BUFFER_HEIGHT - 1, 0).ch, b'a');
    assert_eq!(w.cell(BUFFER_HEIGHT - 1, 1).ch, b'b');
    assert_eq!(w.cell(BUFFER_HEIGHT - 1, 2).ch, b'c');
    assert_eq!(w.cell(BUFFER_HEIGHT - 1, 3).ch, b' ');
    assert_eq!(w.cell(BUFFER_HEIGHT - 1, 0).color_code, 14);
}

#[test]
fn writer_scrolls_on_newline() {
    let mut w = Writer::new(ColorCode::new(Color::Cyan, Color::Black));
    w.write_string(b"some text that fits on a single line
");
    // after the newline the text sits one row above a blank bottom row
    assert_eq!(w.column(), 0);
    for (i, b) in b"some text that fits on a single line".iter().enumerate() {
        assert_eq!(w.cell(BUFFER_HEIGHT - 2, i).ch, *b);
    }
    assert_eq!(w.cell(BUFFER_HEIGHT - 1, 0).ch, b' ');
}

#[test]
fn writer_wraps_a_full_row() {
    let mut w = Writer::new(ColorCode::new(Color::Cyan, Color::Black));
    for _ in 0..BUFFER_WIDTH {
        w.write_byte(b'x');
    }
    assert_eq!(w.column(), BUFFER_WIDTH);
    w.write_byte(b'y');
    // the full row scrolled up and the overflowing byte started a new row
    assert_eq!(w.column(), 1);
    assert_eq!(w.cell(BUFFER_HEIGHT - 2, 0).ch, b'x');
    assert_eq!(w.cell(BUFFER_HEIGHT - 1, 0).ch, b'y');
}

#[test]
fn writer_filters_unprintable_bytes() {
    let mut w = Writer::new(ColorCode::new(Color::Cyan, Color::Black));
    w.write_string(&[b'h', 0x01, b'i']);
    assert_eq!(w.cell(BUFFER_HEIGHT - 1, 0).ch, b'h');
    assert_eq!(w.cell(BUFFER_HEIGHT - 1, 1).ch, 0xfe);
    assert_eq!(w.cell(BUFFER_HEIGHT - 1, 2).ch, b'i');
}
