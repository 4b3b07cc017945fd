use rust_os::vga_buffer::Color;
use rust_os::vga_buffer::ColorCode;
use rust_os::vga_buffer::ScreenChar;
use rust_os::vga_buffer::Writer;
use rust_os::vga_buffer::BUFFER_HEIGHT;
use rust_os::vga_buffer::BUFFER_WIDTH;

fn yellow_on_black() -> ColorCode {
    ColorCode::new(Color::Yellow, Color::Black)
}

fn row_text(writer: &Writer, row: usize) -> String {
    let mut text = String::new();
    for column in 0..BUFFER_WIDTH {
        text.push(char::from(writer.char_at(row, column).ascii_character));
    }
    text.trim_end().to_string()
}

#[test]
fn colours_have_their_numbers() {
    let colours = [
        Color::Black,
        Color::Blue,
        Color::Green,
        Color::Cyan,
        Color::Red,
        Color::Magenta,
        Color::Brown,
        Color::LightGray,
        Color::DarkGray,
        Color::LightBlue,
        Color::LightGreen,
        Color::LightCyan,
        Color::LightRed,
        Color::Pink,
        Color::Yellow,
        Color::White,
    ];
    for (number, colour) in colours.iter().enumerate() {
        assert_eq!(colour.as_u8() as usize, number);
    }
}

#[test]
fn a_colour_code_holds_background_and_foreground() {
    assert_eq!(yellow_on_black().as_u8(), 0x0e);
    assert_eq!(ColorCode::new(Color::White, Color::Blue).as_u8(), 0x1f);
    assert_eq!(ColorCode::new(Color::Black, Color::White).as_u8(), 0xf0);
    assert_eq!(ColorCode::new(Color::LightRed, Color::LightGray).as_u8(), 0x7c);
}

#[test]
fn a_new_writer_shows_a_blank_screen() {
    let writer = Writer::new(yellow_on_black());
    assert_eq!(writer.column_position(), 0);
    let blank = ScreenChar { ascii_character: b' ', color_code: yellow_on_black() };
    for row in 0..BUFFER_HEIGHT {
        for column in 0..BUFFER_WIDTH {
            assert_eq!(writer.char_at(row, column), blank);
        }
    }
}

#[test]
fn bytes_go_to_the_last_row() {
    let mut writer = Writer::new(yellow_on_black());
    writer.write_byte(b'H');
    writer.write_string("ello");
    assert_eq!(writer.column_position(), 5);
    assert_eq!(row_text(&writer, 24), "Hello");
    assert_eq!(row_text(&writer, 23), "");
    assert_eq!(
        writer.char_at(24, 0),
        ScreenChar { ascii_character: b'H', color_code: yellow_on_black() }
    );
}

#[test]
fn a_line_feed_scrolls_the_screen() {
    let mut writer = Writer::new(yellow_on_black());
    writer.write_string("one\ntwo\nthree");
    assert_eq!(row_text(&writer, 22), "one");
    assert_eq!(row_text(&writer, 23), "two");
    assert_eq!(row_text(&writer, 24), "three");
    assert_eq!(writer.column_position(), 5);
    writer.write_byte(b'\n');
    assert_eq!(row_text(&writer, 21), "one");
    assert_eq!(row_text(&writer, 24), "");
    assert_eq!(writer.column_position(), 0);
}

#[test]
fn a_full_row_wraps_to_a_new_line() {
    let mut writer = Writer::new(yellow_on_black());
    for _ in 0..80 {
        writer.write_byte(b'x');
    }
    assert_eq!(writer.column_position(), 80);
    assert_eq!(row_text(&writer, 24), "x".repeat(80));
    writer.write_byte(b'y');
    assert_eq!(writer.column_position(), 1);
    assert_eq!(row_text(&writer, 23), "x".repeat(80));
    assert_eq!(row_text(&writer, 24), "y");
}

#[test]
fn bytes_that_cannot_be_shown_become_stars() {
    let mut writer = Writer::new(yellow_on_black());
    writer.write_string("a\tb\u{7f}c~ ö");
    assert_eq!(row_text(&writer, 24), "a*b*c~ **");
}

#[test]
fn write_byte_writes_any_byte_as_it_is() {
    let mut writer = Writer::new(yellow_on_black());
    writer.write_byte(0xfe);
    writer.write_byte(0x09);
    assert_eq!(writer.char_at(24, 0).ascii_character, 0xfe);
    assert_eq!(writer.char_at(24, 1).ascii_character, 0x09);
}

#[test]
fn the_top_row_is_lost_when_the_screen_is_full() {
    let mut writer = Writer::new(yellow_on_black());
    for line in 0..30 {
        writer.write_string(&format!("line {}\n", line));
    }
    assert_eq!(row_text(&writer, 0), "line 6");
    assert_eq!(row_text(&writer, 23), "line 29");
    assert_eq!(row_text(&writer, 24), "");
}

#[test]
fn test_println_simple() {
    let mut writer = Writer::new(yellow_on_black());
    writer.write_string("test_println_simple output\n");
    assert_eq!(row_text(&writer, BUFFER_HEIGHT - 2), "test_println_simple output");
    assert_eq!(writer.column_position(), 0);
}

#[test]
fn test_println_many() {
    let mut writer = Writer::new(yellow_on_black());
    for _ in 0..200 {
        writer.write_string("test_prointln_many output\n");
    }
    for row in 0..BUFFER_HEIGHT - 1 {
        assert_eq!(row_text(&writer, row), "test_prointln_many output");
    }
    assert_eq!(row_text(&writer, BUFFER_HEIGHT - 1), "");
}

#[test]
fn test_println_outout() {
    let s = "Some test string that fits on a single line";
    let mut writer = Writer::new(yellow_on_black());
    writer.write_string("\n");
    writer.write_string(s);
    writer.write_string("\n");
    for (i, c) in s.chars().enumerate() {
        let screen_char = writer.char_at(BUFFER_HEIGHT - 2, i);
        assert_eq!(char::from(screen_char.ascii_character), c);
    }
}

#[test]
fn trivial_assertion() {
    assert_eq!(1, 1);
}
