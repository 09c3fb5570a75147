use tileworld::bitmap::Bitmap;
use tileworld::tile_kind::Color;

fn red() -> Color {
    Color { r: 0xFF, g: 0x00, b: 0x00 }
}

fn blue() -> Color {
    Color { r: 0x00, g: 0x00, b: 0xFF }
}

#[test]
fn new_filled_paints_every_pixel() {
    let bitmap = Bitmap::new_filled(4, 3, red());
    assert_eq!(bitmap.width, 4);
    assert_eq!(bitmap.height, 3);
    for x in 0..4 {
        for y in 0..3 {
            assert_eq!(bitmap.pixel(x, y), red());
        }
    }
}

#[test]
fn fill_rect_paints_exactly_the_rectangle() {
    let mut bitmap = Bitmap::new_filled(6, 6, red());
    bitmap.fill_rect(1, 2, 3, 2, blue());
    for x in 0..6 {
        for y in 0..6 {
            let inside = (1..4).contains(&x) && (2..4).contains(&y);
            let expected = if inside { blue() } else { red() };
            assert_eq!(bitmap.pixel(x, y), expected);
        }
    }
}

#[test]
fn fill_rect_can_cover_the_whole_buffer() {
    let mut bitmap = Bitmap::new_filled(5, 5, red());
    bitmap.fill_rect(0, 0, 5, 5, blue());
    for x in 0..5 {
        for y in 0..5 {
            assert_eq!(bitmap.pixel(x, y), blue());
        }
    }
}
