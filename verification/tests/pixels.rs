use glyphflow::pixel::Pixel;
use glyphflow::pixels::{Pixels, Position, Size};

fn p(r: usize) -> Pixel {
    Pixel { r: r as u8, ..Default::default() }
}

#[test]
fn get_region() {
    let pixels = vec![
        p(0), p(1), p(2), p(3),
        p(4), p(5), p(6), p(7),
        p(8), p(9), p(10), p(11),
        p(12), p(13), p(14), p(15),
    ];
    let mut pixels = Pixels::new(pixels, Size::new(4, 4));
    let row_width = 4;
    for i in 0..row_width * 4 {
        pixels.set(i, Pixel { r: i as u8, ..Default::default() });
    }

    let region = pixels.region(Position::new(1, 1), Size::new(2, 2));

    let mut rows = region.rows().iter();
    assert_eq!(*rows.next().unwrap(), vec![p(5), p(6)].as_slice());
    assert_eq!(*rows.next().unwrap(), vec![p(9), p(10)].as_slice());
}

#[test]
fn write_region() {
    let to = vec![
        p(0), p(0), p(0), p(0),
        p(0), p(0), p(0), p(0),
        p(0), p(0), p(0), p(0),
        p(0), p(0), p(0), p(0),
    ];

    let from = vec![
        p(0), p(0), p(0), p(0),
        p(1), p(2), p(3), p(0),
        p(4), p(5), p(6), p(0),
        p(0), p(0), p(0), p(0),
    ];

    let mut to_pixels = Pixels::new(to, Size::new(4, 4));
    let from_pixels = Pixels::new(from, Size::new(4, 4));

    let position = Position::new(0, 1);
    let region = from_pixels.region(position, Size::new(3, 2));
    to_pixels.write_region(position, region);

    assert_eq!(from_pixels.as_bytes(), to_pixels.as_bytes());
}

#[test]
fn pixels_as_bytes_lists_channels_in_order() {
    let pixels = Pixels::new(vec![Pixel { r: 1, g: 2, b: 3, a: 4 }, Pixel::white()], Size::new(2, 1));
    assert_eq!(pixels.as_bytes(), vec![1, 2, 3, 4, 255, 255, 255, 255]);
}

#[test]
fn from_pixel_repeats_the_pixel() {
    let pixels = Pixels::from_pixel(Pixel::black(), Size::new(3, 2));
    assert_eq!(pixels.size(), Size::new(3, 2));
    for i in 0..6 {
        assert_eq!(*pixels.get(i), Pixel { r: 0, g: 0, b: 0, a: 255 });
    }
}

#[test]
fn insert_pixel_goes_to_its_row_and_column() {
    let mut pixels = Pixels::from_pixel(Pixel::transparent(), Size::new(3, 2));
    pixels.insert_pixel(Pixel::white(), Position::new(2, 1));
    assert_eq!(*pixels.get(5), Pixel::white());
    assert_eq!(*pixels.get(4), Pixel::transparent());
    let region = pixels.region(Position::new(2, 1), Size::new(1, 1));
    assert_eq!(*region.get(0, 0), Pixel::white());
}
