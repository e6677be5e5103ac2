use epd_spectra::{
    Display, Display1in54, Display2in13, Display4in17, DisplayBuffer, DisplayRotation, Pixel,
    TriColor,
};

type Small = Display<2, 16, 4>;

fn planes<const V: u32, const H: u32, const N: usize>(d: &Display<V, H, N>) -> (Vec<u8>, Vec<u8>) {
    (d.get_buffer_black().to_vec(), d.get_buffer_red().to_vec())
}

#[test]
fn default_color_is_white() {
    assert_eq!(TriColor::default(), TriColor::White);
}

#[test]
fn to_rgb_table() {
    assert_eq!(TriColor::White.to_rgb(), (0xFF, 0xFF, 0xFF));
    assert_eq!(TriColor::Black.to_rgb(), (0x00, 0x00, 0x00));
    assert_eq!(TriColor::Red.to_rgb(), (0xFF, 0x00, 0x00));
}

#[test]
fn color_round_trip() {
    for c in [TriColor::White, TriColor::Black, TriColor::Red] {
        let (r, g, b) = c.to_rgb();
        assert_eq!(TriColor::from_rgb(r, g, b), c);
    }
}

#[test]
fn from_rgb_classifies_red() {
    assert_eq!(TriColor::from_rgb(200, 100, 100), TriColor::Red);
    assert_eq!(TriColor::from_rgb(86, 0, 0), TriColor::Red);
    assert_eq!(TriColor::from_rgb(255, 169, 10), TriColor::Red);
}

#[test]
fn from_rgb_chroma_threshold_is_strict() {
    assert_eq!(TriColor::from_rgb(85, 0, 0), TriColor::Black);
    assert_eq!(TriColor::from_rgb(255, 170, 170), TriColor::White);
}

#[test]
fn from_rgb_red_must_dominate() {
    assert_eq!(TriColor::from_rgb(255, 255, 0), TriColor::White);
    assert_eq!(TriColor::from_rgb(100, 0, 100), TriColor::Black);
    assert_eq!(TriColor::from_rgb(0, 255, 0), TriColor::White);
    assert_eq!(TriColor::from_rgb(0, 0, 120), TriColor::Black);
}

#[test]
fn from_rgb_brightness_threshold_is_strict() {
    assert_eq!(TriColor::from_rgb(128, 128, 128), TriColor::White);
    assert_eq!(TriColor::from_rgb(127, 127, 127), TriColor::Black);
    assert_eq!(TriColor::from_rgb(0, 0, 128), TriColor::White);
}

#[test]
fn from_monochrome_maps_on_to_black() {
    assert_eq!(TriColor::from_monochrome(true), TriColor::Black);
    assert_eq!(TriColor::from_monochrome(false), TriColor::White);
}

#[test]
fn from_raw_prefers_black() {
    assert_eq!(TriColor::from_raw(0), TriColor::White);
    assert_eq!(TriColor::from_raw(1), TriColor::Black);
    assert_eq!(TriColor::from_raw(2), TriColor::Red);
    assert_eq!(TriColor::from_raw(3), TriColor::Black);
}

#[test]
fn default_rotation_is_none() {
    assert_eq!(DisplayRotation::default(), DisplayRotation::Rotate0);
}

#[test]
fn new_display_is_white() {
    let d = Display2in13::default();
    let (black, red) = planes(&d);
    assert_eq!(black, vec![0u8; 2756]);
    assert_eq!(red, vec![0u8; 2756]);
    assert_eq!(d.rotation(), DisplayRotation::Rotate0);
}

#[test]
fn plane_lengths_of_the_panels() {
    assert_eq!(Display1in54::default().get_buffer_black().len(), 2888);
    assert_eq!(Display4in17::default().get_buffer_red().len(), 15000);
}

#[test]
fn set_rotation_keeps_planes() {
    let mut d = Small::default();
    d.write_pixel(3, 1, TriColor::Red);
    let before = planes(&d);
    d.set_rotation(DisplayRotation::Rotate180);
    assert_eq!(d.rotation(), DisplayRotation::Rotate180);
    assert_eq!(planes(&d), before);
}

#[test]
fn size_swaps_under_quarter_turns() {
    let mut d = Display2in13::default();
    assert_eq!(d.size(), (104, 212));
    d.set_rotation(DisplayRotation::Rotate90);
    assert_eq!(d.size(), (212, 104));
    d.set_rotation(DisplayRotation::Rotate180);
    assert_eq!(d.size(), (104, 212));
    d.set_rotation(DisplayRotation::Rotate270);
    assert_eq!(d.size(), (212, 104));
}

#[test]
fn write_pixel_sets_most_significant_bit_first() {
    let mut d = Display2in13::default();
    d.write_pixel(0, 0, TriColor::Black);
    assert_eq!(d.get_buffer_black()[0], 0x80);
    d.write_pixel(7, 0, TriColor::Black);
    assert_eq!(d.get_buffer_black()[0], 0x81);
    d.write_pixel(9, 1, TriColor::Red);
    assert_eq!(d.get_buffer_red()[14], 0x40);
    assert_eq!(d.get_buffer_black()[14], 0x00);
}

#[test]
fn write_pixel_colors_select_planes() {
    let mut d = Small::default();
    d.write_pixel(10, 1, TriColor::Black);
    assert_eq!(planes(&d), (vec![0, 0, 0, 0x20], vec![0, 0, 0, 0]));
    d.write_pixel(10, 1, TriColor::Red);
    assert_eq!(planes(&d), (vec![0, 0, 0, 0], vec![0, 0, 0, 0x20]));
    d.write_pixel(11, 1, TriColor::Black);
    assert_eq!(planes(&d), (vec![0, 0, 0, 0x10], vec![0, 0, 0, 0x20]));
    d.write_pixel(10, 1, TriColor::White);
    assert_eq!(planes(&d), (vec![0, 0, 0, 0x10], vec![0, 0, 0, 0]));
}

#[test]
fn write_pixel_under_rotation_90() {
    let mut d = Display2in13::default();
    d.set_rotation(DisplayRotation::Rotate90);
    d.write_pixel(0, 0, TriColor::Black);
    assert_eq!(d.get_buffer_black()[12], 0x01);
    d.write_pixel(211, 103, TriColor::Red);
    assert_eq!(d.get_buffer_red()[2743], 0x80);
}

#[test]
fn write_pixel_under_rotation_180() {
    let mut d = Display2in13::default();
    d.set_rotation(DisplayRotation::Rotate180);
    d.write_pixel(0, 0, TriColor::Black);
    assert_eq!(d.get_buffer_black()[2755], 0x01);
    d.write_pixel(103, 211, TriColor::Red);
    assert_eq!(d.get_buffer_red()[0], 0x80);
}

#[test]
fn write_pixel_under_rotation_270() {
    let mut d = Display2in13::default();
    d.set_rotation(DisplayRotation::Rotate270);
    d.write_pixel(0, 0, TriColor::Black);
    assert_eq!(d.get_buffer_black()[2743], 0x80);
    d.write_pixel(211, 103, TriColor::Red);
    assert_eq!(d.get_buffer_red()[12], 0x01);
}

#[test]
fn wide_panel_uses_its_whole_plane() {
    let mut d = Display4in17::default();
    d.write_pixel(399, 299, TriColor::Black);
    assert_eq!(d.get_buffer_black()[14999], 0x01);
    d.write_pixel(399, 300, TriColor::Black);
    d.write_pixel(400, 299, TriColor::Black);
    assert_eq!(d.get_buffer_black().iter().filter(|b| **b != 0).count(), 1);
}

#[test]
fn off_surface_writes_are_dropped() {
    for rotation in [
        DisplayRotation::Rotate0,
        DisplayRotation::Rotate90,
        DisplayRotation::Rotate180,
        DisplayRotation::Rotate270,
    ] {
        let mut d = Display2in13::default();
        d.set_rotation(rotation);
        d.write_pixel(5, 5, TriColor::Red);
        let before = planes(&d);
        let (w, h) = d.size();
        let (w, h) = (w as i32, h as i32);
        for (x, y) in [
            (-1, 0),
            (0, -1),
            (w, 0),
            (0, h),
            (w, h),
            (i32::MIN, i32::MIN),
            (i32::MAX, i32::MAX),
            (i32::MIN, 0),
            (0, i32::MAX),
        ] {
            d.write_pixel(x, y, TriColor::Black);
            assert_eq!(planes(&d), before);
        }
        d.write_pixel(w - 1, h - 1, TriColor::Black);
        assert_ne!(planes(&d), before);
    }
}

#[test]
fn planes_never_share_a_bit() {
    let mut d = Small::default();
    let colors = [TriColor::Black, TriColor::Red, TriColor::White, TriColor::Red];
    let mut n = 0usize;
    for round in 0..3 {
        for y in 0..2 {
            for x in 0..16 {
                d.write_pixel(x, y, colors[(n + round) % 4]);
                n += 3;
                let (black, red) = planes(&d);
                for i in 0..4 {
                    assert_eq!(black[i] & red[i], 0);
                }
            }
        }
    }
}

#[test]
fn writing_twice_is_writing_once() {
    for color in [TriColor::White, TriColor::Black, TriColor::Red] {
        let mut d = Small::default();
        d.write_pixel(4, 0, TriColor::Black);
        d.write_pixel(5, 0, TriColor::Red);
        d.write_pixel(5, 0, color);
        let once = planes(&d);
        d.write_pixel(5, 0, color);
        assert_eq!(planes(&d), once);
    }
}

#[test]
fn rotated_drawing_matches_drawing_the_rotated_point() {
    let points = [(0, 0), (3, 1), (1, 7), (1, 15), (15, 1), (0, 15)];
    let physical = |r: DisplayRotation, x: i32, y: i32| match r {
        DisplayRotation::Rotate0 => (x, y),
        DisplayRotation::Rotate90 => (16 - 1 - y, x),
        DisplayRotation::Rotate180 => (16 - 1 - x, 2 - 1 - y),
        DisplayRotation::Rotate270 => (y, 2 - 1 - x),
    };
    for rotation in [
        DisplayRotation::Rotate0,
        DisplayRotation::Rotate90,
        DisplayRotation::Rotate180,
        DisplayRotation::Rotate270,
    ] {
        let mut turned = Small::default();
        turned.set_rotation(rotation);
        let mut plain = Small::default();
        for (x, y) in points {
            turned.write_pixel(x, y, TriColor::Black);
            let (px, py) = physical(rotation, x, y);
            plain.write_pixel(px, py, TriColor::Black);
        }
        assert_eq!(planes(&turned), planes(&plain));
    }
}

#[test]
fn draw_iter_draws_in_order() {
    let mut d = Small::default();
    let pixels = [
        Pixel { x: 0, y: 0, color: TriColor::Black },
        Pixel { x: 1, y: 0, color: TriColor::Red },
        Pixel { x: 0, y: 0, color: TriColor::Red },
        Pixel { x: 16, y: 0, color: TriColor::Black },
        Pixel { x: 15, y: 1, color: TriColor::Black },
        Pixel { x: -1, y: 1, color: TriColor::Black },
    ];
    d.draw_iter(&pixels);
    assert_eq!(planes(&d), (vec![0, 0, 0, 0x01], vec![0xC0, 0, 0, 0]));

    let mut one_by_one = Small::default();
    for p in pixels {
        one_by_one.write_pixel(p.x, p.y, p.color);
    }
    assert_eq!(planes(&one_by_one), planes(&d));

    d.draw_iter(&[]);
    assert_eq!(planes(&d), (vec![0, 0, 0, 0x01], vec![0xC0, 0, 0, 0]));
}
