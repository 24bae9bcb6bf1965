use raytracer::color::Rgb;

#[test]
fn test_pixel_from_u32() {
    let p = Rgb::from_u32(0xA0FFB0);
    assert_eq!(p.red, 0xA0);
    assert_eq!(p.green, 0xFF);
    assert_eq!(p.blue, 0xB0);
}

#[test]
fn from_u32_reads_each_channel_from_its_own_byte() {
    assert_eq!(Rgb::from_u32(0x010203), Rgb { red: 1, green: 2, blue: 3 });
    assert_eq!(Rgb::from_u32(0xFF0000), Rgb { red: 255, green: 0, blue: 0 });
    assert_eq!(Rgb::from_u32(0x00FF00), Rgb { red: 0, green: 255, blue: 0 });
    assert_eq!(Rgb::from_u32(0x0000FF), Rgb { red: 0, green: 0, blue: 255 });
}

#[test]
fn from_u32_extremes() {
    assert_eq!(Rgb::from_u32(0), Rgb { red: 0, green: 0, blue: 0 });
    assert_eq!(Rgb::from_u32(0xFFFFFF), Rgb { red: 255, green: 255, blue: 255 });
}

#[test]
fn from_u32_ignores_bits_above_the_24th() {
    assert_eq!(Rgb::from_u32(0xFFA0FFB0), Rgb::from_u32(0xA0FFB0));
    assert_eq!(Rgb::from_u32(0x0100_0000), Rgb { red: 0, green: 0, blue: 0 });
    assert_eq!(Rgb::from_u32(u32::MAX), Rgb { red: 255, green: 255, blue: 255 });
}

#[test]
fn from_u32_packs_back_to_the_low_24_bits() {
    for value in [0u32, 1, 0xA0FFB0, 0x7F_8081, 0xDEAD_BEEF, u32::MAX] {
        let c = Rgb::from_u32(value);
        let packed = (c.red as u32) << 16 | (c.green as u32) << 8 | c.blue as u32;
        assert_eq!(packed, value % 0x100_0000);
    }
}

#[test]
fn to_ppm_writes_three_numbers_each_followed_by_a_space() {
    assert_eq!(Rgb { red: 160, green: 255, blue: 176 }.to_ppm(), "160 255 176 ");
    assert_eq!(Rgb { red: 7, green: 42, blue: 100 }.to_ppm(), "7 42 100 ");
    assert_eq!(Rgb { red: 9, green: 10, blue: 99 }.to_ppm(), "9 10 99 ");
}

#[test]
fn to_ppm_writes_zero_as_one_digit() {
    assert_eq!(Rgb { red: 0, green: 0, blue: 0 }.to_ppm(), "0 0 0 ");
    assert_eq!(Rgb { red: 0, green: 200, blue: 0 }.to_ppm(), "0 200 0 ");
}

#[test]
fn to_ppm_keeps_the_order_red_green_blue() {
    assert_eq!(Rgb::from_u32(0x010203).to_ppm(), "1 2 3 ");
    assert_eq!(Rgb::from_u32(0x030201).to_ppm(), "3 2 1 ");
}

#[test]
fn to_ppm_agrees_with_std_formatting_on_every_channel_value() {
    for v in 0..=255u8 {
        let w = 255 - v;
        let c = Rgb { red: v, green: w, blue: v / 2 };
        assert_eq!(c.to_ppm(), format!("{} {} {} ", v, w, v / 2));
    }
}

#[test]
fn add_sums_channel_by_channel() {
    let a = Rgb { red: 1, green: 2, blue: 3 };
    let b = Rgb { red: 10, green: 20, blue: 30 };
    assert_eq!(a + b, Rgb { red: 11, green: 22, blue: 33 });
}

#[test]
fn add_reaches_255_without_wrapping() {
    let a = Rgb { red: 127, green: 255, blue: 0 };
    let b = Rgb { red: 128, green: 0, blue: 255 };
    assert_eq!(a + b, Rgb { red: 255, green: 255, blue: 255 });
}

#[test]
fn add_wraps_around_past_255() {
    let a = Rgb { red: 200, green: 1, blue: 255 };
    let b = Rgb { red: 100, green: 2, blue: 1 };
    assert_eq!(a + b, Rgb { red: 44, green: 3, blue: 0 });
    let white = Rgb { red: 255, green: 255, blue: 255 };
    assert_eq!(white + white, Rgb { red: 254, green: 254, blue: 254 });
}

#[test]
fn add_wraps_each_channel_on_its_own() {
    for x in [0u8, 1, 127, 128, 254, 255] {
        for y in [0u8, 1, 127, 128, 254, 255] {
            let sum = Rgb { red: x, green: y, blue: x } + Rgb { red: y, green: y, blue: 0 };
            let xy = ((x as u32 + y as u32) % 256) as u8;
            let yy = ((y as u32 + y as u32) % 256) as u8;
            assert_eq!(sum, Rgb { red: xy, green: yy, blue: x });
        }
    }
}
