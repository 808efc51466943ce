use spatial_math::color::UniColor;
use spatial_math::types::Axis;

#[test]
fn rgb_round_trip_is_opaque() {
    let c = UniColor::from_rgb(12, 34, 56);
    assert_eq!(c.to_rgb(), (12, 34, 56));
    assert_eq!(c.to_rgba(), (12, 34, 56, 255));
}

#[test]
fn rgba_round_trip() {
    let c = UniColor::from_rgba(1, 2, 3, 4);
    assert_eq!(c.to_rgba(), (1, 2, 3, 4));
    assert_eq!(c.to_rgb(), (1, 2, 3));
}

#[test]
fn rgba_extremes() {
    assert_eq!(UniColor::from_rgba(0, 0, 0, 0).to_rgba(), (0, 0, 0, 0));
    assert_eq!(UniColor::from_rgba(255, 255, 255, 255).to_rgba(), (255, 255, 255, 255));
}

#[test]
fn from_hex_six_digits() {
    let c = UniColor::from_hex("#ff8800").unwrap();
    assert_eq!(c.to_rgba(), (255, 136, 0, 255));
    let d = UniColor::from_hex("1A2b3C").unwrap();
    assert_eq!(d.to_rgba(), (0x1a, 0x2b, 0x3c, 255));
}

#[test]
fn from_hex_three_digits_doubles_each() {
    let c = UniColor::from_hex("#f80").unwrap();
    assert_eq!(c.to_rgba(), (255, 136, 0, 255));
    let d = UniColor::from_hex("abc").unwrap();
    assert_eq!(d.to_rgb(), (0xaa, 0xbb, 0xcc));
}

#[test]
fn from_hex_strips_every_leading_hash() {
    let c = UniColor::from_hex("###123456").unwrap();
    assert_eq!(c.to_rgb(), (0x12, 0x34, 0x56));
}

#[test]
fn from_hex_plus_before_five_digits() {
    let c = UniColor::from_hex("+fffff").unwrap();
    assert_eq!(c.to_rgba(), (0x0f, 0xff, 0xff, 255));
    assert!(UniColor::from_hex("+ab").is_none());
}

#[test]
fn from_hex_rejects_bad_text() {
    assert!(UniColor::from_hex("").is_none());
    assert!(UniColor::from_hex("#").is_none());
    assert!(UniColor::from_hex("12345").is_none());
    assert!(UniColor::from_hex("1234567").is_none());
    assert!(UniColor::from_hex("#gg0000").is_none());
    assert!(UniColor::from_hex("#12 456").is_none());
    assert!(UniColor::from_hex("1#2").is_none());
    assert!(UniColor::from_hex("-12345").is_none());
}

#[test]
fn to_hex_six_lower_case_digits() {
    assert_eq!(UniColor::from_rgb(0xab, 0x01, 0xff).to_hex(), "0xab01ff");
    assert_eq!(UniColor::from_rgb(0, 0, 0).to_hex(), "0x000000");
    assert_eq!(UniColor::from_rgba(0x12, 0x34, 0x56, 0x78).to_hex(), "0x123456");
}

#[test]
fn hex_round_trip() {
    let c = UniColor::from_hex("#C0FFEE").unwrap();
    assert_eq!(c.to_hex(), "0xc0ffee");
}

#[test]
fn as_bytes_native_order() {
    let c = UniColor::from_rgba(0x0a, 0x14, 0x1e, 0x28);
    let b = c.as_bytes();
    assert_eq!(u32::from_ne_bytes(b), 0x0a14_1e28);
    assert!(b == [0x28, 0x1e, 0x14, 0x0a] || b == [0x0a, 0x14, 0x1e, 0x28]);
}

#[test]
fn midpoint_rounds_halves_up() {
    let a = UniColor::from_rgba(10, 20, 30, 40);
    let b = UniColor::from_rgba(11, 21, 31, 41);
    assert_eq!(a.midpoint(&b).to_rgba(), (11, 21, 31, 41));
    let black = UniColor::from_rgba(0, 0, 0, 0);
    let white = UniColor::from_rgba(255, 255, 255, 255);
    assert_eq!(black.midpoint(&white).to_rgba(), (128, 128, 128, 128));
    assert_eq!(white.midpoint(&white).to_rgba(), (255, 255, 255, 255));
}

#[test]
fn distance_squared_sums_channel_squares() {
    let a = UniColor::from_rgba(1, 2, 3, 4);
    let b = UniColor::from_rgba(4, 6, 3, 2);
    assert_eq!(a.distance_squared(&b), 9 + 16 + 0 + 4);
    assert_eq!(b.distance_squared(&a), 29);
    assert_eq!(a.distance_squared(&a), 0);
}

#[test]
fn distance_squared_largest() {
    let black = UniColor::from_rgba(0, 0, 0, 0);
    let white = UniColor::from_rgba(255, 255, 255, 255);
    assert_eq!(black.distance_squared(&white), 4 * 255 * 255);
}

#[test]
fn axis_values_compare() {
    let a = Axis::Y;
    let b = a;
    assert_eq!(a, b);
    assert_ne!(Axis::X, Axis::Z);
}
