use dungeon::Color;

#[test]
fn lib_test_basic() {
    let color1 = Color::new_rgb(0, 0, 0);
    assert_eq!(color1.unwrap_rgb().0, 0);
    assert_eq!(&color1.to_string()[0..1], "#");

    let color2 = Color::new_hsv(0, 0, 0);
    assert_eq!(color2.unwrap_hsv().0, 0);

    assert_eq!(color1.invert().unwrap_rgb().0, 255);
}

#[test]
fn rgb_hex_rendering_is_exact() {
    assert_eq!(Color::new_rgb(255, 0, 17).to_string(), "#ff0011");
    assert_eq!(Color::new_rgb(0, 0, 0).to_string(), "#000000");
    assert_eq!(Color::new_rgb(18, 52, 86).to_string(), "#123456");
}

#[test]
fn hsv_decimal_rendering_is_exact() {
    assert_eq!(Color::new_hsv(360, 100, 0).to_string(), "hsv(360,100%,0%)");
    assert_eq!(Color::new_hsv(7, 5, 42).to_string(), "hsv(7,5%,42%)");
}

#[test]
fn invert_flips_every_component() {
    let c = Color::new_rgb(10, 20, 30).invert();
    assert_eq!(c.unwrap_rgb(), (245, 235, 225));
    let h = Color::new_hsv(100, 40, 25).invert();
    assert_eq!(h.unwrap_hsv(), (260, 60, 75));
}
