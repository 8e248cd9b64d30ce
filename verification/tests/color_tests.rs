use vga_text::color::{Color, ColorCode};

fn all_colors() -> Vec<Color> {
    vec![
        Color::Black,
        Color::Blue,
        Color::Green,
        Color::Cyan,
        Color::Red,
        Color::Magenta,
        Color::Brown,
        Color::LightGray,
        Color::DarkGray,
        Color::LightBlue,
        Color::LightGreen,
        Color::LightCyan,
        Color::LightRed,
        Color::Pink,
        Color::Yellow,
        Color::White,
    ]
}

#[test]
fn color_codes_are_the_hardware_codes() {
    let expected: Vec<u8> = (0..16).collect();
    let got: Vec<u8> = all_colors().into_iter().map(|c| c.code()).collect();
    assert_eq!(got, expected);
}

#[test]
fn color_code_packs_background_high_foreground_low() {
    for f in all_colors() {
        for b in all_colors() {
            let code = ColorCode::new(f, b).byte();
            assert_eq!(code, (b.code() << 4) | f.code());
            assert_eq!(code >> 4, b.code());
            assert_eq!(code & 0x0f, f.code());
        }
    }
}

#[test]
fn yellow_on_black_is_0x0e() {
    assert_eq!(ColorCode::new(Color::Yellow, Color::Black).byte(), 0x0e);
}
