use fivemenu::color::{is_color, parse_color, Rgba};

fn rgba(r: u8, g: u8, b: u8, a: u8) -> Rgba {
    Rgba { r, g, b, a }
}

fn by_the_standard_library(hex: &str) -> Rgba {
    let hex = hex.trim_start_matches('#');
    let r = u8::from_str_radix(&hex[0..2], 16).unwrap_or(0);
    let g = u8::from_str_radix(&hex[2..4], 16).unwrap_or(0);
    let b = u8::from_str_radix(&hex[4..6], 16).unwrap_or(0);
    let a = if hex.len() >= 8 {
        u8::from_str_radix(&hex[6..8], 16).unwrap_or(255)
    } else {
        255
    };
    rgba(r, g, b, a)
}

#[test]
fn colours_of_the_default_theme() {
    assert_eq!(parse_color("#2E344000"), rgba(0x2E, 0x34, 0x40, 0x00));
    assert_eq!(parse_color("#ECEFF4FF"), rgba(0xEC, 0xEF, 0xF4, 0xFF));
    assert_eq!(parse_color("#5E81ACFF"), rgba(0x5E, 0x81, 0xAC, 0xFF));
    assert_eq!(parse_color("#FFFFFFFF"), rgba(255, 255, 255, 255));
    assert_eq!(parse_color("#4C566A00"), rgba(0x4C, 0x56, 0x6A, 0));
}

#[test]
fn a_colour_without_opacity_is_opaque() {
    assert_eq!(parse_color("#102030"), rgba(16, 32, 48, 255));
    assert_eq!(parse_color("102030"), rgba(16, 32, 48, 255));
    assert_eq!(parse_color("1020304"), rgba(16, 32, 48, 255));
}

#[test]
fn digits_in_either_case() {
    assert_eq!(parse_color("#abcdef"), rgba(0xAB, 0xCD, 0xEF, 255));
    assert_eq!(parse_color("#ABCDEF09"), rgba(0xAB, 0xCD, 0xEF, 9));
    assert_eq!(parse_color("###aBcDeF"), rgba(0xAB, 0xCD, 0xEF, 255));
}

#[test]
fn pairs_that_write_no_number() {
    assert_eq!(parse_color("#zz1020"), rgba(0, 16, 32, 255));
    assert_eq!(parse_color("#10g02030"), rgba(16, 0, 0x20, 0x30));
    assert_eq!(parse_color("#102030xy"), rgba(16, 32, 48, 255));
    assert_eq!(parse_color("#1 2030"), rgba(0, 0x20, 0x30, 255));
    assert_eq!(parse_color("#-12030"), rgba(0, 0x20, 0x30, 255));
    assert_eq!(parse_color("#1+2030"), rgba(0, 0x20, 0x30, 255));
}

#[test]
fn a_plus_sign_before_one_digit() {
    assert_eq!(parse_color("#+f+0+a+1"), rgba(15, 0, 10, 1));
    assert_eq!(parse_color("#++2030"), rgba(0, 0x20, 0x30, 255));
}

#[test]
fn what_is_no_colour() {
    assert!(!is_color(""));
    assert!(!is_color("#"));
    assert!(!is_color("#12345"));
    assert!(!is_color("######"));
    assert!(!is_color("1é234"));
    assert!(!is_color("12345é"));
    assert!(!is_color("1234567é"));
    assert!(!is_color("#日本"));
    assert!(is_color("123456"));
    assert!(is_color("#123456"));
    assert!(is_color("é1234"));
    assert!(is_color("1234é"));
    assert!(is_color("123456é"));
    assert!(is_color("1234567"));
    assert!(is_color("#12345678 and more"));
}

#[test]
fn text_of_other_characters() {
    assert_eq!(parse_color("é1234"), rgba(0, 0x12, 0x34, 255));
    assert_eq!(parse_color("123456é"), rgba(0x12, 0x34, 0x56, 255));
}

#[test]
fn agrees_with_the_standard_library() {
    let samples = [
        "#000000", "#ffffff", "#FfFfFf", "#12345678", "#+1+2+3+4", "#-1-2-3-4", "#0x1020",
        "#   000", "#1_2_3_", "######1a2b3c", "#1a2b3c#", "é1234", "#éééé", "#1a2b3c4", "#g0h1i2j3",
        "#00000000", "#7f7f7f7f", "#/0:9@A", "#G`afg0", "#+0+9+a+F",
    ];
    for sample in samples {
        assert!(is_color(sample), "{}", sample);
        assert_eq!(parse_color(sample), by_the_standard_library(sample), "{}", sample);
    }
    for hi in 0u8..128 {
        for lo in 0u8..128 {
            let text = format!("#{}{}0000", hi as char, lo as char);
            if text.trim_start_matches('#').len() >= 6 {
                assert!(is_color(&text));
                assert_eq!(parse_color(&text), by_the_standard_library(&text), "{:?}", text);
            }
        }
    }
}
