use stl_thumb::config::{
    aa_method_from_name, choose_format, html_to_rgb, html_to_rgba, known_image_format, match_format, material_colors,
    output_dimensions, parse_size, AAMethod, ImageFormat, DEFAULT_BACKGROUND, DEFAULT_HEIGHT, DEFAULT_WIDTH,
};
use stl_thumb::text::IntError;

#[test]
fn antialiasing_names() {
    assert_eq!(aa_method_from_name("none"), Some(AAMethod::Off));
    assert_eq!(aa_method_from_name("fxaa"), Some(AAMethod::FXAA));
    assert_eq!(aa_method_from_name("FXAA"), None);
    assert_eq!(aa_method_from_name(""), None);
}

#[test]
fn image_format_names_ignore_case() {
    assert_eq!(match_format("png"), ImageFormat::Png);
    assert_eq!(match_format("PNG"), ImageFormat::Png);
    assert_eq!(match_format("jpeg"), ImageFormat::Jpeg);
    assert_eq!(match_format("JpG"), ImageFormat::Jpeg);
    assert_eq!(match_format("gif"), ImageFormat::Gif);
    assert_eq!(match_format("ICO"), ImageFormat::Ico);
    assert_eq!(match_format("bmp"), ImageFormat::Bmp);
}

#[test]
fn unknown_image_format_falls_back_to_png() {
    assert_eq!(known_image_format("tiff"), None);
    assert_eq!(match_format("tiff"), ImageFormat::Png);
    assert_eq!(match_format(""), ImageFormat::Png);
    assert_eq!(known_image_format("pngx"), None);
    // A Kelvin sign is not an ASCII capital and names no format.
    assert_eq!(known_image_format("\u{212A}"), None);
}

#[test]
fn format_choice_prefers_the_argument() {
    assert_eq!(choose_format(Some("jpg"), "thumb.png"), (ImageFormat::Jpeg, false));
    assert_eq!(choose_format(Some("webp"), "thumb.png"), (ImageFormat::Png, true));
    assert_eq!(choose_format(Some("PNG"), "thumb.webp"), (ImageFormat::Png, false));
}

#[test]
fn format_choice_from_extension() {
    assert_eq!(choose_format(None, "thumb.gif"), (ImageFormat::Gif, false));
    assert_eq!(choose_format(None, "dir/thumb.BMP"), (ImageFormat::Bmp, false));
    assert_eq!(choose_format(None, "thumb"), (ImageFormat::Png, false));
    assert_eq!(choose_format(None, ".ico"), (ImageFormat::Png, false));
    assert_eq!(choose_format(None, "-"), (ImageFormat::Png, false));
    assert_eq!(choose_format(None, ""), (ImageFormat::Png, false));
    assert_eq!(choose_format(None, "a.tar.jpeg"), (ImageFormat::Jpeg, false));
    assert_eq!(choose_format(None, "thumb.webp"), (ImageFormat::Png, true));
    assert_eq!(choose_format(None, "dir.jpg/thumb"), (ImageFormat::Png, false));
    assert_eq!(choose_format(None, "thumb.jpg/"), (ImageFormat::Jpeg, false));
}

fn std_hex(s: &str) -> Option<u8> {
    u8::from_str_radix(s, 16).ok()
}

#[test]
fn html_colors() {
    assert_eq!(html_to_rgb("ff8000"), Some([255, 128, 0]));
    assert_eq!(html_to_rgb("FFfF00"), Some([255, 255, 0]));
    assert_eq!(html_to_rgb("0021429"), Some([0, 33, 66]));
    assert_eq!(html_to_rgb("ff80"), None);
    assert_eq!(html_to_rgb("gg0000"), None);
    assert_eq!(html_to_rgba("ffffff00"), Some([255, 255, 255, 0]));
    assert_eq!(html_to_rgba("ffffff"), None);
    assert_eq!(html_to_rgba("0a0b0c0d"), Some([10, 11, 12, 13]));
}

#[test]
fn html_colors_agree_with_from_str_radix() {
    let samples = ["+f+e+d", "-f0000", "+-0000", "00+100", "7fFfA0", "ab cd ", "1234567", " 12345", "ffffff"];
    for s in samples {
        let expected = match (std_hex(&s[0..2]), std_hex(&s[2..4]), std_hex(&s[4..6])) {
            (Some(r), Some(g), Some(b)) => Some([r, g, b]),
            _ => None,
        };
        assert_eq!(html_to_rgb(s), expected, "{}", s);
    }
}

#[test]
fn material_values() {
    let values = vec!["002142".to_string(), "61a1ff".to_string(), "ffffff".to_string()];
    assert_eq!(material_colors(&values), Some([[0, 33, 66], [97, 161, 255], [255, 255, 255]]));
    let one = vec!["102030".to_string()];
    assert_eq!(material_colors(&one), Some([[16, 32, 48], [0, 0, 0], [0, 0, 0]]));
    let bad = vec!["102030".to_string(), "zz0000".to_string()];
    assert_eq!(material_colors(&bad), None);
    let none: Vec<String> = Vec::new();
    assert_eq!(material_colors(&none), Some([[0, 0, 0], [0, 0, 0], [0, 0, 0]]));
    let four = vec!["010101".to_string(), "020202".to_string(), "030303".to_string(), "nothex".to_string()];
    assert_eq!(material_colors(&four), Some([[1, 1, 1], [2, 2, 2], [3, 3, 3]]));
}

#[test]
fn default_background_is_transparent_white() {
    assert_eq!(Some(DEFAULT_BACKGROUND), html_to_rgba("ffffff00"));
}

#[test]
fn size_argument() {
    assert_eq!(parse_size("512"), Ok(512));
    assert_eq!(parse_size("+512"), Ok(512));
    assert_eq!(parse_size("4294967295"), Ok(u32::MAX));
    assert_eq!(parse_size("4294967296"), Err(IntError::PosOverflow));
    assert_eq!(parse_size(""), Err(IntError::Empty));
    assert_eq!(parse_size("-1"), Err(IntError::InvalidDigit));
    assert_eq!(parse_size("12a"), Err(IntError::InvalidDigit));
    assert_eq!(parse_size("+"), Err(IntError::InvalidDigit));
}

#[test]
fn size_argument_agrees_with_str_parse() {
    let samples = [
        "0", "00012", "+0", "-0", "+", "-", "", " 1", "1 ", "99999999999999999999", "4294967295", "4294967296",
        "++1", "1+1", "٣", "007",
    ];
    for s in samples {
        let expected = s.parse::<u32>();
        match parse_size(s) {
            Ok(v) => assert_eq!(Ok(v), expected, "{}", s),
            Err(e) => {
                let std_err = expected.expect_err(s);
                assert_eq!(e.message(), std_err.to_string(), "{}", s);
            }
        }
    }
}

#[test]
fn printed_numbers_parse_back() {
    for n in [0u32, 1, 9, 10, 99, 100, 65535, 1 << 20, u32::MAX] {
        assert_eq!(parse_size(&n.to_string()), Ok(n));
    }
}

#[test]
fn output_size() {
    assert_eq!(output_dimensions(None, false), (DEFAULT_WIDTH, DEFAULT_HEIGHT));
    assert_eq!(output_dimensions(None, false), (1024, 768));
    assert_eq!(output_dimensions(None, true), (2048, 1536));
    assert_eq!(output_dimensions(Some(256), false), (256, 256));
    assert_eq!(output_dimensions(Some(1024), true), (1024, 1024));
}
