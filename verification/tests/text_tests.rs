use stl_thumb::float_bits::{less, nan, zero};
use stl_thumb::info::format_label;
use stl_thumb::mesh::{load_format, ModelFormat};
use stl_thumb::text::{ends_with_text, parse_unsigned, same_text, IntError};

#[test]
fn unsigned_parsing() {
    assert_eq!(parse_unsigned("255", 255), Ok(255));
    assert_eq!(parse_unsigned("256", 255), Err(IntError::PosOverflow));
    assert_eq!(parse_unsigned("18446744073709551615", u64::MAX), Ok(u64::MAX));
    assert_eq!(parse_unsigned("18446744073709551616", u64::MAX), Err(IntError::PosOverflow));
    assert_eq!(parse_unsigned("1x", 9), Err(IntError::InvalidDigit));
    assert_eq!(parse_unsigned("", 9), Err(IntError::Empty));
}

#[test]
fn overflow_is_reported_before_a_later_bad_digit() {
    let expected = "300x".parse::<u8>().unwrap_err().to_string();
    assert_eq!(parse_unsigned("300x", 255), Err(IntError::PosOverflow));
    assert_eq!(IntError::PosOverflow.message(), expected);
}

#[test]
fn texts_compare() {
    assert!(same_text("abc", "abc"));
    assert!(!same_text("abc", "abd"));
    assert!(!same_text("ab", "abc"));
    assert!(ends_with_text("model.model", ".model"));
    assert!(ends_with_text("3D/3dmodel.model", ".model"));
    assert!(!ends_with_text("model", ".model"));
    assert!(!ends_with_text("3D/3dmodel.Model", ".model"));
    assert!(ends_with_text("x", ""));
}

#[test]
fn extensions_follow_std_path() {
    let samples = [
        "a.stl", "dir/a.OBJ", "a", ".hidden", ".hidden.3mf", ".3mf", "a.b.stl", "dir.obj/file", "a.stl/", "..", "a/..",
        "", "a/.", "x.3mf.", "x.",
    ];
    for s in samples {
        let ext = std::path::Path::new(s).extension().map(|e| e.to_str().unwrap().to_lowercase());
        let expected = match ext.as_deref() {
            Some("obj") => Some(ModelFormat::Obj),
            Some("stl") => Some(ModelFormat::Stl),
            Some("3mf") => Some(ModelFormat::ThreeMf),
            _ => None,
        };
        assert_eq!(load_format(s), expected, "{}", s);
    }
}

#[test]
fn report_labels_follow_std_upper_case() {
    assert_eq!(format_label("model.straße"), "STRASSE");
    assert_eq!(format_label("model.ßtl"), "SSTL");
}

#[test]
fn report_format_labels() {
    assert_eq!(format_label("-"), "STL");
    assert_eq!(format_label("models/cube.obj"), "OBJ");
    assert_eq!(format_label("cube.3mf"), "3MF");
    assert_eq!(format_label("cube"), "STL");
    assert_eq!(format_label("cube.Stl"), "STL");
}

#[test]
fn float_comparisons_follow_f32() {
    let values = [
        0.0f32, -0.0, 1.0, -1.0, 0.5, -2.5, f32::MIN_POSITIVE, -f32::MIN_POSITIVE, f32::MAX, f32::MIN, f32::INFINITY,
        f32::NEG_INFINITY, f32::NAN, -f32::NAN, 1e-45, -1e-45, 3.25,
    ];
    for a in values {
        assert_eq!(nan(a.to_bits()), a.is_nan());
        assert_eq!(zero(a.to_bits()), a == 0.0);
        for b in values {
            assert_eq!(less(a.to_bits(), b.to_bits()), a < b, "{} < {}", a, b);
        }
    }
}
