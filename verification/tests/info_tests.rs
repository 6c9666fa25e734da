use stl_thumb::info::{check_watertight, fmt_bytes, fmt_int};
use stl_thumb::mesh::Vertex;

fn expected_bytes(bytes: u64) -> String {
    const KB: u64 = 1_024;
    const MB: u64 = 1_024 * KB;
    const GB: u64 = 1_024 * MB;
    let count = fmt_int(bytes as usize);
    if bytes >= GB {
        format!("{:.2} GB ({} bytes)", bytes as f64 / GB as f64, count)
    } else if bytes >= MB {
        format!("{:.2} MB ({} bytes)", bytes as f64 / MB as f64, count)
    } else if bytes >= KB {
        format!("{:.2} KB ({} bytes)", bytes as f64 / KB as f64, count)
    } else {
        format!("{} bytes", bytes)
    }
}

#[test]
fn fmt_int_groups_thousands() {
    assert_eq!(fmt_int(0), "0");
    assert_eq!(fmt_int(7), "7");
    assert_eq!(fmt_int(999), "999");
    assert_eq!(fmt_int(1000), "1,000");
    assert_eq!(fmt_int(1234567), "1,234,567");
    assert_eq!(fmt_int(100000), "100,000");
}

#[test]
fn fmt_bytes_small_counts() {
    assert_eq!(fmt_bytes(0), "0 bytes");
    assert_eq!(fmt_bytes(1023), "1023 bytes");
}

#[test]
fn fmt_bytes_units() {
    assert_eq!(fmt_bytes(1024), "1.00 KB (1,024 bytes)");
    assert_eq!(fmt_bytes(1536), "1.50 KB (1,536 bytes)");
    assert_eq!(fmt_bytes(1_048_576), "1.00 MB (1,048,576 bytes)");
    assert_eq!(fmt_bytes(1_073_741_824), "1.00 GB (1,073,741,824 bytes)");
}

#[test]
fn fmt_bytes_matches_float_formatting() {
    let mut samples: Vec<u64> = vec![
        1024, 1025, 1152, 1153, 1151, 1280, 5248, 10_000, 123_456, 1_048_575, 1_048_576,
        1_572_864, 9_999_999, 123_456_789, 1_073_741_823, 1_073_741_824, 5_000_000_000,
        (1u64 << 53) - 1, 1u64 << 53, (1u64 << 53) + 1, (1u64 << 53) + 3, (1u64 << 60) + 12345,
        u64::MAX, u64::MAX - 1, u64::MAX / 3,
    ];
    // Values whose quotient lies exactly halfway between two hundredths.
    for k in 0..200u64 {
        samples.push(1024 + 128 + 256 * k);
        samples.push((1 << 20) + (1 << 17) * (2 * k + 1) / 25 * 0 + 131_072 * k);
    }
    let mut x: u64 = 0x9E37_79B9_7F4A_7C15;
    for _ in 0..2000 {
        x ^= x << 13;
        x ^= x >> 7;
        x ^= x << 17;
        samples.push(x >> (x % 60));
    }
    for b in samples {
        assert_eq!(fmt_bytes(b), expected_bytes(b), "bytes = {}", b);
    }
}

fn v(x: u32, y: u32, z: u32) -> Vertex {
    Vertex { position: [x, y, z] }
}

#[test]
fn watertight_empty_mesh() {
    assert!(check_watertight(&vec![]));
}

#[test]
fn watertight_single_triangle_is_open() {
    assert!(!check_watertight(&vec![v(0, 0, 0), v(1, 0, 0), v(0, 1, 0)]));
}

#[test]
fn watertight_tetrahedron() {
    let (a, b, c, d) = (v(0, 0, 0), v(1, 0, 0), v(0, 1, 0), v(0, 0, 1));
    let tris = vec![a, c, b, a, b, d, a, d, c, b, c, d];
    assert!(check_watertight(&tris));
    // Dropping one face opens the mesh; trailing vertices are ignored.
    assert!(!check_watertight(&tris[..9].to_vec()));
    let mut with_tail = tris.clone();
    with_tail.push(a);
    with_tail.push(b);
    assert!(check_watertight(&with_tail));
}

#[test]
fn watertight_same_face_twice() {
    let (a, b, c) = (v(0, 0, 0), v(1, 0, 0), v(0, 1, 0));
    assert!(check_watertight(&vec![a, b, c, a, c, b]));
    assert!(!check_watertight(&vec![a, b, c, a, c, b, a, b, c]));
}

#[test]
fn grouped_counts_are_the_plain_digits() {
    for n in [0usize, 5, 999, 1000, 65_536, 1_000_000, 123_456_789, usize::MAX] {
        assert_eq!(fmt_int(n).replace(',', ""), n.to_string());
    }
}
