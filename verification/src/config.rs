//! Rendering options decided from the command line. The colour arguments are
//! decided here as bytes; the front end scales them to floating-point colours.
use vstd::prelude::*;
use vstd::string::StrSliceExecFns;
use crate::text::{extension_of, file_extension, parse_unsigned, parse_unsigned_spec, IntError};

verus! {

/// Anti-aliasing method of the renderer.
#[derive(Clone, Copy, Debug, PartialEq, Eq)]
pub enum AAMethod {
    /// No anti-aliasing (`none` on the command line).
    Off,
    FXAA,
}

/// The anti-aliasing method named on the command line (`none` or `fxaa`).
pub fn aa_method_from_name(name: &str) -> (m: Option<AAMethod>)
    ensures
        name@ == seq!['n', 'o', 'n', 'e'] ==> m == Some(AAMethod::Off),
        name@ == seq!['f', 'x', 'a', 'a'] ==> m == Some(AAMethod::FXAA),
        name@ != seq!['n', 'o', 'n', 'e'] && name@ != seq!['f', 'x', 'a', 'a'] ==> m is None,
{
    proof {
        reveal_strlit("none");
        reveal_strlit("fxaa");
        assert("none"@ =~= seq!['n', 'o', 'n', 'e']);
        assert("fxaa"@ =~= seq!['f', 'x', 'a', 'a']);
    }
    if crate::text::same_text(name, "none") {
        Some(AAMethod::Off)
    } else if crate::text::same_text(name, "fxaa") {
        Some(AAMethod::FXAA)
    } else {
        None
    }
}

/// The image formats that thumbnails can be written in.
#[derive(Clone, Copy, Debug, PartialEq, Eq)]
pub enum ImageFormat {
    Png,
    Jpeg,
    Gif,
    Ico,
    Bmp,
}

/// `c` with ASCII capitals made small.
pub open spec fn ascii_lower(c: char) -> char {
    if 'A' <= c && c <= 'Z' { ((c as u8) + 32) as char } else { c }
}

/// `s` with ASCII capitals made small.
pub open spec fn lower(s: Seq<char>) -> Seq<char> {
    s.map_values(|c: char| ascii_lower(c))
}

/// Whether `s`, with ASCII capitals made small, is `target` (which has no capitals).
/// For the ASCII names compared here this agrees with full Unicode lowercasing,
/// since no other character lowercases to an ASCII letter or digit of them.
pub fn lower_equals(s: &str, target: &str) -> (r: bool)
    ensures
        r == (lower(s@) == target@),
{
    let n = s.unicode_len();
    if n != target.unicode_len() {
        return false;
    }
    let mut i: usize = 0;
    while i < n
        invariant
            n == s@.len() == target@.len(),
            i <= n,
            forall|j: int| 0 <= j < i ==> ascii_lower(s@[j]) == target@[j],
        decreases n - i,
    {
        let c = s.get_char(i);
        let l = if 'A' <= c && c <= 'Z' { ((c as u8) + 32) as char } else { c };
        if l != target.get_char(i) {
            assert(lower(s@)[i as int] != target@[i as int]);
            return false;
        }
        i = i + 1;
    }
    assert(lower(s@) =~= target@);
    true
}

/// The image format an extension names, ignoring ASCII case.
pub open spec fn image_format_for(ext: Seq<char>) -> Option<ImageFormat> {
    let l = lower(ext);
    if l == seq!['p', 'n', 'g'] {
        Some(ImageFormat::Png)
    } else if l == seq!['j', 'p', 'e', 'g'] || l == seq!['j', 'p', 'g'] {
        Some(ImageFormat::Jpeg)
    } else if l == seq!['g', 'i', 'f'] {
        Some(ImageFormat::Gif)
    } else if l == seq!['i', 'c', 'o'] {
        Some(ImageFormat::Ico)
    } else if l == seq!['b', 'm', 'p'] {
        Some(ImageFormat::Bmp)
    } else {
        None
    }
}

/// The image format an extension or format name names: `png`, `jpeg` or
/// `jpg`, `gif`, `ico`, `bmp`, in any case; `None` for anything else.
pub fn known_image_format(ext: &str) -> (f: Option<ImageFormat>)
    ensures
        f == image_format_for(ext@),
{
    proof {
        reveal_strlit("png");
        reveal_strlit("jpeg");
        reveal_strlit("jpg");
        reveal_strlit("gif");
        reveal_strlit("ico");
        reveal_strlit("bmp");
        assert("png"@ =~= seq!['p', 'n', 'g']);
        assert("jpeg"@ =~= seq!['j', 'p', 'e', 'g']);
        assert("jpg"@ =~= seq!['j', 'p', 'g']);
        assert("gif"@ =~= seq!['g', 'i', 'f']);
        assert("ico"@ =~= seq!['i', 'c', 'o']);
        assert("bmp"@ =~= seq!['b', 'm', 'p']);
    }
    if lower_equals(ext, "png") {
        Some(ImageFormat::Png)
    } else if lower_equals(ext, "jpeg") || lower_equals(ext, "jpg") {
        Some(ImageFormat::Jpeg)
    } else if lower_equals(ext, "gif") {
        Some(ImageFormat::Gif)
    } else if lower_equals(ext, "ico") {
        Some(ImageFormat::Ico)
    } else if lower_equals(ext, "bmp") {
        Some(ImageFormat::Bmp)
    } else {
        None
    }
}

/// The image format for an extension or format name; PNG when it names none.
pub fn match_format(ext: &str) -> (f: ImageFormat)
    ensures
        f == match image_format_for(ext@) {
            Some(g) => g,
            None => ImageFormat::Png,
        },
{
    match known_image_format(ext) {
        Some(f) => f,
        None => ImageFormat::Png,
    }
}

/// The value of a hexadecimal digit of either case.
pub open spec fn hex_digit(c: char) -> Option<nat> {
    if '0' <= c && c <= '9' {
        Some((c as nat - '0' as nat) as nat)
    } else if 'a' <= c && c <= 'f' {
        Some((c as nat - 'a' as nat + 10) as nat)
    } else if 'A' <= c && c <= 'F' {
        Some((c as nat - 'A' as nat + 10) as nat)
    } else {
        None
    }
}

/// Two characters read as `u8::from_str_radix(.., 16)` reads them: two hex
/// digits, or `+` and one hex digit.
pub open spec fn hex_byte(a: char, b: char) -> Option<u8> {
    if a == '+' {
        match hex_digit(b) {
            Some(d) => Some(d as u8),
            None => None,
        }
    } else {
        match (hex_digit(a), hex_digit(b)) {
            (Some(x), Some(y)) => Some((16 * x + y) as u8),
            _ => None,
        }
    }
}

/// The byte at pair `k` (characters `2k`, `2k + 1`) of an HTML colour.
pub open spec fn color_byte(s: Seq<char>, k: int) -> Option<u8> {
    if s.len() >= 2 * k + 2 { hex_byte(s[2 * k], s[2 * k + 1]) } else { None }
}

fn hex_digit_exec(c: char) -> (d: Option<u8>)
    ensures
        match hex_digit(c) {
            Some(v) => d == Some(v as u8) && v < 16,
            None => d is None,
        },
{
    if '0' <= c && c <= '9' {
        Some(((c as u32) - ('0' as u32)) as u8)
    } else if 'a' <= c && c <= 'f' {
        Some(((c as u32) - ('a' as u32) + 10) as u8)
    } else if 'A' <= c && c <= 'F' {
        Some(((c as u32) - ('A' as u32) + 10) as u8)
    } else {
        None
    }
}

fn color_byte_exec(s: &str, k: usize) -> (b: Option<u8>)
    requires
        k < 4,
    ensures
        b == color_byte(s@, k as int),
{
    if s.unicode_len() < 2 * k + 2 {
        return None;
    }
    let a = s.get_char(2 * k);
    let c = s.get_char(2 * k + 1);
    if a == '+' {
        hex_digit_exec(c)
    } else {
        match (hex_digit_exec(a), hex_digit_exec(c)) {
            (Some(x), Some(y)) => Some(16 * x + y),
            _ => None,
        }
    }
}

/// The red, green and blue bytes of an `rrggbb` colour (further characters
/// ignored); `None` where reading it fails.
pub fn html_to_rgb(color: &str) -> (rgb: Option<[u8; 3]>)
    ensures
        match (color_byte(color@, 0), color_byte(color@, 1), color_byte(color@, 2)) {
            (Some(r), Some(g), Some(b)) => rgb == Some([r, g, b]),
            _ => rgb is None,
        },
{
    match (color_byte_exec(color, 0), color_byte_exec(color, 1), color_byte_exec(color, 2)) {
        (Some(r), Some(g), Some(b)) => Some([r, g, b]),
        _ => None,
    }
}

/// The red, green, blue and alpha bytes of an `rrggbbaa` colour (further
/// characters ignored); `None` where reading it fails.
pub fn html_to_rgba(color: &str) -> (rgba: Option<[u8; 4]>)
    ensures
        match (color_byte(color@, 0), color_byte(color@, 1), color_byte(color@, 2), color_byte(color@, 3)) {
            (Some(r), Some(g), Some(b), Some(a)) => rgba == Some([r, g, b, a]),
            _ => rgba is None,
        },
{
    match (color_byte_exec(color, 0), color_byte_exec(color, 1), color_byte_exec(color, 2), color_byte_exec(color, 3)) {
        (Some(r), Some(g), Some(b), Some(a)) => Some([r, g, b, a]),
        _ => None,
    }
}

/// The thumbnail size argument, parsed as a `u32`.
pub fn parse_size(size: &str) -> (r: Result<u32, IntError>)
    ensures
        match parse_unsigned_spec(size@, u32::MAX as nat) {
            Ok(v) => r == Ok::<u32, IntError>(v as u32),
            Err(e) => r == Err::<u32, IntError>(e),
        },
{
    match parse_unsigned(size, u32::MAX as u64) {
        Ok(v) => Ok(v as u32),
        Err(e) => Err(e),
    }
}

/// The default image width.
pub const DEFAULT_WIDTH: u32 = 1024;

/// The default image height.
pub const DEFAULT_HEIGHT: u32 = 768;

/// The image width and height: the square size given on the command line, or
/// the default 1024 x 768, doubled in both directions for the multi-view grid.
pub open spec fn dimensions(size: Option<u32>, multi_view: bool) -> (u32, u32) {
    match size {
        Some(s) => (s, s),
        None => if multi_view {
            ((2 * DEFAULT_WIDTH) as u32, (2 * DEFAULT_HEIGHT) as u32)
        } else {
            (DEFAULT_WIDTH, DEFAULT_HEIGHT)
        },
    }
}

/// Decides the image width and height (see `dimensions`).
pub fn output_dimensions(size: Option<u32>, multi_view: bool) -> (d: (u32, u32))
    ensures
        d == dimensions(size, multi_view),
{
    match size {
        Some(s) => (s, s),
        None => if multi_view {
            (2 * DEFAULT_WIDTH, 2 * DEFAULT_HEIGHT)
        } else {
            (DEFAULT_WIDTH, DEFAULT_HEIGHT)
        },
    }
}

/// A size given on the command line makes a square image, in either mode.
pub proof fn lemma_given_size_is_square(s: u32, multi_view: bool)
    ensures
        dimensions(Some(s), multi_view) == (s, s),
{
}

/// Without a size, each tile of the multi-view grid has the default size of a
/// single view.
pub proof fn lemma_multi_view_tiles_keep_default_size()
    ensures
        dimensions(None, true).0 / 2 == dimensions(None, false).0,
        dimensions(None, true).1 / 2 == dimensions(None, false).1,
{
}

/// The image format for an extension or format name; PNG when it names none.
pub open spec fn format_or_png(name: Seq<char>) -> ImageFormat {
    match image_format_for(name) {
        Some(f) => f,
        None => ImageFormat::Png,
    }
}

/// The format of the thumbnail: the one given with `--format`, else the one
/// the image file's extension names, else PNG (also for a name or extension
/// that names no supported format).
pub open spec fn chosen_format(format_arg: Option<Seq<char>>, img_filename: Seq<char>) -> ImageFormat {
    match format_arg {
        Some(f) => format_or_png(f),
        None => match extension_of(img_filename) {
            Some(e) => format_or_png(e),
            None => ImageFormat::Png,
        },
    }
}

/// Whether a format name was given (with `--format`, else as the image file's
/// extension) that names no supported format, so that PNG is used in its place.
pub open spec fn unsupported_format_named(format_arg: Option<Seq<char>>, img_filename: Seq<char>) -> bool {
    match format_arg {
        Some(f) => image_format_for(f) is None,
        None => match extension_of(img_filename) {
            Some(e) => image_format_for(e) is None,
            None => false,
        },
    }
}

/// Decides the thumbnail format from the `--format` argument, if any, and the
/// image file name; also says whether a name was given that names no
/// supported format (which is worth a warning).
pub fn choose_format(format_arg: Option<&str>, img_filename: &str) -> (f: (ImageFormat, bool))
    ensures
        ({
            let arg = match format_arg {
                Some(a) => Some(a@),
                None => None,
            };
            &&& f.0 == chosen_format(arg, img_filename@)
            &&& f.1 == unsupported_format_named(arg, img_filename@)
        }),
{
    let name = match format_arg {
        Some(a) => Some(a.to_owned()),
        None => file_extension(img_filename),
    };
    match name {
        Some(n) => match known_image_format(n.as_str()) {
            Some(g) => (g, false),
            None => (ImageFormat::Png, true),
        },
        None => (ImageFormat::Png, false),
    }
}

/// The material colours given with `--material` (ambient, diffuse, specular):
/// each of the first three values read as `rrggbb`, black for one not given;
/// `None` when one of them is not a colour.
pub open spec fn material_colors_of(values: Seq<Seq<char>>) -> Option<[[u8; 3]; 3]> {
    let c = |k: int| if k < values.len() {
        match (color_byte(values[k], 0), color_byte(values[k], 1), color_byte(values[k], 2)) {
            (Some(r), Some(g), Some(b)) => Some([r, g, b]),
            _ => None,
        }
    } else {
        Some([0u8, 0u8, 0u8])
    };
    match (c(0), c(1), c(2)) {
        (Some(a), Some(d), Some(s)) => Some([a, d, s]),
        _ => None,
    }
}

/// The texts of a list of strings.
pub open spec fn texts(values: Seq<String>) -> Seq<Seq<char>> {
    values.map_values(|v: String| v@)
}

/// The colour of material value `k`: black when there is no such value.
fn material_color(values: &Vec<String>, k: usize) -> (c: Option<[u8; 3]>)
    requires
        k < 3,
    ensures
        c == (if k < values@.len() {
            match (
                color_byte(texts(values@)[k as int], 0),
                color_byte(texts(values@)[k as int], 1),
                color_byte(texts(values@)[k as int], 2),
            ) {
                (Some(r), Some(g), Some(b)) => Some([r, g, b]),
                _ => None,
            }
        } else {
            Some([0u8, 0u8, 0u8])
        }),
{
    if k < values.len() {
        assert(texts(values@)[k as int] == values@[k as int]@);
        html_to_rgb(values[k].as_str())
    } else {
        Some([0u8, 0u8, 0u8])
    }
}

/// Reads the `--material` values (see `material_colors_of`).
pub fn material_colors(values: &Vec<String>) -> (m: Option<[[u8; 3]; 3]>)
    ensures
        m == material_colors_of(texts(values@)),
{
    match (material_color(values, 0), material_color(values, 1), material_color(values, 2)) {
        (Some(a), Some(d), Some(s)) => Some([a, d, s]),
        _ => None,
    }
}

/// The default background, `ffffff00`: transparent white.
pub const DEFAULT_BACKGROUND: [u8; 4] = [255u8, 255u8, 255u8, 0u8];

/// Making capitals small twice is making them small once.
proof fn lemma_lower_idempotent(s: Seq<char>)
    ensures
        lower(lower(s)) == lower(s),
{
    assert(lower(lower(s)) =~= lower(s));
}

/// Format names and extensions are read without regard to ASCII case.
pub proof fn lemma_format_ignores_case(s: Seq<char>)
    ensures
        image_format_for(lower(s)) == image_format_for(s),
        format_or_png(lower(s)) == format_or_png(s),
{
    lemma_lower_idempotent(s);
}

} // verus!
