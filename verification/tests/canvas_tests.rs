use font8x8::UnicodeFonts;
use stl_thumb::canvas::{compose_views, draw_separator_lines, draw_tile_label, padded_bytes_per_row, replace, RgbaCanvas};

fn canvas_from(img: &image::RgbaImage) -> RgbaCanvas {
    let rows = (0..img.height()).map(|y| (0..img.width()).map(|x| img.get_pixel(x, y).0).collect()).collect();
    RgbaCanvas { width: img.width(), height: img.height(), rows }
}

fn image_from(c: &RgbaCanvas) -> image::RgbaImage {
    let mut img = image::RgbaImage::new(c.width, c.height);
    for (y, row) in c.rows.iter().enumerate() {
        for (x, p) in row.iter().enumerate() {
            img.put_pixel(x as u32, y as u32, image::Rgba(*p));
        }
    }
    img
}

/// A picture with a different colour at every pixel.
fn pattern(w: u32, h: u32, seed: u32) -> image::RgbaImage {
    image::RgbaImage::from_fn(w, h, |x, y| {
        let v = x.wrapping_mul(31).wrapping_add(y.wrapping_mul(17)).wrapping_add(seed);
        image::Rgba([(v % 251) as u8, (v / 3 % 256) as u8, (v * 7 % 256) as u8, (v % 256) as u8])
    })
}

/// The separator drawing of the renderer, on an `image` picture.
fn reference_separators(img: &mut image::RgbaImage, tile_w: u32, tile_h: u32) {
    let color = image::Rgba([180u8, 180, 180, 255]);
    for dx in 0..2u32 {
        let x = tile_w + dx;
        if x < img.width() {
            for y in 0..img.height() {
                img.put_pixel(x, y, color);
            }
        }
    }
    for dy in 0..2u32 {
        let y = tile_h + dy;
        if y < img.height() {
            for x in 0..img.width() {
                img.put_pixel(x, y, color);
            }
        }
    }
}

/// The label drawing of the renderer, on an `image` picture.
fn reference_label(img: &mut image::RgbaImage, text: &str, tile_x: u32, tile_y: u32, tile_w: u32) {
    const SCALE: u32 = 2;
    const CHAR_W: u32 = 8 * SCALE;
    const CHAR_H: u32 = 8 * SCALE;
    const PAD: u32 = 3;
    let bar_h = CHAR_H + PAD * 2;
    for py in tile_y..tile_y + bar_h {
        for px in tile_x..tile_x + tile_w {
            if px < img.width() && py < img.height() {
                let p = img.get_pixel_mut(px, py);
                p[0] = (p[0] as u32 * 35 / 100) as u8;
                p[1] = (p[1] as u32 * 35 / 100) as u8;
                p[2] = (p[2] as u32 * 35 / 100) as u8;
                p[3] = p[3].max(200);
            }
        }
    }
    let text_chars = text.chars().count() as u32;
    let text_px_w = text_chars * CHAR_W;
    let text_x = tile_x + tile_w.saturating_sub(text_px_w) / 2;
    let text_y = tile_y + PAD;
    let white = image::Rgba([255u8, 255, 255, 255]);
    for (i, ch) in text.chars().enumerate() {
        if let Some(glyph) = font8x8::BASIC_FONTS.get(ch) {
            for (row, &bits) in glyph.iter().enumerate() {
                for col in 0u32..8 {
                    if bits & (1u8 << col) != 0 {
                        for sy in 0..SCALE {
                            for sx in 0..SCALE {
                                let px = text_x + i as u32 * CHAR_W + col * SCALE + sx;
                                let py = text_y + row as u32 * SCALE + sy;
                                if px < img.width() && py < img.height() {
                                    img.put_pixel(px, py, white);
                                }
                            }
                        }
                    }
                }
            }
        }
    }
}

#[test]
fn blank_canvas() {
    let c = RgbaCanvas::new(3, 2);
    assert_eq!(c.rows, vec![vec![[0u8; 4]; 3]; 2]);
    let e = RgbaCanvas::new(0, 0);
    assert!(e.rows.is_empty());
}

#[test]
fn single_pixel_access() {
    let mut c = RgbaCanvas::new(4, 3);
    c.put_pixel(2, 1, [1, 2, 3, 4]);
    assert_eq!(c.get_pixel(2, 1), [1, 2, 3, 4]);
    assert_eq!(c.get_pixel(1, 2), [0, 0, 0, 0]);
}

#[test]
fn separators_match_renderer() {
    for (w, h, tw, th) in [(20u32, 14u32, 10u32, 7u32), (21, 15, 10, 7), (5, 5, 4, 4), (5, 5, 9, 9), (6, 4, 0, 0)] {
        let mut img = pattern(w, h, 11);
        let mut c = canvas_from(&img);
        reference_separators(&mut img, tw, th);
        draw_separator_lines(&mut c, tw, th);
        assert_eq!(image_from(&c), img, "{}x{} at {},{}", w, h, tw, th);
    }
}

#[test]
fn separators_at_the_largest_offset() {
    let img = pattern(4, 4, 3);
    let mut c = canvas_from(&img);
    draw_separator_lines(&mut c, u32::MAX, u32::MAX);
    assert_eq!(image_from(&c), img);
}

#[test]
fn labels_match_renderer() {
    let cases = [
        ("Isometric", 0u32, 0u32, 200u32, 220u32, 60u32),
        ("Front", 100, 0, 100, 200, 60),
        ("Side", 100, 30, 100, 200, 60),
        ("Top", 0, 30, 40, 80, 45),
        ("Wide label text", 5, 2, 30, 90, 20),
        ("ÄÖ€x", 0, 0, 80, 80, 30),
        ("", 0, 0, 20, 20, 30),
    ];
    for (text, tx, ty, tw, w, h) in cases {
        let mut img = pattern(w, h, 5);
        let mut c = canvas_from(&img);
        reference_label(&mut img, text, tx, ty, tw);
        draw_tile_label(&mut c, text, tx, ty, tw);
        assert_eq!(image_from(&c), img, "{}", text);
    }
}

#[test]
fn label_text_is_white() {
    let mut c = RgbaCanvas::new(40, 30);
    draw_tile_label(&mut c, "I", 0, 0, 40);
    // The bar is darkened and made opaque.
    assert_eq!(c.get_pixel(0, 0), [0, 0, 0, 200]);
    let lit = c.rows.iter().flatten().filter(|p| **p == [255, 255, 255, 255]).count();
    let glyph = font8x8::BASIC_FONTS.get('I').unwrap();
    let bits: u32 = glyph.iter().map(|b| b.count_ones()).sum();
    assert_eq!(lit as u32, 4 * bits);
    // Below the bar nothing changes.
    assert_eq!(c.get_pixel(5, 25), [0, 0, 0, 0]);
}

#[test]
fn replace_matches_image_crate() {
    for (ox, oy, tw, th) in [(0u32, 0u32, 5u32, 4u32), (3, 2, 5, 4), (7, 7, 5, 4), (10, 0, 3, 3), (0, 9, 3, 3), (2, 1, 20, 20)] {
        let mut bottom = pattern(9, 8, 1);
        let top = pattern(tw, th, 99);
        let mut c = canvas_from(&bottom);
        image::imageops::replace(&mut bottom, &top, ox as i64, oy as i64);
        replace(&mut c, &canvas_from(&top), ox, oy);
        assert_eq!(image_from(&c), bottom, "at {},{}", ox, oy);
    }
}

#[test]
fn row_padding() {
    assert_eq!(padded_bytes_per_row(1), 256);
    assert_eq!(padded_bytes_per_row(64), 256);
    assert_eq!(padded_bytes_per_row(65), 512);
    assert_eq!(padded_bytes_per_row(1024), 4096);
    assert_eq!(padded_bytes_per_row(0), 0);
    for w in [1u32, 3, 63, 64, 65, 100, 1000, 4096] {
        let r = padded_bytes_per_row(w);
        assert_eq!(r % wgpu::COPY_BYTES_PER_ROW_ALIGNMENT, 0);
        assert!(r >= 4 * w && r < 4 * w + 256);
    }
}

#[test]
fn padded_rows_are_unpacked() {
    let (w, h, stride) = (3u32, 2u32, 16u32);
    let bytes: Vec<u8> = (0..(stride * h) as u8).collect();
    let c = RgbaCanvas::from_padded_bytes(&bytes, w, h, stride);
    assert_eq!(c.rows[0], vec![[0, 1, 2, 3], [4, 5, 6, 7], [8, 9, 10, 11]]);
    assert_eq!(c.rows[1], vec![[16, 17, 18, 19], [20, 21, 22, 23], [24, 25, 26, 27]]);
}

/// The multi-view assembly of the renderer, on `image` pictures.
fn reference_grid(width: u32, height: u32, tiles: &[image::RgbaImage], label: bool) -> image::RgbaImage {
    let tile_w = width / 2;
    let tile_h = height / 2;
    let offsets: [(u32, u32); 4] = [(0, 0), (tile_w, 0), (0, tile_h), (tile_w, tile_h)];
    let labels = ["Isometric", "Front", "Top", "Side"];
    let mut grid: image::RgbaImage = image::ImageBuffer::new(width, height);
    for (tile, &(ox, oy)) in tiles.iter().zip(offsets.iter()) {
        image::imageops::replace(&mut grid, tile, ox as i64, oy as i64);
    }
    reference_separators(&mut grid, tile_w, tile_h);
    if label {
        for (&(ox, oy), label) in offsets.iter().zip(labels.iter()) {
            reference_label(&mut grid, label, ox, oy, tile_w);
        }
    }
    grid
}

#[test]
fn multi_view_grid_matches_renderer() {
    for (w, h) in [(320u32, 240u32), (321u32, 241u32), (60, 50), (8, 6)] {
        for label in [false, true] {
            let tiles: Vec<image::RgbaImage> = (0..4).map(|k| pattern(w / 2, h / 2, 40 * k)).collect();
            let canvases: Vec<RgbaCanvas> = tiles.iter().map(canvas_from).collect();
            let grid = compose_views(w, h, &canvases, label);
            assert_eq!(image_from(&grid), reference_grid(w, h, &tiles, label), "{}x{} label {}", w, h, label);
        }
    }
}

#[test]
fn multi_view_separators_are_gray_without_labels() {
    let tiles: Vec<RgbaCanvas> = (0..4).map(|k| canvas_from(&pattern(50, 40, k))).collect();
    let grid = compose_views(100, 80, &tiles, false);
    for y in 0..80 {
        assert_eq!(grid.get_pixel(50, y), [180, 180, 180, 255]);
        assert_eq!(grid.get_pixel(51, y), [180, 180, 180, 255]);
    }
    assert_eq!(grid.get_pixel(10, 10), tiles[0].get_pixel(10, 10));
    assert_eq!(grid.get_pixel(60, 50), tiles[3].get_pixel(10, 10));
}
