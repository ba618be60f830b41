use std::collections::HashSet;

use airgap_xfer::error::Error;
use airgap_xfer::frame;
use airgap_xfer::frame::Payload;
use airgap_xfer::live::{camera_error, check_interrupted, encode_version_for};
use airgap_xfer::qr::{
    can_render, can_scan, cell_size_for_version, decode_all, decode_image, decode_with_points,
    encode_version,
    ensure_full_data_frame_fits,
    max_version_for_area, module_is_dark, modules_for_version, modules_of, render_terminal,
    scan_all_outcome, scan_outcome, smallest_version, tiles_for_area, GrayImage, MAX_SCAN_SIDE,
    SUPPORTED_VERSIONS,
};

/// A white image with others pasted into it.
struct Canvas {
    width: u32,
    height: u32,
    pixels: Vec<u8>,
}

impl Canvas {
    fn new(width: u32, height: u32, value: u8) -> Self {
        Canvas {
            width,
            height,
            pixels: vec![value; (width * height) as usize],
        }
    }

    fn paste(&mut self, image: &GrayImage, x0: u32, y0: u32) {
        for y in 0..image.height() {
            for x in 0..image.width() {
                let at = (y0 + y) * self.width + x0 + x;
                self.pixels[at as usize] = image.get_pixel(x, y);
            }
        }
    }

    fn image(self) -> GrayImage {
        GrayImage::from_raw(self.width, self.height, self.pixels).unwrap()
    }
}

#[test]
fn cell_size_matches_rendered_output() {
    for version in SUPPORTED_VERSIONS {
        let img = encode_version(b"AX", version).unwrap();
        let (cols, rows) = cell_size_for_version(version);
        assert_eq!(modules_of(&img) as u16, cols);
        assert_eq!(cols.div_ceil(2), rows);
    }
}

#[test]
fn max_version_for_area_rejects_areas_that_would_clip() {
    // Version 10 needs 65x33 cells; one column short must drop a version.
    let (cols, rows) = cell_size_for_version(10);
    assert_eq!((cols, rows), (65, 33));
    assert_eq!(max_version_for_area(cols, rows), Some(10));
    // Version 10 is the floor: one column short leaves nothing usable.
    assert_eq!(max_version_for_area(cols - 1, rows), None);
    assert_eq!(max_version_for_area(cols, rows - 1), None);
    let (big_cols, big_rows) = cell_size_for_version(20);
    assert_eq!(max_version_for_area(big_cols, big_rows), Some(20));
}

#[test]
fn a_code_in_a_wide_frame_decodes_like_the_camera_sees_it() {
    // A square test image round-trips happily even when a decoder swaps width
    // and height; a 1920x1080 camera frame does not.
    let payload = frame::encode(&Payload::Okay).unwrap();
    let code = encode_version(&payload, 10).unwrap();
    let mut canvas = Canvas::new(1920, 1080, 255);
    canvas.paste(&code, 700, 400);
    assert_eq!(decode_image(&canvas.image()).unwrap(), payload);
}

#[test]
fn decoding_reports_where_the_code_was_found() {
    let code = encode_version(b"AX-points", 10).unwrap();
    let (_, points) = decode_with_points(&code).unwrap();
    assert!(points.len() >= 3, "expected a locatable quad, got {points:?}");
    for (x, y) in points {
        let (x, y) = (f32::from_bits(x), f32::from_bits(y));
        assert!(x >= 0.0 && x <= code.width() as f32, "{x}");
        assert!(y >= 0.0 && y <= code.height() as f32, "{y}");
    }
}

#[test]
fn decode_all_finds_two_codes_on_one_canvas() {
    let left = frame::encode(&Payload::Okay).unwrap();
    let right = frame::encode(&Payload::Fin { sha256: [9; 32] }).unwrap();
    let a = encode_version(&left, 10).unwrap();
    let b = encode_version(&right, 10).unwrap();
    let gap = 48;
    let mut canvas = Canvas::new(a.width() + gap + b.width(), a.height(), 255);
    canvas.paste(&a, 0, 0);
    canvas.paste(&b, a.width() + gap, 0);
    let found: HashSet<Vec<u8>> = decode_all(&canvas.image())
        .into_iter()
        .map(|(bytes, _)| bytes)
        .collect();
    assert!(found.contains(&left), "missing left code, got {found:?}");
    assert!(found.contains(&right), "missing right code, got {found:?}");
}

#[test]
fn qr_roundtrip_binary_envelope() {
    let payload = Payload::Data {
        seq: 1,
        chunk: (0u8..=80).collect(),
    };
    let bytes = frame::encode(&payload).unwrap();
    let img = encode_version(&bytes, 15).unwrap();
    let got = decode_image(&img).unwrap();
    assert_eq!(got, bytes);
}

#[test]
fn a_full_data_chunk_fits_every_supported_version() {
    for version in SUPPORTED_VERSIONS {
        let cap = frame::qr_byte_capacity(version);
        let chunk = vec![0xA5u8; frame::data_chunk_size(version)];
        let bytes = frame::encode(&Payload::Data { seq: 0, chunk }).unwrap();
        assert!(
            bytes.len() <= cap,
            "v{version}: DATA envelope {} > capacity {cap}",
            bytes.len()
        );
        encode_version(&bytes, version).unwrap_or_else(|err| {
            panic!("v{version} full DATA chunk must encode, got {}", err.message())
        });
        encode_version(&vec![0xFFu8; cap], version).unwrap_or_else(|err| {
            panic!("v{version} capacity {cap} must encode, got {}", err.message())
        });
        ensure_full_data_frame_fits(version).unwrap_or_else(|err| {
            panic!("v{version} handshake preflight must pass, got {}", err.message())
        });
        assert!(
            encode_version(&vec![0xFFu8; cap + 1], version).is_err(),
            "v{version} must reject capacity+1"
        );
    }
}

#[test]
fn terminal_render_contains_blocks_and_newline() {
    let img = encode_version(b"AX-test", 10).unwrap();
    let s = render_terminal(&img, false);
    assert!(s.contains('█') || s.contains('▀') || s.contains('▄'));
    assert!(s.contains('\n'));
}

#[test]
fn terminal_render_width_is_module_count_not_pixel_count_for_version_10() {
    let img = encode_version(b"AX-test", 10).unwrap();
    // The raster has 4 px/module, so a naive per-pixel render would be 260
    // columns wide. render_terminal must downsample to one column per module:
    // 21 + 4*9 (modules for version 10) + 8 (quiet zone) = 65 columns.
    assert_eq!(img.width(), 260);
    let raw = render_terminal(&img, false);
    let plain = raw.replace("\x1b[47m\x1b[30m", "").replace("\x1b[0m", "");
    let max_width = plain.lines().map(|l| l.chars().count()).max().unwrap_or(0);
    assert_eq!(max_width, 65);
    assert!(
        max_width < 100,
        "QR render must fit a normal terminal, got {max_width} columns"
    );
}

#[test]
fn two_v10_codes_fit_side_by_side_on_a_wide_pane() {
    let (w, h) = cell_size_for_version(10);
    assert_eq!(tiles_for_area(w, h, 10), 1);
    assert_eq!(tiles_for_area(w * 2, h, 10), 2);
    assert_eq!(tiles_for_area(w * 2, h * 2, 10), 4);
    assert_eq!(tiles_for_area(w - 1, h, 10), 1);
}

#[test]
fn the_largest_version_takes_this_many_modules() {
    assert_eq!(modules_for_version(40), 185);
    assert_eq!(cell_size_for_version(40), (185, 93));
    assert_eq!(max_version_for_area(185, 93), Some(40));
    assert_eq!(max_version_for_area(184, 93), Some(30));
    assert_eq!(smallest_version(), 10);
}

#[test]
fn a_code_has_its_finder_patterns_inside_a_light_border() {
    let img = encode_version(b"AX", 10).unwrap();
    let side = modules_of(&img);
    for i in 0..side {
        for j in 0..4 {
            assert!(!module_is_dark(&img, i, j, false));
            assert!(!module_is_dark(&img, j, side - 1 - i, false));
        }
    }
    // Three of the four corners of the symbol are dark.
    assert!(module_is_dark(&img, 4, 4, false));
    assert!(module_is_dark(&img, side - 5, 4, false));
    assert!(module_is_dark(&img, 4, side - 5, false));
    assert!(!module_is_dark(&img, 4, 4, true));
    // The raster is four pixels to a module.
    assert_eq!(img.get_pixel(16, 16), 0);
    assert_eq!(img.get_pixel(15, 16), 255);
    assert_eq!(img.get_pixel(19, 19), 0);
}

#[test]
fn different_data_gives_different_codes() {
    let a = encode_version(b"AX-a", 10).unwrap();
    let b = encode_version(b"AX-b", 10).unwrap();
    assert_ne!(a.as_raw(), b.as_raw());
}

#[test]
fn what_does_not_fit_is_refused_with_these_words() {
    match encode_version(&[0u8; 144], 10) {
        Err(Error::Message(m)) => assert_eq!(m, "payload exceeds QR v10 (144 bytes, max 143)"),
        other => panic!("{other:?}"),
    }
    match encode_version(&[1u8], 11) {
        Err(Error::Message(m)) => assert_eq!(m, "payload exceeds QR v11 (1 bytes, max 0)"),
        other => panic!("{other:?}"),
    }
    match encode_version(&[], 41) {
        Err(Error::Message(m)) => assert_eq!(m, "payload exceeds QR v41 (0 bytes, terminator)"),
        other => panic!("{other:?}"),
    }
    match ensure_full_data_frame_fits(12) {
        Err(Error::Message(m)) => assert_eq!(m, "payload exceeds QR v12 (14 bytes, max 0)"),
        other => panic!("{other:?}"),
    }
    // Nothing at all fits any version there is.
    assert_eq!(encode_version(&[], 1).unwrap().width(), (21 + 8) * 4);
}

#[test]
fn an_image_without_a_code_is_a_bad_frame() {
    let blank = Canvas::new(200, 100, 255).image();
    assert!(matches!(decode_image(&blank), Err(Error::BadFrame)));
    assert!(matches!(decode_with_points(&blank), Err(Error::BadFrame)));
    assert!(decode_all(&blank).is_empty());
    assert!(matches!(scan_outcome(None), Err(Error::BadFrame)));
    let decoded = (vec![1], vec![(2, 3)]);
    assert_eq!(scan_outcome(Some(decoded.clone())).unwrap(), decoded);
    assert_eq!(scan_all_outcome(None), vec![]);
    assert_eq!(scan_all_outcome(Some(vec![decoded.clone()])), vec![decoded]);
}

#[test]
fn an_image_needs_all_its_pixels() {
    assert!(GrayImage::from_raw(3, 2, vec![0; 5]).is_none());
    let image = GrayImage::from_raw(3, 2, vec![0, 1, 2, 3, 4, 5]).unwrap();
    assert_eq!(image.get_pixel(2, 1), 5);
    assert_eq!((image.width(), image.height()), (3, 2));
}

#[test]
fn a_tiny_image_renders_exactly_like_this() {
    // Two modules per side: dark top left and bottom right.
    let mut pixels = vec![255u8; 64];
    for y in 0..8 {
        for x in 0..8 {
            if (x < 4) == (y < 4) {
                pixels[y * 8 + x] = 0;
            }
        }
    }
    let image = GrayImage::from_raw(8, 8, pixels).unwrap();
    assert_eq!(
        render_terminal(&image, false),
        "\x1b[47m\x1b[30m  \n▀▄\n  \n\x1b[0m"
    );
    assert_eq!(
        render_terminal(&image, true),
        "\x1b[47m\x1b[30m  \n▄▀\n  \n\x1b[0m"
    );
}

#[test]
fn probe_uses_probe_version() {
    assert_eq!(
        encode_version_for(
            &Payload::Probe {
                id: 2,
                qr_version: 20,
                dwell_ms: 200,
                last: false
            },
            10
        ),
        20
    );
    assert_eq!(encode_version_for(&Payload::Okay, 25), 25);
}

#[test]
fn interrupts_and_camera_errors() {
    assert!(check_interrupted(false).is_ok());
    assert!(matches!(check_interrupted(true), Err(Error::Interrupted)));
    assert_eq!(
        camera_error("busy", "check your settings").message(),
        "camera: busy (check your settings)"
    );
}

#[test]
fn only_pictures_of_a_countable_size_are_scanned() {
    let picture = |width: u32, height: u32| {
        GrayImage::from_raw(width, height, vec![255; (width * height) as usize]).unwrap()
    };
    assert!(can_scan(&picture(1, 1)));
    assert!(can_scan(&picture(MAX_SCAN_SIDE, 1)));
    assert!(can_scan(&picture(1, MAX_SCAN_SIDE)));
    assert!(!can_scan(&picture(MAX_SCAN_SIDE + 1, 1)));
    assert!(!can_scan(&picture(1, MAX_SCAN_SIDE + 1)));
    assert!(!can_scan(&picture(0, 1)));
    assert!(!can_scan(&picture(1, 0)));
    assert!(decode_with_points(&picture(MAX_SCAN_SIDE, 8)).is_err());
    assert!(decode_all(&picture(MAX_SCAN_SIDE, 8)).is_empty());
    assert!(decode_with_points(&picture(8, MAX_SCAN_SIDE)).is_err());
}

#[test]
fn a_code_needs_a_row_of_pixels_for_every_row_of_modules() {
    let picture = |width: u32, height: u32| {
        GrayImage::from_raw(width, height, vec![255; (width * height) as usize]).unwrap()
    };
    assert!(can_render(&picture(8, 8)));
    assert!(can_render(&picture(8, 7)));
    assert!(!can_render(&picture(8, 6)));
    assert!(can_render(&picture(3, 0)));
}

#[test]
fn finder_patterns_too_close_for_a_code_are_a_bad_frame() {
    let mut canvas = Canvas::new(165, 165, 255);
    for (cx, cy) in [(45, 45), (119, 45), (45, 119)] {
        for y in cy - 35..cy + 35 {
            for x in cx - 35..cx + 35 {
                let ring = (x - cx).max(cx - 1 - x).max(y - cy).max(cy - 1 - y);
                if !(15..25).contains(&ring) {
                    canvas.pixels[(y * 165 + x) as usize] = 0;
                }
            }
        }
    }
    let image = canvas.image();
    assert!(matches!(decode_with_points(&image), Err(Error::BadFrame)));
    assert!(decode_all(&image).is_empty());
}

#[test]
fn a_turned_code_half_out_of_view_is_a_bad_frame() {
    // Ten pixels to a module, turned by 45 degrees, finder patterns at
    // (100, 400), (340, 160) and (340, 640).
    let version = qrcode::Version::Normal(6);
    let code = qrcode::QrCode::with_version(b"half out of view", version, qrcode::EcLevel::L)
        .unwrap()
        .to_colors();
    let whole = |width: u32, height: u32| {
        let mut canvas = Canvas::new(width, height, 255);
        for y in 0..height {
            for x in 0..width {
                let (dx, dy) = (x as f32 + 0.5 - 100.0, y as f32 + 0.5 - 400.0);
                let turned = |along: f32| 3.5 + along / 200.0f32.sqrt();
                let (mx, my) = (turned(dx - dy), turned(dx + dy));
                if mx >= 0.0 && my >= 0.0 && mx < 41.0 && my < 41.0 {
                    let color = code[my as usize * 41 + mx as usize];
                    canvas.pixels[(y * width + x) as usize] = color.select(0, 255);
                }
            }
        }
        canvas.image()
    };
    assert_eq!(decode_image(&whole(800, 800)).unwrap(), b"half out of view");
    for (width, height) in [(420, 800), (800, 560)] {
        let cut = whole(width, height);
        assert!(matches!(decode_image(&cut), Err(Error::BadFrame)));
        assert!(decode_all(&cut).is_empty());
    }
}

#[test]
fn a_code_with_doubled_percent_signs_is_a_bad_frame() {
    let mut bits = qrcode::bits::Bits::new(qrcode::Version::Normal(2));
    bits.push_fnc1_first_position().unwrap();
    bits.push_alphanumeric_data(b"A%%").unwrap();
    bits.push_terminator(qrcode::EcLevel::L).unwrap();
    let code = qrcode::QrCode::with_bits(bits, qrcode::EcLevel::L).unwrap();
    let mut canvas = Canvas::new(132, 132, 255);
    for (i, color) in code.to_colors().into_iter().enumerate() {
        let (mx, my) = (i as u32 % 25 + 4, i as u32 / 25 + 4);
        for at in 0..16 {
            let (x, y) = (mx * 4 + at % 4, my * 4 + at / 4);
            canvas.pixels[(y * 132 + x) as usize] = color.select(0, 255);
        }
    }
    let image = canvas.image();
    assert!(matches!(decode_image(&image), Err(Error::BadFrame)));
    assert!(decode_all(&image).is_empty());
}
