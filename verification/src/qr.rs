//! QR codes: their sizes, their rasters, and their terminal form.
use crate::error::{Error, ErrorView, Result};
use crate::frame;
use crate::frame::Payload;
use crate::text;
use rxing::common::HybridBinarizer;
use rxing::multi::{GenericMultipleBarcodeReader, MultipleBarcodeReader};
use rxing::qrcode::cpp_port::QrReader;
use rxing::{BarcodeFormat, BinaryBitmap, DecodeHints, Luma8LuminanceSource, Reader};
use vstd::prelude::*;

verus! {

/// Width of the light border around a code, in modules.
pub const QUIET_ZONE_MODULES: usize = 4;

/// Pixels per module of a rastered code.
pub const MODULE_SCALE: usize = 4;

/// Every QR version the protocol can carry a frame at, smallest first.
/// Versions outside this set have no capacity entry in [`crate::frame`] and
/// cannot carry a frame at all.
pub const SUPPORTED_VERSIONS: [u8; 6] = [10, 15, 20, 25, 30, 40];

/// Smallest supported QR version, and therefore the floor on terminal size.
pub fn smallest_version() -> (version: u8)
    ensures
        version == SUPPORTED_VERSIONS@[0],
{
    SUPPORTED_VERSIONS[0]
}

/// A grayscale image: one byte per pixel, row by row.
#[derive(Debug)]
pub struct GrayImage {
    width: u32,
    height: u32,
    pixels: Vec<u8>,
}

impl GrayImage {
    pub closed spec fn spec_width(&self) -> u32 {
        self.width
    }

    pub closed spec fn spec_height(&self) -> u32 {
        self.height
    }

    /// The pixels, row by row.
    pub closed spec fn raster(&self) -> Seq<u8> {
        self.pixels@
    }

    /// There is a pixel for every place in the image.
    pub open spec fn wf(&self) -> bool {
        self.raster().len() == self.spec_width() * self.spec_height()
    }

    /// The pixel in column `x` of row `y`.
    pub open spec fn at(&self, x: int, y: int) -> u8 {
        self.raster()[y * self.spec_width() + x]
    }

    /// An image of the given size, unless there are more or fewer pixels than
    /// that takes.
    pub fn from_raw(width: u32, height: u32, pixels: Vec<u8>) -> (image: Option<GrayImage>)
        ensures
            match image {
                Some(img) => {
                    &&& img.wf()
                    &&& img.spec_width() == width
                    &&& img.spec_height() == height
                    &&& img.raster() == pixels@
                },
                None => pixels@.len() != width * height,
            },
    {
        assert(width * height <= u32::MAX * u32::MAX) by (nonlinear_arith)
            requires
                width <= u32::MAX,
                height <= u32::MAX,
        ;
        if pixels.len() as u64 == width as u64 * height as u64 {
            Some(GrayImage { width, height, pixels })
        } else {
            None
        }
    }

    /// An image of the given size, for which there are pixels enough.
    pub(crate) fn of_pixels(width: u32, height: u32, pixels: Vec<u8>) -> (image: GrayImage)
        requires
            pixels@.len() == width * height,
        ensures
            image.wf(),
            image.spec_width() == width,
            image.spec_height() == height,
            image.raster() == pixels@,
    {
        GrayImage { width, height, pixels }
    }

    pub fn width(&self) -> (width: u32)
        ensures
            width == self.spec_width(),
    {
        self.width
    }

    pub fn height(&self) -> (height: u32)
        ensures
            height == self.spec_height(),
    {
        self.height
    }

    /// The pixels, row by row.
    pub fn as_raw(&self) -> (pixels: &Vec<u8>)
        ensures
            pixels@ == self.raster(),
    {
        &self.pixels
    }

    /// The pixel in column `x` of row `y`.
    pub fn get_pixel(&self, x: u32, y: u32) -> (value: u8)
        requires
            self.wf(),
            x < self.spec_width(),
            y < self.spec_height(),
        ensures
            value == self.at(x as int, y as int),
    {
        proof {
            place_in_raster(self.width as int, self.height as int, x as int, y as int);
        }
        let len: usize = self.pixels.len();
        self.pixels[y as usize * self.width as usize + x as usize]
    }
}

proof fn place_in_raster(width: int, height: int, x: int, y: int)
    requires
        0 <= x < width,
        0 <= y < height,
    ensures
        0 <= y * width <= y * width + x < width * height,
{
    assert(0 <= y * width <= y * width + x < width * height) by (nonlinear_arith)
        requires
            0 <= x < width,
            0 <= y < height,
    ;
}

/// Modules per side of a code of `version`, without its border.
pub open spec fn side_of(version: u8) -> nat {
    (17 + 4 * version) as nat
}

/// The modules of the code that the qrcode crate makes of `data` in byte mode
/// at quartile error correction, row by row, dark ones `true`; none if it
/// refuses.
pub uninterp spec fn code_modules(data: Seq<u8>, version: u8) -> Option<Seq<bool>>;

/// Encodes `data` with the qrcode crate: `Bits::new`, `push_byte_data`,
/// `push_terminator` and `QrCode::with_bits`, all at quartile error
/// correction. Taken on trust: the code depends on the data and the version
/// alone, it is a square of `17 + 4 * version` modules per side, and it exists
/// whenever the data is no longer than the version's byte-mode capacity.
#[verifier::external_body]
fn encode_modules(data: &[u8], version: u8) -> (modules: Option<Vec<bool>>)
    requires
        1 <= version <= 40,
    ensures
        match modules {
            Some(m) => code_modules(data@, version) == Some(m@) && m@.len() == side_of(version)
                * side_of(version),
            None => code_modules(data@, version) is None,
        },
        data@.len() <= frame::quartile_bytes(version) ==> modules is Some,
{
    let mut bits = qrcode::bits::Bits::new(qrcode::Version::Normal(version as i16));
    bits.push_byte_data(data).ok()?;
    bits.push_terminator(qrcode::EcLevel::Q).ok()?;
    let code = qrcode::QrCode::with_bits(bits, qrcode::EcLevel::Q).ok()?;
    Some(code.into_colors().into_iter().map(|c| c == qrcode::Color::Dark).collect())
}

/// The complaint about a payload of `len` bytes that does not fit.
pub open spec fn too_long_text(version: u8, len: nat, why: Seq<char>) -> Seq<char> {
    "payload exceeds QR v"@ + text::decimal(version as nat) + " ("@ + text::decimal(len)
        + " bytes, "@ + why + ")"@
}

/// What is said about the most that fits.
pub open spec fn max_text(cap: nat) -> Seq<char> {
    "max "@ + text::decimal(cap)
}

fn too_long(version: u8, len: usize, why: &str) -> (err: Error)
    ensures
        err@ == ErrorView::Message(too_long_text(version, len as nat, why@)),
{
    let mut line = String::from_str("payload exceeds QR v");
    text::push_decimal(&mut line, version as u64);
    line.append(" (");
    text::push_decimal(&mut line, len as u64);
    line.append(" bytes, ");
    line.append(why);
    line.append(")");
    Error::Message(line)
}

/// Why `data` cannot be shown as a code of `version`, if it cannot: it is
/// longer than what a frame of that version holds, or there is no such
/// version.
pub open spec fn refusal(len: nat, version: u8) -> Option<ErrorView> {
    if len > frame::frame_room(version) {
        Some(
            ErrorView::Message(
                too_long_text(version, len, max_text(frame::frame_room(version))),
            ),
        )
    } else if version == 0 || version > 40 {
        Some(ErrorView::Message(too_long_text(version, len, "terminator"@)))
    } else {
        None
    }
}

fn qr_code_byte_mode(data: &[u8], version: u8) -> (modules: Result<Vec<bool>>)
    ensures
        match modules {
            Ok(m) => refusal(data@.len(), version) is None && code_modules(data@, version) == Some(
                m@,
            ) && m@.len() == side_of(version) * side_of(version),
            Err(e) => refusal(data@.len(), version) == Some(e@),
        },
{
    let cap: usize = frame::qr_byte_capacity(version);
    if data.len() > cap {
        let mut why = String::from_str("max ");
        text::push_decimal(&mut why, cap as u64);
        return Err(too_long(version, data.len(), why.as_str()));
    }
    if version == 0 || version > 40 {
        return Err(too_long(version, data.len(), "terminator"));
    }
    match encode_modules(data, version) {
        Some(modules) => Ok(modules),
        None => Err(too_long(version, data.len(), "encoder")),
    }
}

/// The value of pixel `(x, y)` in the raster of a code whose modules are
/// `modules`, `side` to a row: black inside a dark module, white elsewhere.
pub open spec fn raster_value(modules: Seq<bool>, side: nat, x: int, y: int) -> u8 {
    let mx = x / 4 - 4;
    let my = y / 4 - 4;
    if 0 <= mx < side && 0 <= my < side && modules[my * side + mx] {
        0
    } else {
        255
    }
}

/// Whether `image` is the raster of the code of `version` for `data`.
pub open spec fn is_raster_of(image: GrayImage, data: Seq<u8>, version: u8) -> bool {
    &&& image.wf()
    &&& image.spec_width() == (side_of(version) + 8) * 4
    &&& image.spec_height() == image.spec_width()
    &&& code_modules(data, version) is Some
    &&& forall|x: int, y: int|
        0 <= x < image.spec_width() && 0 <= y < image.spec_height() ==> #[trigger] image.at(x, y)
            == raster_value(code_modules(data, version)->0, side_of(version), x, y)
}

/// Encodes `data` as a fixed-version, quartile-error-correction QR image.
///
/// Always uses byte mode. The payload is a binary envelope, and an encoder
/// that optimizes over modes can pick a mixed-mode layout that no longer fits
/// the bit budget the chunks are sized for.
pub fn encode_version(data: &[u8], version: u8) -> (image: Result<GrayImage>)
    ensures
        match image {
            Ok(img) => refusal(data@.len(), version) is None && is_raster_of(img, data@, version),
            Err(e) => refusal(data@.len(), version) == Some(e@),
        },
{
    let modules: Vec<bool> = match qr_code_byte_mode(data, version) {
        Ok(modules) => modules,
        Err(e) => return Err(e),
    };
    Ok(raster(&modules, 17 + 4 * version as usize))
}

fn raster(modules: &Vec<bool>, side: usize) -> (image: GrayImage)
    requires
        side <= 177,
        modules@.len() == side * side,
    ensures
        image.wf(),
        image.spec_width() == (side + 8) * 4,
        image.spec_height() == (side + 8) * 4,
        forall|x: int, y: int|
            0 <= x < image.spec_width() && 0 <= y < image.spec_height() ==> #[trigger] image.at(
                x,
                y,
            ) == raster_value(modules@, side as nat, x, y),
{
    let size: usize = (side + QUIET_ZONE_MODULES * 2) * MODULE_SCALE;
    let mut pixels: Vec<u8> = Vec::new();
    let mut y: usize = 0;
    while y < size
        invariant
            side <= 177,
            size == (side + 8) * 4,
            modules@.len() == side * side,
            y <= size,
            pixels@.len() == y * size,
            forall|i: int, j: int|
                0 <= i < size && 0 <= j < y ==> #[trigger] pixels@[j * size + i] == raster_value(
                    modules@,
                    side as nat,
                    i,
                    j,
                ),
        decreases size - y,
    {
        let mut x: usize = 0;
        while x < size
            invariant
                side <= 177,
                size == (side + 8) * 4,
                modules@.len() == side * side,
                y < size,
                x <= size,
                pixels@.len() == y * size + x,
                forall|i: int, j: int|
                    0 <= i < size && 0 <= j < y || 0 <= i < x && j == y ==> #[trigger] pixels@[j
                        * size + i] == raster_value(modules@, side as nat, i, j),
            decreases size - x,
        {
            let value: u8 = raster_pixel(modules, side, x, y);
            let ghost before: Seq<u8> = pixels@;
            pixels.push(value);
            proof {
                assert forall|i: int, j: int|
                    0 <= i < size && 0 <= j < y || 0 <= i < x + 1 && j == y implies #[trigger] pixels@[j
                    * size + i] == raster_value(modules@, side as nat, i, j) by {
                    if j < y {
                        assert(j * size + i < y * size) by (nonlinear_arith)
                            requires
                                0 <= i < size,
                                0 <= j < y,
                        ;
                        assert(before[j * size + i] == raster_value(modules@, side as nat, i, j));
                    } else if i < x {
                        assert(before[j * size + i] == raster_value(modules@, side as nat, i, j));
                    }
                    assert(0 <= j * size) by (nonlinear_arith)
                        requires
                            0 <= j,
                            0 <= size,
                    ;
                }
            }
            x = x + 1;
        }
        proof {
            assert((y + 1) * size == y * size + size) by (nonlinear_arith);
            assert forall|i: int, j: int| 0 <= i < size && 0 <= j < y + 1 implies #[trigger] pixels@[j
                * size + i] == raster_value(modules@, side as nat, i, j) by {}
        }
        y = y + 1;
    }
    GrayImage { width: size as u32, height: size as u32, pixels }
}

fn raster_pixel(modules: &Vec<bool>, side: usize, x: usize, y: usize) -> (value: u8)
    requires
        side <= 177,
        modules@.len() == side * side,
        x < (side + 8) * 4,
        y < (side + 8) * 4,
    ensures
        value == raster_value(modules@, side as nat, x as int, y as int),
{
    let mx: usize = x / MODULE_SCALE;
    let my: usize = y / MODULE_SCALE;
    if mx >= QUIET_ZONE_MODULES && mx - QUIET_ZONE_MODULES < side && my >= QUIET_ZONE_MODULES && my
        - QUIET_ZONE_MODULES < side {
        proof {
            place_in_raster(side as int, side as int, mx - 4, my - 4);
            assert(side * side <= 177 * 177) by (nonlinear_arith)
                requires
                    side <= 177,
            ;
        }
        if modules[(my - QUIET_ZONE_MODULES) * side + (mx - QUIET_ZONE_MODULES)] {
            return 0;
        }
    }
    255
}

/// What [`ensure_full_data_frame_fits`] says of `version`.
pub open spec fn preflight(version: u8) -> Option<ErrorView> {
    if frame::chunk_room(version) > 0 {
        None
    } else {
        Some(ErrorView::Message(too_long_text(version, 14, max_text(0))))
    }
}

/// Checks that a full-size DATA envelope fits in `version` under byte mode.
///
/// Call this after the link is locked and before GO, so a capacity mistake
/// fails the handshake instead of crashing the sender while the receiver
/// waits for DATA and reports a stall on the first window.
pub fn ensure_full_data_frame_fits(version: u8) -> (outcome: Result<()>)
    ensures
        match outcome {
            Ok(_) => preflight(version) is None,
            Err(e) => preflight(version) == Some(e@),
        },
{
    let chunk: Vec<u8> = vec![0xA5u8; frame::data_chunk_size(version)];
    let payload = Payload::Data { seq: 0, chunk };
    proof {
        broadcast use crate::wire::be_bytes_width;

        frame::law_frame_length(payload@);
        if frame::chunk_room(version) > 0 {
            frame::law_data_frame_fits(version, 0, payload@->chunk);
        }
    }
    let bytes: Vec<u8> = match frame::encode(&payload) {
        Ok(bytes) => bytes,
        Err(e) => return Err(e),
    };
    match qr_code_byte_mode(bytes.as_slice(), version) {
        Ok(_) => Ok(()),
        Err(e) => Err(e),
    }
}

/// Every supported version carries a full DATA frame, and no other version
/// carries any.
pub proof fn law_full_frames_fit_supported_versions(version: u8)
    ensures
        preflight(version) is None <==> exists|i: int|
            0 <= i < 6 && #[trigger] SUPPORTED_VERSIONS@[i] == version,
        preflight(version) is None ==> frame::frame_room(version) > 0 && refusal(
            frame::frame_room(version),
            version,
        ) is None && refusal(frame::frame_room(version) + 1, version) is Some,
{
    if preflight(version) is None {
        let i: int = if version == 10 {
            0
        } else if version == 15 {
            1
        } else if version == 20 {
            2
        } else if version == 25 {
            3
        } else if version == 30 {
            4
        } else {
            5
        };
        assert(SUPPORTED_VERSIONS@[i] == version);
    }
}

/// Modules per side of a code of `version`, with its border.
pub open spec fn framed_side(version: u8) -> nat {
    side_of(version) + 8
}

/// Total module count per side for `version`, including the quiet zone.
///
/// QR version `v` is `17 + 4v` modules wide; [`encode_version`] pads it with a
/// [`QUIET_ZONE_MODULES`]-wide border on every side.
pub fn modules_for_version(version: u8) -> (modules: usize)
    ensures
        modules == framed_side(version),
{
    17 + 4 * version as usize + QUIET_ZONE_MODULES * 2
}

/// Terminal columns and rows that a code of `version` takes.
pub open spec fn cells_of(version: u8) -> (u16, u16) {
    (framed_side(version) as u16, ((framed_side(version) + 1) / 2) as u16)
}

/// Terminal cells a `version` code occupies when drawn two modules per row:
/// `(columns, rows)`.
pub fn cell_size_for_version(version: u8) -> (cells: (u16, u16))
    ensures
        cells == cells_of(version),
{
    let modules: usize = modules_for_version(version);
    (modules as u16, ((modules + 1) / 2) as u16)
}

/// Whether a code of `version` can be drawn in full in `cols` by `rows` cells.
pub open spec fn fits_area(version: u8, cols: u16, rows: u16) -> bool {
    cells_of(version).0 <= cols && cells_of(version).1 <= rows
}

/// Largest supported QR version that renders without clipping in a
/// `cols` x `rows` terminal area, or `None` if even the smallest does not fit.
///
/// A clipped QR code is undecodable, so both peers must refuse to negotiate a
/// version their own display cannot draw in full.
pub fn max_version_for_area(cols: u16, rows: u16) -> (version: Option<u8>)
    ensures
        match version {
            Some(v) => {
                &&& fits_area(v, cols, rows)
                &&& exists|i: int| 0 <= i < 6 && #[trigger] SUPPORTED_VERSIONS@[i] == v
                &&& forall|i: int|
                    0 <= i < 6 && fits_area(#[trigger] SUPPORTED_VERSIONS@[i], cols, rows)
                        ==> SUPPORTED_VERSIONS@[i] <= v
            },
            None => forall|i: int|
                0 <= i < 6 ==> !fits_area(#[trigger] SUPPORTED_VERSIONS@[i], cols, rows),
        },
{
    let mut i: usize = 6;
    while i > 0
        invariant
            i <= 6,
            forall|k: int|
                i <= k < 6 ==> !fits_area(#[trigger] SUPPORTED_VERSIONS@[k], cols, rows),
        decreases i,
    {
        i = i - 1;
        let version: u8 = SUPPORTED_VERSIONS[i];
        let (need_cols, need_rows) = cell_size_for_version(version);
        if need_cols <= cols && need_rows <= rows {
            assert(SUPPORTED_VERSIONS@[i as int] == version);
            assert(forall|a: int, b: int|
                0 <= a <= b < 6 ==> #[trigger] SUPPORTED_VERSIONS@[a]
                    <= #[trigger] SUPPORTED_VERSIONS@[b]);
            return Some(version);
        }
    }
    None
}

/// A larger area never gets a smaller version.
pub proof fn law_larger_areas_fit_no_less(version: u8, cols: u16, rows: u16, more_cols: u16, more_rows: u16)
    requires
        cols <= more_cols,
        rows <= more_rows,
        fits_area(version, cols, rows),
    ensures
        fits_area(version, more_cols, more_rows),
        version > 0 ==> fits_area((version - 1) as u8, cols, rows),
{
}

/// How many whole `part`s go into `whole`, and at least one.
pub open spec fn at_least_one(whole: u16, part: u16) -> nat {
    if whole / part == 0 {
        1
    } else {
        (whole / part) as nat
    }
}

/// How many copies of `version` fit in a `cols` x `rows` pane, packed in a
/// row-major grid. Always at least 1: a pane smaller than one code is a
/// clip (handled at draw time), not zero tiles.
pub fn tiles_for_area(cols: u16, rows: u16, version: u8) -> (tiles: usize)
    ensures
        tiles == at_least_one(cols, cells_of(version).0) * at_least_one(rows, cells_of(version).1),
        tiles >= 1,
{
    let (w, h) = cell_size_for_version(version);
    let across: u16 = if cols / w == 0 {
        1
    } else {
        cols / w
    };
    let down: u16 = if rows / h == 0 {
        1
    } else {
        rows / h
    };
    assert(1 <= across * down <= 0xffff * 0xffff) by (nonlinear_arith)
        requires
            1 <= across <= 0xffff,
            1 <= down <= 0xffff,
    ;
    across as usize * down as usize
}

/// Whether a pixel value counts as dark.
pub open spec fn dark(value: u8, invert: bool) -> bool {
    (value < 128) != invert
}

fn is_dark(value: u8, invert: bool) -> (is: bool)
    ensures
        is == dark(value, invert),
{
    (value < 128) != invert
}

/// Whether module `(mx, my)` of a rastered code is dark.
pub open spec fn module_dark(image: GrayImage, mx: int, my: int, invert: bool) -> bool {
    dark(image.at(mx * 4 + 2, my * 4 + 2), invert)
}

/// Whether the centre of module `(mx, my)` lies in the image.
pub open spec fn has_module(image: GrayImage, mx: int, my: int) -> bool {
    0 <= mx && 0 <= my && mx * 4 + 2 < image.spec_width() && my * 4 + 2 < image.spec_height()
}

/// Returns whether module `(mx, my)` of a rendered code is dark, sampling the
/// center pixel of the module so the [`MODULE_SCALE`] raster does not matter.
pub fn module_is_dark(img: &GrayImage, mx: usize, my: usize, invert: bool) -> (is: bool)
    requires
        img.wf(),
        has_module(*img, mx as int, my as int),
    ensures
        is == module_dark(*img, mx as int, my as int, invert),
{
    let px: u32 = (mx * MODULE_SCALE + MODULE_SCALE / 2) as u32;
    let py: u32 = (my * MODULE_SCALE + MODULE_SCALE / 2) as u32;
    is_dark(img.get_pixel(px, py), invert)
}

/// Modules per side of a rastered code.
pub open spec fn image_modules(image: GrayImage) -> nat {
    (image.spec_width() / 4) as nat
}

/// Module count per side of an already-rendered code image.
pub fn modules_of(img: &GrayImage) -> (modules: usize)
    ensures
        modules == image_modules(*img),
{
    img.width() as usize / MODULE_SCALE
}

/// A rastered code shows its modules: the centre of every module of the code
/// is dark exactly if the module is, and the border is light.
pub proof fn law_raster_shows_the_code(image: GrayImage, data: Seq<u8>, version: u8, mx: int, my: int)
    requires
        is_raster_of(image, data, version),
        0 <= mx < framed_side(version),
        0 <= my < framed_side(version),
    ensures
        image_modules(image) == framed_side(version),
        renderable(image),
        has_module(image, mx, my),
        module_dark(image, mx, my, false) == (4 <= mx < side_of(version) + 4 && 4 <= my < side_of(
            version,
        ) + 4 && code_modules(data, version)->0[(my - 4) * side_of(version) + (mx - 4)]),
        module_dark(image, mx, my, true) == !module_dark(image, mx, my, false),
{
    assert((mx * 4 + 2) / 4 == mx);
    assert((my * 4 + 2) / 4 == my);
    let value = image.at(mx * 4 + 2, my * 4 + 2);
    assert(value == raster_value(
        code_modules(data, version)->0,
        side_of(version),
        mx * 4 + 2,
        my * 4 + 2,
    ));
}

/// What one terminal cell shows of two modules, one above the other.
pub open spec fn cell_text(upper_dark: bool, lower_dark: bool) -> Seq<char> {
    match (upper_dark, lower_dark) {
        (true, true) => "█"@,
        (true, false) => "▀"@,
        (false, true) => "▄"@,
        (false, false) => " "@,
    }
}

fn cell_str(upper_dark: bool, lower_dark: bool) -> (cell: &'static str)
    ensures
        cell@ == cell_text(upper_dark, lower_dark),
{
    match (upper_dark, lower_dark) {
        (true, true) => "█",
        (true, false) => "▀",
        (false, true) => "▄",
        (false, false) => " ",
    }
}

/// The first `cols` cells of the terminal row that shows module rows `y` and
/// `y + 1`.
pub open spec fn row_text(image: GrayImage, invert: bool, y: int, cols: nat) -> Seq<char>
    decreases cols,
{
    if cols == 0 {
        Seq::empty()
    } else {
        let x = cols - 1;
        row_text(image, invert, y, (cols - 1) as nat) + cell_text(
            module_dark(image, x, y, invert),
            y + 1 < image_modules(image) && module_dark(image, x, y + 1, invert),
        )
    }
}

/// The first `rows` terminal rows of a rastered code, each with its line end.
pub open spec fn rows_text(image: GrayImage, invert: bool, rows: nat) -> Seq<char>
    decreases rows,
{
    if rows == 0 {
        Seq::empty()
    } else {
        rows_text(image, invert, (rows - 1) as nat) + row_text(
            image,
            invert,
            2 * (rows - 1),
            image_modules(image),
        ) + "\n"@
    }
}

/// `count` spaces.
pub open spec fn blanks(count: nat) -> Seq<char>
    decreases count,
{
    if count == 0 {
        Seq::empty()
    } else {
        blanks((count - 1) as nat) + " "@
    }
}

fn blank_row(count: usize) -> (row: String)
    ensures
        row@ == blanks(count as nat),
{
    let mut row = String::new();
    let mut i: usize = 0;
    while i < count
        invariant
            i <= count,
            row@ == blanks(i as nat),
        decreases count - i,
    {
        row.append(" ");
        i = i + 1;
    }
    row
}

/// Whether every module row that the width promises lies in the image.
pub open spec fn renderable(image: GrayImage) -> bool {
    image_modules(image) > 0 ==> image_modules(image) * 4 - 2 < image.spec_height()
}

/// Tells whether every module row that the width promises lies in the image.
pub fn can_render(img: &GrayImage) -> (yes: bool)
    ensures
        yes == renderable(*img),
{
    let modules: usize = modules_of(img);
    modules == 0 || (modules - 1) * MODULE_SCALE + 2 < img.height() as usize
}

/// The terminal form of a rastered code: black on white, a blank line above
/// and below, two module rows to a line.
pub open spec fn terminal_text(image: GrayImage, invert: bool) -> Seq<char> {
    let side = image_modules(image);
    "\x1b[47m\x1b[30m"@ + blanks(side) + "\n"@ + rows_text(image, invert, (side + 1) / 2) + blanks(
        side,
    ) + "\n"@ + "\x1b[0m"@
}

/// Renders two QR modules per terminal row using Unicode block characters.
///
/// [`encode_version`] rasters at [`MODULE_SCALE`] pixels per module so a
/// decoder has enough resolution for a reliable round-trip. Terminals need
/// one column per *module*, not one column per pixel, so this samples the
/// center pixel of each module rather than emitting the raw pixel grid
/// (which would make a version 10 code about 260 columns wide).
///
/// Forces a light quiet zone and dark modules via ANSI SGR codes (white
/// background, black foreground) so the code renders correctly regardless
/// of the terminal's color theme.
pub fn render_terminal(img: &GrayImage, invert: bool) -> (output: String)
    requires
        img.wf(),
        renderable(*img),
    ensures
        output@ == terminal_text(*img, invert),
{
    let side: usize = modules_of(img);
    let mut output = String::new();
    output.append("\x1b[47m\x1b[30m");
    let blank: String = blank_row(side);
    output.append(blank.as_str());
    output.append("\n");
    let ghost head: Seq<char> = output@;
    assert(head =~= "\x1b[47m\x1b[30m"@ + blanks(side as nat) + "\n"@);
    let mut y: usize = 0;
    let mut rows: usize = 0;
    while y < side
        invariant
            img.wf(),
            renderable(*img),
            side == image_modules(*img),
            y == 2 * rows,
            rows <= (side + 1) / 2,
            output@ == head + rows_text(*img, invert, rows as nat),
        decreases side + 2 - y,
    {
        let ghost before: Seq<char> = output@;
        let mut x: usize = 0;
        while x < side
            invariant
                img.wf(),
                renderable(*img),
                side == image_modules(*img),
                y < side,
                x <= side,
                output@ == before + row_text(*img, invert, y as int, x as nat),
            decreases side - x,
        {
            let upper_dark: bool = module_is_dark(img, x, y, invert);
            let lower_dark: bool = y + 1 < side && module_is_dark(img, x, y + 1, invert);
            output.append(cell_str(upper_dark, lower_dark));
            x = x + 1;
        }
        output.append("\n");
        y = y + 2;
        rows = rows + 1;
    }
    output.append(blank.as_str());
    output.append("\n");
    output.append("\x1b[0m");
    output
}

/// The raw bytes of a code that was found in an image, and the points by which
/// it was located: their coordinates are `f32` pixel positions, given as bits.
pub type Decoded = (Vec<u8>, Vec<(u32, u32)>);

/// [`Decoded`] as mathematical data.
pub type DecodedView = (Seq<u8>, Seq<(u32, u32)>);

pub open spec fn decoded_view(decoded: Decoded) -> DecodedView {
    (decoded.0@, decoded.1@)
}

pub open spec fn decoded_option(found: Option<Decoded>) -> Option<DecodedView> {
    match found {
        Some(decoded) => Some(decoded_view(decoded)),
        None => None,
    }
}

pub open spec fn decoded_views(codes: Seq<Decoded>) -> Seq<DecodedView> {
    codes.map_values(|decoded: Decoded| decoded_view(decoded))
}

pub open spec fn codes_option(found: Option<Vec<Decoded>>) -> Option<Seq<DecodedView>> {
    match found {
        Some(codes) => Some(decoded_views(codes@)),
        None => None,
    }
}

/// The longest side, in pixels, of a picture that can be scanned. The decoder
/// counts the pixels of a line in sixteen bits and doubles the count, so a line
/// has to stay below half of that range.
pub const MAX_SCAN_SIDE: u32 = 32000;

/// Whether a picture of this size can be scanned: it has pixels, and neither
/// side is too long for the decoder to count.
pub open spec fn scannable(width: u32, height: u32) -> bool {
    0 < width <= MAX_SCAN_SIDE && 0 < height <= MAX_SCAN_SIDE
}

/// Tells whether `img` has a size that can be scanned.
pub fn can_scan(img: &GrayImage) -> (yes: bool)
    ensures
        yes == scannable(img.spec_width(), img.spec_height()),
{
    0 < img.width() && img.width() <= MAX_SCAN_SIDE && 0 < img.height() && img.height()
        <= MAX_SCAN_SIDE
}

/// Everything that rxing's `QrReader` may come to on a picture, restricted to
/// QR codes: a code, or nothing.
pub uninterp spec fn scan_results(pixels: Seq<u8>, width: u32, height: u32) -> Set<
    Option<DecodedView>,
>;

/// Everything that rxing's `GenericMultipleBarcodeReader` over a `QrReader` may
/// come to on a picture, restricted to QR codes: codes, or a failure.
pub uninterp spec fn scan_all_results(pixels: Seq<u8>, width: u32, height: u32) -> Set<
    Option<Seq<DecodedView>>,
>;

/// Reads a QR code in an image with rxing's `QrReader`, restricted to QR codes
/// and trying harder, and gives back its raw bytes and its points. The reader
/// measures distances with `f32::hypot` and angles with `f64::cos`, whose
/// precision is unspecified, so two machines may come to different results.
/// Taken on trust: what a scan may come to depends on the pixels and the size
/// alone. Which of those it comes to is left open.
///
/// Deliberately not `detect_in_luma_with_hints`: where this reader finds
/// nothing, that one goes on to the older `QRCodeReader`, whose bit stream
/// parser underflows on a code that has a `%` in its first segment after FNC1.
///
/// The reader counts runs of pixels in `u16` and doubles the counts; `requires`
/// keeps to sizes at which neither overflows. It stamps what it finds with the
/// time of day, for which the system clock must not be set before 1970.
#[verifier::external_body]
fn scan_code(luma: Vec<u8>, width: u32, height: u32) -> (found: Option<Decoded>)
    requires
        luma@.len() == width * height,
        scannable(width, height),
    ensures
        scan_results(luma@, width, height).contains(decoded_option(found)),
{
    let mut hints = DecodeHints::default();
    hints.PossibleFormats = Some([BarcodeFormat::QR_CODE].into_iter().collect());
    hints.TryHarder = Some(true);
    let source = Luma8LuminanceSource::new(luma, width, height).ok()?;
    let mut image = BinaryBitmap::new(HybridBinarizer::new(source));
    let r = QrReader.decode_with_hints(&mut image, &hints).ok()?;
    Some((
        r.getRawBytes().to_vec(),
        r.getPoints().iter().map(|p| (p.x.to_bits(), p.y.to_bits())).collect(),
    ))
}

/// Reads every QR code in an image with rxing's `GenericMultipleBarcodeReader`
/// over a `QrReader`, which scans the picture and then what lies beside each
/// code it found; restricted to QR codes and trying harder. Two machines may
/// come to different results, as with [`scan_code`]. Taken on trust: what a
/// scan may come to depends on the pixels and the size alone. Which of those it
/// comes to is left open. The sizes are limited as there.
#[verifier::external_body]
fn scan_codes(luma: Vec<u8>, width: u32, height: u32) -> (found: Option<Vec<Decoded>>)
    requires
        luma@.len() == width * height,
        scannable(width, height),
    ensures
        scan_all_results(luma@, width, height).contains(codes_option(found)),
{
    let mut hints = DecodeHints::default();
    hints.PossibleFormats = Some([BarcodeFormat::QR_CODE].into_iter().collect());
    hints.TryHarder = Some(true);
    let source = Luma8LuminanceSource::new(luma, width, height).ok()?;
    let mut image = BinaryBitmap::new(HybridBinarizer::new(source));
    let mut reader = GenericMultipleBarcodeReader::new(QrReader);
    let codes = reader.decode_multiple_with_hints(&mut image, &hints).ok()?;
    Some(codes.into_iter().map(|r| (
        r.getRawBytes().to_vec(),
        r.getPoints().iter().map(|p| (p.x.to_bits(), p.y.to_bits())).collect(),
    )).collect())
}

/// What a scan means: the code that was found, or a bad frame.
pub fn scan_outcome(found: Option<Decoded>) -> (outcome: Result<Decoded>)
    ensures
        match outcome {
            Ok(decoded) => found == Some(decoded),
            Err(e) => found is None && e@ == ErrorView::BadFrame,
        },
{
    match found {
        Some(decoded) => Ok(decoded),
        None => Err(Error::BadFrame),
    }
}

/// What a scan for several codes means: a failed one found none.
pub fn scan_all_outcome(found: Option<Vec<Decoded>>) -> (codes: Vec<Decoded>)
    ensures
        match found {
            Some(decoded) => codes == decoded,
            None => codes@.len() == 0,
        },
{
    match found {
        Some(decoded) => decoded,
        None => Vec::new(),
    }
}

/// Decodes a QR code image and reports where in it the code was found. The
/// image is scanned as it is; when the scan finds nothing, the frame is bad.
pub fn decode_with_points(img: &GrayImage) -> (outcome: Result<Decoded>)
    requires
        img.wf(),
        scannable(img.spec_width(), img.spec_height()),
    ensures
        ({
            let scans = scan_results(img.raster(), img.spec_width(), img.spec_height());
            match outcome {
                Ok(decoded) => scans.contains(Some(decoded_view(decoded))),
                Err(e) => scans.contains(None) && e@ == ErrorView::BadFrame,
            }
        }),
{
    let luma: Vec<u8> = frame::copy_bytes(img.as_raw().as_slice());
    scan_outcome(scan_code(luma, img.width(), img.height()))
}

/// What [`decode_all`] gives when its scan came to `found`: a failed scan found
/// no codes.
pub open spec fn codes_found(found: Option<Seq<DecodedView>>) -> Seq<DecodedView> {
    match found {
        Some(codes) => codes,
        None => Seq::empty(),
    }
}

/// Finds every QR code in `img`, for when the sender tiles several DATA frames
/// into one screen. The image is scanned as it is.
pub fn decode_all(img: &GrayImage) -> (codes: Vec<Decoded>)
    requires
        img.wf(),
        scannable(img.spec_width(), img.spec_height()),
    ensures
        exists|found: Option<Seq<DecodedView>>| #[trigger]
            scan_all_results(img.raster(), img.spec_width(), img.spec_height()).contains(found)
                && decoded_views(codes@) == codes_found(found),
{
    let luma: Vec<u8> = frame::copy_bytes(img.as_raw().as_slice());
    let found: Option<Vec<Decoded>> = scan_codes(luma, img.width(), img.height());
    let ghost scan: Option<Seq<DecodedView>> = codes_option(found);
    let codes: Vec<Decoded> = scan_all_outcome(found);
    assert(decoded_views(codes@) =~= codes_found(scan));
    codes
}

/// Whether a scan of a picture may find a code that holds `bytes`, somewhere.
pub open spec fn may_hold(pixels: Seq<u8>, width: u32, height: u32, bytes: Seq<u8>) -> bool {
    exists|found: DecodedView|
        found.0 == bytes && #[trigger] scan_results(pixels, width, height).contains(Some(found))
}

/// Decodes a QR code image, preserving its binary payload: the bytes of what
/// [`decode_with_points`] finds, or its error.
pub fn decode_image(img: &GrayImage) -> (bytes: Result<Vec<u8>>)
    requires
        img.wf(),
        scannable(img.spec_width(), img.spec_height()),
    ensures
        match bytes {
            Ok(b) => may_hold(img.raster(), img.spec_width(), img.spec_height(), b@),
            Err(e) => scan_results(img.raster(), img.spec_width(), img.spec_height()).contains(None)
                && e@ == ErrorView::BadFrame,
        },
{
    match decode_with_points(img) {
        Ok(decoded) => {
            assert(scan_results(img.raster(), img.spec_width(), img.spec_height()).contains(
                Some(decoded_view(decoded)),
            ));
            Ok(decoded.0)
        },
        Err(e) => Err(e),
    }
}

/// A payload is refused if it is longer than a frame of the version may be, or
/// if there is no such version; the complaint names the version, the length, and
/// the most that fits.
pub proof fn law_what_is_refused(len: nat, version: u8)
    ensures
        ({
            let room = frame::frame_room(version);
            let start = "payload exceeds QR v"@ + text::decimal(version as nat) + " ("@
                + text::decimal(len) + " bytes, "@;
            &&& refusal(len, version) is None <==> len <= room && 1 <= version <= 40
            &&& len > room ==> refusal(len, version) == Some(
                ErrorView::Message(start + ("max "@ + text::decimal(room)) + ")"@),
            )
            &&& len <= room && (version == 0 || version > 40) ==> refusal(len, version) == Some(
                ErrorView::Message(start + "terminator"@ + ")"@),
            )
            &&& preflight(version) is Some ==> preflight(version) == Some(
                ErrorView::Message(
                    "payload exceeds QR v"@ + text::decimal(version as nat) + " ("@
                        + text::decimal(14) + " bytes, "@ + ("max "@ + text::decimal(0)) + ")"@,
                ),
            )
        }),
{
}

/// A code grows by four modules per side and version, has a border of four
/// modules all round, and takes one column for each module and one row for each
/// two.
pub proof fn law_how_large_a_code_is(version: u8)
    ensures
        framed_side(version) == 21 + 4 * (version - 1) + 2 * 4,
        cells_of(version).0 == framed_side(version),
        2 * cells_of(version).1 == framed_side(version) + 1,
{
}

/// A code fits where there is a column for each of its modules and a row for
/// each two.
pub proof fn law_where_a_code_fits(version: u8, cols: u16, rows: u16)
    ensures
        fits_area(version, cols, rows) <==> 25 + 4 * version <= cols && 25 + 4 * version < 2 * rows,
{
}

/// A pane holds as many codes as there are whole ones side by side and one above
/// the other, and at least one.
pub proof fn law_how_many_codes_a_pane_holds(whole: u16, part: u16)
    requires
        part > 0,
    ensures
        ({
            let n = at_least_one(whole, part);
            &&& n >= 1
            &&& n * part <= whole || n == 1
            &&& (n + 1) * part > whole
        }),
{
    let n = whole as int / part as int;
    vstd::arithmetic::div_mod::lemma_fundamental_div_mod(whole as int, part as int);
    assert(part * n == n * part) by (nonlinear_arith);
    assert((n + 1) * part == n * part + part) by (nonlinear_arith);
    assert(2 * part == part + part);
}

/// All sixteen pixels of a module are the same: black if it is a dark module of
/// the code, white if it is a light one or belongs to the border.
pub proof fn law_modules_are_painted_in_full(
    image: GrayImage,
    data: Seq<u8>,
    version: u8,
    x: int,
    y: int,
)
    requires
        is_raster_of(image, data, version),
        0 <= x < 4 * framed_side(version),
        0 <= y < 4 * framed_side(version),
    ensures
        image.spec_width() == 4 * framed_side(version),
        image.spec_height() == 4 * framed_side(version),
        image.at(x, y) == 0 || image.at(x, y) == 255,
        image.at(x, y) == 0 <==> {
            &&& 16 <= x < 16 + 4 * side_of(version)
            &&& 16 <= y < 16 + 4 * side_of(version)
            &&& code_modules(data, version)->0[(y / 4 - 4) * side_of(version) + (x / 4 - 4)]
        },
{
    assert(image.at(x, y) == raster_value(
        code_modules(data, version)->0,
        side_of(version),
        x,
        y,
    ));
}

/// A pixel is dark if it is in the darker half, or in the lighter one of an
/// inverted picture; a module is as dark as the pixel at its centre.
pub proof fn law_what_counts_as_dark(image: GrayImage, value: u8, mx: int, my: int)
    ensures
        dark(value, false) <==> value <= 127,
        dark(value, true) <==> value >= 128,
        module_dark(image, mx, my, false) <==> image.at(4 * mx + 2, 4 * my + 2) <= 127,
        module_dark(image, mx, my, true) <==> image.at(4 * mx + 2, 4 * my + 2) >= 128,
{
}

/// An image can be rendered exactly if the centre of every module that its width
/// promises lies in it.
pub proof fn law_what_can_be_rendered(image: GrayImage)
    ensures
        renderable(image) <==> forall|mx: int, my: int|
            0 <= mx < image.spec_width() / 4 && 0 <= my < image.spec_width() / 4
                ==> #[trigger] has_module(image, mx, my),
{
    if !renderable(image) {
        let last = image_modules(image) - 1;
        assert(!has_module(image, 0, last));
    }
}

/// One line of a rendered code has one character for each module of a row, and
/// that tells the module and the one below it.
pub proof fn law_a_line_shows_two_rows_of_modules(
    image: GrayImage,
    invert: bool,
    y: int,
    cols: nat,
    x: int,
)
    requires
        0 <= x < cols,
    ensures
        row_text(image, invert, y, cols).len() == cols,
        ({
            let upper = module_dark(image, x, y, invert);
            let lower = y + 1 < image_modules(image) && module_dark(image, x, y + 1, invert);
            row_text(image, invert, y, cols)[x] == (if upper && lower {
                '█'
            } else if upper {
                '▀'
            } else if lower {
                '▄'
            } else {
                ' '
            })
        }),
    decreases cols,
{
    reveal_strlit("█");
    reveal_strlit("▀");
    reveal_strlit("▄");
    reveal_strlit(" ");
    if x < cols - 1 {
        law_a_line_shows_two_rows_of_modules(image, invert, y, (cols - 1) as nat, x);
    } else if cols > 1 {
        law_a_line_shows_two_rows_of_modules(image, invert, y, (cols - 1) as nat, 0);
    } else {
        assert(row_text(image, invert, y, 0).len() == 0);
    }
}

/// A rendered code is black on white: a blank line, a line for each two rows of
/// modules from the top on, and a blank line.
pub proof fn law_lines_go_from_top_to_bottom(image: GrayImage, invert: bool, row: nat)
    ensures
        ({
            let side = image_modules(image);
            terminal_text(image, invert) == "\x1b[47m\x1b[30m"@ + blanks(side) + "\n"@ + rows_text(
                image,
                invert,
                (side + 1) / 2,
            ) + blanks(side) + "\n"@ + "\x1b[0m"@
        }),
        rows_text(image, invert, 0) == Seq::<char>::empty(),
        rows_text(image, invert, row + 1) == rows_text(image, invert, row) + row_text(
            image,
            invert,
            2 * row as int,
            image_modules(image),
        ) + "\n"@,
        image_modules(image) == image.spec_width() / 4,
{
}

/// A blank line is as long as it should be, and blank.
pub proof fn law_blank_lines_are_blank(count: nat)
    ensures
        blanks(count).len() == count,
        forall|i: int| 0 <= i < count ==> #[trigger] blanks(count)[i] == ' ',
    decreases count,
{
    reveal_strlit(" ");
    if count > 0 {
        law_blank_lines_are_blank((count - 1) as nat);
    }
}

/// Every picture with pixels is scanned whose sides are no longer than 32000.
pub proof fn law_what_can_be_scanned(width: u32, height: u32)
    ensures
        scannable(width, height) <==> 1 <= width <= 32000 && 1 <= height <= 32000,
{
}

/// A scan for several codes finds what it came to, and nothing if it failed; and
/// an image may hold what a scan of it may come to.
pub proof fn law_what_scans_mean(
    codes: Seq<DecodedView>,
    pixels: Seq<u8>,
    width: u32,
    height: u32,
    bytes: Seq<u8>,
)
    ensures
        codes_found(Some(codes)) == codes,
        codes_found(None) == Seq::<DecodedView>::empty(),
        may_hold(pixels, width, height, bytes) <==> exists|points: Seq<(u32, u32)>|
            #[trigger] scan_results(pixels, width, height).contains(
                Some::<DecodedView>((bytes, points)),
            ),
{
    if may_hold(pixels, width, height, bytes) {
        let found = choose|found: DecodedView|
            found.0 == bytes && #[trigger] scan_results(pixels, width, height).contains(Some(found));
        assert(scan_results(pixels, width, height).contains(
            Some::<DecodedView>((bytes, found.1)),
        ));
    }
}

} // verus!
