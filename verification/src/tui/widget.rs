//! Codes as terminal cells: one column per module, two modules per row.
use crate::qr;
use crate::qr::GrayImage;
use crate::text;
use std::sync::Arc;
use vstd::prelude::*;

verus! {

/// The half-block glyph that paints two vertically stacked "on" flags.
pub open spec fn glyph(upper: bool, lower: bool) -> char {
    match (upper, lower) {
        (true, true) => '█',
        (true, false) => '▀',
        (false, true) => '▄',
        (false, false) => ' ',
    }
}

/// Maps a pair of vertically stacked "on" flags to the half-block glyph that
/// paints them.
pub fn half_block(upper: bool, lower: bool) -> (block: char)
    ensures
        block == glyph(upper, lower),
{
    match (upper, lower) {
        (true, true) => '█',
        (true, false) => '▀',
        (false, true) => '▄',
        (false, false) => ' ',
    }
}

/// The glyph tells both flags.
pub proof fn law_glyphs_tell_modules_apart(upper: bool, lower: bool, upper2: bool, lower2: bool)
    requires
        glyph(upper, lower) == glyph(upper2, lower2),
    ensures
        upper == upper2,
        lower == lower2,
{
}

/// A pane painted with a code, or with a notice instead of one.
#[derive(Debug)]
pub struct Pane {
    pub width: u16,
    pub height: u16,
    /// The glyph of every cell, row by row; black on white.
    pub cells: Vec<char>,
    /// What to say instead of drawing a code that would be clipped.
    pub notice: Option<String>,
}

impl Pane {
    /// The glyph in column `x` of row `y`.
    pub open spec fn at(&self, x: int, y: int) -> char {
        self.cells@[y * self.width + x]
    }
}

/// The columns and rows that a rastered code takes.
pub open spec fn code_cells(image: GrayImage) -> (u16, u16) {
    let modules = qr::image_modules(image);
    (modules as u16, ((modules + 1) / 2) as u16)
}

/// Whether a code of these cells can be drawn in full.
pub open spec fn drawable(cells: (u16, u16), width: u16, height: u16) -> bool {
    cells.0 <= width && cells.1 <= height
}

/// Whether a pane of `width` by `height` cells shows anything of the code.
pub open spec fn drawn(image: GrayImage, width: u16, height: u16) -> bool {
    let cells = code_cells(image);
    0 < cells.0 && 0 < cells.1 && drawable(cells, width, height)
}

/// Whether a pane of `width` by `height` cells can be painted with the code: if
/// it is drawn, its image has a row of pixels for every row of modules.
pub open spec fn paintable(image: GrayImage, width: u16, height: u16) -> bool {
    image.wf() && (drawn(image, width, height) ==> qr::renderable(image))
}

/// Tells whether a pane of `width` by `height` cells can be painted with the
/// code of a well-formed image.
pub fn can_paint(image: &GrayImage, width: u16, height: u16) -> (yes: bool)
    requires
        image.wf(),
    ensures
        yes == paintable(*image, width, height),
{
    let (cols, rows) = cells_for(image);
    cols == 0 || rows == 0 || cols > width || rows > height || qr::can_render(image)
}

/// How much room a code needs, and how much there is.
pub open spec fn room_text(cells: (u16, u16), width: u16, height: u16) -> Seq<char> {
    "QR needs "@ + text::decimal(cells.0 as nat) + "x"@ + text::decimal(cells.1 as nat)
        + " cells, pane is "@ + text::decimal(width as nat) + "x"@ + text::decimal(height as nat)
}

pub open spec fn clipped_text(cells: (u16, u16), width: u16, height: u16) -> Seq<char> {
    room_text(cells, width, height) + ".\nEnlarge the terminal."@
}

/// The glyph that a pane of `width` by `height` cells shows at `(x, y)`: the
/// code centred, and blank around it.
pub open spec fn painted(
    image: GrayImage,
    invert: bool,
    width: u16,
    height: u16,
    x: int,
    y: int,
) -> char {
    let cells = code_cells(image);
    let col = x - (width - cells.0) / 2;
    let row = y - (height - cells.1) / 2;
    if drawable(cells, width, height) && 0 <= col < cells.0 && 0 <= row < cells.1 {
        glyph(
            qr::module_dark(image, col, 2 * row, invert),
            2 * row + 1 < qr::image_modules(image) && qr::module_dark(
                image,
                col,
                2 * row + 1,
                invert,
            ),
        )
    } else {
        ' '
    }
}

/// Draws a QR code at exactly one terminal column per module, two modules per
/// row.
///
/// The code is meant to be painted with explicit black-on-white cells rather
/// than the terminal's own palette: a themed background behind a QR code is
/// the most common reason a peer's camera cannot read it.
pub struct QrWidget<'a> {
    pub image: Option<&'a GrayImage>,
    pub invert: bool,
}

impl<'a> QrWidget<'a> {
    /// Paints the code into a pane of `width` by `height` cells. Never a
    /// partial code: a clipped QR decodes as nothing, and silently showing one
    /// would look like a camera problem.
    pub fn render(self, width: u16, height: u16) -> (pane: Pane)
        requires
            self.image matches Some(image) ==> paintable(*image, width, height),
        ensures
            pane.width == width,
            pane.height == height,
            pane.cells@.len() == width * height,
            forall|x: int, y: int|
                0 <= x < width && 0 <= y < height ==> #[trigger] pane.at(x, y) == match self.image {
                    Some(image) => painted(*image, self.invert, width, height, x, y),
                    None => ' ',
                },
            match pane.notice {
                Some(notice) => width > 0 && height > 0 && (self.image matches Some(image)
                    && !drawable(code_cells(*image), width, height) && notice@ == clipped_text(
                    code_cells(*image),
                    width,
                    height,
                )),
                None => width == 0 || height == 0 || (self.image matches Some(image) ==> drawable(
                    code_cells(*image),
                    width,
                    height,
                )),
            },
    {
        let mut cells: Vec<char> = Vec::new();
        let mut y: u16 = 0;
        while y < height
            invariant
                self.image matches Some(image) ==> paintable(*image, width, height),
                y <= height,
                cells@.len() == y * width,
                forall|i: int, j: int|
                    0 <= i < width && 0 <= j < y ==> #[trigger] cells@[j * width + i] == match self.image {
                        Some(image) => painted(*image, self.invert, width, height, i, j),
                        None => ' ',
                    },
            decreases height - y,
        {
            let mut x: u16 = 0;
            while x < width
                invariant
                    self.image matches Some(image) ==> paintable(*image, width, height),
                    y < height,
                    x <= width,
                    cells@.len() == y * width + x,
                    forall|i: int, j: int|
                        0 <= i < width && 0 <= j < y || 0 <= i < x && j == y
                            ==> #[trigger] cells@[j * width + i] == match self.image {
                            Some(image) => painted(*image, self.invert, width, height, i, j),
                            None => ' ',
                        },
                decreases width - x,
            {
                let cell: char = match self.image {
                    Some(image) => paint_cell(image, self.invert, width, height, x, y),
                    None => ' ',
                };
                let ghost before: Seq<char> = cells@;
                cells.push(cell);
                proof {
                    assert forall|i: int, j: int|
                        0 <= i < width && 0 <= j < y || 0 <= i < x + 1 && j == y implies #[trigger] cells@[j
                        * width + i] == (match self.image {
                        Some(image) => painted(*image, self.invert, width, height, i, j),
                        None => ' ',
                    }) by {
                        assert(0 <= j * width) by (nonlinear_arith)
                            requires
                                0 <= j,
                                0 <= width,
                        ;
                        if j < y {
                            assert(j * width + i < y * width) by (nonlinear_arith)
                                requires
                                    0 <= i < width,
                                    0 <= j < y,
                            ;
                        }
                        if j < y || i < x {
                            assert(cells@[j * width + i] == before[j * width + i]);
                        }
                    }
                }
                x = x + 1;
            }
            proof {
                assert((y + 1) * width == y * width + width) by (nonlinear_arith);
                assert forall|i: int, j: int| 0 <= i < width && 0 <= j < y + 1 implies #[trigger] cells@[j
                    * width + i] == (match self.image {
                    Some(image) => painted(*image, self.invert, width, height, i, j),
                    None => ' ',
                }) by {}
            }
            y = y + 1;
        }
        assert(width * height == height * width) by (nonlinear_arith);
        let notice: Option<String> = match self.image {
            Some(image) => {
                let needs: (u16, u16) = cells_for(image);
                if width > 0 && height > 0 && (needs.0 > width || needs.1 > height) {
                    Some(clipped_notice(needs, width, height))
                } else {
                    None
                }
            },
            None => None,
        };
        Pane { width, height, cells, notice }
    }
}

fn cells_for(image: &GrayImage) -> (cells: (u16, u16))
    ensures
        cells == code_cells(*image),
{
    let modules: usize = qr::modules_of(image);
    (modules as u16, ((modules + 1) / 2) as u16)
}

fn room_notice(cells: (u16, u16), width: u16, height: u16) -> (notice: String)
    ensures
        notice@ == room_text(cells, width, height),
{
    let mut notice = String::from_str("QR needs ");
    text::push_decimal(&mut notice, cells.0 as u64);
    notice.append("x");
    text::push_decimal(&mut notice, cells.1 as u64);
    notice.append(" cells, pane is ");
    text::push_decimal(&mut notice, width as u64);
    notice.append("x");
    text::push_decimal(&mut notice, height as u64);
    notice
}

fn clipped_notice(cells: (u16, u16), width: u16, height: u16) -> (notice: String)
    ensures
        notice@ == clipped_text(cells, width, height),
{
    let mut notice: String = room_notice(cells, width, height);
    notice.append(".\nEnlarge the terminal.");
    notice
}

fn paint_cell(image: &GrayImage, invert: bool, width: u16, height: u16, x: u16, y: u16) -> (cell:
    char)
    requires
        paintable(*image, width, height),
        x < width,
        y < height,
    ensures
        cell == painted(*image, invert, width, height, x as int, y as int),
{
    let (cols, rows) = cells_for(image);
    if cols > width || rows > height {
        return ' ';
    }
    let left: u16 = (width - cols) / 2;
    let top: u16 = (height - rows) / 2;
    if x < left || x - left >= cols || y < top || y - top >= rows {
        return ' ';
    }
    let mx: usize = (x - left) as usize;
    let my: usize = (y - top) as usize * 2;
    let modules: usize = qr::modules_of(image);
    proof {
        cells_within_code(*image, mx as int, my as int / 2);
    }
    let upper: bool = qr::module_is_dark(image, mx, my, invert);
    let lower: bool = my + 1 < modules && qr::module_is_dark(image, mx, my + 1, invert);
    half_block(upper, lower)
}

/// A cell of a code stands for modules of the code, however large the image.
proof fn cells_within_code(image: GrayImage, col: int, row: int)
    requires
        0 <= col < code_cells(image).0,
        0 <= row < code_cells(image).1,
    ensures
        col < qr::image_modules(image),
        2 * row < qr::image_modules(image),
{
    let modules = qr::image_modules(image);
    let m = modules as u32;
    let h = ((modules + 1) / 2) as u32;
    assert(m as u16 <= m) by (bit_vector);
    assert(h as u16 <= h) by (bit_vector);
}

/// How a grid of codes is laid out in a pane.
#[derive(Clone, Copy, Debug, PartialEq, Eq, Structural)]
pub struct GridPlan {
    /// How many codes are drawn.
    pub shown: usize,
    /// How many of them stand side by side.
    pub across: u16,
    /// How many rows of codes there are.
    pub down: u16,
    /// Where the grid starts.
    pub left: u16,
    pub top: u16,
}

/// The layout for `count` codes of `tile` cells each in a pane of `width` by
/// `height` cells that holds at least one of them: as many as fit, in
/// row-major order, centred.
pub open spec fn plan_of(count: nat, tile: (u16, u16), width: u16, height: u16) -> GridPlan {
    let across_fit = width / tile.0;
    let cap = across_fit * (height / tile.1);
    let shown = if count < cap {
        count as int
    } else {
        cap
    };
    let across = if shown < across_fit {
        shown
    } else {
        across_fit as int
    };
    let down = (shown + across - 1) / across;
    GridPlan {
        shown: shown as usize,
        across: across as u16,
        down: down as u16,
        left: ((width - across * tile.0) / 2) as u16,
        top: ((height - down * tile.1) / 2) as u16,
    }
}

/// Where code number `i` of a grid goes.
pub open spec fn tile_place(plan: GridPlan, tile: (u16, u16), i: int) -> (int, int) {
    (plan.left + (i % plan.across as int) * tile.0, plan.top + (i / plan.across as int) * tile.1)
}

proof fn grid_fits(count: nat, tile: (u16, u16), width: u16, height: u16)
    requires
        0 < count,
        0 < tile.0 <= width,
        0 < tile.1 <= height,
    ensures
        ({
            let across_fit = (width / tile.0) as int;
            let down_fit = (height / tile.1) as int;
            let cap = across_fit * down_fit;
            let shown = if count < cap {
                count as int
            } else {
                cap
            };
            let across = if shown < across_fit {
                shown
            } else {
                across_fit
            };
            let down = (shown + across - 1) / across;
            &&& across_fit >= 1
            &&& down_fit >= 1
            &&& 1 <= cap <= 0xffff * 0xffff
            &&& 1 <= shown <= 0xffff * 0xffff
            &&& 1 <= across <= across_fit
            &&& 1 <= down <= down_fit
            &&& down * across >= shown
            &&& across * tile.0 <= width
            &&& down * tile.1 <= height
        }),
{
    let w = tile.0 as int;
    let h = tile.1 as int;
    let a = width as int / w;
    let d = height as int / h;
    vstd::arithmetic::div_mod::lemma_fundamental_div_mod(width as int, w);
    vstd::arithmetic::div_mod::lemma_fundamental_div_mod(height as int, h);
    assert(1 <= a <= 0xffff && a * w <= width) by (nonlinear_arith)
        requires
            0 < w <= width <= 0xffff,
            a == width as int / w,
    ;
    assert(1 <= d <= 0xffff && d * h <= height) by (nonlinear_arith)
        requires
            0 < h <= height <= 0xffff,
            d == height as int / h,
    ;
    let cap = a * d;
    assert(1 <= cap <= 0xffff * 0xffff) by (nonlinear_arith)
        requires
            1 <= a <= 0xffff,
            1 <= d <= 0xffff,
            cap == a * d,
    ;
    let shown = if count < cap {
        count as int
    } else {
        cap
    };
    let across = if shown < a {
        shown
    } else {
        a
    };
    let down = (shown + across - 1) / across;
    vstd::arithmetic::div_mod::lemma_fundamental_div_mod(shown + across - 1, across);
    assert(1 <= down && down * across >= shown && (down - 1) * across < shown)
        by (nonlinear_arith)
        requires
            1 <= across <= shown,
            shown + across - 1 == across * down + (shown + across - 1) % across,
            0 <= (shown + across - 1) % across < across,
    ;
    assert(down <= d) by (nonlinear_arith)
        requires
            (down - 1) * across < shown,
            shown <= a * d,
            across == a || (across == shown && shown < a),
            1 <= across,
            1 <= d,
            1 <= a,
    ;
    assert(across * w <= a * w) by (nonlinear_arith)
        requires
            across <= a,
            0 < w,
    ;
    assert(down * h <= d * h) by (nonlinear_arith)
        requires
            down <= d,
            0 < h,
    ;
}

/// Every code of a grid is drawn inside the pane.
pub proof fn law_tiles_stay_inside(count: nat, tile: (u16, u16), width: u16, height: u16, i: int)
    requires
        0 < count,
        0 < tile.0 <= width,
        0 < tile.1 <= height,
        0 <= i < plan_of(count, tile, width, height).shown,
    ensures
        ({
            let plan = plan_of(count, tile, width, height);
            let (x, y) = tile_place(plan, tile, i);
            &&& 0 <= x
            &&& x + tile.0 <= width
            &&& 0 <= y
            &&& y + tile.1 <= height
        }),
{
    grid_fits(count, tile, width, height);
    let plan = plan_of(count, tile, width, height);
    let across = plan.across as int;
    let down = plan.down as int;
    let w = tile.0 as int;
    let h = tile.1 as int;
    let col = i % across;
    let row = i / across;
    assert(0 <= col < across && 0 <= row < down) by (nonlinear_arith)
        requires
            0 <= i < down * across,
            across >= 1,
            col == i % across,
            row == i / across,
    ;
    assert(0 <= col * w && col * w + w <= across * w) by (nonlinear_arith)
        requires
            0 <= col < across,
            0 < w,
    ;
    assert(0 <= row * h && row * h + h <= down * h) by (nonlinear_arith)
        requires
            0 <= row < down,
            0 < h,
    ;
}

/// No two codes of a grid overlap.
pub proof fn law_tiles_do_not_overlap(
    count: nat,
    tile: (u16, u16),
    width: u16,
    height: u16,
    i: int,
    j: int,
)
    requires
        0 < count,
        0 < tile.0 <= width,
        0 < tile.1 <= height,
        0 <= i < j < plan_of(count, tile, width, height).shown,
    ensures
        ({
            let plan = plan_of(count, tile, width, height);
            let (x, y) = tile_place(plan, tile, i);
            let (u, v) = tile_place(plan, tile, j);
            x + tile.0 <= u || u + tile.0 <= x || y + tile.1 <= v || v + tile.1 <= y
        }),
{
    grid_fits(count, tile, width, height);
    let plan = plan_of(count, tile, width, height);
    let across = plan.across as int;
    vstd::arithmetic::div_mod::lemma_fundamental_div_mod(i, across);
    vstd::arithmetic::div_mod::lemma_fundamental_div_mod(j, across);
    let w = tile.0 as int;
    let h = tile.1 as int;
    let (c, r) = (i % across, i / across);
    let (d, s) = (j % across, j / across);
    if r == s {
        assert(c != d);
        if c < d {
            assert(c * w + w <= d * w) by (nonlinear_arith)
                requires
                    c + 1 <= d,
                    0 < w,
            ;
        } else {
            assert(d * w + w <= c * w) by (nonlinear_arith)
                requires
                    d + 1 <= c,
                    0 < w,
            ;
        }
    } else if r < s {
        assert(r * h + h <= s * h) by (nonlinear_arith)
            requires
                r + 1 <= s,
                0 < h,
        ;
    } else {
        assert(s * h + h <= r * h) by (nonlinear_arith)
            requires
                s + 1 <= r,
                0 < h,
        ;
    }
}

pub open spec fn grid_clipped_text(cells: (u16, u16), width: u16, height: u16) -> Seq<char> {
    room_text(cells, width, height) + ". Zoom out (Ctrl/- or Cmd/-) or enlarge the window."@
}

fn grid_notice(cells: (u16, u16), width: u16, height: u16) -> (notice: String)
    ensures
        notice@ == grid_clipped_text(cells, width, height),
{
    let mut notice: String = room_notice(cells, width, height);
    notice.append(". Zoom out (Ctrl/- or Cmd/-) or enlarge the window.");
    notice
}

/// Where one code of a grid goes, and what it looks like.
#[derive(Debug)]
pub struct Tile {
    pub x: u16,
    pub y: u16,
    pub pane: Pane,
}

/// What a grid of codes comes to.
#[derive(Debug)]
pub enum Grid {
    /// No codes, or no pane: what is on the screen stays.
    Nothing,
    /// The pane goes blank: the first code has no modules.
    Blank,
    /// The pane goes blank but for this: not even one code fits.
    Notice(String),
    /// The pane goes blank but for these.
    Tiles(Vec<Tile>),
}

/// Several QR codes packed into one pane, used after the link when the
/// camera preview is gone and leftover cells hold extra DATA frames.
pub struct QrGridWidget<'a> {
    pub images: &'a [Arc<GrayImage>],
    pub invert: bool,
}

/// Whether `tile` is code number `i` of the grid of `images`.
pub open spec fn tile_shows(
    tile: Tile,
    images: Seq<Arc<GrayImage>>,
    invert: bool,
    width: u16,
    height: u16,
    i: int,
) -> bool {
    let cells = code_cells(*images[0]);
    let plan = plan_of(images.len(), cells, width, height);
    &&& (tile.x as int, tile.y as int) == tile_place(plan, cells, i)
    &&& (tile.pane.width, tile.pane.height) == cells
    &&& tile.pane.cells@.len() == cells.0 * cells.1
    &&& forall|x: int, y: int|
        0 <= x < cells.0 && 0 <= y < cells.1 ==> #[trigger] tile.pane.at(x, y) == painted(
            *images[i],
            invert,
            cells.0,
            cells.1,
            x,
            y,
        )
    &&& match tile.pane.notice {
        Some(notice) => !drawable(code_cells(*images[i]), cells.0, cells.1) && notice@
            == clipped_text(code_cells(*images[i]), cells.0, cells.1),
        None => drawable(code_cells(*images[i]), cells.0, cells.1),
    }
}

/// Whether a grid of `images` can be painted into a pane of `width` by `height`
/// cells: each of the codes that it shows can be painted into its tile.
pub open spec fn grid_paintable(images: Seq<Arc<GrayImage>>, width: u16, height: u16) -> bool {
    let cells = code_cells(*images[0]);
    images.len() > 0 && drawn(*images[0], width, height) ==> forall|i: int|
        0 <= i < plan_of(images.len(), cells, width, height).shown ==> paintable(
            *#[trigger] images[i],
            cells.0,
            cells.1,
        )
}

impl<'a> QrGridWidget<'a> {
    /// Paints the codes into a pane of `width` by `height` cells. The pane is
    /// never left blank for want of room for all of them: those that fit are
    /// drawn.
    pub fn render(self, width: u16, height: u16) -> (grid: Grid)
        requires
            grid_paintable(self.images@, width, height),
        ensures
            ({
                let nothing = width == 0 || height == 0 || self.images@.len() == 0;
                let cells = code_cells(*self.images@[0]);
                let blank = cells.0 == 0 || cells.1 == 0;
                match grid {
                    Grid::Nothing => nothing,
                    Grid::Blank => !nothing && blank,
                    Grid::Notice(notice) => !nothing && !blank && !drawable(cells, width, height)
                        && notice@ == grid_clipped_text(cells, width, height),
                    Grid::Tiles(tiles) => {
                        &&& !nothing && !blank && drawable(cells, width, height)
                        &&& tiles@.len() > 0
                        &&& tiles@.len() == plan_of(self.images@.len(), cells, width, height).shown
                        &&& forall|i: int|
                            0 <= i < tiles@.len() ==> tile_shows(
                                #[trigger] tiles@[i],
                                self.images@,
                                self.invert,
                                width,
                                height,
                                i,
                            )
                    },
                }
            }),
    {
        if width == 0 || height == 0 || self.images.len() == 0 {
            return Grid::Nothing;
        }
        let first: &GrayImage = &self.images[0];
        let (tile_w, tile_h) = cells_for(first);
        if tile_w == 0 || tile_h == 0 {
            return Grid::Blank;
        }
        if tile_w > width || tile_h > height {
            return Grid::Notice(grid_notice((tile_w, tile_h), width, height));
        }
        let plan: GridPlan = lay_out(self.images.len(), (tile_w, tile_h), width, height);
        let mut tiles: Vec<Tile> = Vec::new();
        let mut i: usize = 0;
        while i < plan.shown
            invariant
                i <= plan.shown,
                plan.shown <= self.images@.len(),
                plan.shown <= 0xffff * 0xffff,
                self.images@.len() > 0,
                plan == plan_of(self.images@.len(), (tile_w, tile_h), width, height),
                (tile_w, tile_h) == code_cells(*self.images@[0]),
                0 < tile_w <= width,
                0 < tile_h <= height,
                grid_paintable(self.images@, width, height),
                tiles@.len() == i,
                forall|k: int|
                    0 <= k < i ==> tile_shows(
                        #[trigger] tiles@[k],
                        self.images@,
                        self.invert,
                        width,
                        height,
                        k,
                    ),
            decreases plan.shown - i,
        {
            proof {
                grid_fits(self.images@.len(), (tile_w, tile_h), width, height);
                law_tiles_stay_inside(
                    self.images@.len(),
                    (tile_w, tile_h),
                    width,
                    height,
                    i as int,
                );
            }
            let (x, y) = place(plan, (tile_w, tile_h), width, height, i);
            assert(paintable(*self.images@[i as int], tile_w, tile_h));
            let pane: Pane = QrWidget { image: Some(&self.images[i]), invert: self.invert }.render(
                tile_w,
                tile_h,
            );
            tiles.push(Tile { x, y, pane });
            i = i + 1;
        }
        proof {
            grid_fits(self.images@.len(), (tile_w, tile_h), width, height);
        }
        Grid::Tiles(tiles)
    }
}

fn place(plan: GridPlan, tile: (u16, u16), width: u16, height: u16, i: usize) -> (at: (u16, u16))
    requires
        plan.across > 0,
        i <= 0xffff * 0xffff,
        0 <= tile_place(plan, tile, i as int).0 <= width,
        0 <= tile_place(plan, tile, i as int).1 <= height,
    ensures
        (at.0 as int, at.1 as int) == tile_place(plan, tile, i as int),
{
    let col: u64 = i as u64 % plan.across as u64;
    let row: u64 = i as u64 / plan.across as u64;
    assert(0 <= col * tile.0 <= 0xffff * 0xffff * 0xffff) by (nonlinear_arith)
        requires
            0 <= col <= 0xffff * 0xffff,
            0 <= tile.0 <= 0xffff,
    ;
    assert(0 <= row * tile.1 <= 0xffff * 0xffff * 0xffff) by (nonlinear_arith)
        requires
            0 <= row <= 0xffff * 0xffff,
            0 <= tile.1 <= 0xffff,
    ;
    (
        (plan.left as u64 + col * tile.0 as u64) as u16,
        (plan.top as u64 + row * tile.1 as u64) as u16,
    )
}

fn lay_out(count: usize, tile: (u16, u16), width: u16, height: u16) -> (plan: GridPlan)
    requires
        0 < count,
        0 < tile.0 <= width,
        0 < tile.1 <= height,
    ensures
        plan == plan_of(count as nat, tile, width, height),
        0 < plan.shown <= count,
        plan.shown <= 0xffff * 0xffff,
{
    proof {
        grid_fits(count as nat, tile, width, height);
    }
    let across_fit: u16 = width / tile.0;
    let down_fit: u16 = height / tile.1;
    let cap: u32 = across_fit as u32 * down_fit as u32;
    let shown: u32 = if (count as u64) < cap as u64 {
        count as u32
    } else {
        cap
    };
    let across: u32 = if shown < across_fit as u32 {
        shown
    } else {
        across_fit as u32
    };
    let down: u32 = (shown + across - 1) / across;
    GridPlan {
        shown: shown as usize,
        across: across as u16,
        down: down as u16,
        left: ((width as u32 - across * tile.0 as u32) / 2) as u16,
        top: ((height as u32 - down * tile.1 as u32) / 2) as u16,
    }
}

/// A code that fits is drawn in the middle of its pane, with as much room on the
/// left as on the right and above as below, give or take one cell: each cell of
/// it shows its two modules, and every other cell is blank. One that does not
/// fit is not drawn at all.
pub proof fn law_codes_are_drawn_in_full_and_centred(
    image: GrayImage,
    invert: bool,
    width: u16,
    height: u16,
    col: int,
    row: int,
    x: int,
    y: int,
)
    requires
        0 <= col < code_cells(image).0,
        0 <= row < code_cells(image).1,
    ensures
        ({
            let (cols, rows) = code_cells(image);
            let left = (width - cols) / 2;
            let top = (height - rows) / 2;
            let upper = qr::module_dark(image, col, 2 * row, invert);
            let lower = 2 * row + 1 < qr::image_modules(image) && qr::module_dark(
                image,
                col,
                2 * row + 1,
                invert,
            );
            &&& cols <= width && rows <= height ==> {
                &&& painted(image, invert, width, height, left + col, top + row) == (if upper
                    && lower {
                    '█'
                } else if upper {
                    '▀'
                } else if lower {
                    '▄'
                } else {
                    ' '
                })
                &&& x < left || x >= left + cols || y < top || y >= top + rows ==> painted(
                    image,
                    invert,
                    width,
                    height,
                    x,
                    y,
                ) == ' '
            }
            &&& cols > width || rows > height ==> painted(image, invert, width, height, x, y) == ' '
        }),
{
}

/// A code takes one column for each module and one row for each two; and it can
/// be drawn where there are as many.
pub proof fn law_how_much_room_a_code_takes(image: GrayImage, width: u16, height: u16)
    requires
        qr::image_modules(image) <= u16::MAX,
    ensures
        code_cells(image).0 == qr::image_modules(image),
        2 * code_cells(image).1 == qr::image_modules(image) || 2 * code_cells(image).1
            == qr::image_modules(image) + 1,
        drawable(code_cells(image), width, height) <==> qr::image_modules(image) <= width
            && qr::image_modules(image) <= 2 * height,
{
}

/// As many codes of a grid are drawn as there are, up to what fits; they stand
/// in rows, the first at the top left, each row full but for the last; and the
/// grid is centred.
pub proof fn law_grids_are_filled_row_by_row(
    count: nat,
    tile: (u16, u16),
    width: u16,
    height: u16,
    i: int,
)
    requires
        0 < count,
        0 < tile.0 <= width,
        0 < tile.1 <= height,
        0 <= i,
    ensures
        ({
            let plan = plan_of(count, tile, width, height);
            let fit = (width / tile.0) * (height / tile.1);
            let (x, y) = tile_place(plan, tile, i);
            let (u, v) = tile_place(plan, tile, i + 1);
            &&& plan.shown == (if count <= fit {
                count as int
            } else {
                fit
            })
            &&& plan.across == (if count <= width / tile.0 {
                count as int
            } else {
                (width / tile.0) as int
            })
            &&& (plan.down - 1) * plan.across < plan.shown <= plan.down * plan.across
            &&& plan.left == (width - plan.across * tile.0) / 2
            &&& plan.top == (height - plan.down * tile.1) / 2
            &&& tile_place(plan, tile, 0) == (plan.left as int, plan.top as int)
            &&& (i + 1) % plan.across as int != 0 ==> u == x + tile.0 && v == y
            &&& (i + 1) % plan.across as int == 0 ==> u == plan.left && v == y + tile.1
        }),
{
    grid_fits(count, tile, width, height);
    let plan = plan_of(count, tile, width, height);
    let a = (width / tile.0) as int;
    let d = (height / tile.1) as int;
    assert(a <= a * d) by (nonlinear_arith)
        requires
            a >= 1,
            d >= 1,
    ;
    let across = plan.across as int;
    let shown = plan.shown as int;
    let down = plan.down as int;
    let w = tile.0 as int;
    let h = tile.1 as int;
    vstd::arithmetic::div_mod::lemma_fundamental_div_mod(shown + across - 1, across);
    assert((down - 1) * across < shown <= down * across) by (nonlinear_arith)
        requires
            across >= 1,
            shown + across - 1 == across * down + (shown + across - 1) % across,
            0 <= (shown + across - 1) % across < across,
    ;
    vstd::arithmetic::div_mod::lemma_fundamental_div_mod(i, across);
    vstd::arithmetic::div_mod::lemma_fundamental_div_mod(i + 1, across);
    let (q, r) = (i / across, i % across);
    let (s, t) = ((i + 1) / across, (i + 1) % across);
    assert((t != 0 ==> s == q && t == r + 1) && (t == 0 ==> s == q + 1)) by (nonlinear_arith)
        requires
            across >= 1,
            i == across * q + r,
            i + 1 == across * s + t,
            0 <= r < across,
            0 <= t < across,
    ;
    assert((r + 1) * w == r * w + w) by (nonlinear_arith);
    assert((q + 1) * h == q * h + h) by (nonlinear_arith);
    assert(0int % across == 0 && 0int / across == 0) by (nonlinear_arith)
        requires
            across >= 1,
    ;
}

/// The notices about a code that does not fit say how much room it needs and how
/// much there is.
pub proof fn law_what_the_notices_say(cells: (u16, u16), width: u16, height: u16)
    ensures
        ({
            let room = "QR needs "@ + text::decimal(cells.0 as nat) + "x"@ + text::decimal(
                cells.1 as nat,
            ) + " cells, pane is "@ + text::decimal(width as nat) + "x"@ + text::decimal(
                height as nat,
            );
            &&& clipped_text(cells, width, height) == room + ".\nEnlarge the terminal."@
            &&& grid_clipped_text(cells, width, height) == room
                + ". Zoom out (Ctrl/- or Cmd/-) or enlarge the window."@
        }),
{
}

/// Each tile of a grid shows its own code, in its own place, and is as large as
/// the first code; one that does not fit its tile is not drawn but says so.
pub proof fn law_each_tile_shows_its_own_code(
    tile: Tile,
    images: Seq<Arc<GrayImage>>,
    invert: bool,
    width: u16,
    height: u16,
    i: int,
    x: int,
    y: int,
)
    requires
        tile_shows(tile, images, invert, width, height, i),
        0 <= x < tile.pane.width,
        0 <= y < tile.pane.height,
    ensures
        ({
            let cells = code_cells(*images[0]);
            let own = code_cells(*images[i]);
            let plan = plan_of(images.len(), cells, width, height);
            &&& (tile.x as int, tile.y as int) == tile_place(plan, cells, i)
            &&& tile.pane.width == cells.0
            &&& tile.pane.height == cells.1
            &&& tile.pane.at(x, y) == painted(*images[i], invert, cells.0, cells.1, x, y)
            &&& tile.pane.notice is Some <==> own.0 > cells.0 || own.1 > cells.1
            &&& tile.pane.notice matches Some(notice) ==> notice@ == clipped_text(
                own,
                cells.0,
                cells.1,
            )
        }),
{
}

/// Every rastered code can be painted, whatever the pane.
pub proof fn law_every_code_can_be_painted(
    image: GrayImage,
    data: Seq<u8>,
    version: u8,
    width: u16,
    height: u16,
)
    requires
        qr::is_raster_of(image, data, version),
    ensures
        paintable(image, width, height),
{
    qr::law_raster_shows_the_code(image, data, version, 0, 0);
}

} // verus!
