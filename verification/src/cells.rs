use vstd::prelude::*;
use image::DynamicImage;
use crate::raster::{Raster, Rgb, lemma_pixel_in_bounds};
use crate::sixel::{encode_sixel, sixel_text};

verus! {

// ---------------------------------------------------------------------------
// Images of the `image` crate
// ---------------------------------------------------------------------------

/// The decoded image type of the `image` crate, carried as an opaque value;
/// what the library needs of it comes from the functions below.
#[verifier::external_type_specification]
#[verifier::external_body]
pub struct ExDynamicImage(image::DynamicImage);

/// The width and height of an image, in pixels.
pub uninterp spec fn image_size(img: DynamicImage) -> (u32, u32);

/// The pixels of an image converted to 8-bit RGBA, row by row.
pub uninterp spec fn rgba8_of(img: DynamicImage) -> Seq<u8>;

/// The pixels of an image converted to 8-bit luma, row by row.
pub uninterp spec fn luma8_of(img: DynamicImage) -> Seq<u8>;

/// Neither buffer that `DynamicImage::resize_exact` allocates (an
/// intermediate one of the source's width by the new height, and the result)
/// exceeds the largest allocation, at 16 bytes per pixel at most.
pub open spec fn resize_fits(img: DynamicImage, width: u32, height: u32) -> bool {
    &&& (image_size(img).0 as int) * (height as int) * 16 <= isize::MAX
    &&& (width as int) * (height as int) * 16 <= isize::MAX
}

/// The image that `DynamicImage::resize_exact` with the nearest-neighbour
/// filter makes of `img` at `width` by `height` pixels.
pub uninterp spec fn resized(img: DynamicImage, width: u32, height: u32) -> DynamicImage;

/// `DynamicImage::resize_exact` with the nearest-neighbour filter. The
/// result is the named resize of the arguments, `width` by `height` pixels
/// as the crate documents; how its pixels are sampled from the source
/// (floating-point filter arithmetic) is left to the name.
#[verifier::external_body]
fn resize_exact(img: &DynamicImage, width: u32, height: u32) -> (r: DynamicImage)
    requires
        resize_fits(*img, width, height),
    ensures
        r == resized(*img, width, height),
        image_size(r) == (width, height),
{
    img.resize_exact(width, height, image::imageops::FilterType::Nearest)
}

/// `DynamicImage::width`: the width of an image.
#[verifier::external_body]
pub(crate) fn image_width(img: &DynamicImage) -> (w: u32)
    ensures
        w == image_size(*img).0,
{
    img.width()
}

/// `DynamicImage::to_rgba8`: the image converted to 8-bit RGBA, as a buffer
/// of the image's size holding at least four bytes per pixel.
#[verifier::external_body]
fn to_rgba8(img: &DynamicImage) -> (r: Raster)
    requires
        (image_size(*img).0 as int) * (image_size(*img).1 as int) * 4 <= isize::MAX,
    ensures
        r.width == image_size(*img).0,
        r.height == image_size(*img).1,
        r.data@ == rgba8_of(*img),
        r.wf(),
{
    let buf = img.to_rgba8();
    let (width, height) = buf.dimensions();
    Raster { width, height, data: buf.into_raw() }
}

/// An 8-bit grayscale image, row by row, one byte per pixel.
pub struct GrayRaster {
    pub width: u32,
    pub height: u32,
    pub data: Vec<u8>,
}

impl GrayRaster {
    /// The buffer holds every pixel of the image.
    pub open spec fn wf(&self) -> bool {
        (self.width as int) * (self.height as int) <= self.data@.len()
    }

    /// The luma of pixel `(x, y)`.
    pub open spec fn luma_at(&self, x: int, y: int) -> u8 {
        self.data@[y * self.width + x]
    }
}

/// `DynamicImage::to_luma8`: the image converted to 8-bit luma, as a buffer
/// of the image's size holding at least one byte per pixel.
#[verifier::external_body]
fn to_luma8(img: &DynamicImage) -> (r: GrayRaster)
    requires
        (image_size(*img).0 as int) * (image_size(*img).1 as int) <= isize::MAX,
    ensures
        r.width == image_size(*img).0,
        r.height == image_size(*img).1,
        r.data@ == luma8_of(*img),
        r.wf(),
{
    let buf = img.to_luma8();
    let (width, height) = buf.dimensions();
    GrayRaster { width, height, data: buf.into_raw() }
}

// ---------------------------------------------------------------------------
// Terminal cells
// ---------------------------------------------------------------------------

/// One terminal cell: a character with a foreground color and, where set, a
/// background color.
#[derive(Debug, Clone, Copy, PartialEq, Eq)]
pub struct TextCell {
    pub symbol: char,
    pub fg: Rgb,
    pub bg: Option<Rgb>,
}

/// The half-block cell of column `x`, cell row `y`: the upper half block
/// colored with pixel `(x, 2y)` over pixel `(x, 2y + 1)` (or pixel `(x, 2y)`
/// again when the image ends there).
pub open spec fn half_block_cell(img: &Raster, x: int, y: int) -> TextCell {
    let upper = img.rgb_at(x, 2 * y);
    let lower = if 2 * y + 1 < img.height {
        img.rgb_at(x, 2 * y + 1)
    } else {
        upper
    };
    TextCell { symbol: '▀', fg: upper, bg: Some(lower) }
}

/// The rows of half-block cells of an image: one cell row per two pixel
/// rows, one cell per pixel column.
pub open spec fn half_block_rows(img: &Raster) -> Seq<Seq<TextCell>> {
    Seq::new(
        ((img.height as int + 1) / 2) as nat,
        |y: int| Seq::new(img.width as nat, |x: int| half_block_cell(img, x, y)),
    )
}

/// The rows of cells, each taken as a sequence.
pub open spec fn rows_view(rows: Seq<Vec<TextCell>>) -> Seq<Seq<TextCell>> {
    Seq::new(rows.len(), |i: int| rows[i]@)
}

/// Draws an RGBA image with upper half blocks: each cell shows two
/// vertically adjacent pixels, the upper one as foreground and the lower one
/// as background.
pub fn half_blocks(img: &Raster) -> (lines: Vec<Vec<TextCell>>)
    requires
        img.wf(),
    ensures
        rows_view(lines@) == half_block_rows(img),
{
    let width = img.width;
    let height = img.height;
    let rows: u32 = height / 2 + height % 2;
    assert(rows as int == (height as int + 1) / 2);
    let mut lines: Vec<Vec<TextCell>> = Vec::new();
    let mut row: u32 = 0;
    while row < rows
        invariant
            img.wf(),
            width == img.width,
            height == img.height,
            rows as int == (height as int + 1) / 2,
            row <= rows,
            lines@.len() == row,
            forall|i: int| 0 <= i < row ==> (#[trigger] lines@[i])@ == half_block_rows(img)[i],
        decreases rows - row,
    {
        let y: u32 = 2 * row;
        let mut spans: Vec<TextCell> = Vec::new();
        let mut x: u32 = 0;
        while x < width
            invariant
                img.wf(),
                width == img.width,
                height == img.height,
                y < height,
                y == 2 * row,
                x <= width,
                spans@ == Seq::new(x as nat, |j: int| half_block_cell(img, j, row as int)),
            decreases width - x,
        {
            let upper = img.rgb(x, y);
            let lower = if y + 1 < height {
                img.rgb(x, y + 1)
            } else {
                img.rgb(x, y)
            };
            spans.push(TextCell { symbol: '▀', fg: upper, bg: Some(lower) });
            x += 1;
            assert(spans@ =~= Seq::new(x as nat, |j: int| half_block_cell(img, j, row as int)));
        }
        assert(spans@ =~= half_block_rows(img)[row as int]);
        lines.push(spans);
        row += 1;
    }
    assert(rows_view(lines@) =~= half_block_rows(img));
    lines
}


/// The characters of the ASCII rendering, from darkest to brightest.
pub open spec fn ascii_ramp() -> Seq<char> {
    seq![' ', '.', ':', '-', '=', '+', '*', '#', '%', '@']
}

/// The position in the ramp of a luma value: 0 for black up to 9 for white.
pub open spec fn ramp_index(luma: u8) -> int {
    (luma as int) * 9 / 255
}

/// The ASCII cell of pixel `(x, y)`: the ramp character of its luma, in the
/// pixel's own color.
pub open spec fn ascii_cell(gray: &GrayRaster, img: &Raster, x: int, y: int) -> TextCell {
    TextCell { symbol: ascii_ramp()[ramp_index(gray.luma_at(x, y))], fg: img.rgb_at(x, y), bg: None }
}

/// The rows of ASCII cells of an image, one cell per pixel.
pub open spec fn ascii_rows(gray: &GrayRaster, img: &Raster) -> Seq<Seq<TextCell>> {
    Seq::new(
        img.height as nat,
        |y: int| Seq::new(img.width as nat, |x: int| ascii_cell(gray, img, x, y)),
    )
}

/// Draws an image as ASCII art: each pixel becomes a character chosen by
/// its brightness (from `' '` for black to `'@'` for white), tinted with
/// the pixel's color.
pub fn ascii_cells(gray: &GrayRaster, img: &Raster) -> (lines: Vec<Vec<TextCell>>)
    requires
        gray.wf(),
        img.wf(),
        gray.width == img.width,
        gray.height == img.height,
    ensures
        rows_view(lines@) == ascii_rows(gray, img),
{
    let ramp: [char; 10] = [' ', '.', ':', '-', '=', '+', '*', '#', '%', '@'];
    assert(ramp@ =~= ascii_ramp());
    let width = img.width;
    let height = img.height;
    let mut lines: Vec<Vec<TextCell>> = Vec::new();
    let mut y: u32 = 0;
    while y < height
        invariant
            gray.wf(),
            img.wf(),
            gray.width == width,
            gray.height == height,
            width == img.width,
            height == img.height,
            ramp@ == ascii_ramp(),
            y <= height,
            lines@.len() == y,
            forall|i: int| 0 <= i < y ==> (#[trigger] lines@[i])@ == ascii_rows(gray, img)[i],
        decreases height - y,
    {
        let mut spans: Vec<TextCell> = Vec::new();
        let mut x: u32 = 0;
        while x < width
            invariant
                gray.wf(),
                img.wf(),
                gray.width == width,
                gray.height == height,
                width == img.width,
                height == img.height,
                ramp@ == ascii_ramp(),
                y < height,
                x <= width,
                spans@ == Seq::new(x as nat, |j: int| ascii_cell(gray, img, j, y as int)),
            decreases width - x,
        {
            proof {
                lemma_pixel_in_bounds(width as int, height as int, x as int, y as int);
            }
            let len = gray.data.len();
            assert((y as int) * (width as int) + (x as int) < len);
            let pixel = gray.data[y as usize * width as usize + x as usize];
            let idx = (pixel as usize * 9) / 255;
            let ch = ramp[idx];
            let fg = img.rgb(x, y);
            spans.push(TextCell { symbol: ch, fg, bg: None });
            x += 1;
            assert(spans@ =~= Seq::new(x as nat, |j: int| ascii_cell(gray, img, j, y as int)));
        }
        assert(spans@ =~= ascii_rows(gray, img)[y as int]);
        lines.push(spans);
        y += 1;
    }
    assert(rows_view(lines@) =~= ascii_rows(gray, img));
    lines
}

/// `cells` is the half-block drawing of `img` resized to `width` by
/// `2 * height` pixels and converted to RGBA (no cells when either size is
/// zero).
pub open spec fn is_half_block_rendering(
    img: DynamicImage,
    width: u32,
    height: u32,
    cells: Seq<Seq<TextCell>>,
) -> bool {
    if width == 0 || height == 0 {
        cells.len() == 0
    } else {
        exists|px: Raster|
            px.width == width && px.height == 2 * height && px.data@ == rgba8_of(
                resized(img, width, (2 * height) as u32),
            ) && px.wf() && cells == #[trigger] half_block_rows(&px)
    }
}

/// `cells` is the ASCII drawing of `img` resized to `width` by `height`
/// pixels, its luma choosing the characters and its RGBA colors tinting them
/// (no cells when either size is zero).
pub open spec fn is_ascii_rendering(
    img: DynamicImage,
    width: u32,
    height: u32,
    cells: Seq<Seq<TextCell>>,
) -> bool {
    if width == 0 || height == 0 {
        cells.len() == 0
    } else {
        exists|gray: GrayRaster, px: Raster|
            gray.width == width && gray.height == height && gray.data@ == luma8_of(
                resized(img, width, height),
            ) && gray.wf() && px.width == width && px.height == height && px.data@ == rgba8_of(
                resized(img, width, height),
            ) && px.wf() && cells == #[trigger] ascii_rows(&gray, &px)
    }
}

/// `text` is the Sixel sequence of `img` resized to `width` by `height`
/// pixels and converted to RGBA (empty when either size is zero).
pub open spec fn is_sixel_rendering(img: DynamicImage, width: u32, height: u32, text: Seq<char>) -> bool {
    if width == 0 || height == 0 {
        text.len() == 0
    } else {
        exists|px: Raster|
            px.width == width && px.height == height && px.data@ == rgba8_of(
                resized(img, width, height),
            ) && px.wf() && text == #[trigger] sixel_text(&px)
    }
}

/// Resizes an image to `width` by `2 * height` pixels (nearest neighbour) and
/// draws it with half blocks, `height` rows of `width` cells; nothing when
/// either size is zero.
pub fn image_to_half_blocks(img: &DynamicImage, width: u32, height: u32) -> (lines: Vec<
    Vec<TextCell>,
>)
    requires
        width > 0 && height > 0 ==> 2 * height <= u32::MAX && resize_fits(*img, width, (2 * height) as u32),
    ensures
        is_half_block_rendering(*img, width, height, rows_view(lines@)),
{
    if width == 0 || height == 0 {
        let empty: Vec<Vec<TextCell>> = Vec::new();
        assert(rows_view(empty@) =~= Seq::<Seq<TextCell>>::empty());
        return empty;
    }
    let resized = resize_exact(img, width, height * 2);
    let rgba = to_rgba8(&resized);
    let lines = half_blocks(&rgba);
    assert(rows_view(lines@) == half_block_rows(&rgba));
    lines
}

/// Resizes an image to `width` by `height` pixels (nearest neighbour) and
/// draws it as ASCII art, `height` rows of `width` cells; nothing when
/// either size is zero.
pub fn image_to_ascii(img: &DynamicImage, width: u32, height: u32) -> (lines: Vec<Vec<TextCell>>)
    requires
        width > 0 && height > 0 ==> resize_fits(*img, width, height),
    ensures
        is_ascii_rendering(*img, width, height, rows_view(lines@)),
{
    if width == 0 || height == 0 {
        let empty: Vec<Vec<TextCell>> = Vec::new();
        assert(rows_view(empty@) =~= Seq::<Seq<TextCell>>::empty());
        return empty;
    }
    let resized = resize_exact(img, width, height);
    let gray = to_luma8(&resized);
    let rgba = to_rgba8(&resized);
    let lines = ascii_cells(&gray, &rgba);
    assert(rows_view(lines@) == ascii_rows(&gray, &rgba));
    lines
}

/// Resizes an image to `width` by `height` pixels (nearest neighbour) and
/// encodes it as Sixel; the empty string when either size is zero.
pub fn encode_sixel_resized(img: &DynamicImage, width: u32, height: u32) -> (s: String)
    requires
        width > 0 && height > 0 ==> resize_fits(*img, width, height) && height + 5 <= usize::MAX,
    ensures
        is_sixel_rendering(*img, width, height, s@),
{
    if width == 0 || height == 0 {
        let empty = String::new();
        assert(empty@.len() == 0);
        return empty;
    }
    let resized = resize_exact(img, width, height);
    let rgba = to_rgba8(&resized);
    let s = encode_sixel(&rgba);
    assert(s@ == sixel_text(&rgba));
    s
}


/// The ten characters of the ramp split the luma range into equal slices:
/// a luma `l` gets the character at position `k` exactly when `l` lies in
/// the `k`-th tenth of the scale, `255 k <= 9 l < 255 (k + 1)`; every
/// character is used by some luma.
pub proof fn law_ascii_ramp_slices(l: u8, k: int)
    requires
        0 <= k <= 9,
    ensures
        ramp_index(l) == k <==> 255 * k <= 9 * (l as int) < 255 * (k + 1),
        ramp_index(((255 * k + 8) / 9) as u8) == k,
{
    let q = ramp_index(l);
    assert(255 * q <= 9 * (l as int) < 255 * (q + 1)) by (nonlinear_arith)
        requires q == (l as int) * 9 / 255, 0 <= l;
    if 255 * k <= 9 * (l as int) < 255 * (k + 1) {
        assert(q == k) by (nonlinear_arith)
            requires
                255 * q <= 9 * (l as int) < 255 * (q + 1),
                255 * k <= 9 * (l as int) < 255 * (k + 1);
    }
    let m: int = (255 * k + 8) / 9;
    assert(0 <= m <= 255 && 255 * k <= 9 * m < 255 * (k + 1)) by (nonlinear_arith)
        requires m == (255 * k + 8) / 9, 0 <= k <= 9;
    let mu = m as u8;
    assert(mu as int == m);
    let qm = ramp_index(mu);
    assert(255 * qm <= 9 * m < 255 * (qm + 1)) by (nonlinear_arith)
        requires qm == m * 9 / 255, 0 <= m;
    assert(qm == k) by (nonlinear_arith)
        requires
            255 * qm <= 9 * m < 255 * (qm + 1),
            255 * k <= 9 * m < 255 * (k + 1);
}

/// Each ASCII cell shows its pixel's own color and the ramp character of
/// the tenth of the luma scale its luma falls in.
pub proof fn law_ascii_cell_character(gray: &GrayRaster, img: &Raster, x: int, y: int, k: int)
    requires
        0 <= x < img.width,
        0 <= y < img.height,
        0 <= k <= 9,
        255 * k <= 9 * (gray.luma_at(x, y) as int) < 255 * (k + 1),
    ensures
        ascii_rows(gray, img)[y][x].symbol == seq![' ', '.', ':', '-', '=', '+', '*', '#', '%', '@'][k],
        ascii_rows(gray, img)[y][x].fg == img.rgb_at(x, y),
{
    law_ascii_ramp_slices(gray.luma_at(x, y), k);
}

/// Every pixel of an image is shown once by the half-block drawing: pixel
/// `(x, r)` is in cell row `r / 2`, column `x`, as the foreground when `r`
/// is even and as the background when `r` is odd. There are as many cell
/// rows as pairs of pixel rows (rounded up), each as wide as the image, and
/// a last unpaired row is shown over itself.
pub proof fn law_half_blocks_show_every_pixel(img: &Raster, x: int, r: int)
    requires
        0 <= x < img.width,
        0 <= r < img.height,
    ensures
        half_block_rows(img).len() == (img.height + 1) / 2,
        half_block_rows(img)[r / 2].len() == img.width,
        half_block_rows(img)[r / 2][x].symbol == '▀',
        r % 2 == 0 ==> half_block_rows(img)[r / 2][x].fg == img.rgb_at(x, r),
        r % 2 == 1 ==> half_block_rows(img)[r / 2][x].bg == Some(img.rgb_at(x, r)),
        r % 2 == 0 && r + 1 == img.height ==> half_block_rows(img)[r / 2][x].bg == Some(
            img.rgb_at(x, r),
        ),
{
    assert(0 <= r / 2 < (img.height + 1) / 2);
    if r % 2 == 1 {
        assert(2 * (r / 2) + 1 == r);
    } else {
        assert(2 * (r / 2) == r);
    }
}

/// Brighter pixels never get darker characters: the ramp index grows with
/// the luma, from the blank for black to `@` for white.
pub proof fn law_ascii_ramp_monotone(a: u8, b: u8)
    requires
        a <= b,
    ensures
        0 <= ramp_index(a) <= ramp_index(b) <= 9,
        ramp_index(0) == 0,
        ramp_index(255) == 9,
        ascii_ramp()[ramp_index(0)] == ' ',
        ascii_ramp()[ramp_index(255)] == '@',
{
    assert((a as int) * 9 <= (b as int) * 9) by (nonlinear_arith)
        requires a <= b;
    vstd::arithmetic::div_mod::lemma_div_is_ordered((a as int) * 9, (b as int) * 9, 255);
    assert((b as int) * 9 <= 2295) by (nonlinear_arith)
        requires b <= 255;
    vstd::arithmetic::div_mod::lemma_div_is_ordered((b as int) * 9, 2295, 255);
    vstd::arithmetic::div_mod::lemma_div_pos_is_pos((a as int) * 9, 255);
}

} // verus!
