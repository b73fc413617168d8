use vstd::prelude::*;
use crate::raster::{Raster, Rgb};
use crate::text::{decimal, digit_char, push_decimal};

verus! {

// ---------------------------------------------------------------------------
// Palette
// ---------------------------------------------------------------------------

/// Red or green step `k` (0..8) of the uniform quantization: eight evenly
/// spaced levels from 0 to 255, rounded down.
pub open spec fn level8(k: int) -> int {
    k * 255 / 7
}

/// Blue step `k` (0..4): four evenly spaced levels from 0 to 255.
pub open spec fn level4(k: int) -> int {
    k * 85
}

/// Entry `i` of the palette: red step `i / 32`, green step `(i / 4) % 8`,
/// blue step `i % 4`, red varying slowest.
pub open spec fn palette_color(i: int) -> Rgb {
    (level8(i / 32) as u8, level8((i / 4) % 8) as u8, level4(i % 4) as u8)
}

/// The 256 colors of the palette, in palette order.
pub open spec fn palette_spec() -> Seq<Rgb> {
    Seq::new(256, |i: int| palette_color(i))
}

/// Position `32 r + 4 g + b` of the palette holds steps `r`, `g`, `b`.
proof fn lemma_palette_index(r: int, g: int, b: int)
    requires
        0 <= r < 8,
        0 <= g < 8,
        0 <= b < 4,
    ensures
        (32 * r + 4 * g + b) / 32 == r,
        ((32 * r + 4 * g + b) / 4) % 8 == g,
        (32 * r + 4 * g + b) % 4 == b,
{
    assert((32 * r + 4 * g + b) / 32 == r) by (nonlinear_arith)
        requires 0 <= r < 8, 0 <= g < 8, 0 <= b < 4;
    assert((32 * r + 4 * g + b) / 4 == 8 * r + g) by (nonlinear_arith)
        requires 0 <= r < 8, 0 <= g < 8, 0 <= b < 4;
    assert((8 * r + g) % 8 == g) by (nonlinear_arith)
        requires 0 <= r < 8, 0 <= g < 8;
    assert((32 * r + 4 * g + b) % 4 == b) by (nonlinear_arith)
        requires 0 <= r < 8, 0 <= g < 8, 0 <= b < 4;
}

/// Builds a 256-color palette by uniform quantization: eight levels of red,
/// eight of green and four of blue, evenly spaced from 0 to 255 (3, 3 and 2
/// bits), whatever the image.
pub fn build_palette(_img: &Raster) -> (palette: Vec<Rgb>)
    ensures
        palette@ == palette_spec(),
{
    let mut palette: Vec<Rgb> = Vec::with_capacity(256);
    for r in 0..8u32
        invariant
            palette@ == Seq::new((32 * r) as nat, |i: int| palette_color(i)),
    {
        for g in 0..8u32
            invariant
                r < 8,
                palette@ == Seq::new((32 * r + 4 * g) as nat, |i: int| palette_color(i)),
        {
            for b in 0..4u32
                invariant
                    r < 8,
                    g < 8,
                    palette@ == Seq::new((32 * r + 4 * g + b) as nat, |i: int| palette_color(i)),
            {
                let rr: u32 = r * 255 / 7;
                let gg: u32 = g * 255 / 7;
                let bb: u32 = b * 85;
                let ghost i: int = 32 * r + 4 * g + b;
                proof {
                    lemma_palette_index(r as int, g as int, b as int);
                }
                assert(palette_color(i) == (rr as u8, gg as u8, bb as u8));
                palette.push((rr as u8, gg as u8, bb as u8));
                assert(palette@ =~= Seq::new((i + 1) as nat, |j: int| palette_color(j)));
            }
        }
    }
    palette
}

// ---------------------------------------------------------------------------
// Nearest palette color
// ---------------------------------------------------------------------------

/// The square of the difference of two channel values.
pub open spec fn channel_distance(x: u8, y: u8) -> int {
    (x - y) * (x - y)
}

/// Squared Euclidean distance between two colors.
pub open spec fn color_distance(a: Rgb, b: Rgb) -> int {
    channel_distance(a.0, b.0) + channel_distance(a.1, b.1) + channel_distance(a.2, b.2)
}

/// `i` is the first index of `palette` whose color is closest to `c`.
pub open spec fn is_nearest(c: Rgb, palette: Seq<Rgb>, i: int) -> bool {
    &&& 0 <= i < palette.len()
    &&& forall|j: int|
        0 <= j < palette.len() ==> color_distance(c, palette[i]) <= color_distance(c, palette[j])
    &&& forall|j: int| 0 <= j < i ==> color_distance(c, palette[i]) < color_distance(c, palette[j])
}

/// The first index of `palette` whose color is closest to `c` (0 for an
/// empty palette).
pub open spec fn nearest_index(c: Rgb, palette: Seq<Rgb>) -> int {
    if exists|i: int| is_nearest(c, palette, i) {
        choose|i: int| is_nearest(c, palette, i)
    } else {
        0
    }
}

/// At most one index is the first closest one.
pub proof fn lemma_nearest_unique(c: Rgb, palette: Seq<Rgb>, i: int, j: int)
    requires
        is_nearest(c, palette, i),
        is_nearest(c, palette, j),
    ensures
        i == j,
{
    if i < j {
        assert(color_distance(c, palette[j]) < color_distance(c, palette[i]));
    } else if j < i {
        assert(color_distance(c, palette[i]) < color_distance(c, palette[j]));
    }
}

/// A non-empty palette has a first closest index, and `nearest_index` is it.
pub proof fn lemma_nearest_exists(c: Rgb, palette: Seq<Rgb>, i: int)
    requires
        is_nearest(c, palette, i),
    ensures
        nearest_index(c, palette) == i,
{
    let k = choose|k: int| is_nearest(c, palette, k);
    lemma_nearest_unique(c, palette, i, k);
}

proof fn lemma_square_bound(d: i32)
    requires
        -255 <= d <= 255,
    ensures
        0 <= d * d <= 65025,
{
    assert(0 <= d * d <= 65025) by (nonlinear_arith)
        requires -255 <= d <= 255;
}

/// Finds the palette entry closest to color `(r, g, b)`; among equally close
/// entries the first one wins.
pub fn nearest_color(r: u8, g: u8, b: u8, palette: &[Rgb]) -> (idx: usize)
    ensures
        palette@.len() == 0 ==> idx == 0,
        palette@.len() > 0 ==> is_nearest((r, g, b), palette@, idx as int),
        idx == nearest_index((r, g, b), palette@),
{
    let ghost c: Rgb = (r, g, b);
    let mut best_idx: usize = 0;
    let mut best_dist: u32 = u32::MAX;
    let mut i: usize = 0;
    while i < palette.len()
        invariant
            c == (r, g, b),
            i <= palette@.len(),
            i == 0 ==> best_idx == 0 && best_dist == u32::MAX,
            i > 0 ==> {
                &&& best_idx < i
                &&& best_dist == color_distance(c, palette@[best_idx as int])
                &&& forall|j: int|
                    0 <= j < i ==> color_distance(c, palette@[best_idx as int]) <= color_distance(
                        c,
                        palette@[j],
                    )
                &&& forall|j: int|
                    0 <= j < best_idx ==> color_distance(c, palette@[best_idx as int])
                        < color_distance(c, palette@[j])
            },
        decreases palette@.len() - i,
    {
        let (pr, pg, pb) = palette[i];
        let dr = r as i32 - pr as i32;
        let dg = g as i32 - pg as i32;
        let db = b as i32 - pb as i32;
        proof {
            lemma_square_bound(dr);
            lemma_square_bound(dg);
            lemma_square_bound(db);
        }
        let sum: i32 = dr * dr + dg * dg + db * db;
        let dist = sum as u32;
        proof {
            let p = palette@[i as int];
            assert(p == (pr, pg, pb));
            assert(dr * dr == channel_distance(r, pr));
            assert(dg * dg == channel_distance(g, pg));
            assert(db * db == channel_distance(b, pb));
            assert(sum as int == color_distance(c, p));
        }
        if dist < best_dist {
            best_dist = dist;
            best_idx = i;
        }
        i += 1;
    }
    proof {
        if palette@.len() > 0 {
            lemma_nearest_exists(c, palette@, best_idx as int);
        } else {
            assert(!exists|k: int| is_nearest(c, palette@, k));
        }
    }
    best_idx
}

// ---------------------------------------------------------------------------
// One band of one color: run-length encoded sixels
// ---------------------------------------------------------------------------

/// The end (exclusive, relative to `i`) of the run of values equal to
/// `d[i]` that starts at `i`, the run being at least `k` long and capped at
/// 255 values.
pub open spec fn run_end(d: Seq<u8>, i: int, k: int) -> int
    decreases 255 - k,
{
    if k < 255 && i + k < d.len() && d[i + k] == d[i] {
        run_end(d, i, k + 1)
    } else {
        k
    }
}

/// A run is at least as long as its start and ends inside the data.
pub proof fn lemma_run_end_bounds(d: Seq<u8>, i: int, k: int)
    requires
        1 <= k <= 255,
        0 <= i,
        i + k <= d.len(),
    ensures
        k <= run_end(d, i, k) <= 255,
        i + run_end(d, i, k) <= d.len(),
    decreases 255 - k,
{
    if k < 255 && i + k < d.len() && d[i + k] == d[i] {
        lemma_run_end_bounds(d, i, k + 1);
    }
}

/// The sixel character that carries the six bits of `v`.
pub open spec fn sixel_char(v: u8) -> char {
    ((v as nat) + 63) as char
}

/// The text of a run of `k` copies of value `v`: `!k` and the character
/// when the run is longer than two, else the character `k` times.
pub open spec fn run_text(v: u8, k: nat) -> Seq<char> {
    if k > 2 {
        seq!['!'] + decimal(k) + seq![sixel_char(v)]
    } else {
        Seq::new(k, |_j: int| sixel_char(v))
    }
}

/// The run-length encoded text of `d` from position `i` on.
pub open spec fn band_text_from(d: Seq<u8>, i: int) -> Seq<char>
    decreases d.len() - i,
{
    if i < 0 || i >= d.len() {
        seq![]
    } else {
        proof {
            lemma_run_end_bounds(d, i, 1);
        }
        let k = run_end(d, i, 1);
        run_text(d[i], k as nat) + band_text_from(d, i + k)
    }
}

/// The run-length encoded text of a whole band.
pub open spec fn band_text(d: Seq<u8>) -> Seq<char> {
    band_text_from(d, 0)
}

/// Appends the sixel text of one band of one color to `out`: each run of
/// equal values (at most 255 long) becomes `!count` and its character when
/// it is longer than two, else its character repeated.
pub fn encode_sixel_band(data: &[u8], out: &mut String)
    requires
        forall|i: int| 0 <= i < data@.len() ==> data@[i] <= 192,
    ensures
        final(out)@ == old(out)@ + band_text(data@),
{
    let width = data.len();
    let mut i: usize = 0;
    while i < width
        invariant
            width == data@.len(),
            i <= width,
            forall|j: int| 0 <= j < data@.len() ==> data@[j] <= 192,
            old(out)@ + band_text(data@) == out@ + band_text_from(data@, i as int),
        decreases width - i,
    {
        let val = data[i];
        let mut run_len: usize = 1;
        while i + run_len < width && data[i + run_len] == val && run_len < 255
            invariant
                width == data@.len(),
                i < width,
                1 <= run_len <= 255,
                i + run_len <= width,
                val == data@[i as int],
                run_end(data@, i as int, 1) == run_end(data@, i as int, run_len as int),
            decreases 255 - run_len,
        {
            run_len += 1;
        }
        assert(run_end(data@, i as int, run_len as int) == run_len);
        let ch = (val + 63) as char;
        let ghost before = out@;
        if run_len > 2 {
            out.push('!');
            push_decimal(out, run_len);
            out.push(ch);
            assert(out@ =~= before + run_text(val, run_len as nat));
        } else {
            let mut j: usize = 0;
            while j < run_len
                invariant
                    j <= run_len,
                    out@ =~= before + Seq::new(j as nat, |_k: int| sixel_char(val)),
                    ch == sixel_char(val),
                decreases run_len - j,
            {
                out.push(ch);
                j += 1;
                assert(out@ =~= before + Seq::new(j as nat, |_k: int| sixel_char(val)));
            }
        }
        assert(band_text_from(data@, i as int) == run_text(val, run_len as nat)
            + band_text_from(data@, (i + run_len) as int));
        i += run_len;
    }
}


// ---------------------------------------------------------------------------
// The whole image
// ---------------------------------------------------------------------------

/// The value of bit `k` (0..=6).
pub open spec fn bit_value(k: int) -> int {
    if k <= 0 {
        1
    } else if k == 1 {
        2
    } else if k == 2 {
        4
    } else if k == 3 {
        8
    } else if k == 4 {
        16
    } else if k == 5 {
        32
    } else {
        64
    }
}

/// The number of pixel rows in band `band` (six, except in the last band).
pub open spec fn band_rows(height: int, band: int) -> int {
    if 6 * band + 6 <= height {
        6
    } else {
        height - 6 * band
    }
}

/// The number of bands of six rows that cover `height` rows.
pub open spec fn num_bands(height: int) -> int {
    (height + 5) / 6
}

/// The palette index that pixel `(x, y)` is quantized to.
pub open spec fn color_of(img: &Raster, x: int, y: int) -> int {
    nearest_index(img.rgb_at(x, y), palette_spec())
}

/// The sixel value of column `x` of band `band` for color `c`, over the
/// first `k` rows of the band: bit `i` is set when the pixel of row `i` of
/// the band is quantized to `c`.
pub open spec fn band_bits(img: &Raster, band: int, c: int, x: int, k: int) -> int
    decreases k,
{
    if k <= 0 {
        0
    } else {
        band_bits(img, band, c, x, k - 1) + if color_of(img, x, 6 * band + k - 1) == c {
            bit_value(k - 1)
        } else {
            0
        }
    }
}

/// The sixel values of band `band` for color `c`, one per column.
pub open spec fn band_row(img: &Raster, band: int, c: int) -> Seq<u8> {
    Seq::new(
        img.width as nat,
        |x: int| band_bits(img, band, c, x, band_rows(img.height as int, band)) as u8,
    )
}

/// Some pixel of band `band` is quantized to color `c`.
pub open spec fn color_in_band(img: &Raster, band: int, c: int) -> bool {
    exists|x: int|
        0 <= x < img.width && band_bits(img, band, c, x, band_rows(img.height as int, band)) != 0
}

/// Some color below `c` is used in band `band`.
pub open spec fn any_used_below(img: &Raster, band: int, c: int) -> bool {
    exists|c2: int| 0 <= c2 < c && color_in_band(img, band, c2)
}

/// The text of color `c` in band `band`: nothing if the color is unused,
/// else `#c` and its run-length encoded sixels, after a `$` (return to the
/// start of the band) unless it is the first color used in the band.
pub open spec fn color_section(img: &Raster, band: int, c: int) -> Seq<char> {
    if color_in_band(img, band, c) {
        (if any_used_below(img, band, c) {
            seq!['$']
        } else {
            seq![]
        }) + seq!['#'] + decimal(c as nat) + band_text(band_row(img, band, c))
    } else {
        seq![]
    }
}

/// The sections of the colors below `n` in band `band`.
pub open spec fn band_body(img: &Raster, band: int, n: int) -> Seq<char>
    decreases n,
{
    if n <= 0 {
        seq![]
    } else {
        band_body(img, band, n - 1) + color_section(img, band, n - 1)
    }
}

/// The text of the first `n` bands, each but the last followed by `-`
/// (advance to the next band).
pub open spec fn bands_text(img: &Raster, n: int) -> Seq<char>
    decreases n,
{
    if n <= 0 {
        seq![]
    } else {
        bands_text(img, n - 1) + band_body(img, n - 1, 256) + if n - 1 < num_bands(
            img.height as int,
        ) - 1 {
            seq!['-']
        } else {
            seq![]
        }
    }
}

/// A channel value as a percentage, rounded down.
pub open spec fn percent(v: u8) -> nat {
    (v as nat) * 100 / 255
}

/// The definition of color register `i`: `#i;2;r;g;b` in percent.
pub open spec fn palette_entry_text(i: int) -> Seq<char> {
    let p = palette_color(i);
    seq!['#'] + decimal(i as nat) + seq![';', '2', ';'] + decimal(percent(p.0)) + seq![';']
        + decimal(percent(p.1)) + seq![';'] + decimal(percent(p.2))
}

/// The definitions of the first `n` color registers.
pub open spec fn palette_text(n: int) -> Seq<char>
    decreases n,
{
    if n <= 0 {
        seq![]
    } else {
        palette_text(n - 1) + palette_entry_text(n - 1)
    }
}

/// The Sixel escape sequence of an image: the introducer `ESC P q`, the
/// 256 color registers, the bands, and the terminator `ESC \`.
pub open spec fn sixel_text(img: &Raster) -> Seq<char> {
    seq!['\x1b', 'P', 'q'] + palette_text(256) + bands_text(img, num_bands(img.height as int))
        + seq!['\x1b', '\\']
}

/// Setting bit `k` of a value below `2^k` adds `2^k`.
proof fn lemma_set_bit(a: u8, k: u8)
    by (bit_vector)
    requires
        k < 6,
        a < (1u8 << k),
    ensures
        a | (1u8 << k) == a + (1u8 << k),
{
}

/// The values of the low six bits.
proof fn lemma_bit_values(k: u8)
    by (bit_vector)
    requires
        k < 6,
    ensures
        (k == 0 ==> (1u8 << k) == 1u8),
        (k == 1 ==> (1u8 << k) == 2u8),
        (k == 2 ==> (1u8 << k) == 4u8),
        (k == 3 ==> (1u8 << k) == 8u8),
        (k == 4 ==> (1u8 << k) == 16u8),
        (k == 5 ==> (1u8 << k) == 32u8),
{
}

/// The sixel value over the first `k` rows needs `k` bits.
proof fn lemma_band_bits_bound(img: &Raster, band: int, c: int, x: int, k: int)
    requires
        0 <= k <= 6,
    ensures
        0 <= band_bits(img, band, c, x, k) < bit_value(k),
    decreases k,
{
    if k > 0 {
        lemma_band_bits_bound(img, band, c, x, k - 1);
    }
}

/// Quantizes every pixel of band `band` (rows `row_start..row_end`) and
/// gathers, for each palette color, its sixel values and whether it occurs.
fn quantize_band(
    img: &Raster,
    palette: &Vec<Rgb>,
    band: usize,
    row_start: usize,
    row_end: usize,
) -> (res: (Vec<bool>, Vec<Vec<u8>>))
    requires
        img.wf(),
        palette@ == palette_spec(),
        row_start == 6 * band,
        row_end == row_start + band_rows(img.height as int, band as int),
        row_start < row_end <= img.height,
    ensures
        res.0@.len() == 256,
        res.1@.len() == 256,
        forall|c: int| 0 <= c < 256 ==> #[trigger] res.1@[c]@ == band_row(img, band as int, c),
        forall|c: int| 0 <= c < 256 ==> #[trigger] res.0@[c] == color_in_band(img, band as int, c),
{
    let width = img.width as usize;
    let mut color_used: Vec<bool> = Vec::new();
    let mut color_data: Vec<Vec<u8>> = Vec::new();
    let mut c: usize = 0;
    while c < 256
        invariant
            c <= 256,
            color_used@.len() == c,
            color_data@.len() == c,
            forall|i: int| 0 <= i < c ==> !#[trigger] color_used@[i],
            forall|i: int| 0 <= i < c ==> (#[trigger] color_data@[i])@ == Seq::new(width as nat, |x: int| 0u8),
        decreases 256 - c,
    {
        let mut row: Vec<u8> = Vec::new();
        let mut x: usize = 0;
        while x < width
            invariant
                x <= width,
                row@ == Seq::new(x as nat, |j: int| 0u8),
            decreases width - x,
        {
            row.push(0);
            x += 1;
            assert(row@ =~= Seq::new(x as nat, |j: int| 0u8));
        }
        color_used.push(false);
        color_data.push(row);
        c += 1;
    }
    let ghost b = band as int;
    let mut y: usize = row_start;
    while y < row_end
        invariant
            img.wf(),
            palette@ == palette_spec(),
            width == img.width,
            row_start == 6 * band,
            row_end <= img.height,
            row_start <= y <= row_end,
            row_end - row_start <= 6,
            b == band,
            color_used@.len() == 256,
            color_data@.len() == 256,
            forall|i: int| 0 <= i < 256 ==> (#[trigger] color_data@[i])@.len() == width,
            forall|i: int, x: int|
                0 <= i < 256 && 0 <= x < width ==> #[trigger] color_data@[i]@[x] == band_bits(
                    img,
                    b,
                    i,
                    x,
                    y - row_start,
                ),
            forall|i: int|
                0 <= i < 256 ==> #[trigger] color_used@[i] == exists|x: int|
                    0 <= x < width && #[trigger] color_data@[i]@[x] != 0,
        decreases row_end - y,
    {
        let bit: usize = y - row_start;
        let mut x: usize = 0;
        while x < width
            invariant
                img.wf(),
                palette@ == palette_spec(),
                width == img.width,
                row_start == 6 * band,
                y < row_end <= img.height,
                bit == y - row_start,
                bit < 6,
                b == band,
                x <= width,
                color_used@.len() == 256,
                color_data@.len() == 256,
                forall|i: int| 0 <= i < 256 ==> (#[trigger] color_data@[i])@.len() == width,
                forall|i: int, x2: int|
                    0 <= i < 256 && 0 <= x2 < width ==> #[trigger] color_data@[i]@[x2]
                        == band_bits(img, b, i, x2, bit + if x2 < x { 1int } else { 0int }),
                forall|i: int|
                    0 <= i < 256 ==> #[trigger] color_used@[i] == exists|x2: int|
                        0 <= x2 < width && #[trigger] color_data@[i]@[x2] != 0,
            decreases width - x,
        {
            let px = img.rgb(x as u32, y as u32);
            let color_idx = nearest_color(px.0, px.1, px.2, palette.as_slice());
            assert(color_idx == color_of(img, x as int, y as int));
            assert(6 * b + (bit + 1) - 1 == y);
            let old_v: u8 = color_data[color_idx][x];
            proof {
                lemma_band_bits_bound(img, b, color_idx as int, x as int, bit as int);
                lemma_bit_values(bit as u8);
                lemma_set_bit(old_v, bit as u8);
            }
            let new_v: u8 = old_v | (1u8 << (bit as u8));
            let ghost prev_data = color_data@;
            let ghost prev_used = color_used@;
            color_data[color_idx][x] = new_v;
            color_used.set(color_idx, true);
            proof {
                assert forall|i: int, x2: int|
                    0 <= i < 256 && 0 <= x2 < width implies #[trigger] color_data@[i]@[x2]
                        == band_bits(img, b, i, x2, bit + if x2 < x + 1 { 1int } else { 0int }) by {
                    if x2 == x {
                        assert(band_bits(img, b, i, x2, bit + 1) == band_bits(img, b, i, x2, bit as int)
                            + if color_of(img, x2, 6 * b + bit) == i {
                            bit_value(bit as int)
                        } else {
                            0
                        });
                    } else {
                        assert(color_data@[i]@[x2] == prev_data[i]@[x2]);
                    }
                }
                assert forall|i: int|
                    0 <= i < 256 implies #[trigger] color_used@[i] == exists|x2: int|
                        0 <= x2 < width && #[trigger] color_data@[i]@[x2] != 0 by {
                    if i == color_idx {
                        assert(color_data@[i]@[x as int] != 0);
                    } else {
                        assert(color_data@[i] == prev_data[i]);
                    }
                }
            }
            x += 1;
        }
        y += 1;
    }
    proof {
        assert(y - row_start == band_rows(img.height as int, b));
        assert forall|c: int| 0 <= c < 256 implies #[trigger] color_data@[c]@ == band_row(img, b, c) by {
            assert(color_data@[c]@ =~= band_row(img, b, c));
        }
        assert forall|c: int| 0 <= c < 256 implies #[trigger] color_used@[c] == color_in_band(img, b, c) by {
            if color_used@[c] {
                let x = choose|x: int| 0 <= x < width && #[trigger] color_data@[c]@[x] != 0;
                assert(band_bits(img, b, c, x, band_rows(img.height as int, b)) != 0);
            }
            if color_in_band(img, b, c) {
                let x = choose|x: int|
                    0 <= x < img.width && band_bits(img, b, c, x, band_rows(img.height as int, b))
                        != 0;
                assert(color_data@[c]@[x] != 0);
            }
        }
    }
    (color_used, color_data)
}


/// Appends the sections of all used colors of one band.
fn write_band(
    img: &Raster,
    band: usize,
    color_used: &Vec<bool>,
    color_data: &Vec<Vec<u8>>,
    out: &mut String,
)
    requires
        band < num_bands(img.height as int),
        color_used@.len() == 256,
        color_data@.len() == 256,
        forall|c: int| 0 <= c < 256 ==> #[trigger] color_data@[c]@ == band_row(img, band as int, c),
        forall|c: int| 0 <= c < 256 ==> #[trigger] color_used@[c] == color_in_band(img, band as int, c),
    ensures
        final(out)@ == old(out)@ + band_body(img, band as int, 256),
{
    let ghost b = band as int;
    let ghost rows = band_rows(img.height as int, b);
    assert(1 <= rows <= 6);
    let mut first_color = true;
    let mut c: usize = 0;
    while c < 256
        invariant
            c <= 256,
            b == band,
            rows == band_rows(img.height as int, b),
            1 <= rows <= 6,
            color_used@.len() == 256,
            color_data@.len() == 256,
            forall|i: int| 0 <= i < 256 ==> #[trigger] color_data@[i]@ == band_row(img, b, i),
            forall|i: int| 0 <= i < 256 ==> #[trigger] color_used@[i] == color_in_band(img, b, i),
            out@ == old(out)@ + band_body(img, b, c as int),
            first_color == !any_used_below(img, b, c as int),
        decreases 256 - c,
    {
        let ghost before = out@;
        if color_used[c] {
            if first_color {
                first_color = false;
            } else {
                out.push('$');
            }
            out.push('#');
            push_decimal(out, c);
            proof {
                assert forall|j: int| 0 <= j < color_data@[c as int]@.len() implies color_data@[c as int]@[j] <= 192 by {
                    lemma_band_bits_bound(img, b, c as int, j, rows);
                }
            }
            encode_sixel_band(color_data[c].as_slice(), out);
            assert(out@ =~= before + color_section(img, b, c as int));
        } else {
            assert(color_section(img, b, c as int) =~= seq![]);
            assert(out@ =~= before + color_section(img, b, c as int));
        }
        proof {
            if color_in_band(img, b, c as int) {
                assert(any_used_below(img, b, c + 1));
            } else if any_used_below(img, b, c + 1) {
                let c2 = choose|c2: int| 0 <= c2 < c + 1 && color_in_band(img, b, c2);
                assert(any_used_below(img, b, c as int));
            }
            assert(band_body(img, b, c + 1) == band_body(img, b, c as int) + color_section(img, b, c as int));
        }
        c += 1;
    }
}

/// Encodes an RGBA image as a Sixel escape sequence: the image is
/// quantized to the 256-color palette, all 256 color registers are defined,
/// and each band of six rows carries, for each color that occurs in it, its
/// run-length encoded sixels.
pub fn encode_sixel(img: &Raster) -> (s: String)
    requires
        img.wf(),
        img.height + 5 <= usize::MAX,
    ensures
        s@ == sixel_text(img),
{
    let height = img.height as usize;
    let palette = build_palette(img);
    let palette_len = palette.len();
    let mut out = String::new();
    out.push('\x1b');
    out.push('P');
    out.push('q');
    let ghost header = seq!['\x1b', 'P', 'q'];
    assert(out@ =~= header + palette_text(0));
    let mut i: usize = 0;
    while i < palette_len
        invariant
            palette@ == palette_spec(),
            palette_len == 256,
            i <= palette_len,
            out@ == header + palette_text(i as int),
        decreases palette_len - i,
    {
        let (r, g, b) = palette[i];
        let r_pct = (r as u32 * 100 / 255) as u8;
        let g_pct = (g as u32 * 100 / 255) as u8;
        let b_pct = (b as u32 * 100 / 255) as u8;
        let ghost before = out@;
        out.push('#');
        push_decimal(&mut out, i);
        out.push(';');
        out.push('2');
        out.push(';');
        push_decimal(&mut out, r_pct as usize);
        out.push(';');
        push_decimal(&mut out, g_pct as usize);
        out.push(';');
        push_decimal(&mut out, b_pct as usize);
        assert(out@ =~= before + palette_entry_text(i as int));
        i += 1;
    }
    let band_count = (height + 5) / 6;
    let ghost prefix = out@;
    assert(out@ =~= prefix + bands_text(img, 0));
    let mut band: usize = 0;
    while band < band_count
        invariant
            img.wf(),
            height == img.height,
            height + 5 <= usize::MAX,
            band_count == (height + 5) / 6,
            band_count == num_bands(img.height as int),
            palette@ == palette_spec(),
            band <= band_count,
            out@ == prefix + bands_text(img, band as int),
        decreases band_count - band,
    {
        assert((band + 1) * 6 <= height + 5);
        let row_start = band * 6;
        let row_end = if (band + 1) * 6 < height { (band + 1) * 6 } else { height };
        let (color_used, color_data) = quantize_band(img, &palette, band, row_start, row_end);
        let ghost before = out@;
        write_band(img, band, &color_used, &color_data, &mut out);
        if band < band_count - 1 {
            out.push('-');
        }
        assert(out@ =~= prefix + bands_text(img, band + 1));
        band += 1;
    }
    let ghost body = out@;
    out.push('\x1b');
    out.push('\\');
    assert(out@ =~= body + seq!['\x1b', '\\']);
    out
}


// ---------------------------------------------------------------------------
// Laws
// ---------------------------------------------------------------------------

proof fn lemma_channel_distance(x: u8, y: u8)
    ensures
        channel_distance(x, y) >= 0,
        x != y ==> channel_distance(x, y) > 0,
{
    let d = x as int - y as int;
    assert(d * d >= 0) by (nonlinear_arith);
    if x != y {
        assert(d * d > 0) by (nonlinear_arith)
            requires d != 0;
    }
}

proof fn lemma_palette_digits(i: int)
    requires
        0 <= i < 256,
    ensures
        0 <= i / 32 < 8,
        0 <= (i / 4) % 8 < 8,
        0 <= i % 4 < 4,
        i == 32 * (i / 32) + 4 * ((i / 4) % 8) + i % 4,
{
}

proof fn lemma_levels_distinct(a: int, b: int)
    requires
        0 <= a < b < 8,
    ensures
        0 <= level8(a) < level8(b) <= 255,
        b < 4 ==> 0 <= level4(a) < level4(b) <= 255,
{
    assert(0 <= a * 255 / 7 < b * 255 / 7 <= 255) by (nonlinear_arith)
        requires 0 <= a < b < 8;
}

/// The 256 colors of the palette are distinct.
pub proof fn law_palette_distinct(i: int, j: int)
    requires
        0 <= i < 256,
        0 <= j < 256,
        i != j,
    ensures
        palette_color(i) != palette_color(j),
{
    lemma_palette_digits(i);
    lemma_palette_digits(j);
    let (ri, gi, bi) = (i / 32, (i / 4) % 8, i % 4);
    let (rj, gj, bj) = (j / 32, (j / 4) % 8, j % 4);
    if ri != rj {
        if ri < rj { lemma_levels_distinct(ri, rj); } else { lemma_levels_distinct(rj, ri); }
    } else if gi != gj {
        if gi < gj { lemma_levels_distinct(gi, gj); } else { lemma_levels_distinct(gj, gi); }
    } else {
        assert(bi != bj);
        if bi < bj { lemma_levels_distinct(bi, bj); } else { lemma_levels_distinct(bj, bi); }
    }
}

/// Quantizing a palette color gives back its own index.
pub proof fn law_palette_color_is_its_own_nearest(i: int)
    requires
        0 <= i < 256,
    ensures
        nearest_index(palette_color(i), palette_spec()) == i,
{
    let c = palette_color(i);
    let pal = palette_spec();
    lemma_channel_distance(c.0, c.0);
    lemma_channel_distance(c.1, c.1);
    lemma_channel_distance(c.2, c.2);
    assert(color_distance(c, pal[i]) == 0);
    assert forall|j: int| 0 <= j < pal.len() implies color_distance(c, pal[i]) <= color_distance(c, pal[j]) by {
        lemma_channel_distance(c.0, pal[j].0);
        lemma_channel_distance(c.1, pal[j].1);
        lemma_channel_distance(c.2, pal[j].2);
    }
    assert forall|j: int| 0 <= j < i implies color_distance(c, pal[i]) < color_distance(c, pal[j]) by {
        law_palette_distinct(i, j);
        lemma_channel_distance(c.0, pal[j].0);
        lemma_channel_distance(c.1, pal[j].1);
        lemma_channel_distance(c.2, pal[j].2);
    }
    lemma_nearest_exists(c, pal, i);
}


/// A decimal digit character.
pub open spec fn is_digit(c: char) -> bool {
    '0' as int <= c as int <= '9' as int
}

/// The number of digit characters at the start of `t`.
pub open spec fn digit_run(t: Seq<char>) -> nat
    decreases t.len(),
{
    if t.len() > 0 && is_digit(t[0]) {
        1 + digit_run(t.drop_first())
    } else {
        0
    }
}

/// The number that a string of digits writes in decimal.
pub open spec fn digits_value(t: Seq<char>) -> nat
    decreases t.len(),
{
    if t.len() == 0 {
        0
    } else {
        digits_value(t.drop_last()) * 10 + ((t.last() as int - '0' as int) as nat)
    }
}

/// The six-bit value that a sixel character carries.
pub open spec fn sixel_value(c: char) -> u8 {
    ((c as int) - 63) as u8
}

pub proof fn lemma_digit_run_bound(t: Seq<char>)
    ensures
        digit_run(t) <= t.len(),
    decreases t.len(),
{
    if t.len() > 0 && is_digit(t[0]) {
        lemma_digit_run_bound(t.drop_first());
    }
}

/// Reads the text of one band back into its values: `!n` followed by a
/// character stands for `n` copies of that character's value, any other
/// character for its own value.
pub open spec fn decode_band(t: Seq<char>) -> Seq<u8>
    decreases t.len(),
{
    if t.len() == 0 {
        seq![]
    } else if t[0] == '!' {
        proof {
            lemma_digit_run_bound(t.drop_first());
        }
        let n = digit_run(t.drop_first()) as int;
        let rest = t.subrange(1 + n, t.len() as int);
        if rest.len() == 0 {
            seq![]
        } else {
            Seq::new(digits_value(t.subrange(1, 1 + n)), |_j: int| sixel_value(rest[0]))
                + decode_band(rest.drop_first())
        }
    } else {
        seq![sixel_value(t[0])] + decode_band(t.drop_first())
    }
}

proof fn lemma_decimal(n: nat)
    ensures
        decimal(n).len() >= 1,
        forall|j: int| 0 <= j < decimal(n).len() ==> is_digit(#[trigger] decimal(n)[j]),
        digits_value(decimal(n)) == n,
    decreases n,
{
    if n >= 10 {
        lemma_decimal(n / 10);
        let s = decimal(n / 10).push(digit_char(n % 10));
        assert(digit_char(n % 10) as int == '0' as int + n % 10);
        assert(s.last() == digit_char(n % 10));
        assert(decimal(n) == s);
        assert(s.drop_last() =~= decimal(n / 10));
        assert(digits_value(s) == digits_value(s.drop_last()) * 10 + ((s.last() as int - '0' as int) as nat));
        assert(digits_value(s.drop_last()) == n / 10);
        assert((n / 10) * 10 + n % 10 == n);
        assert forall|j: int| 0 <= j < s.len() implies is_digit(#[trigger] s[j]) by {
            if j < s.len() - 1 {
                assert(s[j] == decimal(n / 10)[j]);
            }
        }
    } else {
        let s = seq![digit_char(n)];
        assert(digit_char(n) as int == '0' as int + n);
        assert(s.drop_last() =~= Seq::<char>::empty());
        assert(digits_value(s.drop_last()) == 0);
        assert(s.last() == digit_char(n));
        assert(digits_value(s) == n);
    }
}

proof fn lemma_digit_run(a: Seq<char>, b: Seq<char>)
    requires
        forall|j: int| 0 <= j < a.len() ==> is_digit(#[trigger] a[j]),
        b.len() > 0,
        !is_digit(b[0]),
    ensures
        digit_run(a + b) == a.len(),
    decreases a.len(),
{
    if a.len() == 0 {
        assert(a + b =~= b);
    } else {
        assert((a + b).drop_first() =~= a.drop_first() + b);
        assert((a + b)[0] == a[0]);
        lemma_digit_run(a.drop_first(), b);
    }
}

proof fn lemma_run_values(d: Seq<u8>, i: int, k: int)
    requires
        1 <= k <= 255,
        0 <= i,
        i + k <= d.len(),
        forall|j: int| i <= j < i + k ==> d[j] == d[i],
    ensures
        forall|j: int| i <= j < i + run_end(d, i, k) ==> d[j] == d[i],
    decreases 255 - k,
{
    if k < 255 && i + k < d.len() && d[i + k] == d[i] {
        lemma_run_values(d, i, k + 1);
    }
}

proof fn lemma_decode_from(d: Seq<u8>, i: int)
    requires
        0 <= i <= d.len(),
        forall|j: int| 0 <= j < d.len() ==> d[j] <= 192,
    ensures
        decode_band(band_text_from(d, i)) == d.subrange(i, d.len() as int),
    decreases d.len() - i,
{
    if i == d.len() {
        assert(d.subrange(i, d.len() as int) =~= Seq::<u8>::empty());
    } else {
        lemma_run_end_bounds(d, i, 1);
        let k = run_end(d, i, 1);
        let v = d[i];
        lemma_run_values(d, i, 1);
        lemma_decode_from(d, i + k);
        let rest = band_text_from(d, i + k);
        let ch = sixel_char(v);
        assert(sixel_value(ch) == v);
        assert(!is_digit(ch) && ch != '!');
        let run = Seq::new(k as nat, |_j: int| v);
        assert(d.subrange(i, d.len() as int) =~= run + d.subrange(i + k, d.len() as int));
        let t = band_text_from(d, i);
        assert(t == run_text(v, k as nat) + rest);
        if k > 2 {
            lemma_decimal(k as nat);
            let dec = decimal(k as nat);
            assert(t =~= seq!['!'] + (dec + (seq![ch] + rest)));
            assert(t.drop_first() =~= dec + (seq![ch] + rest));
            lemma_digit_run(dec, seq![ch] + rest);
            assert(t.subrange(1, 1 + dec.len() as int) =~= dec);
            assert(t.subrange(1 + dec.len() as int, t.len() as int) =~= seq![ch] + rest);
            assert((seq![ch] + rest).drop_first() =~= rest);
            assert(t[0] == '!');
            assert(digit_run(t.drop_first()) == dec.len());
            assert(digits_value(t.subrange(1, 1 + dec.len() as int)) == k);
            assert(decode_band(t) == Seq::new(k as nat, |_j: int| sixel_value((seq![ch] + rest)[0]))
                + decode_band((seq![ch] + rest).drop_first()));
            assert((seq![ch] + rest)[0] == ch);
            let lhs = Seq::new(k as nat, |_j: int| sixel_value((seq![ch] + rest)[0]));
            assert(lhs =~= run);
            assert(decode_band(t) == lhs + decode_band(rest));
            assert(decode_band(t) =~= run + decode_band(rest));
        } else if k == 2 {
            let t1 = seq![ch] + rest;
            assert(t =~= seq![ch] + t1);
            assert(t[0] == ch);
            assert(t.drop_first() =~= t1);
            assert(t1[0] == ch);
            assert(t1.drop_first() =~= rest);
            assert(decode_band(t1) == seq![v] + decode_band(rest));
            assert(decode_band(t) == seq![v] + decode_band(t1));
            assert(run =~= seq![v, v]);
            assert(decode_band(t) =~= run + decode_band(rest));
        } else {
            assert(t =~= seq![ch] + rest);
            assert(t[0] == ch);
            assert(t.drop_first() =~= rest);
            assert(run =~= seq![v]);
            assert(decode_band(t) =~= run + decode_band(rest));
        }
    }
}

/// Reading the text of a band back gives the band's values: the
/// run-length encoding loses nothing.
pub proof fn law_band_roundtrip(d: Seq<u8>)
    requires
        forall|j: int| 0 <= j < d.len() ==> d[j] <= 192,
    ensures
        decode_band(band_text(d)) == d,
{
    lemma_decode_from(d, 0);
    assert(d.subrange(0, d.len() as int) =~= d);
}


/// Every sixel value of a band fits in six bits, so each one is written as
/// a character from `?` to `~`.
pub proof fn law_band_values_fit_six_bits(img: &Raster, band: int, c: int)
    requires
        0 <= band < num_bands(img.height as int),
    ensures
        forall|x: int| 0 <= x < img.width ==> #[trigger] band_row(img, band, c)[x] < 64,
{
    let rows = band_rows(img.height as int, band);
    assert(1 <= rows <= 6);
    assert forall|x: int| 0 <= x < img.width implies #[trigger] band_row(img, band, c)[x] < 64 by {
        lemma_band_bits_bound(img, band, c, x, rows);
    }
}


proof fn lemma_bit_of_sum(a: u8, m: u8, j: u8, t: u8)
    by (bit_vector)
    requires
        m < 6,
        j < 6,
        t <= 1,
        a < (1u8 << m),
    ensures
        ((a + t * (1u8 << m)) as u8 >> j) & 1u8 == (if j == m {
            t
        } else if j < m {
            (a >> j) & 1u8
        } else {
            0u8
        }),
{
}

proof fn lemma_band_bit(img: &Raster, band: int, c: int, x: int, n: int, k: int)
    requires
        0 <= k < n <= 6,
    ensures
        ((band_bits(img, band, c, x, n) as u8 >> (k as u8)) & 1u8 == 1u8) <==> color_of(
            img,
            x,
            6 * band + k,
        ) == c,
    decreases n,
{
    let a = band_bits(img, band, c, x, n - 1);
    let t: u8 = if color_of(img, x, 6 * band + n - 1) == c {
        1
    } else {
        0
    };
    lemma_band_bits_bound(img, band, c, x, n - 1);
    lemma_bit_values((n - 1) as u8);
    assert(band_bits(img, band, c, x, n) == a + (t as int) * bit_value(n - 1));
    assert(((1u8 << ((n - 1) as u8)) as int) == bit_value(n - 1));
    lemma_bit_of_sum(a as u8, (n - 1) as u8, k as u8, t);
    assert((a as u8 + t * (1u8 << ((n - 1) as u8))) as u8 == band_bits(img, band, c, x, n) as u8);
    if k < n - 1 {
        lemma_band_bit(img, band, c, x, n - 1, k);
    }
}

/// Each pixel of a band is drawn in exactly one color: bit `k` of the
/// sixel of column `x` is set for color `c` exactly when the pixel in row
/// `k` of the band is quantized to `c`.
pub proof fn law_pixel_drawn_in_its_color(img: &Raster, band: int, c: int, x: int, k: int)
    requires
        0 <= band < num_bands(img.height as int),
        0 <= x < img.width,
        0 <= k < band_rows(img.height as int, band),
    ensures
        ((band_row(img, band, c)[x] >> (k as u8)) & 1u8 == 1u8) <==> color_of(img, x, 6 * band + k)
            == c,
{
    lemma_band_bit(img, band, c, x, band_rows(img.height as int, band), k);
}


/// A character that band texts are made of: the repeat mark `!`, a digit
/// of a repeat count, or a sixel character from `?` to `~`.
pub open spec fn is_band_char(c: char) -> bool {
    c == '!' || is_digit(c) || ('?' as int <= c as int <= '~' as int)
}

proof fn lemma_band_alphabet_from(d: Seq<u8>, i: int)
    requires
        0 <= i <= d.len(),
        forall|j: int| 0 <= j < d.len() ==> d[j] <= 63,
    ensures
        forall|k: int|
            0 <= k < band_text_from(d, i).len() ==> is_band_char(#[trigger] band_text_from(d, i)[k]),
    decreases d.len() - i,
{
    if i < d.len() {
        lemma_run_end_bounds(d, i, 1);
        let k = run_end(d, i, 1);
        lemma_decode_alphabet_step(d[i], k as nat);
        lemma_band_alphabet_from(d, i + k);
        let t = band_text_from(d, i);
        let head = run_text(d[i], k as nat);
        let rest = band_text_from(d, i + k);
        assert(t == head + rest);
        assert forall|m: int| 0 <= m < t.len() implies is_band_char(#[trigger] t[m]) by {
            if m < head.len() {
                assert(t[m] == head[m]);
            } else {
                assert(t[m] == rest[m - head.len()]);
            }
        }
    }
}

proof fn lemma_decode_alphabet_step(v: u8, k: nat)
    requires
        v <= 63,
    ensures
        forall|m: int| 0 <= m < run_text(v, k).len() ==> is_band_char(#[trigger] run_text(v, k)[m]),
{
    let ch = sixel_char(v);
    assert('?' as int <= ch as int <= '~' as int);
    if k > 2 {
        lemma_decimal(k);
        let t = run_text(v, k);
        let dec = decimal(k);
        assert(t == seq!['!'] + dec + seq![ch]);
        assert forall|m: int| 0 <= m < t.len() implies is_band_char(#[trigger] t[m]) by {
            if m == 0 {
            } else if m < 1 + dec.len() {
                assert(t[m] == dec[m - 1]);
            } else {
                assert(t[m] == ch);
            }
        }
    }
}

/// A band's text is made only of `!`, digits, and sixel characters from
/// `?` to `~`.
pub proof fn law_band_text_alphabet(d: Seq<u8>)
    requires
        forall|j: int| 0 <= j < d.len() ==> d[j] <= 63,
    ensures
        forall|k: int| 0 <= k < band_text(d).len() ==> is_band_char(#[trigger] band_text(d)[k]),
{
    lemma_band_alphabet_from(d, 0);
}


/// The color a pixel is quantized to is used in the pixel's band, so that
/// among the colors a band lists, exactly one draws each of its pixels.
pub proof fn law_pixel_color_is_used(img: &Raster, band: int, x: int, k: int)
    requires
        0 <= band < num_bands(img.height as int),
        0 <= x < img.width,
        0 <= k < band_rows(img.height as int, band),
    ensures
        color_in_band(img, band, color_of(img, x, 6 * band + k)),
{
    let c = color_of(img, x, 6 * band + k);
    let rows = band_rows(img.height as int, band);
    lemma_band_bit(img, band, c, x, rows, k);
    lemma_band_bits_bound(img, band, c, x, rows);
    let v = band_bits(img, band, c, x, rows) as u8;
    let sh = k as u8;
    assert(v == 0u8 ==> (v >> sh) & 1u8 == 0u8) by (bit_vector);
    assert(band_bits(img, band, c, x, rows) != 0);
}


/// The first index among the first `n` entries of `palette` whose color
/// is closest to `c`.
spec fn first_closest(c: Rgb, palette: Seq<Rgb>, n: int) -> int
    decreases n,
{
    if n <= 1 {
        0
    } else {
        let b = first_closest(c, palette, n - 1);
        if color_distance(c, palette[n - 1]) < color_distance(c, palette[b]) {
            n - 1
        } else {
            b
        }
    }
}

proof fn lemma_first_closest(c: Rgb, palette: Seq<Rgb>, n: int)
    requires
        1 <= n <= palette.len(),
    ensures
        0 <= first_closest(c, palette, n) < n,
        forall|j: int|
            0 <= j < n ==> color_distance(c, palette[first_closest(c, palette, n)])
                <= color_distance(c, #[trigger] palette[j]),
        forall|j: int|
            0 <= j < first_closest(c, palette, n) ==> color_distance(
                c,
                palette[first_closest(c, palette, n)],
            ) < color_distance(c, #[trigger] palette[j]),
    decreases n,
{
    if n > 1 {
        lemma_first_closest(c, palette, n - 1);
    }
}

/// A non-empty palette has a first closest entry to every color.
proof fn lemma_nearest_is_nearest(c: Rgb, palette: Seq<Rgb>)
    requires
        palette.len() > 0,
    ensures
        is_nearest(c, palette, nearest_index(c, palette)),
{
    let n = palette.len() as int;
    lemma_first_closest(c, palette, n);
    let m = first_closest(c, palette, n);
    assert(is_nearest(c, palette, m));
    lemma_nearest_exists(c, palette, m);
}

/// Every pixel is drawn in the palette color closest to its own color
/// (in squared distance over red, green and blue), the first one among
/// equally close colors: bit `k` of the sixel of column `x` is set for
/// register `c` exactly when no palette color is closer to the pixel in row
/// `k` of the band than color `c`, and every color before `c` is farther.
pub proof fn law_pixel_drawn_in_nearest_palette_color(img: &Raster, band: int, c: int, x: int, k: int)
    requires
        0 <= band < num_bands(img.height as int),
        0 <= x < img.width,
        0 <= k < band_rows(img.height as int, band),
        0 <= c < 256,
    ensures
        ((band_row(img, band, c)[x] >> (k as u8)) & 1u8 == 1u8) <==> {
            let p = img.rgb_at(x, 6 * band + k);
            &&& forall|j: int|
                0 <= j < 256 ==> color_distance(p, palette_color(c)) <= color_distance(
                    p,
                    #[trigger] palette_color(j),
                )
            &&& forall|j: int|
                0 <= j < c ==> color_distance(p, palette_color(c)) < color_distance(
                    p,
                    #[trigger] palette_color(j),
                )
        },
{
    let p = img.rgb_at(x, 6 * band + k);
    let pal = palette_spec();
    law_pixel_drawn_in_its_color(img, band, c, x, k);
    lemma_nearest_is_nearest(p, pal);
    let m = nearest_index(p, pal);
    assert(color_of(img, x, 6 * band + k) == m);
    let closest = (forall|j: int|
        0 <= j < 256 ==> color_distance(p, palette_color(c)) <= color_distance(
            p,
            #[trigger] palette_color(j),
        )) && (forall|j: int|
        0 <= j < c ==> color_distance(p, palette_color(c)) < color_distance(
            p,
            #[trigger] palette_color(j),
        ));
    if closest {
        assert forall|j: int| 0 <= j < pal.len() implies color_distance(p, pal[c]) <= color_distance(
            p,
            #[trigger] pal[j],
        ) by {
            assert(pal[j] == palette_color(j));
        }
        assert forall|j: int| 0 <= j < c implies color_distance(p, pal[c]) < color_distance(
            p,
            #[trigger] pal[j],
        ) by {
            assert(pal[j] == palette_color(j));
        }
        assert(is_nearest(p, pal, c));
        lemma_nearest_unique(p, pal, c, m);
    }
    if m == c {
        assert forall|j: int| 0 <= j < 256 implies color_distance(p, palette_color(c)) <= color_distance(
            p,
            #[trigger] palette_color(j),
        ) by {
            assert(pal[j] == palette_color(j));
        }
        assert forall|j: int| 0 <= j < c implies color_distance(p, palette_color(c)) < color_distance(
            p,
            #[trigger] palette_color(j),
        ) by {
            assert(pal[j] == palette_color(j));
        }
    }
}


/// Two images of one size whose pixels agree in red, green and blue.
pub open spec fn same_colors(a: &Raster, b: &Raster) -> bool {
    &&& a.width == b.width
    &&& a.height == b.height
    &&& forall|x: int, y: int|
        0 <= x < a.width && 0 <= y < a.height ==> #[trigger] a.rgb_at(x, y) == b.rgb_at(x, y)
}

proof fn lemma_same_band_bits(a: &Raster, b: &Raster, band: int, c: int, x: int, k: int)
    requires
        same_colors(a, b),
        0 <= band,
        0 <= x < a.width,
        0 <= k,
        6 * band + k <= a.height,
    ensures
        band_bits(a, band, c, x, k) == band_bits(b, band, c, x, k),
    decreases k,
{
    if k > 0 {
        lemma_same_band_bits(a, b, band, c, x, k - 1);
        assert(a.rgb_at(x, 6 * band + k - 1) == b.rgb_at(x, 6 * band + k - 1));
    }
}

proof fn lemma_same_band_body(a: &Raster, b: &Raster, band: int, n: int)
    requires
        same_colors(a, b),
        0 <= band < num_bands(a.height as int),
    ensures
        band_body(a, band, n) == band_body(b, band, n),
    decreases n,
{
    let rows = band_rows(a.height as int, band);
    assert forall|c: int, x: int| 0 <= x < a.width implies #[trigger] band_bits(a, band, c, x, rows)
        == band_bits(b, band, c, x, rows) by {
        lemma_same_band_bits(a, b, band, c, x, rows);
    }
    assert forall|c: int| #[trigger] color_in_band(a, band, c) == color_in_band(b, band, c) by {
        if color_in_band(a, band, c) {
            let x = choose|x: int|
                0 <= x < a.width && band_bits(a, band, c, x, rows) != 0;
            assert(band_bits(b, band, c, x, rows) != 0);
        }
        if color_in_band(b, band, c) {
            let x = choose|x: int|
                0 <= x < b.width && band_bits(b, band, c, x, rows) != 0;
            assert(band_bits(a, band, c, x, rows) != 0);
        }
    }
    if n > 0 {
        lemma_same_band_body(a, b, band, n - 1);
        let c = n - 1;
        assert(band_row(a, band, c) =~= band_row(b, band, c));
        assert(any_used_below(a, band, c) == any_used_below(b, band, c)) by {
            if any_used_below(a, band, c) {
                let c2 = choose|c2: int| 0 <= c2 < c && color_in_band(a, band, c2);
                assert(color_in_band(b, band, c2));
            }
            if any_used_below(b, band, c) {
                let c2 = choose|c2: int| 0 <= c2 < c && color_in_band(b, band, c2);
                assert(color_in_band(a, band, c2));
            }
        }
        assert(color_section(a, band, c) == color_section(b, band, c));
    }
}

proof fn lemma_same_bands_text(a: &Raster, b: &Raster, n: int)
    requires
        same_colors(a, b),
        n <= num_bands(a.height as int),
    ensures
        bands_text(a, n) == bands_text(b, n),
    decreases n,
{
    if n > 0 {
        lemma_same_bands_text(a, b, n - 1);
        lemma_same_band_body(a, b, n - 1, 256);
    }
}

/// The Sixel sequence of an image depends only on its size and on the
/// red, green and blue of its pixels: alpha is ignored.
pub proof fn law_sixel_ignores_alpha(a: &Raster, b: &Raster)
    requires
        same_colors(a, b),
    ensures
        sixel_text(a) == sixel_text(b),
{
    lemma_same_bands_text(a, b, num_bands(a.height as int));
}

} // verus!
