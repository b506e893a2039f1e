//! Preview images and their arrangement in one picture.

use crate::cli::preview::{larger, law_layout_holds_all, layout_columns, layout_rows, preview_layout};
use vstd::prelude::*;

verus! {

/// An RGB pixel.
pub type Rgb = [u8; 3];

/// A decoded preview.
#[derive(Debug)]
pub struct PreviewImage {
    /// Width in pixels.
    pub width: u32,
    /// Height in pixels.
    pub height: u32,
    /// Width of the source.
    pub source_width: u32,
    /// Height of the source.
    pub source_height: u32,
    /// Pixels in row-major order.
    pub pixels: Vec<Rgb>,
    /// Where the preview comes from.
    pub source: String,
}

/// A preview as a mathematical value.
#[verifier::ext_equal]
pub struct ImageModel {
    pub width: u32,
    pub height: u32,
    pub source_width: u32,
    pub source_height: u32,
    pub pixels: Seq<Rgb>,
    pub source: Seq<char>,
}

impl View for PreviewImage {
    type V = ImageModel;

    open spec fn view(&self) -> ImageModel {
        ImageModel {
            width: self.width,
            height: self.height,
            source_width: self.source_width,
            source_height: self.source_height,
            pixels: self.pixels@,
            source: self.source@,
        }
    }
}

impl Clone for PreviewImage {
    fn clone(&self) -> (copy: Self)
        ensures
            copy@ == self@,
    {
        let mut pixels: Vec<Rgb> = Vec::new();
        let mut i: usize = 0;
        while i < self.pixels.len()
            invariant
                i <= self.pixels@.len(),
                pixels@ == self.pixels@.take(i as int),
            decreases self.pixels@.len() - i,
        {
            pixels.push(self.pixels[i]);
            assert(self.pixels@.take(i + 1) =~= self.pixels@.take(i as int).push(
                self.pixels@[i as int],
            ));
            i += 1;
        }
        assert(pixels@ =~= self.pixels@);
        Self {
            width: self.width,
            height: self.height,
            source_width: self.source_width,
            source_height: self.source_height,
            pixels,
            source: self.source.clone(),
        }
    }
}

impl PreviewImage {
    /// Whether there is a pixel for every position.
    pub open spec fn complete(self) -> bool {
        self.pixels@.len() == self.width as int * self.height as int
    }

    /// The pixel at a position.
    pub open spec fn at(self, x: int, y: int) -> Rgb {
        self.pixels@[y * self.width + x]
    }

    /// Reads the pixel at a position.
    pub fn pixel(&self, x: u32, y: u32) -> (pixel: Rgb)
        requires
            self.complete(),
            x < self.width,
            y < self.height,
        ensures
            pixel == self.at(x as int, y as int),
    {
        let count: usize = self.pixels.len();
        proof {
            lemma_inside(x as int, y as int, self.width as int, self.height as int);
        }
        self.pixels[y as usize * self.width as usize + x as usize]
    }
}

/// A position inside a picture is an index into its pixels.
proof fn lemma_inside(x: int, y: int, width: int, height: int)
    requires
        0 <= x < width,
        0 <= y < height,
    ensures
        0 <= y * width,
        0 <= y * width + x < width * height,
{
    assert(0 <= y * width && y * width + x < width * height) by (nonlinear_arith)
        requires
            0 <= x < width,
            0 <= y < height,
    ;
}

/// Largest width of previews; one if there are none.
pub open spec fn cell_width(previews: Seq<PreviewImage>) -> nat
    decreases previews.len(),
{
    if previews.len() == 0 {
        1
    } else if previews.len() == 1 {
        previews[0].width as nat
    } else {
        larger(cell_width(previews.drop_last()), previews.last().width as nat)
    }
}

/// Largest height of previews; one if there are none.
pub open spec fn cell_height(previews: Seq<PreviewImage>) -> nat
    decreases previews.len(),
{
    if previews.len() == 0 {
        1
    } else if previews.len() == 1 {
        previews[0].height as nat
    } else {
        larger(cell_height(previews.drop_last()), previews.last().height as nat)
    }
}

proof fn lemma_cell_holds(previews: Seq<PreviewImage>, index: int)
    requires
        0 <= index < previews.len(),
    ensures
        previews[index].width <= cell_width(previews) <= u32::MAX,
        previews[index].height <= cell_height(previews) <= u32::MAX,
    decreases previews.len(),
{
    if previews.len() > 1 {
        if index < previews.len() - 1 {
            lemma_cell_holds(previews.drop_last(), index);
        } else {
            lemma_cell_holds(previews.drop_last(), 0);
        }
    }
}

fn cell_sizes(previews: &Vec<PreviewImage>) -> (cell: (u32, u32))
    ensures
        cell.0 == cell_width(previews@),
        cell.1 == cell_height(previews@),
{
    if previews.len() == 0 {
        return (1, 1);
    }
    let mut width: u32 = previews[0].width;
    let mut height: u32 = previews[0].height;
    let mut i: usize = 1;
    assert(previews@.take(1).len() == 1 && previews@.take(1)[0] == previews@[0]);
    while i < previews.len()
        invariant
            1 <= i <= previews@.len(),
            width == cell_width(previews@.take(i as int)),
            height == cell_height(previews@.take(i as int)),
        decreases previews@.len() - i,
    {
        assert(previews@.take(i + 1).drop_last() =~= previews@.take(i as int));
        assert(previews@.take(i + 1).last() == previews@[i as int]);
        if previews[i].width > width {
            width = previews[i].width;
        }
        if previews[i].height > height {
            height = previews[i].height;
        }
        i += 1;
    }
    assert(previews@.take(previews@.len() as int) =~= previews@);
    (width, height)
}

/// Extent of cells with gaps of two pixels between them.
pub open spec fn extent(cells: int, cell: int) -> int {
    cells * cell + 2 * (cells - 1)
}

/// Pixel of a montage: each preview stands in a cell of its own, row by row, and
/// what no preview covers is black.
pub open spec fn montage_at(
    previews: Seq<PreviewImage>,
    columns: int,
    cell_w: int,
    cell_h: int,
    x: int,
    y: int,
) -> Rgb {
    let index = (y / (cell_h + 2)) * columns + x / (cell_w + 2);
    let dx = x % (cell_w + 2);
    let dy = y % (cell_h + 2);
    if index < previews.len() && dx < previews[index].width && dy < previews[index].height {
        previews[index].at(dx, dy)
    } else {
        [0u8, 0u8, 0u8]
    }
}

/// Whether a montage can be addressed with 32-bit positions.
pub open spec fn montage_fits(previews: Seq<PreviewImage>, columns: int, rows: int) -> bool {
    extent(columns, cell_width(previews) as int) * extent(rows, cell_height(previews) as int)
        <= u32::MAX && extent(columns, cell_width(previews) as int) <= u32::MAX && extent(
        rows,
        cell_height(previews) as int,
    ) <= u32::MAX
}

/// Whether a montage of previews in a layout can be addressed.
pub fn can_montage(previews: &Vec<PreviewImage>, columns: usize, rows: usize) -> (fits: bool)
    requires
        columns >= 1,
        rows >= 1,
    ensures
        fits == montage_fits(previews@, columns as int, rows as int),
{
    let (cell_w, cell_h): (u32, u32) = cell_sizes(previews);
    proof {
        assert(columns * cell_w >= 0 && rows * cell_h >= 0) by (nonlinear_arith);
    }
    if columns > 0x8000_0000 || rows > 0x8000_0000 {
        return false;
    }
    proof {
        assert(columns * cell_w <= 0x8000_0000 * 0xffff_ffff && rows * cell_h <= 0x8000_0000
            * 0xffff_ffff) by (nonlinear_arith)
            requires
                columns <= 0x8000_0000,
                rows <= 0x8000_0000,
                cell_w <= 0xffff_ffff,
                cell_h <= 0xffff_ffff,
        ;
    }
    let width: u64 = columns as u64 * cell_w as u64 + 2 * (columns as u64 - 1);
    let height: u64 = rows as u64 * cell_h as u64 + 2 * (rows as u64 - 1);
    if width > u32::MAX as u64 || height > u32::MAX as u64 {
        return false;
    }
    assert(width * height <= 0xffff_ffff * 0xffff_ffff) by (nonlinear_arith)
        requires
            width <= 0xffff_ffff,
            height <= 0xffff_ffff,
    ;
    width * height <= u32::MAX as u64
}

fn montage_pixel(
    previews: &Vec<PreviewImage>,
    columns: usize,
    cell_w: u32,
    cell_h: u32,
    x: u32,
    y: u32,
) -> (pixel: Rgb)
    requires
        forall|i: int| 0 <= i < previews@.len() ==> (#[trigger] previews@[i]).complete(),
        1 <= columns <= u32::MAX,
        cell_w == cell_width(previews@),
        cell_h == cell_height(previews@),
    ensures
        pixel == montage_at(
            previews@,
            columns as int,
            cell_w as int,
            cell_h as int,
            x as int,
            y as int,
        ),
{
    let step_x: u64 = cell_w as u64 + 2;
    let step_y: u64 = cell_h as u64 + 2;
    let col: u64 = x as u64 / step_x;
    let row: u64 = y as u64 / step_y;
    let dx: u64 = x as u64 % step_x;
    let dy: u64 = y as u64 % step_y;
    assert(row * columns <= 0xffff_ffff * 0xffff_ffff) by (nonlinear_arith)
        requires
            row <= 0xffff_ffff,
            columns <= 0xffff_ffff,
    ;
    let index: u64 = row * columns as u64 + col;
    if index < previews.len() as u64 {
        let preview = &previews[index as usize];
        if dx < preview.width as u64 && dy < preview.height as u64 {
            return preview.pixel(dx as u32, dy as u32);
        }
    }
    [0u8, 0u8, 0u8]
}

/// Arranges previews in one picture. The layout is that of [`preview_layout`].
pub fn montage_previews(previews: &Vec<PreviewImage>, rows: Option<usize>, cols: Option<usize>) -> (image:
    PreviewImage)
    requires
        forall|i: int| 0 <= i < previews@.len() ==> (#[trigger] previews@[i]).complete(),
        montage_fits(
            previews@,
            layout_columns(previews@.len(), rows, cols) as int,
            layout_rows(previews@.len(), rows, cols) as int,
        ),
    ensures
        image.complete(),
        image.source@ == "montage"@,
        image.source_width == image.width,
        image.source_height == image.height,
        image.width == extent(
            layout_columns(previews@.len(), rows, cols) as int,
            cell_width(previews@) as int,
        ),
        image.height == extent(
            layout_rows(previews@.len(), rows, cols) as int,
            cell_height(previews@) as int,
        ),
        forall|x: int, y: int|
            0 <= x < image.width && 0 <= y < image.height ==> #[trigger] image.at(x, y)
                == montage_at(
                previews@,
                layout_columns(previews@.len(), rows, cols) as int,
                cell_width(previews@) as int,
                cell_height(previews@) as int,
                x,
                y,
            ),
{
    let (columns, used_rows): (usize, usize) = preview_layout(previews.len(), rows, cols);
    let (cell_w, cell_h): (u32, u32) = cell_sizes(previews);
    let ghost wide = extent(columns as int, cell_w as int);
    let ghost high = extent(used_rows as int, cell_h as int);
    proof {
        assert(columns * cell_w >= 0 && used_rows * cell_h >= 0) by (nonlinear_arith);
    }
    let width: u32 = (columns as u64 * cell_w as u64 + 2 * (columns as u64 - 1)) as u32;
    let height: u32 = (used_rows as u64 * cell_h as u64 + 2 * (used_rows as u64 - 1)) as u32;
    assert(width == wide && height == high);
    let mut pixels: Vec<Rgb> = Vec::new();
    let mut y: u32 = 0;
    assert(0 * width == 0) by (nonlinear_arith);
    while y < height
        invariant
            y <= height,
            1 <= columns <= u32::MAX,
            cell_w == cell_width(previews@),
            cell_h == cell_height(previews@),
            forall|i: int| 0 <= i < previews@.len() ==> (#[trigger] previews@[i]).complete(),
            pixels@.len() == y * width,
            forall|a: int, b: int|
                0 <= a < width && 0 <= b < y ==> #[trigger] pixels@[b * width + a] == montage_at(
                    previews@,
                    columns as int,
                    cell_w as int,
                    cell_h as int,
                    a,
                    b,
                ),
        decreases height - y,
    {
        let mut x: u32 = 0;
        while x < width
            invariant
                y < height,
                x <= width,
                1 <= columns <= u32::MAX,
                cell_w == cell_width(previews@),
                cell_h == cell_height(previews@),
                forall|i: int| 0 <= i < previews@.len() ==> (#[trigger] previews@[i]).complete(),
                pixels@.len() == y * width + x,
                forall|a: int, b: int|
                    0 <= a < width && 0 <= b && (b < y || b == y && a < x) ==> #[trigger] pixels@[b
                        * width + a] == montage_at(
                        previews@,
                        columns as int,
                        cell_w as int,
                        cell_h as int,
                        a,
                        b,
                    ),
            decreases width - x,
        {
            let ghost before = pixels@;
            pixels.push(montage_pixel(previews, columns, cell_w, cell_h, x, y));
            proof {
                assert forall|a: int, b: int|
                    0 <= a < width && 0 <= b && (b < y || b == y && a < x
                        + 1) implies #[trigger] pixels@[b * width + a] == montage_at(
                    previews@,
                    columns as int,
                    cell_w as int,
                    cell_h as int,
                    a,
                    b,
                ) by {
                    lemma_before(a, b, x as int, y as int, width as int);
                    if !(b == y && a == x) {
                        assert(pixels@[b * width + a] == before[b * width + a]);
                    }
                }
            }
            x += 1;
        }
        assert((y + 1) * width == y * width + width) by (nonlinear_arith);
        y += 1;
    }
    let image = PreviewImage {
        width,
        height,
        source_width: width,
        source_height: height,
        pixels,
        source: String::from_str("montage"),
    };
    assert(image.complete()) by {
        assert(height * width == width * height) by (nonlinear_arith);
    }
    image
}

/// In row-major order an earlier position has a smaller index.
proof fn lemma_before(a: int, b: int, x: int, y: int, width: int)
    requires
        0 <= a < width,
        0 <= x < width,
        0 <= b,
        b < y || b == y && a <= x,
    ensures
        0 <= b * width + a <= y * width + x,
        (b * width + a == y * width + x) ==> a == x && b == y,
{
    if b < y {
        assert(b * width + width <= y * width) by (nonlinear_arith)
            requires
                b + 1 <= y,
                width > 0,
        ;
    }
    assert(0 <= b * width) by (nonlinear_arith)
        requires
            0 <= b,
            width > 0,
    ;
}

/// Every pixel of every preview is shown, in the cell of that preview, and the
/// cell lies inside the montage.
pub proof fn law_montage_shows_every_pixel(
    previews: Seq<PreviewImage>,
    rows: Option<usize>,
    cols: Option<usize>,
    index: int,
    x: int,
    y: int,
)
    requires
        0 <= index < previews.len(),
        0 <= x < previews[index].width,
        0 <= y < previews[index].height,
    ensures
        ({
            let columns = layout_columns(previews.len(), rows, cols) as int;
            let lines = layout_rows(previews.len(), rows, cols) as int;
            let cell_w = cell_width(previews) as int;
            let cell_h = cell_height(previews) as int;
            let left = (index % columns) * (cell_w + 2) + x;
            let top = (index / columns) * (cell_h + 2) + y;
            &&& 0 <= left < extent(columns, cell_w)
            &&& 0 <= top < extent(lines, cell_h)
            &&& montage_at(previews, columns, cell_w, cell_h, left, top) == previews[index].at(x, y)
        }),
{
    let columns = layout_columns(previews.len(), rows, cols) as int;
    let lines = layout_rows(previews.len(), rows, cols) as int;
    let cell_w = cell_width(previews) as int;
    let cell_h = cell_height(previews) as int;
    let col = index % columns;
    let row = index / columns;
    lemma_cell_holds(previews, index);
    law_layout_holds_all(previews.len(), rows, cols);
    vstd::arithmetic::div_mod::lemma_fundamental_div_mod(index, columns);
    vstd::arithmetic::div_mod::lemma_div_pos_is_pos(index, columns);
    assert(row * columns + col == index) by (nonlinear_arith)
        requires
            index == columns * row + col,
    ;
    assert(row < lines) by (nonlinear_arith)
        requires
            row * columns + col == index,
            index < columns * lines,
            0 <= col,
            columns > 0,
    ;
    let left = col * (cell_w + 2) + x;
    let top = row * (cell_h + 2) + y;
    assert(0 <= left < extent(columns, cell_w)) by (nonlinear_arith)
        requires
            left == col * (cell_w + 2) + x,
            0 <= x < cell_w,
            0 <= col < columns,
            extent(columns, cell_w) == columns * cell_w + 2 * (columns - 1),
    ;
    assert(0 <= top < extent(lines, cell_h)) by (nonlinear_arith)
        requires
            top == row * (cell_h + 2) + y,
            0 <= y < cell_h,
            0 <= row < lines,
            extent(lines, cell_h) == lines * cell_h + 2 * (lines - 1),
    ;
    vstd::arithmetic::div_mod::lemma_fundamental_div_mod_converse(left, cell_w + 2, col, x);
    vstd::arithmetic::div_mod::lemma_fundamental_div_mod_converse(top, cell_h + 2, row, y);
}

/// The pixel of a preview that a display position shows when the preview is
/// stretched to the display size.
pub open spec fn scaled_at(
    preview: PreviewImage,
    x: int,
    y: int,
    display_width: int,
    display_height: int,
) -> Rgb {
    preview.at((x * preview.width) / display_width, (y * preview.height) / display_height)
}

/// A position scaled down stays inside.
proof fn lemma_scaled(position: int, size: int, display: int)
    requires
        0 <= position < display,
        size > 0,
    ensures
        0 <= position * size,
        0 <= (position * size) / display < size,
{
    assert(0 <= position * size < display * size) by (nonlinear_arith)
        requires
            0 <= position < display,
            size > 0,
    ;
    assert(display * size == size * display) by (nonlinear_arith);
    vstd::arithmetic::div_mod::lemma_div_pos_is_pos(position * size, display);
    vstd::arithmetic::div_mod::lemma_multiply_divide_lt(position * size, display, size);
}

/// Reads the pixel shown at a display position, either at the same place or with
/// the preview stretched to the display size.
pub fn sample_preview_pixel_scaled(
    preview: &PreviewImage,
    x: u32,
    y: u32,
    display_width: u32,
    display_height: u32,
    exact: bool,
) -> (pixel: Rgb)
    requires
        preview.complete(),
        exact ==> x < preview.width && y < preview.height,
        !exact ==> x < display_width && y < display_height && preview.width > 0 && preview.height
            > 0,
    ensures
        pixel == if exact {
            preview.at(x as int, y as int)
        } else {
            scaled_at(
                *preview,
                x as int,
                y as int,
                display_width as int,
                display_height as int,
            )
        },
{
    if exact {
        return preview.pixel(x, y);
    }
    proof {
        lemma_scaled(x as int, preview.width as int, display_width as int);
        lemma_scaled(y as int, preview.height as int, display_height as int);
        assert(x * preview.width <= 0xffff_ffff * 0xffff_ffff && y * preview.height <= 0xffff_ffff
            * 0xffff_ffff) by (nonlinear_arith)
            requires
                x <= 0xffff_ffff,
                y <= 0xffff_ffff,
                preview.width <= 0xffff_ffff,
                preview.height <= 0xffff_ffff,
        ;
    }
    let source_x: u32 = (x as u64 * preview.width as u64 / display_width as u64) as u32;
    let source_y: u32 = (y as u64 * preview.height as u64 / display_height as u64) as u32;
    preview.pixel(source_x, source_y)
}

/// Samples of the first `count` pixels, one behind the other.
pub open spec fn raw_first(pixels: Seq<Rgb>, count: int) -> Seq<u8>
    decreases count,
{
    if count <= 0 {
        Seq::empty()
    } else {
        raw_first(pixels, count - 1) + pixels[count - 1]@
    }
}

/// Samples of a preview as a tight RGB buffer.
pub fn preview_samples(preview: &PreviewImage) -> (raw: Vec<u8>)
    ensures
        raw@ == raw_first(preview.pixels@, preview.pixels@.len() as int),
{
    let mut raw: Vec<u8> = Vec::new();
    let mut i: usize = 0;
    while i < preview.pixels.len()
        invariant
            i <= preview.pixels@.len(),
            raw@ == raw_first(preview.pixels@, i as int),
        decreases preview.pixels@.len() - i,
    {
        let pixel = preview.pixels[i];
        raw.push(pixel[0]);
        raw.push(pixel[1]);
        raw.push(pixel[2]);
        assert(raw@ =~= raw_first(preview.pixels@, i as int) + pixel@);
        i += 1;
    }
    raw
}

/// Three times the difference of two samples, capped.
pub open spec fn tripled_difference(a: u8, b: u8) -> u8 {
    let difference = if a >= b {
        a - b
    } else {
        b - a
    };
    if 3 * difference <= 255 {
        (3 * difference) as u8
    } else {
        255
    }
}

fn triple_difference(a: u8, b: u8) -> (value: u8)
    ensures
        value == tripled_difference(a, b),
{
    let difference: u8 = if a >= b {
        a - b
    } else {
        b - a
    };
    if difference <= 85 {
        3 * difference
    } else {
        255
    }
}

/// Difference of two pixels as shown.
pub open spec fn shown_difference(a: Rgb, b: Rgb) -> Rgb {
    [
        tripled_difference(a[0], b[0]),
        tripled_difference(a[1], b[1]),
        tripled_difference(a[2], b[2]),
    ]
}

/// The smaller of two numbers.
pub open spec fn smaller(a: u32, b: u32) -> u32 {
    if a <= b {
        a
    } else {
        b
    }
}

/// Shows where two previews differ, over the area that both cover.
pub fn diff_preview(reference: &PreviewImage, target: &PreviewImage) -> (diff: Option<PreviewImage>)
    requires
        reference.complete(),
        target.complete(),
    ensures
        ({
            let width = smaller(reference.width, target.width);
            let height = smaller(reference.height, target.height);
            match diff {
                None => width == 0 || height == 0,
                Some(image) => {
                    &&& width > 0 && height > 0
                    &&& image.complete()
                    &&& image.width == width && image.height == height
                    &&& image.source_width == width && image.source_height == height
                    &&& image.source@ == "diff"@
                    &&& forall|x: int, y: int|
                        0 <= x < width && 0 <= y < height ==> #[trigger] image.at(x, y)
                            == shown_difference(reference.at(x, y), target.at(x, y))
                },
            }
        }),
{
    let width: u32 = if reference.width <= target.width {
        reference.width
    } else {
        target.width
    };
    let height: u32 = if reference.height <= target.height {
        reference.height
    } else {
        target.height
    };
    if width == 0 || height == 0 {
        return None;
    }
    let mut pixels: Vec<Rgb> = Vec::new();
    let mut y: u32 = 0;
    assert(0 * width == 0) by (nonlinear_arith);
    while y < height
        invariant
            y <= height,
            reference.complete(),
            target.complete(),
            width <= reference.width,
            width <= target.width,
            height <= reference.height,
            height <= target.height,
            pixels@.len() == y * width,
            forall|a: int, b: int|
                0 <= a < width && 0 <= b < y ==> #[trigger] pixels@[b * width + a]
                    == shown_difference(reference.at(a, b), target.at(a, b)),
        decreases height - y,
    {
        let mut x: u32 = 0;
        while x < width
            invariant
                y < height,
                x <= width,
                reference.complete(),
                target.complete(),
                width <= reference.width,
                width <= target.width,
                height <= reference.height,
                height <= target.height,
                pixels@.len() == y * width + x,
                forall|a: int, b: int|
                    0 <= a < width && 0 <= b && (b < y || b == y && a < x) ==> #[trigger] pixels@[b
                        * width + a] == shown_difference(reference.at(a, b), target.at(a, b)),
            decreases width - x,
        {
            let ghost before = pixels@;
            let a = reference.pixel(x, y);
            let b = target.pixel(x, y);
            let shown = [
                triple_difference(a[0], b[0]),
                triple_difference(a[1], b[1]),
                triple_difference(a[2], b[2]),
            ];
            assert(shown =~= shown_difference(a, b));
            pixels.push(shown);
            proof {
                assert forall|c: int, d: int|
                    0 <= c < width && 0 <= d && (d < y || d == y && c < x
                        + 1) implies #[trigger] pixels@[d * width + c] == shown_difference(
                    reference.at(c, d),
                    target.at(c, d),
                ) by {
                    lemma_before(c, d, x as int, y as int, width as int);
                    if !(d == y && c == x) {
                        assert(pixels@[d * width + c] == before[d * width + c]);
                    }
                }
            }
            x += 1;
        }
        assert((y + 1) * width == y * width + width) by (nonlinear_arith);
        y += 1;
    }
    let image = PreviewImage {
        width,
        height,
        source_width: width,
        source_height: height,
        pixels,
        source: String::from_str("diff"),
    };
    assert(image.complete()) by {
        assert(height * width == width * height) by (nonlinear_arith);
    }
    Some(image)
}

/// The pixels of a preview stand row by row.
pub proof fn law_pixels_stand_row_by_row(preview: PreviewImage, x: int, y: int)
    requires
        preview.complete(),
        0 <= x < preview.width,
        0 <= y < preview.height,
    ensures
        preview.pixels@.len() == preview.width * preview.height,
        0 <= y * preview.width + x < preview.pixels@.len(),
        preview.at(x, y) == preview.pixels@[y * preview.width + x],
{
    assert(0 <= y * preview.width + x < preview.width * preview.height) by (nonlinear_arith)
        requires
            0 <= x < preview.width,
            0 <= y < preview.height,
    ;
}

/// A cell is as wide and as high as the widest and the highest preview, and no larger.
pub proof fn law_cells_hold_the_largest(previews: Seq<PreviewImage>)
    ensures
        forall|i: int|
            0 <= i < previews.len() ==> (#[trigger] previews[i]).width <= cell_width(previews)
                && previews[i].height <= cell_height(previews),
        previews.len() > 0 ==> (exists|i: int|
            0 <= i < previews.len() && (#[trigger] previews[i]).width == cell_width(previews)) && (
        exists|i: int|
            0 <= i < previews.len() && (#[trigger] previews[i]).height == cell_height(previews)),
        previews.len() == 0 ==> cell_width(previews) == 1 && cell_height(previews) == 1,
    decreases previews.len(),
{
    if previews.len() == 1 {
        assert(previews[0].width == cell_width(previews));
        assert(previews[0].height == cell_height(previews));
    } else if previews.len() > 1 {
        let fewer = previews.drop_last();
        law_cells_hold_the_largest(fewer);
        assert(forall|i: int| 0 <= i < fewer.len() ==> #[trigger] previews[i] == fewer[i]);
        let a = choose|i: int| 0 <= i < fewer.len() && (#[trigger] fewer[i]).width == cell_width(fewer);
        let b = choose|i: int|
            0 <= i < fewer.len() && (#[trigger] fewer[i]).height == cell_height(fewer);
        let last = previews.len() - 1;
        assert(previews[a].width == cell_width(previews) || previews[last].width == cell_width(
            previews,
        ));
        assert(previews[b].height == cell_height(previews) || previews[last].height
            == cell_height(previews));
    }
}

/// Cells stand in a row with two pixels between neighbours: one cell is as long as
/// itself, and each further cell adds its length and the two pixels before it.
pub proof fn law_cells_stand_two_apart(cells: int, cell: int)
    ensures
        extent(1, cell) == cell,
        extent(cells + 1, cell) == extent(cells, cell) + 2 + cell,
{
    assert((cells + 1) * cell == cells * cell + cell) by (nonlinear_arith);
}

/// What no preview covers is black: the pixels between cells, the rest of a cell whose
/// preview is smaller, and the cells behind the last preview.
pub proof fn law_uncovered_pixels_are_black(
    previews: Seq<PreviewImage>,
    columns: int,
    column: int,
    line: int,
    dx: int,
    dy: int,
)
    requires
        columns > 0,
        0 <= column < columns,
        0 <= line,
        0 <= dx < cell_width(previews) + 2,
        0 <= dy < cell_height(previews) + 2,
        line * columns + column < previews.len() ==> dx >= previews[line * columns + column].width
            || dy >= previews[line * columns + column].height,
    ensures
        montage_at(
            previews,
            columns,
            cell_width(previews) as int,
            cell_height(previews) as int,
            column * (cell_width(previews) + 2) + dx,
            line * (cell_height(previews) + 2) + dy,
        ) == [0u8, 0u8, 0u8],
{
    vstd::arithmetic::div_mod::lemma_fundamental_div_mod_converse(
        column * (cell_width(previews) + 2) + dx,
        cell_width(previews) as int + 2,
        column,
        dx,
    );
    vstd::arithmetic::div_mod::lemma_fundamental_div_mod_converse(
        line * (cell_height(previews) + 2) + dy,
        cell_height(previews) as int + 2,
        line,
        dy,
    );
}

/// Scaling keeps proportions: the pixel shown at a place is the one whose own share of
/// the image holds that place's share of the display. At the image's own size nothing
/// moves.
pub proof fn law_scaling_keeps_proportions(
    preview: PreviewImage,
    x: int,
    y: int,
    display_width: int,
    display_height: int,
) -> (shown: (int, int))
    requires
        preview.complete(),
        0 <= x < display_width,
        0 <= y < display_height,
        preview.width > 0,
        preview.height > 0,
    ensures
        0 <= shown.0 < preview.width,
        0 <= shown.1 < preview.height,
        shown.0 * display_width <= x * preview.width < (shown.0 + 1) * display_width,
        shown.1 * display_height <= y * preview.height < (shown.1 + 1) * display_height,
        scaled_at(preview, x, y, display_width, display_height) == preview.pixels@[shown.1
            * preview.width + shown.0],
        display_width == preview.width && display_height == preview.height ==> shown == (x, y),
{
    let column = (x * preview.width) / display_width;
    let line = (y * preview.height) / display_height;
    lemma_share_of(x, preview.width as int, display_width);
    lemma_share_of(y, preview.height as int, display_height);
    (column, line)
}

proof fn lemma_share_of(x: int, size: int, display: int)
    requires
        0 <= x < display,
        size > 0,
    ensures
        0 <= (x * size) / display < size,
        ((x * size) / display) * display <= x * size < ((x * size) / display + 1) * display,
        display == size ==> (x * size) / display == x,
{
    let q = (x * size) / display;
    assert(q * display <= x * size < (q + 1) * display) by (nonlinear_arith)
        requires
            q == (x * size) / display,
            display > 0,
    ;
    assert(0 <= q < size) by (nonlinear_arith)
        requires
            q * display <= x * size < (q + 1) * display,
            0 <= x < display,
            size > 0,
    ;
    if display == size {
        assert(q == x) by (nonlinear_arith)
            requires
                q * display <= x * size < (q + 1) * display,
                display == size,
                size > 0,
        ;
    }
}

/// Differences are shown three times as large: equal values are black, up to 85 steps
/// apart the value is three times the distance, and from there on it is white. Which of
/// the two is the reference does not matter, and the colors do not mix.
pub proof fn law_differences_are_tripled(a: Rgb, b: Rgb, c: int)
    requires
        0 <= c < 3,
    ensures
        ({
            let d = a[c] - b[c];
            let shown = shown_difference(a, b)[c] as int;
            &&& d == 0 ==> shown == 0
            &&& 0 <= d <= 85 ==> shown == 3 * d
            &&& -85 <= d <= 0 ==> shown == -3 * d
            &&& d >= 85 || d <= -85 ==> shown == 255
        }),
        shown_difference(a, b)[c] == shown_difference(b, a)[c],
{
}

/// The samples of a preview are the colors of its pixels, three bytes each, in order.
pub proof fn law_samples_are_the_colors(pixels: Seq<Rgb>, k: int, c: int)
    requires
        0 <= k < pixels.len(),
        0 <= c < 3,
    ensures
        raw_first(pixels, pixels.len() as int).len() == 3 * pixels.len(),
        raw_first(pixels, pixels.len() as int)[3 * k + c] == pixels[k][c],
{
    lemma_samples(pixels, pixels.len() as int, k, c);
}

proof fn lemma_samples(pixels: Seq<Rgb>, count: int, k: int, c: int)
    requires
        0 <= k < count <= pixels.len(),
        0 <= c < 3,
    ensures
        raw_first(pixels, count).len() == 3 * count,
        raw_first(pixels, count)[3 * k + c] == pixels[k][c],
    decreases count,
{
    if count == 1 {
        assert(raw_first(pixels, 0).len() == 0);
    } else if k < count - 1 {
        lemma_samples(pixels, count - 1, k, c);
    } else {
        lemma_samples(pixels, count - 1, 0, 0);
    }
}

/// A montage can be addressed exactly when both sides and the number of its pixels fit 32
/// bits.
pub proof fn law_montages_that_fit(previews: Seq<PreviewImage>, columns: int, rows: int)
    ensures
        ({
            let width = columns * cell_width(previews) + 2 * (columns - 1);
            let height = rows * cell_height(previews) + 2 * (rows - 1);
            montage_fits(previews, columns, rows) <==> width <= 0xffff_ffff && height
                <= 0xffff_ffff && width * height <= 0xffff_ffff
        }),
{
}

} // verus!
