//! Layout, sizes, and montage of terminal previews.

use crate::cli::remote::InputSpec;
use crate::cli::CliResult;
use crate::frame::ceil_div;
use crate::strings::{
    law_reading_undoes_writing, law_split_first_cuts_once, law_split_first_finds_the_token,
    lemma_decimal_digits, number_in, parse_number, split_first, split_once,
};
use crate::text::decimal_text;
use vstd::prelude::*;

verus! {

/// Size of a preview in pixels.
#[derive(Debug, Clone, Copy, PartialEq, Eq, Structural)]
pub struct PreviewSize {
    /// Width.
    pub width: u32,
    /// Height.
    pub height: u32,
}

/// Both sides of a size text.
pub open spec fn size_sides(input: Seq<char>) -> Option<(Seq<char>, Seq<char>)> {
    if split_first(input, "x"@) is Some {
        split_first(input, "x"@)
    } else {
        split_first(input, "X"@)
    }
}

/// The size that a text such as `120x60` stands for, or the message why it is none.
pub open spec fn size_in(input: Seq<char>) -> core::result::Result<PreviewSize, Seq<char>> {
    match size_sides(input) {
        None => Err("expected WIDTHxHEIGHT, for example 120x60"@),
        Some((width, height)) => match number_in(width, u32::MAX as nat) {
            None => Err("width must be a positive integer"@),
            Some(width) => match number_in(height, u32::MAX as nat) {
                None => Err("height must be a positive integer"@),
                Some(height) => if width == 0 || height == 0 {
                    Err("width and height must be non-zero"@)
                } else {
                    Ok(PreviewSize { width: width as u32, height: height as u32 })
                },
            },
        },
    }
}

/// Reads a size such as `120x60`.
pub fn parse_preview_size(input: &str) -> (result: CliResult<PreviewSize>)
    ensures
        crate::cli::told(result) == size_in(input@),
{
    let sides = match split_once(input, "x") {
        Some(sides) => Some(sides),
        None => split_once(input, "X"),
    };
    let (left, right) = match sides {
        Some(sides) => sides,
        None => return Err(String::from_str("expected WIDTHxHEIGHT, for example 120x60")),
    };
    let width: u64 = match parse_number(left, u32::MAX as u64) {
        Some(width) => width,
        None => return Err(String::from_str("width must be a positive integer")),
    };
    let height: u64 = match parse_number(right, u32::MAX as u64) {
        Some(height) => height,
        None => return Err(String::from_str("height must be a positive integer")),
    };
    if width == 0 || height == 0 {
        return Err(String::from_str("width and height must be non-zero"));
    }
    Ok(PreviewSize { width: width as u32, height: height as u32 })
}

/// The larger of two numbers.
pub open spec fn larger(a: nat, b: nat) -> nat {
    if a >= b {
        a
    } else {
        b
    }
}

/// Whether `root` is the square root of `value`, rounded up.
pub open spec fn is_root_up(root: nat, value: nat) -> bool {
    &&& root * root >= value
    &&& root > 0 ==> (root - 1) * (root - 1) < value
}

/// There is one square root rounded up.
proof fn lemma_root_unique(a: nat, b: nat, value: nat)
    requires
        is_root_up(a, value),
        is_root_up(b, value),
    ensures
        a == b,
{
    if a < b {
        assert(a * a <= (b - 1) * (b - 1)) by (nonlinear_arith)
            requires
                a <= b - 1,
        ;
    } else if b < a {
        assert(b * b <= (a - 1) * (a - 1)) by (nonlinear_arith)
            requires
                b <= a - 1,
        ;
    }
}

/// Square root of a number, rounded up.
pub open spec fn root_up(value: nat) -> nat {
    choose|root: nat| is_root_up(root, value)
}

fn ceil_root(value: usize) -> (root: usize)
    ensures
        is_root_up(root as nat, value as nat),
        root == root_up(value as nat),
{
    let mut root: u64 = 0;
    let target: u128 = value as u128;
    while (root as u128) * (root as u128) < target
        invariant
            root <= 0x1_0000_0000,
            root <= value,
            target == value,
            target <= u64::MAX,
            root > 0 ==> (root - 1) * (root - 1) < value,
            (root as u128) * (root as u128) <= u128::MAX,
            root * root <= u128::MAX,
        decreases 0x1_0000_0001 - root,
    {
        proof {
            if root >= 0x1_0000_0000 {
                assert(root * root >= 0x1_0000_0000_0000_0000) by (nonlinear_arith)
                    requires
                        root >= 0x1_0000_0000,
                ;
            }
            if root >= value {
                if value >= 1 {
                    assert(root * root >= value) by (nonlinear_arith)
                        requires
                            root >= value,
                            value >= 1,
                    ;
                }
            }
            assert((root + 1) * (root + 1) <= u128::MAX) by (nonlinear_arith)
                requires
                    root < 0x1_0000_0000,
            ;
        }
        root += 1;
    }
    proof {
        assert(is_root_up(root as nat, value as nat));
        lemma_root_unique(root as nat, root_up(value as nat), value as nat);
    }
    root as usize
}

/// A quotient rounded up.
fn div_up(value: usize, by: usize) -> (quotient: usize)
    requires
        by > 0,
    ensures
        quotient == ceil_div(value as nat, by as nat),
        quotient <= value,
{
    let quotient: usize = value / by;
    proof {
        vstd::arithmetic::div_mod::lemma_fundamental_div_mod(value as int, by as int);
        assert(quotient * by <= value && quotient <= value) by (nonlinear_arith)
            requires
                quotient == value as int / by as int,
                by > 0,
                value == by * (value as int / by as int) + value as int % by as int,
                0 <= value as int % by as int,
        ;
        lemma_round_up(value as nat, by as nat);
    }
    if value % by == 0 {
        quotient
    } else {
        proof {
            assert(quotient < value) by (nonlinear_arith)
                requires
                    quotient * by <= value,
                    by > 1 || quotient * by < value,
                    value > 0,
                    by > 0,
            ;
        }
        quotient + 1
    }
}

/// Rounding up adds one exactly when there is a remainder.
proof fn lemma_round_up(value: nat, by: nat)
    requires
        by > 0,
    ensures
        ceil_div(value, by) == value as int / by as int + if value as int % by as int == 0 {
            0int
        } else {
            1int
        },
        ceil_div(value, by) * by >= value,
{
    let q = value as int / by as int;
    let r = value as int % by as int;
    vstd::arithmetic::div_mod::lemma_fundamental_div_mod(value as int, by as int);
    assert(value == by * q + r);
    let top = value + by - 1;
    if r == 0 {
        assert(top == q * by + (by - 1)) by (nonlinear_arith)
            requires
                value == by * q + r,
                r == 0,
                top == value + by - 1,
        ;
        vstd::arithmetic::div_mod::lemma_fundamental_div_mod_converse(top, by as int, q, by - 1);
    } else {
        assert(top == (q + 1) * by + (r - 1)) by (nonlinear_arith)
            requires
                value == by * q + r,
                top == value + by - 1,
        ;
        vstd::arithmetic::div_mod::lemma_fundamental_div_mod_converse(
            top,
            by as int,
            q + 1,
            r - 1,
        );
    }
    assert(q >= 0) by {
        vstd::arithmetic::div_mod::lemma_div_pos_is_pos(value as int, by as int);
    }
    assert(ceil_div(value, by) * by >= value) by (nonlinear_arith)
        requires
            value == by * q + r,
            0 <= r < by,
            ceil_div(value, by) == q + if r == 0 {
                0int
            } else {
                1int
            },
    ;
}

/// Columns of a layout: the given ones, else enough for the given rows, else the
/// side of the smallest square.
pub open spec fn layout_columns(count: nat, rows: Option<usize>, cols: Option<usize>) -> nat {
    let shown = larger(count, 1);
    larger(
        match (cols, rows) {
            (Some(cols), _) => cols as nat,
            (None, Some(rows)) => ceil_div(shown, larger(rows as nat, 1)),
            (None, None) => root_up(shown),
        },
        1,
    )
}

/// Rows of a layout: the given ones, but enough for all.
pub open spec fn layout_rows(count: nat, rows: Option<usize>, cols: Option<usize>) -> nat {
    let needed = ceil_div(larger(count, 1), layout_columns(count, rows, cols));
    larger(
        match rows {
            Some(rows) => larger(rows as nat, needed),
            None => needed,
        },
        1,
    )
}

/// Columns and rows for a number of previews.
pub fn preview_layout(count: usize, rows: Option<usize>, cols: Option<usize>) -> (layout: (
    usize,
    usize,
))
    ensures
        layout.0 == layout_columns(count as nat, rows, cols),
        layout.1 == layout_rows(count as nat, rows, cols),
        layout.0 >= 1,
        layout.1 >= 1,
{
    let shown: usize = if count >= 1 {
        count
    } else {
        1
    };
    let wanted: usize = match cols {
        Some(cols) => cols,
        None => match rows {
            Some(rows) => div_up(
                shown,
                if rows >= 1 {
                    rows
                } else {
                    1
                },
            ),
            None => ceil_root(shown),
        },
    };
    let columns: usize = if wanted >= 1 {
        wanted
    } else {
        1
    };
    let needed: usize = div_up(shown, columns);
    let most: usize = match rows {
        Some(rows) => if rows >= needed {
            rows
        } else {
            needed
        },
        None => needed,
    };
    let used: usize = if most >= 1 {
        most
    } else {
        1
    };
    (columns, used)
}

/// A layout has a place for every preview.
pub proof fn law_layout_holds_all(count: nat, rows: Option<usize>, cols: Option<usize>)
    ensures
        layout_columns(count, rows, cols) * layout_rows(count, rows, cols) >= count,
{
    let columns = layout_columns(count, rows, cols);
    let shown = larger(count, 1);
    lemma_round_up(shown, columns);
    let needed = ceil_div(shown, columns);
    assert(columns * layout_rows(count, rows, cols) >= needed * columns) by (nonlinear_arith)
        requires
            layout_rows(count, rows, cols) >= needed,
            columns >= 0,
    ;
}

/// Terminal display on the command line.
#[derive(Debug, Clone, Copy, PartialEq, Eq, Structural)]
pub enum PreviewDisplayArg {
    /// Chosen from the terminal.
    Auto,
    /// Kitty graphics.
    Kitty,
    /// Sixel graphics.
    Sixel,
    /// iTerm2 images.
    Iterm2,
    /// Colored half blocks.
    Ansi,
    /// Nothing is shown.
    Hidden,
}

/// Tells whether a display works in real pixels. `graphics` tells whether the
/// terminal offers one of the graphics protocols.
pub fn native_pixels(display: PreviewDisplayArg, graphics: bool) -> (native: bool)
    ensures
        native == match display {
            PreviewDisplayArg::Kitty | PreviewDisplayArg::Sixel | PreviewDisplayArg::Iterm2 => true,
            PreviewDisplayArg::Auto => graphics,
            PreviewDisplayArg::Ansi | PreviewDisplayArg::Hidden => false,
        },
{
    match display {
        PreviewDisplayArg::Kitty | PreviewDisplayArg::Sixel | PreviewDisplayArg::Iterm2 => true,
        PreviewDisplayArg::Auto => graphics,
        PreviewDisplayArg::Ansi | PreviewDisplayArg::Hidden => false,
    }
}

/// A number capped at 32 bits.
pub open spec fn capped(value: nat) -> u32 {
    if value <= u32::MAX {
        value as u32
    } else {
        u32::MAX
    }
}

/// The difference of two numbers, or zero if the second is larger.
pub open spec fn less(a: int, b: int) -> int {
    if a >= b {
        a - b
    } else {
        0
    }
}

/// Cells of each of `parts` previews side by side in a terminal side of `total` cells,
/// with `gap` cells between two of them; `missing` if there is no preview.
pub open spec fn share(total: int, gap: int, parts: int, missing: int) -> int {
    if parts == 0 {
        missing
    } else {
        less(total, gap * (parts - 1)) / parts
    }
}

/// Size of one preview that fills a terminal of the given size in cells; at least
/// 16 columns wide and 8 rows high.
pub open spec fn cell_size(
    columns: int,
    rows: int,
    native: bool,
    terminal_width: int,
    terminal_height: int,
) -> PreviewSize {
    let width = larger(share(terminal_width, 2, columns, 80) as nat, 16);
    let height = larger(share(terminal_height, 1, rows, 24) as nat, 8);
    if native {
        PreviewSize { width: capped(width * 10), height: capped(height * 20) }
    } else {
        PreviewSize { width: capped(width), height: capped(height * 2) }
    }
}

fn cells_each(total: u32, gap: u64, parts: usize, missing: u32) -> (cells: u32)
    requires
        gap <= 2,
    ensures
        cells == share(total as int, gap as int, parts as int, missing as int),
{
    if parts == 0 {
        return missing;
    }
    let others: u64 = parts as u64 - 1;
    let wide: u64 = total as u64;
    if others > wide {
        proof {
            let left = less(total as int, gap as int * others as int);
            assert(0 <= left <= total);
            assert(left / (parts as int) == 0) by (nonlinear_arith)
                requires
                    0 <= left < parts as int,
            ;
        }
        return 0;
    }
    assert(gap * others <= 2 * others) by (nonlinear_arith)
        requires
            gap <= 2,
            others >= 0,
    ;
    let gaps: u64 = gap * others;
    let left: u64 = if wide >= gaps {
        wide - gaps
    } else {
        0
    };
    let each: u64 = left / (parts as u64);
    assert(each <= left) by (nonlinear_arith)
        requires
            each == left / (parts as u64),
            parts > 0,
    ;
    each as u32
}

/// Size of one preview when none is asked for.
pub fn default_preview_size(
    columns: usize,
    rows: usize,
    native: bool,
    terminal_width: u32,
    terminal_height: u32,
) -> (size: PreviewSize)
    ensures
        size == cell_size(
            columns as int,
            rows as int,
            native,
            terminal_width as int,
            terminal_height as int,
        ),
{
    let column: u32 = cells_each(terminal_width, 2, columns, 80);
    let cell_width: u32 = if column >= 16 {
        column
    } else {
        16
    };
    let line: u32 = cells_each(terminal_height, 1, rows, 24);
    let cell_height: u32 = if line >= 8 {
        line
    } else {
        8
    };
    let (x_scale, y_scale): (u64, u64) = if native {
        (10, 20)
    } else {
        (1, 2)
    };
    let wide: u64 = cell_width as u64 * x_scale;
    let high: u64 = cell_height as u64 * y_scale;
    PreviewSize {
        width: if wide <= u32::MAX as u64 {
            wide as u32
        } else {
            u32::MAX
        },
        height: if high <= u32::MAX as u64 {
            high as u32
        } else {
            u32::MAX
        },
    }
}

/// Size of each preview: unlimited for actual size, else the given size, else
/// width and height with the default for a missing one.
pub fn requested_size(
    actual_size: bool,
    size: Option<PreviewSize>,
    width: Option<u32>,
    height: Option<u32>,
    default_size: PreviewSize,
) -> (chosen: PreviewSize)
    ensures
        chosen == if actual_size {
            PreviewSize { width: u32::MAX, height: u32::MAX }
        } else {
            match size {
                Some(size) => size,
                None => PreviewSize {
                    width: match width {
                        Some(width) => width,
                        None => default_size.width,
                    },
                    height: match height {
                        Some(height) => height,
                        None => default_size.height,
                    },
                },
            }
        },
{
    if actual_size {
        return PreviewSize { width: u32::MAX, height: u32::MAX };
    }
    match size {
        Some(size) => size,
        None => PreviewSize {
            width: match width {
                Some(width) => width,
                None => default_size.width,
            },
            height: match height {
                Some(height) => height,
                None => default_size.height,
            },
        },
    }
}

/// Where a preview comes from.
#[derive(Debug, Clone, Copy, PartialEq, Eq, Structural)]
pub enum PreviewSource {
    /// A local image, or the thumbnail of a local video.
    LocalFile,
    /// A frame of a local video.
    LocalFrame(u64),
    /// An image on another host.
    RemoteImage,
    /// A frame of a video on another host.
    RemoteFrame(u64),
}

/// Where the preview of an input comes from, or the message why there is none.
pub open spec fn asked_source(input: InputSpec, video: bool, frame: Option<u64>) -> core::result::Result<
    PreviewSource,
    Seq<char>,
> {
    match input {
        InputSpec::Stdin => Err("preview stdin input is not supported yet"@),
        InputSpec::Local(_) => match frame {
            None => Ok(PreviewSource::LocalFile),
            Some(index) => if video {
                Ok(PreviewSource::LocalFrame(index))
            } else {
                Err("--video-frame can only be used with video inputs"@)
            },
        },
        InputSpec::Ssh(_) => match frame {
            None => if video {
                Err(
                    "remote video preview requires --video-frame. Use --video-frame N to extract a frame over SSH."@,
                )
            } else {
                Ok(PreviewSource::RemoteImage)
            },
            Some(index) => if video {
                Ok(PreviewSource::RemoteFrame(index))
            } else {
                Err("--video-frame can only be used with video inputs"@)
            },
        },
    }
}

/// Decides where the preview of an input comes from.
pub fn preview_source(input: &InputSpec, video: bool, frame: Option<u64>) -> (result: CliResult<
    PreviewSource,
>)
    ensures
        crate::cli::told(result) == asked_source(*input, video, frame),
{
    match input {
        InputSpec::Stdin => Err(String::from_str("preview stdin input is not supported yet")),
        InputSpec::Local(_) => match frame {
            None => Ok(PreviewSource::LocalFile),
            Some(index) => if video {
                Ok(PreviewSource::LocalFrame(index))
            } else {
                Err(String::from_str("--video-frame can only be used with video inputs"))
            },
        },
        InputSpec::Ssh(_) => match frame {
            None => if video {
                Err(
                    String::from_str(
                        "remote video preview requires --video-frame. Use --video-frame N to extract a frame over SSH.",
                    ),
                )
            } else {
                Ok(PreviewSource::RemoteImage)
            },
            Some(index) => if video {
                Ok(PreviewSource::RemoteFrame(index))
            } else {
                Err(String::from_str("--video-frame can only be used with video inputs"))
            },
        },
    }
}

/// Refuses a preview without inputs.
pub fn check_preview_inputs(count: usize) -> (result: CliResult<()>)
    ensures
        match result {
            Ok(_) => count > 0,
            Err(message) => count == 0 && message@ == "at least one input path is required"@,
        },
{
    if count == 0 {
        return Err(String::from_str("at least one input path is required"));
    }
    Ok(())
}

/// Reading undoes writing: a size written as width, `x` or `X`, and height is read back;
/// with a zero in it, it is refused.
pub proof fn law_sizes_are_read_back(width: nat, height: nat, mark: char)
    requires
        mark == 'x' || mark == 'X',
        width <= u32::MAX,
        height <= u32::MAX,
    ensures
        ({
            let text = decimal_text(width).push(mark) + decimal_text(height);
            if width > 0 && height > 0 {
                size_in(text) == Ok::<PreviewSize, Seq<char>>(
                    PreviewSize { width: width as u32, height: height as u32 },
                )
            } else {
                size_in(text) is Err
            }
        }),
{
    reveal_strlit("x");
    reveal_strlit("X");
    let left = decimal_text(width);
    let right = decimal_text(height);
    let text = left.push(mark) + right;
    lemma_decimal_digits(width);
    lemma_decimal_digits(height);
    law_reading_undoes_writing(width, u32::MAX as nat);
    law_reading_undoes_writing(height, u32::MAX as nat);
    assert("x"@ =~= seq!['x']);
    assert("X"@ =~= seq!['X']);
    assert(text =~= left + seq![mark] + right);
    assert forall|j: int| 0 <= j < text.len() && j != left.len() implies '0' <= #[trigger] text[j]
        && text[j] <= '9' by {
        if j < left.len() {
            assert(text[j] == left[j]);
        } else {
            assert(text[j] == right[j - left.len() - 1]);
        }
    }
    assert forall|j: int| 0 <= j < left.len() implies #[trigger] text.subrange(
        j,
        j + seq![mark].len(),
    ) != seq![mark] by {
        assert(text.subrange(j, j + 1)[0] == text[j]);
        assert(seq![mark][0] == mark);
    }
    law_split_first_finds_the_token(left, seq![mark], right);
    if mark == 'X' {
        law_split_first_cuts_once(text, "x"@);
        if let Some((before, behind)) = split_first(text, "x"@) {
            assert(text[before.len() as int] == "x"@[0]);
        }
    }
}

/// A text without `x` and `X` is no size.
pub proof fn law_sizes_need_a_mark(input: Seq<char>)
    requires
        !input.contains('x') && !input.contains('X'),
    ensures
        size_in(input) is Err,
{
    reveal_strlit("x");
    reveal_strlit("X");
    law_split_first_cuts_once(input, "x"@);
    law_split_first_cuts_once(input, "X"@);
    if let Some((before, behind)) = split_first(input, "x"@) {
        assert(input[before.len() as int] == "x"@[0]);
    }
    if let Some((before, behind)) = split_first(input, "X"@) {
        assert(input[before.len() as int] == "X"@[0]);
    }
}

/// There is a square root rounded up.
proof fn lemma_root_exists(value: nat) -> (root: nat)
    ensures
        is_root_up(root, value),
    decreases value,
{
    if value == 0 {
        0
    } else {
        let root = lemma_root_exists((value - 1) as nat);
        if root * root >= value {
            root
        } else {
            let next = root + 1;
            assert(next * next >= value && (next - 1) * (next - 1) < value) by (nonlinear_arith)
                requires
                    next == root + 1,
                    root * root == value - 1,
            ;
            next
        }
    }
}

/// A layout is as asked for and has no row too many: given columns are taken, given rows
/// get the fewest columns that hold all previews, without either the columns are the
/// square root rounded up, and where rows are not given the last row is used.
pub proof fn law_layout_is_tight(count: nat, rows: Option<usize>, cols: Option<usize>)
    ensures
        ({
            let columns = layout_columns(count, rows, cols);
            let lines = layout_rows(count, rows, cols);
            let shown = if count == 0 {
                1
            } else {
                count
            };
            &&& columns >= 1 && lines >= 1
            &&& cols matches Some(asked) ==> columns == if asked == 0 {
                1
            } else {
                asked as nat
            }
            &&& rows matches Some(asked) ==> lines >= asked
            &&& rows is None ==> columns * (lines - 1) < shown
            &&& rows matches Some(asked) ==> lines == asked || columns * (lines - 1) < shown
            &&& cols is None ==> (rows matches Some(asked) ==> {
                &&& asked > 0 ==> columns * asked >= shown && (columns - 1) * asked < shown
                &&& asked == 0 ==> columns == shown
            })
            &&& rows is None && cols is None ==> columns * columns >= shown && (columns - 1) * (
            columns - 1) < shown
        }),
{
    let columns = layout_columns(count, rows, cols);
    let shown = larger(count, 1);
    let needed = ceil_div(shown, columns);
    let root = lemma_root_exists(shown);
    assert(is_root_up(root_up(shown), shown));
    assert(root_up(shown) >= 1) by {
        if root_up(shown) == 0 {
            assert(0nat * 0nat == 0) by (nonlinear_arith);
        }
    }
    assert(columns * (needed - 1) < shown && needed >= 1) by (nonlinear_arith)
        requires
            needed == (shown + columns - 1) / columns as int,
            columns >= 1,
            shown >= 1,
    ;
    if let Some(asked) = rows {
        let held = larger(asked as nat, 1);
        let fewest = ceil_div(shown, held);
        assert(fewest >= 1 && fewest * held >= shown && (fewest - 1) * held < shown)
            by (nonlinear_arith)
            requires
                fewest == (shown + held - 1) / held as int,
                held >= 1,
                shown >= 1,
        ;
        if asked == 0 {
            assert(fewest * 1 == fewest);
        }
    }
}

/// Cells share the terminal: side by side with two columns between neighbours they fit
/// its width, one above the other with one line between neighbours its height, and one
/// more column or line for each would not, unless the smallest size of 16 by 8 is kept. A
/// cell is ten by twenty pixels where the terminal shows pixels, else one by two.
pub proof fn law_cells_share_the_terminal(
    columns: int,
    rows: int,
    native: bool,
    terminal_width: int,
    terminal_height: int,
)
    requires
        columns > 0,
        rows > 0,
        0 <= terminal_width <= u32::MAX,
        0 <= terminal_height <= u32::MAX,
    ensures
        ({
            let size = cell_size(columns, rows, native, terminal_width, terminal_height);
            let w = if native {
                10
            } else {
                1
            };
            let h = if native {
                20
            } else {
                2
            };
            &&& size.width < u32::MAX ==> {
                let cell = size.width as int / w;
                &&& size.width == cell * w
                &&& cell >= 16
                &&& cell > 16 ==> columns * cell + 2 * (columns - 1) <= terminal_width
                &&& columns * (cell + 1) + 2 * (columns - 1) > terminal_width
            }
            &&& size.height < u32::MAX ==> {
                let cell = size.height as int / h;
                &&& size.height == cell * h
                &&& cell >= 8
                &&& cell > 8 ==> rows * cell + (rows - 1) <= terminal_height
                &&& rows * (cell + 1) + (rows - 1) > terminal_height
            }
        }),
{
    let width = share(terminal_width, 2, columns, 80);
    let height = share(terminal_height, 1, rows, 24);
    lemma_share(terminal_width, 2, columns, 80);
    lemma_share(terminal_height, 1, rows, 24);
    let cell = larger(width as nat, 16) as int;
    let line = larger(height as nat, 8) as int;
    assert(columns * (cell + 1) >= columns * (width + 1)) by (nonlinear_arith)
        requires
            cell >= width,
            columns > 0,
    ;
    assert(rows * (line + 1) >= rows * (height + 1)) by (nonlinear_arith)
        requires
            line >= height,
            rows > 0,
    ;
    assert(cell == 16 || cell == width);
    assert(line == 8 || line == height);
}

proof fn lemma_share(total: int, gap: int, parts: int, missing: int)
    requires
        total >= 0,
        gap >= 0,
        parts > 0,
    ensures
        share(total, gap, parts, missing) >= 0,
        share(total, gap, parts, missing) > 0 ==> parts * share(total, gap, parts, missing) + gap
            * (parts - 1) <= total,
        parts * (share(total, gap, parts, missing) + 1) + gap * (parts - 1) > total,
{
    let rest = less(total, gap * (parts - 1));
    let part = rest / parts;
    assert(0 <= part && parts * part <= rest && parts * (part + 1) > rest) by (nonlinear_arith)
        requires
            part == rest / parts,
            parts > 0,
            rest >= 0,
    ;
    if part > 0 {
        assert(rest > 0) by (nonlinear_arith)
            requires
                parts * part <= rest,
                part > 0,
                parts > 0,
        ;
    }
}

/// A preview shows what its input is: frames are taken of videos alone and by the index
/// asked for, standard input is not previewed, and a remote video needs an index.
pub proof fn law_preview_sources(input: InputSpec, video: bool, frame: Option<u64>)
    ensures
        asked_source(input, video, frame) is Ok <==> {
            &&& !(input is Stdin)
            &&& frame is Some ==> video
            &&& frame is None ==> !(video && input is Ssh)
        },
        asked_source(input, video, frame) matches Ok(source) ==> (match frame {
            None => source is LocalFile || source is RemoteImage,
            Some(index) => source == PreviewSource::LocalFrame(index) || source
                == PreviewSource::RemoteFrame(index),
        }) && (input is Local <==> source is LocalFile || source is LocalFrame),
{
}

/// Without a layout to share with, a cell is as large as a plain terminal: eighty columns
/// by twenty-four lines.
pub proof fn law_cells_without_a_layout(
    columns: int,
    rows: int,
    terminal_width: int,
    terminal_height: int,
)
    ensures
        cell_size(0, rows, false, terminal_width, terminal_height).width == 80,
        cell_size(0, rows, true, terminal_width, terminal_height).width == 800,
        cell_size(columns, 0, false, terminal_width, terminal_height).height == 48,
        cell_size(columns, 0, true, terminal_width, terminal_height).height == 480,
{
}

} // verus!
