//! Bit-packed grayscale and mask adapters.

use crate::error::{outcome, Error, ErrorView, Result};
use crate::frame::{ceil_div, packed_model, zero_size_error, FrameOwned, PixelFormat};
use crate::text::{concat4, decimal, decimal_text};
use vstd::arithmetic::div_mod::lemma_fundamental_div_mod_converse;
use vstd::arithmetic::power2::{lemma2_to64, pow2};
use vstd::bits::{lemma_u8_low_bits_mask_is_mod, lemma_u8_shr_is_div, low_bits_mask};
use vstd::prelude::*;

verus! {

/// Bit order inside each packed byte.
#[derive(Debug, Clone, Copy, PartialEq, Eq, Structural)]
pub enum BitOrder {
    /// Pixel 0 is stored in the least-significant bits.
    LsbFirst,
    /// Pixel 0 is stored in the most-significant bits.
    MsbFirst,
}

/// Supported bit-packed grayscale layouts.
#[derive(Debug, Clone, Copy, PartialEq, Eq, Structural)]
pub struct BitPackedGrayFormat {
    /// Bits per pixel. Supported values are 1, 2, and 4.
    pub bits_per_pixel: u8,
    /// Bit order inside each byte.
    pub bit_order: BitOrder,
}

impl BitPackedGrayFormat {
    /// Whether the number of bits is one of the supported ones.
    pub open spec fn supported(self) -> bool {
        self.bits_per_pixel == 1 || self.bits_per_pixel == 2 || self.bits_per_pixel == 4
    }

    /// Creates a packed grayscale format.
    pub fn new(bits_per_pixel: u8, bit_order: BitOrder) -> (result: Result<Self>)
        ensures
            outcome(result) == {
                let format = BitPackedGrayFormat { bits_per_pixel, bit_order };
                if format.supported() {
                    Ok::<BitPackedGrayFormat, ErrorView>(format)
                } else {
                    Err(
                        ErrorView::UnsupportedInput(
                            "bit-packed gray supports only 1, 2, or 4 bits per pixel"@,
                        ),
                    )
                }
            },
    {
        if !matches!(bits_per_pixel, 1 | 2 | 4) {
            return Err(
                Error::unsupported("bit-packed gray supports only 1, 2, or 4 bits per pixel"),
            );
        }
        Ok(Self { bits_per_pixel, bit_order })
    }

    /// Bytes of a row without padding.
    pub open spec fn row_bytes(self, width: nat) -> nat {
        ceil_div(width * self.bits_per_pixel as nat, 8)
    }

    /// Position of a pixel's lowest bit inside its byte.
    pub open spec fn shift(self, x: nat) -> nat {
        let low = (x * self.bits_per_pixel as nat) % 8;
        match self.bit_order {
            BitOrder::LsbFirst => low,
            BitOrder::MsbFirst => (8 - self.bits_per_pixel - low) as nat,
        }
    }

    /// Gray level of a pixel in a packed row, scaled to the range of a byte.
    pub open spec fn level(self, row: Seq<u8>, x: nat) -> nat {
        let byte = row[((x * self.bits_per_pixel as nat) / 8) as int] as nat;
        let value = (byte / pow2(self.shift(x))) % pow2(self.bits_per_pixel as nat);
        ((value * 255) / (pow2(self.bits_per_pixel as nat) - 1) as nat) as nat
    }

    /// Decoded pixels of an image, row by row.
    pub open spec fn levels(self, data: Seq<u8>, width: nat, height: nat, stride: nat) -> Seq<u8> {
        Seq::new(
            width * height,
            |k: int|
                self.level(data.skip((k / width as int) * stride), (k % width as int) as nat) as u8,
        )
    }
}

/// Bytes from the first to the last byte that the rows use.
pub open spec fn packed_input_len(row_bytes: nat, height: nat, stride: nat) -> nat {
    (stride * (if height == 0 {
        0
    } else {
        (height - 1) as nat
    }) + row_bytes) as nat
}

fn packed_row_bytes(width: usize, bits_per_pixel: u8) -> (result: Result<usize>)
    ensures
        outcome(result) == if width * bits_per_pixel + 7 <= usize::MAX {
            Ok::<usize, ErrorView>(ceil_div(width as nat * bits_per_pixel as nat, 8) as usize)
        } else {
            Err(ErrorView::InvalidFrame("packed row size overflows usize"@))
        },
{
    match width.checked_mul(bits_per_pixel as usize) {
        Some(bits) => match bits.checked_add(7) {
            Some(bits) => Ok(bits / 8),
            None => Err(Error::invalid_frame("packed row size overflows usize")),
        },
        None => Err(Error::invalid_frame("packed row size overflows usize")),
    }
}

/// Decodes one pixel of a packed row.
fn decode_pixel(row: &[u8], x: usize, format: BitPackedGrayFormat) -> (level: u8)
    requires
        format.supported(),
        x * format.bits_per_pixel + 7 <= usize::MAX,
        (x * format.bits_per_pixel) / 8 < row@.len(),
    ensures
        level == format.level(row@, x as nat),
        format.level(row@, x as nat) <= 255,
{
    let bits: usize = format.bits_per_pixel as usize;
    let bit_index: usize = x * bits;
    let byte: u8 = row[bit_index / 8];
    assert(bit_index as nat == x as nat * format.bits_per_pixel as nat);
    proof {
        assert((x * bits) % 8 + bits <= 8) by {
            if bits == 1 {
                assert(x * bits == x) by (nonlinear_arith)
                    requires
                        bits == 1,
                ;
            } else if bits == 2 {
                assert(x * bits == 2 * x) by (nonlinear_arith)
                    requires
                        bits == 2,
                ;
            } else {
                assert(x * bits == 4 * x) by (nonlinear_arith)
                    requires
                        bits == 4,
                ;
            }
        }
    }
    let shift: usize = match format.bit_order {
        BitOrder::LsbFirst => bit_index % 8,
        BitOrder::MsbFirst => 8 - bits - (bit_index % 8),
    };
    let mask: u8 = match format.bits_per_pixel {
        1 => 1,
        2 => 3,
        _ => 15,
    };
    let shifted: u8 = byte >> shift;
    let value: u8 = shifted & mask;
    proof {
        lemma2_to64();
        let narrow = shift as u8;
        assert(byte >> narrow == byte >> shift);
        lemma_u8_shr_is_div(byte, narrow);
        lemma_u8_low_bits_mask_is_mod(shifted, format.bits_per_pixel as nat);
        assert(low_bits_mask(format.bits_per_pixel as nat) == mask);
        assert(value as nat == (byte as nat / pow2(shift as nat)) % pow2(
            format.bits_per_pixel as nat,
        ));
        assert(value <= mask);
        assert((value as nat * 255) / mask as nat <= 255) by (nonlinear_arith)
            requires
                value <= mask,
                mask > 0,
        ;
    }
    let level: u16 = (value as u16 * 255) / mask as u16;
    level as u8
}

/// Error for a stride that is shorter than a packed row.
pub open spec fn packed_stride_error(stride: nat, row_bytes: nat) -> ErrorView {
    ErrorView::InvalidFrame(
        "raw stride "@ + decimal_text(stride) + " is smaller than tight packed row size "@
            + decimal_text(row_bytes),
    )
}

/// Error for input that ends before its last row does.
pub open spec fn packed_length_error(required: nat, available: nat) -> ErrorView {
    ErrorView::InvalidFrame(
        "bit-packed input is too short: need "@ + decimal_text(required) + " bytes, got "@
            + decimal_text(available),
    )
}

/// What keeps bit-packed rows from being decoded, if anything.
pub open spec fn packed_fault(
    available: nat,
    width: u32,
    height: u32,
    format: BitPackedGrayFormat,
    input_stride: Option<usize>,
) -> Option<ErrorView> {
    let row_bytes = format.row_bytes(width as nat);
    let stride = match input_stride {
        Some(stride) => stride as nat,
        None => row_bytes,
    };
    let required = packed_input_len(row_bytes, height as nat, stride);
    if width * format.bits_per_pixel + 7 > usize::MAX {
        Some(ErrorView::InvalidFrame("packed row size overflows usize"@))
    } else if stride < row_bytes {
        Some(packed_stride_error(stride, row_bytes))
    } else if required > usize::MAX {
        Some(ErrorView::InvalidFrame("bit-packed input length overflows usize"@))
    } else if available < required {
        Some(packed_length_error(required, available))
    } else if width * height > usize::MAX {
        Some(ErrorView::InvalidFrame("decoded luma length overflows usize"@))
    } else if width == 0 || height == 0 {
        Some(zero_size_error())
    } else {
        None
    }
}

/// A pixel's byte lies inside its row.
proof fn lemma_pixel_inside(format: BitPackedGrayFormat, width: nat, x: nat)
    requires
        format.supported(),
        x < width,
    ensures
        (x * format.bits_per_pixel) / 8 < format.row_bytes(width),
        x * format.bits_per_pixel <= width * format.bits_per_pixel,
{
    let bits = format.bits_per_pixel as int;
    assert(x * bits + bits <= width * bits) by (nonlinear_arith)
        requires
            x < width,
            bits > 0,
    ;
    assert(width * format.bits_per_pixel as nat == width * bits);
}

/// Row-major position of a pixel.
proof fn lemma_position(x: int, y: int, width: int)
    requires
        0 <= x < width,
        0 <= y,
    ensures
        (y * width + x) / width == y,
        (y * width + x) % width == x,
{
    lemma_fundamental_div_mod_converse(y * width + x, width, y, x);
}

/// Decodes bit-packed grayscale rows into tightly packed `Luma8`.
///
/// `input_stride` is the byte distance between rows in the packed input. When
/// omitted, the adapter uses the tight packed row size for `width`.
pub fn decode_bit_packed_gray(
    data: &[u8],
    width: u32,
    height: u32,
    format: BitPackedGrayFormat,
    input_stride: Option<usize>,
) -> (result: Result<FrameOwned>)
    requires
        format.supported(),
    ensures
        match result {
            Ok(frame) => {
                let stride = match input_stride {
                    Some(stride) => stride as nat,
                    None => format.row_bytes(width as nat),
                };
                &&& packed_fault(data@.len(), width, height, format, input_stride) is None
                &&& frame@ == packed_model(
                    format.levels(data@, width as nat, height as nat, stride),
                    width,
                    height,
                    PixelFormat::Luma8,
                    width as nat,
                )
            },
            Err(error) => packed_fault(data@.len(), width, height, format, input_stride) == Some(
                error@,
            ),
        },
{
    let available: usize = data.len();
    let columns: usize = width as usize;
    let rows: usize = height as usize;
    let tight_stride: usize = match packed_row_bytes(columns, format.bits_per_pixel) {
        Ok(tight_stride) => tight_stride,
        Err(error) => return Err(error),
    };
    let stride: usize = match input_stride {
        Some(stride) => stride,
        None => tight_stride,
    };
    if stride < tight_stride {
        return Err(
            Error::invalid_frame(
                concat4(
                    "raw stride ",
                    decimal(stride as u64).as_str(),
                    " is smaller than tight packed row size ",
                    decimal(tight_stride as u64).as_str(),
                ).as_str(),
            ),
        );
    }
    let required: usize = match stride.checked_mul(rows.saturating_sub(1)) {
        Some(offset) => match offset.checked_add(tight_stride) {
            Some(required) => required,
            None => return Err(Error::invalid_frame("bit-packed input length overflows usize")),
        },
        None => return Err(Error::invalid_frame("bit-packed input length overflows usize")),
    };
    if available < required {
        return Err(
            Error::invalid_frame(
                concat4(
                    "bit-packed input is too short: need ",
                    decimal(required as u64).as_str(),
                    " bytes, got ",
                    decimal(available as u64).as_str(),
                ).as_str(),
            ),
        );
    }
    if columns.checked_mul(rows).is_none() {
        return Err(Error::invalid_frame("decoded luma length overflows usize"));
    }
    let ghost want = |k: int|
        format.level(data@.skip((k / columns as int) * stride), (k % columns as int) as nat) as u8;
    let mut output: Vec<u8> = Vec::new();
    let mut y: usize = 0;
    assert(0 * columns == 0);
    while y < rows
        invariant
            y <= rows,
            columns == width,
            format.supported(),
            columns * format.bits_per_pixel + 7 <= usize::MAX,
            tight_stride == format.row_bytes(columns as nat),
            available == data@.len(),
            rows > 0 ==> stride * (rows - 1) + tight_stride <= available,
            output@ == Seq::new((y * columns) as nat, want),
            want == (|k: int|
                format.level(
                    data@.skip((k / columns as int) * stride),
                    (k % columns as int) as nat,
                ) as u8),
        decreases rows - y,
    {
        assert(0 <= y * stride <= stride * (rows - 1)) by (nonlinear_arith)
            requires
                y < rows,
        ;
        let start: usize = y * stride;
        let row = vstd::slice::slice_subrange(data, start, available);
        assert(row@ =~= data@.skip(y * stride));
        let mut x: usize = 0;
        while x < columns
            invariant
                x <= columns,
                format.supported(),
                columns * format.bits_per_pixel + 7 <= usize::MAX,
                tight_stride == format.row_bytes(columns as nat),
                row@.len() >= tight_stride,
                row@ == data@.skip(y * stride),
                output@ == Seq::new((y * columns + x) as nat, want),
                want == (|k: int|
                    format.level(
                        data@.skip((k / columns as int) * stride),
                        (k % columns as int) as nat,
                    ) as u8),
            decreases columns - x,
        {
            proof {
                lemma_pixel_inside(format, columns as nat, x as nat);
                lemma_position(x as int, y as int, columns as int);
                assert(y * columns >= 0) by (nonlinear_arith);
            }
            let level: u8 = decode_pixel(row, x, format);
            let ghost before = output@;
            output.push(level);
            proof {
                assert(level == want(y * columns + x));
                assert(output@ =~= Seq::new((y * columns + x + 1) as nat, want));
            }
            x += 1;
        }
        assert(y * columns + columns == (y + 1) * columns) by (nonlinear_arith);
        y += 1;
    }
    proof {
        assert(rows * columns == width as nat * height as nat) by (nonlinear_arith)
            requires
                rows == height,
                columns == width,
        ;
        assert(output@ =~= format.levels(data@, width as nat, height as nat, stride as nat));
        lemma_luma_frame(output@, width, height);
    }
    FrameOwned::packed_tight(output, width, height, PixelFormat::Luma8)
}

/// Packing undoes decoding: the levels of the pixels of a byte, brought back to their bit
/// values and put side by side in the format's order, are that byte. A level is its bit
/// value times 255, 85 or 17, so that the largest value is 255.
pub proof fn law_packing_undoes_decoding(format: BitPackedGrayFormat, row: Seq<u8>, k: nat)
    requires
        format.supported(),
        k < row.len(),
    ensures
        ({
            let lsb = format.bit_order is LsbFirst;
            let one = |i: nat| format.level(row, 8 * k + i) / 255;
            let two = |i: nat| format.level(row, 4 * k + i) / 85;
            let four = |i: nat| format.level(row, 2 * k + i) / 17;
            row[k as int] == if format.bits_per_pixel == 1 {
                if lsb {
                    one(0) + 2 * one(1) + 4 * one(2) + 8 * one(3) + 16 * one(4) + 32 * one(5) + 64
                        * one(6) + 128 * one(7)
                } else {
                    one(7) + 2 * one(6) + 4 * one(5) + 8 * one(4) + 16 * one(3) + 32 * one(2) + 64
                        * one(1) + 128 * one(0)
                }
            } else if format.bits_per_pixel == 2 {
                if lsb {
                    two(0) + 4 * two(1) + 16 * two(2) + 64 * two(3)
                } else {
                    two(3) + 4 * two(2) + 16 * two(1) + 64 * two(0)
                }
            } else {
                if lsb {
                    four(0) + 16 * four(1)
                } else {
                    four(1) + 16 * four(0)
                }
            }
        }),
{
    let byte = row[k as int];
    let per = 8nat / format.bits_per_pixel as nat;
    lemma2_to64();
    lemma_byte_parts(byte);
    lemma_pixel_of_byte(format, row, k, 0);
    lemma_pixel_of_byte(format, row, k, 1);
    if per > 2 {
        lemma_pixel_of_byte(format, row, k, 2);
        lemma_pixel_of_byte(format, row, k, 3);
    }
    if per > 4 {
        lemma_pixel_of_byte(format, row, k, 4);
        lemma_pixel_of_byte(format, row, k, 5);
        lemma_pixel_of_byte(format, row, k, 6);
        lemma_pixel_of_byte(format, row, k, 7);
    }
}

/// The bit value of the `i`-th pixel of a byte.
proof fn lemma_pixel_of_byte(format: BitPackedGrayFormat, row: Seq<u8>, k: nat, i: nat)
    requires
        format.supported(),
        k < row.len(),
        i < 8nat / format.bits_per_pixel as nat,
    ensures
        ({
            let bits = format.bits_per_pixel as nat;
            let value = (row[k as int] as nat / pow2(
                if format.bit_order is LsbFirst {
                    i * bits
                } else {
                    (8 - bits - i * bits) as nat
                },
            )) % pow2(bits);
            &&& bits == 1 ==> format.level(row, 8 * k + i) / 255 == value
            &&& bits == 2 ==> format.level(row, 4 * k + i) / 85 == value
            &&& bits == 4 ==> format.level(row, 2 * k + i) / 17 == value
        }),
{
    let bits = format.bits_per_pixel as nat;
    assert(i * bits < 8) by (nonlinear_arith)
        requires
            i < 8nat / bits,
            bits == 1 || bits == 2 || bits == 4,
    ;
    lemma_level_in_byte(format, row, k, i);
    lemma_bit_level(format, row[k as int], i);
}

/// Level of the `i`-th pixel of a byte.
spec fn bit_level(format: BitPackedGrayFormat, byte: u8, i: nat) -> nat {
    format.level(seq![byte], i)
}

/// A level rests on the place of the pixel's byte in the row and of the pixel in the byte.
proof fn lemma_level_in_byte(format: BitPackedGrayFormat, row: Seq<u8>, k: nat, i: nat)
    requires
        format.supported(),
        k < row.len(),
        i * format.bits_per_pixel < 8,
    ensures
        format.level(row, (8nat / format.bits_per_pixel as nat) * k + i) == bit_level(
            format,
            row[k as int],
            i,
        ),
{
    let bits = format.bits_per_pixel as nat;
    let x = (8nat / bits) * k + i;
    assert(x * bits == 8 * k + i * bits) by (nonlinear_arith)
        requires
            x == (8nat / bits) * k + i,
            bits == 1 || bits == 2 || bits == 4,
    ;
}

/// The level of a pixel is its bit value times the level of one step.
proof fn lemma_bit_level(format: BitPackedGrayFormat, byte: u8, i: nat)
    requires
        format.supported(),
        i < 8nat / format.bits_per_pixel as nat,
    ensures
        ({
            let bits = format.bits_per_pixel as nat;
            let value = (byte as nat / pow2(
                if format.bit_order is LsbFirst {
                    i * bits
                } else {
                    (8 - bits - i * bits) as nat
                },
            )) % pow2(bits);
            &&& bits == 1 ==> bit_level(format, byte, i) / 255 == value
            &&& bits == 2 ==> bit_level(format, byte, i) / 85 == value
            &&& bits == 4 ==> bit_level(format, byte, i) / 17 == value
        }),
{
    lemma2_to64();
    let bits = format.bits_per_pixel as nat;
    assert(i * bits + bits <= 8) by (nonlinear_arith)
        requires
            i < 8nat / bits,
            bits == 1 || bits == 2 || bits == 4,
    ;
    assert((i * bits) / 8 == 0 && (i * bits) % 8 == i * bits);
    assert(seq![byte][0] == byte);
    let most = (pow2(bits) - 1) as nat;
    let value = (byte as nat / pow2(format.shift(i))) % pow2(bits);
    assert(bit_level(format, byte, i) == (value * 255) / most);
    assert(most == 1 ==> ((value * 255) / most) / 255 == value) by (nonlinear_arith);
    assert(most == 3 ==> ((value * 255) / most) / 85 == value) by (nonlinear_arith);
    assert(most == 15 ==> ((value * 255) / most) / 17 == value) by (nonlinear_arith);
}

/// A byte is the sum of its bit values.
proof fn lemma_byte_parts(byte: u8)
    ensures
        ({
            let b = byte as nat;
            &&& b == (b / 1) % 2 + 2 * ((b / 2) % 2) + 4 * ((b / 4) % 2) + 8 * ((b / 8) % 2) + 16
                * ((b / 16) % 2) + 32 * ((b / 32) % 2) + 64 * ((b / 64) % 2) + 128 * ((b / 128)
                % 2)
            &&& b == (b / 1) % 4 + 4 * ((b / 4) % 4) + 16 * ((b / 16) % 4) + 64 * ((b / 64) % 4)
            &&& b == (b / 1) % 16 + 16 * ((b / 16) % 16)
        }),
{
    assert((byte / 1) % 2 + 2 * ((byte / 2) % 2) + 4 * ((byte / 4) % 2) + 8 * ((byte / 8) % 2) + 16
        * ((byte / 16) % 2) + 32 * ((byte / 32) % 2) + 64 * ((byte / 64) % 2) + 128 * ((byte / 128)
        % 2) == byte) by (bit_vector);
}

/// Changing one byte of a row changes the level of at least one of that byte's pixels,
/// and of no pixel of another byte.
pub proof fn law_a_byte_decides_its_own_pixels(
    format: BitPackedGrayFormat,
    row: Seq<u8>,
    k: nat,
    byte: u8,
)
    requires
        format.supported(),
        k < row.len(),
    ensures
        forall|x: nat|
            x < row.len() * (8nat / format.bits_per_pixel as nat) && x / (8nat
                / format.bits_per_pixel as nat) != k ==> #[trigger] format.level(
                row.update(k as int, byte),
                x,
            ) == format.level(row, x),
        byte != row[k as int] ==> exists|x: nat|
            x / (8nat / format.bits_per_pixel as nat) == k && #[trigger] format.level(
                row.update(k as int, byte),
                x,
            ) != format.level(row, x),
{
    let bits = format.bits_per_pixel as nat;
    let per = 8nat / bits;
    let other = row.update(k as int, byte);
    assert forall|x: nat| x < row.len() * per && x / per != k implies #[trigger] format.level(
        other,
        x,
    ) == format.level(row, x) by {
        assert((x * bits) / 8 == x / per && x / per < row.len()) by (nonlinear_arith)
            requires
                x < row.len() * per,
                (bits == 1 && per == 8) || (bits == 2 && per == 4) || (bits == 4 && per == 2),
        ;
    }
    if byte != row[k as int] {
        law_packing_undoes_decoding(format, row, k);
        law_packing_undoes_decoding(format, other, k);
        if forall|i: nat|
            i < per ==> #[trigger] format.level(other, per * k + i) == format.level(
                row,
                per * k + i,
            ) {
            let same = |i: nat| format.level(other, per * k + i) == format.level(row, per * k + i);
            assert(same(0) && same(1) && (per > 2 ==> same(2) && same(3)) && (per > 4 ==> same(4)
                && same(5) && same(6) && same(7)));
            assert(false);
        }
        let i = choose|i: nat|
            i < per && #[trigger] format.level(other, per * k + i) != format.level(
                row,
                per * k + i,
            );
        assert((per * k + i) / per == k) by (nonlinear_arith)
            requires
                0 <= i < per,
        ;
        assert(format.level(other, per * k + i) != format.level(row, per * k + i));
    }
}

/// A decoded image keeps rows and columns: the pixel in column `x` of row `y` is the
/// level of that column in the packed row that starts `y` strides into the input, and it
/// rests on one byte of that row alone.
pub proof fn law_levels_keep_their_place(
    format: BitPackedGrayFormat,
    data: Seq<u8>,
    width: nat,
    height: nat,
    stride: nat,
    x: nat,
    y: nat,
)
    requires
        format.supported(),
        x < width,
        y < height,
        (height - 1) * stride + format.row_bytes(width) <= data.len(),
    ensures
        format.levels(data, width, height, stride).len() == width * height,
        0 <= y * width + x < width * height,
        0 <= y * stride + x / (8nat / format.bits_per_pixel as nat) < data.len(),
        format.levels(data, width, height, stride)[(y * width + x) as int] == format.level(
            seq![data[(y * stride + x / (8nat / format.bits_per_pixel as nat)) as int]],
            x % (8nat / format.bits_per_pixel as nat),
        ),
{
    let bits = format.bits_per_pixel as nat;
    let per = 8nat / bits;
    lemma_position(x as int, y as int, width as int);
    lemma_pixel_inside(format, width, x);
    assert(0 <= y * width + x < width * height) by (nonlinear_arith)
        requires
            x < width,
            y < height,
    ;
    assert(0 <= y * stride <= (height - 1) * stride) by (nonlinear_arith)
        requires
            y < height,
    ;
    let row = data.skip((y * stride) as int);
    let k = x / per;
    let i = x % per;
    assert(x == per * k + i && (x * bits) / 8 == k && i * bits < 8) by (nonlinear_arith)
        requires
            k == x / per,
            i == x % per,
            (bits == 1 && per == 8) || (bits == 2 && per == 4) || (bits == 4 && per == 2),
    ;
    assert(row[k as int] == data[(y * stride + k) as int]);
    lemma_level_in_byte(format, row, k, i);
    lemma_level_bound(format, row, x);
}

/// A level fits a byte.
proof fn lemma_level_bound(format: BitPackedGrayFormat, row: Seq<u8>, x: nat)
    requires
        format.supported(),
    ensures
        format.level(row, x) <= 255,
{
    lemma2_to64();
    let most = (pow2(format.bits_per_pixel as nat) - 1) as nat;
    let byte = row[((x * format.bits_per_pixel as nat) / 8) as int] as nat;
    let value = (byte / pow2(format.shift(x))) % pow2(format.bits_per_pixel as nat);
    assert((value * 255) / most <= 255) by (nonlinear_arith)
        requires
            value <= most,
            most > 0,
    ;
}

/// One byte per pixel is a valid frame unless the size is zero.
proof fn lemma_luma_frame(data: Seq<u8>, width: u32, height: u32)
    requires
        data.len() == width as nat * height as nat,
    ensures
        packed_model(data, width, height, PixelFormat::Luma8, width as nat).valid() <==> width > 0
            && height > 0,
{
    let frame = packed_model(data, width, height, PixelFormat::Luma8, width as nat);
    if width > 0 && height > 0 {
        assert(width as nat * (height - 1) as nat + width == width as nat * height as nat)
            by (nonlinear_arith)
            requires
                height > 0,
        ;
        assert forall|i: int| 0 <= i < frame.planes.len() implies #[trigger] frame.plane_fits(
            i,
        ) by {}
    }
}

/// Packed rows are decoded exactly when the size is not zero, the stride holds a row, the
/// input reaches to the end of the last row, and all lengths can be counted. Bytes behind
/// that end are not asked for, and a row holds its pixels with less than a byte to spare.
pub proof fn law_packed_rows_that_are_decoded(
    available: nat,
    width: u32,
    height: u32,
    format: BitPackedGrayFormat,
    input_stride: Option<usize>,
)
    requires
        format.supported(),
        available <= usize::MAX,
    ensures
        ({
            let bits = format.bits_per_pixel as int;
            let row = format.row_bytes(width as nat) as int;
            let stride = match input_stride {
                Some(stride) => stride as int,
                None => row,
            };
            &&& row * 8 >= width * bits && row * 8 < width * bits + 8
            &&& packed_fault(available, width, height, format, input_stride) is None <==> {
                &&& width > 0 && height > 0
                &&& width * bits + 7 <= usize::MAX
                &&& stride >= row
                &&& (height - 1) * stride + row <= available
                &&& width * height <= usize::MAX
            }
        }),
{
    let row = format.row_bytes(width as nat);
    let stride = match input_stride {
        Some(stride) => stride as nat,
        None => row,
    };
    assert((height - 1) * stride == stride * (height - 1)) by (nonlinear_arith);
    assert(width as nat * format.bits_per_pixel as nat == width * format.bits_per_pixel);
}

} // verus!
