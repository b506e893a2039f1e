//! C-callable encoding and decoding of `imqraw` bundles, over plain values.
//!
//! A nullable pointer of the C interface is an `Option` here; the foreign-function
//! shell turns pointers into slices and copies results back.

use crate::error::{Error, ErrorView, Result};
use crate::frame::{
    checked_tight, frame_outcome, law_frames_are_refused_for_cause, owned_planes_model,
    packed_model, ColorRange, ColorSpace, Dimensions, FormatSpec, FrameModel, FrameOwned,
    OwnedPlane, PixelFormat, PlaneModel, Transfer,
};
use crate::imqraw::layout::{
    law_bundles_start_with_their_count, law_encodable_bundles, law_storable_records,
};
use crate::imqraw::roundtrip::{law_decode_of_encode, storable};
use crate::imqraw::{
    bundle_bytes, bundle_fault, bundle_in, color_range_number, color_space_number,
    decode_bundle, encode_bundle, transfer_number, RawImageBundle,
    RawImageRecord, RecordModel,
};
use crate::text::{
    concat2, concat3, concat4, decimal, decimal_text, optional_text, texts, utf8_text,
};
use vstd::prelude::*;
use vstd::utf8::{
    decode_utf8, decode_utf8_split, encode_utf8, encode_utf8_decode_utf8, encode_utf8_valid_utf8,
    is_char_boundary, is_char_boundary_iff_not_is_continuation_byte,
    is_char_boundary_start_end_of_seq, valid_utf8, valid_utf8_split,
};

verus! {

/// Bytes of a status message, with its terminating NUL.
pub const STATUS_MESSAGE_CAP: usize = 256;

/// Status code returned by the C API.
#[derive(Debug, Clone, Copy, PartialEq, Eq, Structural)]
pub enum ImqrawStatusCode {
    /// Operation succeeded.
    Success,
    /// A required pointer was null.
    NullPointer,
    /// An argument was invalid.
    InvalidArgument,
    /// Bundle decoding failed.
    DecodeError,
    /// Bundle encoding failed.
    EncodeError,
}

impl ImqrawStatusCode {
    /// The number that C callers see.
    pub open spec fn number(self) -> i32 {
        match self {
            ImqrawStatusCode::Success => 0,
            ImqrawStatusCode::NullPointer => 1,
            ImqrawStatusCode::InvalidArgument => 2,
            ImqrawStatusCode::DecodeError => 3,
            ImqrawStatusCode::EncodeError => 4,
        }
    }

    /// Numeric status code.
    pub fn as_i32(self) -> (code: i32)
        ensures
            code == self.number(),
    {
        match self {
            ImqrawStatusCode::Success => 0,
            ImqrawStatusCode::NullPointer => 1,
            ImqrawStatusCode::InvalidArgument => 2,
            ImqrawStatusCode::DecodeError => 3,
            ImqrawStatusCode::EncodeError => 4,
        }
    }
}

/// Failure of a C API call.
#[derive(Debug)]
pub struct CApiError {
    /// Status code.
    pub code: ImqrawStatusCode,
    /// Message for the caller.
    pub message: String,
}

/// Mathematical content of a [`CApiError`].
pub struct ErrorModel {
    pub code: ImqrawStatusCode,
    pub message: Seq<char>,
}

impl View for CApiError {
    type V = ErrorModel;

    open spec fn view(&self) -> ErrorModel {
        ErrorModel { code: self.code, message: self.message@ }
    }
}

/// A result whose error is replaced by its mathematical content.
pub open spec fn api_outcome<T>(result: core::result::Result<T, CApiError>) -> core::result::Result<
    T,
    ErrorModel,
> {
    match result {
        Ok(value) => Ok(value),
        Err(error) => Err(error@),
    }
}

/// A failure with a fixed message.
pub open spec fn failure(code: ImqrawStatusCode, message: Seq<char>) -> ErrorModel {
    ErrorModel { code, message }
}

impl CApiError {
    /// Creates a failure.
    pub fn new(code: ImqrawStatusCode, message: String) -> (error: Self)
        ensures
            error@ == failure(code, message@),
    {
        Self { code, message }
    }

    /// Creates a failure from a literal message.
    fn literal(code: ImqrawStatusCode, message: &str) -> (error: Self)
        ensures
            error@ == failure(code, message@),
    {
        Self { code, message: String::from_str(message) }
    }

    /// Creates a failure from a library error.
    fn caused(code: ImqrawStatusCode, error: &Error) -> (failed: Self)
        ensures
            failed@ == failure(code, error@.message()),
    {
        Self { code, message: error.message() }
    }
}

/// Status object optionally filled by C API functions.
#[derive(Debug)]
pub struct ImqrawStatus {
    /// Numeric status code.
    pub code: i32,
    /// NUL-terminated UTF-8 message, cut between characters where it is too long.
    pub message: Vec<u8>,
}

/// The last character boundary of UTF-8 bytes that is at most `limit`.
pub open spec fn boundary_up_to(bytes: Seq<u8>, limit: nat) -> nat
    decreases limit,
{
    if limit >= bytes.len() {
        bytes.len()
    } else if limit == 0 || is_char_boundary(bytes, limit as int) {
        limit
    } else {
        boundary_up_to(bytes, (limit - 1) as nat)
    }
}

/// Number of bytes of a message that a status holds: as many whole characters as fit
/// before the terminating NUL.
pub open spec fn status_len(message: Seq<char>) -> nat {
    boundary_up_to(encode_utf8(message), (STATUS_MESSAGE_CAP - 1) as nat)
}

/// The bytes of a status message: the whole characters of the text that fit, then NULs.
pub open spec fn status_bytes(message: Seq<char>) -> Seq<u8> {
    encode_utf8(message).subrange(0, status_len(message) as int) + Seq::new(
        (STATUS_MESSAGE_CAP - status_len(message)) as nat,
        |i: int| 0u8,
    )
}

proof fn lemma_boundary_up_to(bytes: Seq<u8>, limit: nat)
    requires
        valid_utf8(bytes),
    ensures
        boundary_up_to(bytes, limit) <= limit,
        boundary_up_to(bytes, limit) <= bytes.len(),
        is_char_boundary(bytes, boundary_up_to(bytes, limit) as int),
        forall|at: int|
            boundary_up_to(bytes, limit) < at <= limit ==> !#[trigger] is_char_boundary(bytes, at),
    decreases limit,
{
    is_char_boundary_start_end_of_seq(bytes);
    if limit >= bytes.len() {
        assert forall|at: int| bytes.len() < at implies !#[trigger] is_char_boundary(
            bytes,
            at,
        ) by {}
    } else if limit > 0 && !is_char_boundary(bytes, limit as int) {
        lemma_boundary_up_to(bytes, (limit - 1) as nat);
    }
}

/// A status message always ends with a NUL and holds valid UTF-8 before the NULs that
/// fill it up: the longest beginning of the text that fits and ends between characters,
/// which is the whole text if that fits.
pub proof fn law_status_is_terminated(message: Seq<char>)
    ensures
        status_bytes(message).len() == STATUS_MESSAGE_CAP,
        status_bytes(message).last() == 0,
        status_len(message) < STATUS_MESSAGE_CAP,
        status_len(message) <= encode_utf8(message).len(),
        encode_utf8(message).len() < STATUS_MESSAGE_CAP ==> status_len(message) == encode_utf8(
            message,
        ).len(),
        is_char_boundary(encode_utf8(message), status_len(message) as int),
        forall|at: int|
            status_len(message) < at < STATUS_MESSAGE_CAP ==> !#[trigger] is_char_boundary(
                encode_utf8(message),
                at,
            ),
        status_bytes(message).subrange(0, status_len(message) as int) == encode_utf8(
            message,
        ).subrange(0, status_len(message) as int),
        valid_utf8(status_bytes(message).subrange(0, status_len(message) as int)),
        decode_utf8(status_bytes(message).subrange(0, status_len(message) as int)).is_prefix_of(
            message,
        ),
        forall|i: int|
            status_len(message) <= i < STATUS_MESSAGE_CAP ==> #[trigger] status_bytes(message)[i]
                == 0,
{
    let text = encode_utf8(message);
    let len = status_len(message) as int;
    encode_utf8_valid_utf8(message);
    encode_utf8_decode_utf8(message);
    lemma_boundary_up_to(text, (STATUS_MESSAGE_CAP - 1) as nat);
    assert(status_bytes(message).subrange(0, len) =~= text.subrange(0, len));
    valid_utf8_split(text, len);
    decode_utf8_split(text, len);
    let kept = decode_utf8(text.subrange(0, len));
    assert(kept =~= message.take(kept.len() as int));
}

/// Builds the status of a finished call: code zero and `ok`, or the failure.
pub fn status_of(result: &core::result::Result<(), CApiError>) -> (status: ImqrawStatus)
    ensures
        match *result {
            Ok(_) => status.code == 0 && status.message@ == status_bytes("ok"@),
            Err(error) => status.code == error.code.number() && status.message@ == status_bytes(
                error.message@,
            ),
        },
{
    match result {
        Ok(_) => write_status(ImqrawStatusCode::Success, "ok"),
        Err(error) => write_status(error.code, error.message.as_str()),
    }
}

fn write_status(code: ImqrawStatusCode, message: &str) -> (status: ImqrawStatus)
    ensures
        status.code == code.number(),
        status.message@ == status_bytes(message@),
{
    let text = message.as_bytes();
    proof {
        encode_utf8_valid_utf8(message@);
        lemma_boundary_up_to(text@, (STATUS_MESSAGE_CAP - 1) as nat);
    }
    let mut len: usize = STATUS_MESSAGE_CAP - 1;
    if text.len() < len {
        len = text.len();
    }
    while 0 < len && len < text.len() && 0x80 <= text[len] && text[len] <= 0xbf
        invariant
            len <= text@.len(),
            valid_utf8(text@),
            text@ == encode_utf8(message@),
            boundary_up_to(text@, len as nat) == status_len(message@),
        decreases len,
    {
        proof {
            is_char_boundary_iff_not_is_continuation_byte(text@, len as int);
        }
        len -= 1;
    }
    proof {
        if len < text.len() {
            is_char_boundary_iff_not_is_continuation_byte(text@, len as int);
        }
        assert(len == status_len(message@));
    }
    let mut bytes: Vec<u8> = Vec::with_capacity(STATUS_MESSAGE_CAP);
    let mut i: usize = 0;
    while i < STATUS_MESSAGE_CAP
        invariant
            i <= STATUS_MESSAGE_CAP,
            len < STATUS_MESSAGE_CAP,
            len <= text@.len(),
            len == status_len(message@),
            text@ == encode_utf8(message@),
            bytes@ == status_bytes(message@).take(i as int),
        decreases STATUS_MESSAGE_CAP - i,
    {
        let byte: u8 = if i < len {
            text[i]
        } else {
            0
        };
        bytes.push(byte);
        assert(bytes@ =~= status_bytes(message@).take(i + 1));
        i += 1;
    }
    assert(bytes@ =~= status_bytes(message@));
    ImqrawStatus { code: code.as_i32(), message: bytes }
}

/// Borrowed byte span. An absent span stands for a null pointer.
#[derive(Debug, Clone, Copy)]
pub struct ImqrawByteView<'a> {
    /// The bytes, unless the pointer is null.
    pub bytes: Option<&'a [u8]>,
    /// Number of bytes that the caller stated.
    pub len: usize,
}

/// Borrowed UTF-8 string span. An absent span stands for a null pointer.
#[derive(Debug, Clone, Copy)]
pub struct ImqrawStringView<'a> {
    /// The UTF-8 bytes, unless the pointer is null.
    pub bytes: Option<&'a [u8]>,
    /// Number of UTF-8 bytes that the caller stated.
    pub len: usize,
}

/// Encoded bytes handed over to the caller.
#[derive(Debug)]
pub struct ImqrawByteBuffer {
    /// The bytes.
    pub bytes: Vec<u8>,
}

/// Borrowed decoded plane view.
#[derive(Debug, Clone, Copy)]
pub struct ImqrawPlaneView<'a> {
    /// Plane bytes.
    pub data: &'a [u8],
    /// Row stride in bytes.
    pub stride: usize,
}

/// Basic decoded image metadata.
#[derive(Debug, Clone, Copy, PartialEq, Eq, Structural)]
pub struct ImqrawImageInfo {
    /// Image width in pixels.
    pub width: u32,
    /// Image height in pixels.
    pub height: u32,
    /// Stable `imqraw` pixel-format code.
    pub pixel_format: u16,
    /// Stable color-space code.
    pub color_space: u16,
    /// Stable transfer code.
    pub transfer: u16,
    /// Stable range code.
    pub range: u16,
    /// Number of planes.
    pub plane_count: usize,
}

/// Input plane used by generic encode functions.
#[derive(Debug, Clone, Copy)]
pub struct ImqrawEncodePlane<'a> {
    /// Plane bytes.
    pub data: ImqrawByteView<'a>,
    /// Row stride in bytes.
    pub stride: usize,
}

/// Input image used by encode functions.
#[derive(Debug, Clone, Copy)]
pub struct ImqrawEncodeImage<'a> {
    /// Image width in pixels.
    pub width: u32,
    /// Image height in pixels.
    pub height: u32,
    /// Stable `imqraw` pixel-format code.
    pub pixel_format: u16,
    /// Stable color-space code. Zero asks for the format default.
    pub color_space: u16,
    /// Stable transfer code. Zero asks for the format default.
    pub transfer: u16,
    /// Stable range code. Zero asks for the format default.
    pub range: u16,
    /// Tight pixel bytes for packed single-plane input. Used when
    /// `plane_count == 0`.
    pub data: ImqrawByteView<'a>,
    /// Optional explicit planes. Use for custom stride, YUV, and NV12.
    pub planes: Option<&'a [ImqrawEncodePlane<'a>]>,
    /// Number of explicit planes that the caller stated.
    pub plane_count: usize,
    /// Optional UTF-8 label.
    pub label: ImqrawStringView<'a>,
    /// Optional tag list.
    pub tags: Option<&'a [ImqrawStringView<'a>]>,
    /// Number of tags that the caller stated.
    pub tag_count: usize,
}

/// Opaque decoded bundle handle.
#[derive(Debug)]
pub struct ImqrawBundle {
    /// The decoded bundle.
    pub bundle: RawImageBundle,
}

/// Code of a pixel format in the C interface; formats it does not name share one code.
pub open spec fn pixel_format_number(value: PixelFormat) -> u16 {
    match value {
        PixelFormat::Luma8 => 1,
        PixelFormat::Rgb8 => 2,
        PixelFormat::Rgba8 => 3,
        PixelFormat::Bgr8 => 4,
        PixelFormat::Bgra8 => 5,
        PixelFormat::Luma16Le => 6,
        PixelFormat::Rgb16Le => 7,
        PixelFormat::Rgba16Le => 8,
        PixelFormat::RgbF32 => 9,
        PixelFormat::RgbaF32 => 10,
        PixelFormat::Yuv444p8 => 11,
        PixelFormat::Yuv422p8 => 12,
        PixelFormat::Yuv420p8 => 13,
        PixelFormat::Nv12 => 14,
        _ => 65535,
    }
}

/// The pixel format that a caller's code asks for.
pub open spec fn requested_pixel_format(code: u16) -> core::result::Result<
    PixelFormat,
    ErrorModel,
> {
    match code {
        1 => Ok(PixelFormat::Luma8),
        2 => Ok(PixelFormat::Rgb8),
        3 => Ok(PixelFormat::Rgba8),
        4 => Ok(PixelFormat::Bgr8),
        5 => Ok(PixelFormat::Bgra8),
        6 => Ok(PixelFormat::Luma16Le),
        7 => Ok(PixelFormat::Rgb16Le),
        8 => Ok(PixelFormat::Rgba16Le),
        9 => Ok(PixelFormat::RgbF32),
        10 => Ok(PixelFormat::RgbaF32),
        11 => Ok(PixelFormat::Yuv444p8),
        12 => Ok(PixelFormat::Yuv422p8),
        13 => Ok(PixelFormat::Yuv420p8),
        14 => Ok(PixelFormat::Nv12),
        _ => Err(
            failure(
                ImqrawStatusCode::InvalidArgument,
                "unsupported pixel format code "@ + decimal_text(code as nat),
            ),
        ),
    }
}

fn pixel_format_code(value: PixelFormat) -> (code: u16)
    ensures
        code == pixel_format_number(value),
{
    match value {
        PixelFormat::Luma8 => 1,
        PixelFormat::Rgb8 => 2,
        PixelFormat::Rgba8 => 3,
        PixelFormat::Bgr8 => 4,
        PixelFormat::Bgra8 => 5,
        PixelFormat::Luma16Le => 6,
        PixelFormat::Rgb16Le => 7,
        PixelFormat::Rgba16Le => 8,
        PixelFormat::RgbF32 => 9,
        PixelFormat::RgbaF32 => 10,
        PixelFormat::Yuv444p8 => 11,
        PixelFormat::Yuv422p8 => 12,
        PixelFormat::Yuv420p8 => 13,
        PixelFormat::Nv12 => 14,
        _ => 65535,
    }
}

fn pixel_format_from_code(value: u16) -> (result: core::result::Result<PixelFormat, CApiError>)
    ensures
        api_outcome(result) == requested_pixel_format(value),
{
    match value {
        1 => Ok(PixelFormat::Luma8),
        2 => Ok(PixelFormat::Rgb8),
        3 => Ok(PixelFormat::Rgba8),
        4 => Ok(PixelFormat::Bgr8),
        5 => Ok(PixelFormat::Bgra8),
        6 => Ok(PixelFormat::Luma16Le),
        7 => Ok(PixelFormat::Rgb16Le),
        8 => Ok(PixelFormat::Rgba16Le),
        9 => Ok(PixelFormat::RgbF32),
        10 => Ok(PixelFormat::RgbaF32),
        11 => Ok(PixelFormat::Yuv444p8),
        12 => Ok(PixelFormat::Yuv422p8),
        13 => Ok(PixelFormat::Yuv420p8),
        14 => Ok(PixelFormat::Nv12),
        _ => Err(
            CApiError::new(
                ImqrawStatusCode::InvalidArgument,
                concat2("unsupported pixel format code ", decimal(value as u64).as_str()),
            ),
        ),
    }
}

/// A pixel format that the C interface names reads back from its code; the others
/// have a code that no request accepts.
pub proof fn law_pixel_format_codes(value: PixelFormat)
    ensures
        requested_pixel_format(pixel_format_number(value)) matches Ok(format) ==> format == value,
        requested_pixel_format(pixel_format_number(value)) is Err <==> value is Hsv8
            || value is Hsva8 || value is Binary1Lsb || value is Binary1Msb,
{
}

fn color_space_code(value: ColorSpace) -> (code: u16)
    ensures
        code == color_space_number(value),
{
    match value {
        ColorSpace::Srgb => 1,
        ColorSpace::LinearRgb => 2,
        ColorSpace::Bt601 => 3,
        ColorSpace::Bt709 => 4,
        ColorSpace::Bt2020 => 5,
        ColorSpace::Unknown => 65535,
    }
}

/// The color space that a caller's code asks for; zero asks for the format's default.
pub open spec fn requested_color_space(code: u16) -> core::result::Result<Option<ColorSpace>, ErrorModel> {
    match code {
        0 => Ok(None),
        1 => Ok(Some(ColorSpace::Srgb)),
        2 => Ok(Some(ColorSpace::LinearRgb)),
        3 => Ok(Some(ColorSpace::Bt601)),
        4 => Ok(Some(ColorSpace::Bt709)),
        5 => Ok(Some(ColorSpace::Bt2020)),
        65535 => Ok(Some(ColorSpace::Unknown)),
        _ => Err(
            ErrorModel {
                code: ImqrawStatusCode::InvalidArgument,
                message: "unsupported color-space code "@ + decimal_text(code as nat),
            },
        ),
    }
}

fn color_space_from_code(value: u16) -> (result: core::result::Result<Option<ColorSpace>, CApiError>)
    ensures
        api_outcome(result) == requested_color_space(value),
{
    match value {
        0 => Ok(None),
        1 => Ok(Some(ColorSpace::Srgb)),
        2 => Ok(Some(ColorSpace::LinearRgb)),
        3 => Ok(Some(ColorSpace::Bt601)),
        4 => Ok(Some(ColorSpace::Bt709)),
        5 => Ok(Some(ColorSpace::Bt2020)),
        65535 => Ok(Some(ColorSpace::Unknown)),
        _ => Err(
            CApiError::new(
                ImqrawStatusCode::InvalidArgument,
                concat2("unsupported color-space code ", decimal(value as u64).as_str()),
            ),
        ),
    }
}

fn transfer_code(value: Transfer) -> (code: u16)
    ensures
        code == transfer_number(value),
{
    match value {
        Transfer::Srgb => 1,
        Transfer::Linear => 2,
        Transfer::Bt1886 => 3,
        Transfer::Hlg => 4,
        Transfer::Pq => 5,
        Transfer::Unknown => 65535,
    }
}

/// The transfer function that a caller's code asks for; zero asks for the format's default.
pub open spec fn requested_transfer(code: u16) -> core::result::Result<Option<Transfer>, ErrorModel> {
    match code {
        0 => Ok(None),
        1 => Ok(Some(Transfer::Srgb)),
        2 => Ok(Some(Transfer::Linear)),
        3 => Ok(Some(Transfer::Bt1886)),
        4 => Ok(Some(Transfer::Hlg)),
        5 => Ok(Some(Transfer::Pq)),
        65535 => Ok(Some(Transfer::Unknown)),
        _ => Err(
            ErrorModel {
                code: ImqrawStatusCode::InvalidArgument,
                message: "unsupported transfer code "@ + decimal_text(code as nat),
            },
        ),
    }
}

fn transfer_from_code(value: u16) -> (result: core::result::Result<Option<Transfer>, CApiError>)
    ensures
        api_outcome(result) == requested_transfer(value),
{
    match value {
        0 => Ok(None),
        1 => Ok(Some(Transfer::Srgb)),
        2 => Ok(Some(Transfer::Linear)),
        3 => Ok(Some(Transfer::Bt1886)),
        4 => Ok(Some(Transfer::Hlg)),
        5 => Ok(Some(Transfer::Pq)),
        65535 => Ok(Some(Transfer::Unknown)),
        _ => Err(
            CApiError::new(
                ImqrawStatusCode::InvalidArgument,
                concat2("unsupported transfer code ", decimal(value as u64).as_str()),
            ),
        ),
    }
}

fn color_range_code(value: ColorRange) -> (code: u16)
    ensures
        code == color_range_number(value),
{
    match value {
        ColorRange::Full => 1,
        ColorRange::Limited => 2,
    }
}

/// The color range that a caller's code asks for; zero asks for the format's default.
pub open spec fn requested_color_range(code: u16) -> core::result::Result<Option<ColorRange>, ErrorModel> {
    match code {
        0 => Ok(None),
        1 => Ok(Some(ColorRange::Full)),
        2 => Ok(Some(ColorRange::Limited)),
        _ => Err(
            ErrorModel {
                code: ImqrawStatusCode::InvalidArgument,
                message: "unsupported color-range code "@ + decimal_text(code as nat),
            },
        ),
    }
}

fn color_range_from_code(value: u16) -> (result: core::result::Result<Option<ColorRange>, CApiError>)
    ensures
        api_outcome(result) == requested_color_range(value),
{
    match value {
        0 => Ok(None),
        1 => Ok(Some(ColorRange::Full)),
        2 => Ok(Some(ColorRange::Limited)),
        _ => Err(
            CApiError::new(
                ImqrawStatusCode::InvalidArgument,
                concat2("unsupported color-range code ", decimal(value as u64).as_str()),
            ),
        ),
    }
}

/// The format that a caller's codes ask for; the first unknown code is reported.
pub open spec fn requested_format(
    pixel_format: PixelFormat,
    color_space: u16,
    transfer: u16,
    range: u16,
) -> core::result::Result<FormatSpec, ErrorModel> {
    let default = FormatSpec::standard(pixel_format);
    match requested_color_space(color_space) {
        Err(error) => Err(error),
        Ok(space) => match requested_transfer(transfer) {
            Err(error) => Err(error),
            Ok(curve) => match requested_color_range(range) {
                Err(error) => Err(error),
                Ok(extent) => Ok(
                    FormatSpec {
                        pixel_format,
                        color_space: if space is Some {
                            space->0
                        } else {
                            default.color_space
                        },
                        transfer: if curve is Some {
                            curve->0
                        } else {
                            default.transfer
                        },
                        range: if extent is Some {
                            extent->0
                        } else {
                            default.range
                        },
                    },
                ),
            },
        },
    }
}

fn format_spec_from_codes(
    pixel_format: PixelFormat,
    color_space: u16,
    transfer: u16,
    range: u16,
) -> (result: core::result::Result<FormatSpec, CApiError>)
    ensures
        api_outcome(result) == requested_format(pixel_format, color_space, transfer, range),
{
    let default = FormatSpec::new(pixel_format);
    let space = match color_space_from_code(color_space) {
        Ok(space) => space,
        Err(error) => return Err(error),
    };
    let curve = match transfer_from_code(transfer) {
        Ok(curve) => curve,
        Err(error) => return Err(error),
    };
    let extent = match color_range_from_code(range) {
        Ok(extent) => extent,
        Err(error) => return Err(error),
    };
    Ok(
        FormatSpec::with_metadata(
            pixel_format,
            space.unwrap_or(default.color_space),
            curve.unwrap_or(default.transfer),
            extent.unwrap_or(default.range),
        ),
    )
}

/// The bytes that a view addresses: a null pointer addresses no bytes.
pub open spec fn view_bytes(view: ImqrawByteView<'_>) -> core::result::Result<
    Seq<u8>,
    ErrorModel,
> {
    match view.bytes {
        Some(bytes) => Ok(bytes@),
        None => if view.len == 0 {
            Ok(Seq::empty())
        } else {
            Err(failure(ImqrawStatusCode::NullPointer, "byte view pointer is null"@))
        },
    }
}

fn byte_slice(view: ImqrawByteView<'_>) -> (result: core::result::Result<Vec<u8>, CApiError>)
    ensures
        match result {
            Ok(bytes) => view_bytes(view) == Ok::<Seq<u8>, ErrorModel>(bytes@),
            Err(error) => view_bytes(view) == Err::<Seq<u8>, ErrorModel>(error@),
        },
{
    match view.bytes {
        Some(bytes) => Ok(vstd::slice::slice_to_vec(bytes)),
        None => if view.len == 0 {
            Ok(Vec::new())
        } else {
            Err(CApiError::literal(ImqrawStatusCode::NullPointer, "byte view pointer is null"))
        },
    }
}

/// The text that a view addresses: a null pointer addresses the empty text.
pub open spec fn view_text(view: ImqrawStringView<'_>) -> core::result::Result<
    Seq<char>,
    ErrorModel,
> {
    match view.bytes {
        Some(bytes) => if valid_utf8(bytes@) {
            Ok(decode_utf8(bytes@))
        } else {
            Err(failure(ImqrawStatusCode::InvalidArgument, "string view is not valid UTF-8"@))
        },
        None => if view.len == 0 {
            Ok(Seq::empty())
        } else {
            Err(failure(ImqrawStatusCode::NullPointer, "string view pointer is null"@))
        },
    }
}

fn string_view(view: ImqrawStringView<'_>) -> (result: core::result::Result<String, CApiError>)
    ensures
        match result {
            Ok(text) => view_text(view) == Ok::<Seq<char>, ErrorModel>(text@),
            Err(error) => view_text(view) == Err::<Seq<char>, ErrorModel>(error@),
        },
{
    match view.bytes {
        Some(bytes) => match utf8_text(bytes) {
            Some(text) => Ok(String::from_str(text)),
            None => Err(
                CApiError::literal(
                    ImqrawStatusCode::InvalidArgument,
                    "string view is not valid UTF-8",
                ),
            ),
        },
        None => if view.len == 0 {
            Ok(String::new())
        } else {
            Err(CApiError::literal(ImqrawStatusCode::NullPointer, "string view pointer is null"))
        },
    }
}

/// The label that a view addresses: an empty text is no label.
pub open spec fn view_label(view: ImqrawStringView<'_>) -> core::result::Result<
    Option<Seq<char>>,
    ErrorModel,
> {
    match view_text(view) {
        Ok(text) => if text.len() == 0 {
            Ok(None)
        } else {
            Ok(Some(text))
        },
        Err(error) => Err(error),
    }
}

fn optional_string(view: ImqrawStringView<'_>) -> (result: core::result::Result<
    Option<String>,
    CApiError,
>)
    ensures
        match result {
            Ok(label) => view_label(view) == Ok::<Option<Seq<char>>, ErrorModel>(
                optional_text(label),
            ),
            Err(error) => view_label(view) == Err::<Option<Seq<char>>, ErrorModel>(error@),
        },
{
    match string_view(view) {
        Ok(text) => if text.as_str().is_empty() {
            Ok(None)
        } else {
            Ok(Some(text))
        },
        Err(error) => Err(error),
    }
}

/// The texts of the first `count` views, or the failure of the first bad one.
pub open spec fn view_texts(
    views: Seq<ImqrawStringView<'_>>,
    count: nat,
) -> core::result::Result<Seq<Seq<char>>, ErrorModel>
    decreases count,
{
    if count == 0 {
        Ok(Seq::empty())
    } else {
        match view_texts(views, (count - 1) as nat) {
            Ok(before) => match view_text(views[count - 1]) {
                Ok(text) => Ok(before.push(text)),
                Err(error) => Err(error),
            },
            Err(error) => Err(error),
        }
    }
}

proof fn lemma_view_texts_error(views: Seq<ImqrawStringView<'_>>, some: nat, all: nat)
    requires
        some <= all,
        view_texts(views, some) is Err,
    ensures
        view_texts(views, all) == view_texts(views, some),
    decreases all,
{
    if some < all {
        lemma_view_texts_error(views, some, (all - 1) as nat);
    }
}

/// The tags of an image: a null list holds no tags.
pub open spec fn view_tags(
    views: Option<&[ImqrawStringView<'_>]>,
    len: usize,
) -> core::result::Result<Seq<Seq<char>>, ErrorModel> {
    match views {
        Some(views) => view_texts(views@, views@.len()),
        None => if len == 0 {
            Ok(Seq::empty())
        } else {
            Err(failure(ImqrawStatusCode::NullPointer, "tag array pointer is null"@))
        },
    }
}

fn string_views(views: Option<&[ImqrawStringView<'_>]>, len: usize) -> (result:
    core::result::Result<Vec<String>, CApiError>)
    ensures
        match result {
            Ok(tags) => view_tags(views, len) == Ok::<Seq<Seq<char>>, ErrorModel>(texts(tags@)),
            Err(error) => view_tags(views, len) == Err::<Seq<Seq<char>>, ErrorModel>(error@),
        },
{
    match views {
        Some(list) => {
            let mut tags: Vec<String> = Vec::new();
            let mut i: usize = 0;
            assert(texts(tags@) =~= Seq::<Seq<char>>::empty());
            while i < list.len()
                invariant
                    i <= list@.len(),
                    views == Some(list),
                    view_texts(list@, i as nat) == Ok::<Seq<Seq<char>>, ErrorModel>(texts(tags@)),
                decreases list@.len() - i,
            {
                let ghost before = tags@;
                match string_view(list[i]) {
                    Ok(text) => {
                        tags.push(text);
                        assert(texts(tags@) =~= texts(before).push(text@));
                    },
                    Err(error) => {
                        proof {
                            assert(view_texts(list@, (i + 1) as nat) is Err);
                            lemma_view_texts_error(list@, (i + 1) as nat, list@.len());
                        }
                        return Err(error);
                    },
                }
                i += 1;
            }
            Ok(tags)
        },
        None => if len == 0 {
            let tags: Vec<String> = Vec::new();
            assert(texts(tags@) =~= Seq::<Seq<char>>::empty());
            Ok(tags)
        } else {
            Err(CApiError::literal(ImqrawStatusCode::NullPointer, "tag array pointer is null"))
        },
    }
}

/// The first `count` explicit planes, or the failure of the first bad one.
pub open spec fn view_planes(
    planes: Seq<ImqrawEncodePlane<'_>>,
    count: nat,
) -> core::result::Result<Seq<PlaneModel>, ErrorModel>
    decreases count,
{
    if count == 0 {
        Ok(Seq::empty())
    } else {
        match view_planes(planes, (count - 1) as nat) {
            Ok(before) => match view_bytes(planes[count - 1].data) {
                Ok(data) => Ok(
                    before.push(PlaneModel { data, stride: planes[count - 1].stride as nat }),
                ),
                Err(error) => Err(error),
            },
            Err(error) => Err(error),
        }
    }
}

proof fn lemma_view_planes_error(planes: Seq<ImqrawEncodePlane<'_>>, some: nat, all: nat)
    requires
        some <= all,
        view_planes(planes, some) is Err,
    ensures
        view_planes(planes, all) == view_planes(planes, some),
    decreases all,
{
    if some < all {
        lemma_view_planes_error(planes, some, (all - 1) as nat);
    }
}

fn owned_views(planes: &[ImqrawEncodePlane<'_>]) -> (result: core::result::Result<
    Vec<OwnedPlane>,
    CApiError,
>)
    ensures
        match result {
            Ok(owned) => view_planes(planes@, planes@.len()) == Ok::<Seq<PlaneModel>, ErrorModel>(
                owned_planes_model(owned@),
            ),
            Err(error) => view_planes(planes@, planes@.len()) == Err::<
                Seq<PlaneModel>,
                ErrorModel,
            >(error@),
        },
{
    let mut owned: Vec<OwnedPlane> = Vec::new();
    let mut i: usize = 0;
    assert(owned_planes_model(owned@) =~= Seq::<PlaneModel>::empty());
    while i < planes.len()
        invariant
            i <= planes@.len(),
            view_planes(planes@, i as nat) == Ok::<Seq<PlaneModel>, ErrorModel>(
                owned_planes_model(owned@),
            ),
        decreases planes@.len() - i,
    {
        let ghost before = owned@;
        match byte_slice(planes[i].data) {
            Ok(data) => {
                let plane = OwnedPlane::new(data, planes[i].stride);
                owned.push(plane);
                assert(owned_planes_model(owned@) =~= owned_planes_model(before).push(plane@));
            },
            Err(error) => {
                proof {
                    assert(view_planes(planes@, (i + 1) as nat) is Err);
                    lemma_view_planes_error(planes@, (i + 1) as nat, planes@.len());
                }
                return Err(error);
            },
        }
        i += 1;
    }
    Ok(owned)
}

/// A library result as the C interface reports it.
pub open spec fn reported<T>(
    code: ImqrawStatusCode,
    result: core::result::Result<T, ErrorView>,
) -> core::result::Result<T, ErrorModel> {
    match result {
        Ok(value) => Ok(value),
        Err(error) => Err(failure(code, error.message())),
    }
}

/// The tight pixels of a packed format as a frame with the given metadata, or why there
/// is none.
pub open spec fn tight_frame(data: Seq<u8>, width: u32, height: u32, format: FormatSpec) -> core::result::Result<
    FrameModel,
    ErrorView,
> {
    match checked_tight(data, width, height, format.pixel_format) {
        Ok(frame) => Ok(FrameModel { format, ..frame }),
        Err(error) => Err(error),
    }
}

/// The frame of an input image: tight pixels without explicit planes, else the
/// explicit planes. Both carry the given format with its metadata.
pub open spec fn image_frame(image: ImqrawEncodeImage<'_>, format: FormatSpec) -> core::result::Result<
    FrameModel,
    ErrorModel,
> {
    if image.plane_count == 0 {
        match view_bytes(image.data) {
            Ok(data) => reported(
                ImqrawStatusCode::EncodeError,
                tight_frame(data, image.width, image.height, format),
            ),
            Err(error) => Err(error),
        }
    } else {
        match image.planes {
            None => Err(failure(ImqrawStatusCode::NullPointer, "plane array pointer is null"@)),
            Some(planes) => match view_planes(planes@, planes@.len()) {
                Ok(planes) => reported(
                    ImqrawStatusCode::EncodeError,
                    (FrameModel {
                        dims: Dimensions { width: image.width, height: image.height },
                        format,
                        planes,
                    }).checked_sized(),
                ),
                Err(error) => Err(error),
            },
        }
    }
}

/// Every non-zero metadata code of an input image is kept, with explicit planes and with
/// tight pixels alike: the frame carries the format that the codes ask for.
pub proof fn law_codes_are_kept(image: ImqrawEncodeImage<'_>, format: FormatSpec)
    ensures
        image_frame(image, format) matches Ok(frame) ==> frame.format == format,
{
}

/// The fault that validation finds in a frame depends on its pixel format but not on the
/// rest of its metadata.
proof fn lemma_faults_ignore_metadata(frame: FrameModel, other: FrameModel, plane: int)
    requires
        other.dims == frame.dims,
        other.planes == frame.planes,
        other.format.pixel_format == frame.format.pixel_format,
    ensures
        other.fault_from(plane) == frame.fault_from(plane),
        other.valid() == frame.valid(),
    decreases frame.planes.len() - plane,
{
    assert forall|i: int| #[trigger] other.plane_fits(i) == frame.plane_fits(i) by {}
    if other.valid() {
        assert forall|i: int| 0 <= i < frame.planes.len() implies #[trigger] frame.plane_fits(i) by {
            assert(other.plane_fits(i));
        }
    }
    if 0 <= plane < frame.planes.len() {
        assert(other.plane_error(plane) == frame.plane_error(plane));
        lemma_faults_ignore_metadata(frame, other, plane + 1);
    }
}

/// Checks tight pixels and builds their frame.
fn tight_image(data: Vec<u8>, width: u32, height: u32, format: FormatSpec) -> (result: Result<
    FrameOwned,
>)
    ensures
        frame_outcome(result) == tight_frame(data@, width, height, format),
{
    let bytes: usize = match format.pixel_format.bytes_per_pixel() {
        Some(bytes) => bytes,
        None => return Err(Error::invalid_frame("packed_tight requires a packed pixel format")),
    };
    let stride: usize = match (width as usize).checked_mul(bytes) {
        Some(stride) => stride,
        None => return Err(Error::invalid_frame("stride overflows usize")),
    };
    let dims = match Dimensions::new(width, height) {
        Ok(dims) => dims,
        Err(error) => return Err(error),
    };
    let planes = vec![OwnedPlane::new(data, stride)];
    proof {
        let tight = packed_model(data@, width, height, format.pixel_format, stride as nat);
        assert(owned_planes_model(planes@) =~= tight.planes);
        lemma_faults_ignore_metadata(tight, FrameModel { format, ..tight }, 0);
    }
    FrameOwned::new(dims, format, planes)
}

fn frame_from_image(image: &ImqrawEncodeImage<'_>, format: FormatSpec) -> (result:
    core::result::Result<FrameOwned, CApiError>)
    ensures
        match result {
            Ok(frame) => image_frame(*image, format) == Ok::<FrameModel, ErrorModel>(frame@),
            Err(error) => image_frame(*image, format) == Err::<FrameModel, ErrorModel>(error@),
        },
{
    if image.plane_count == 0 {
        let data = match byte_slice(image.data) {
            Ok(data) => data,
            Err(error) => return Err(error),
        };
        return match tight_image(data, image.width, image.height, format) {
            Ok(frame) => Ok(frame),
            Err(error) => Err(CApiError::caused(ImqrawStatusCode::EncodeError, &error)),
        };
    }
    let views = match image.planes {
        Some(views) => views,
        None => return Err(
            CApiError::literal(ImqrawStatusCode::NullPointer, "plane array pointer is null"),
        ),
    };
    let planes = match owned_views(views) {
        Ok(planes) => planes,
        Err(error) => return Err(error),
    };
    let dims = match Dimensions::new(image.width, image.height) {
        Ok(dims) => dims,
        Err(error) => return Err(CApiError::caused(ImqrawStatusCode::EncodeError, &error)),
    };
    match FrameOwned::new(dims, format, planes) {
        Ok(frame) => Ok(frame),
        Err(error) => Err(CApiError::caused(ImqrawStatusCode::EncodeError, &error)),
    }
}

/// The record of an input image; its parts are checked in the order format, frame,
/// label, tags.
pub open spec fn image_record_model(
    image: ImqrawEncodeImage<'_>,
    override_pixel_format: Option<PixelFormat>,
) -> core::result::Result<RecordModel, ErrorModel> {
    let pixel_format = match override_pixel_format {
        Some(pixel_format) => Ok(pixel_format),
        None => requested_pixel_format(image.pixel_format),
    };
    match pixel_format {
        Err(error) => Err(error),
        Ok(pixel_format) => match requested_format(
            pixel_format,
            image.color_space,
            image.transfer,
            image.range,
        ) {
            Err(error) => Err(error),
            Ok(format) => match image_frame(image, format) {
                Err(error) => Err(error),
                Ok(frame) => match view_label(image.label) {
                    Err(error) => Err(error),
                    Ok(label) => match view_tags(image.tags, image.tag_count) {
                        Err(error) => Err(error),
                        Ok(tags) => Ok(RecordModel { label, tags, frame }),
                    },
                },
            },
        },
    }
}

fn image_record_for_encode(
    image: &ImqrawEncodeImage<'_>,
    override_pixel_format: Option<PixelFormat>,
) -> (result: core::result::Result<RawImageRecord, CApiError>)
    ensures
        match result {
            Ok(record) => image_record_model(*image, override_pixel_format) == Ok::<
                RecordModel,
                ErrorModel,
            >(record@),
            Err(error) => image_record_model(*image, override_pixel_format) == Err::<
                RecordModel,
                ErrorModel,
            >(error@),
        },
{
    let pixel_format = match override_pixel_format {
        Some(pixel_format) => pixel_format,
        None => match pixel_format_from_code(image.pixel_format) {
            Ok(pixel_format) => pixel_format,
            Err(error) => return Err(error),
        },
    };
    let format = match format_spec_from_codes(
        pixel_format,
        image.color_space,
        image.transfer,
        image.range,
    ) {
        Ok(format) => format,
        Err(error) => return Err(error),
    };
    let frame = match frame_from_image(image, format) {
        Ok(frame) => frame,
        Err(error) => return Err(error),
    };
    let label = match optional_string(image.label) {
        Ok(label) => label,
        Err(error) => return Err(error),
    };
    let tags = match string_views(image.tags, image.tag_count) {
        Ok(tags) => tags,
        Err(error) => return Err(error),
    };
    Ok(RawImageRecord::new(label, tags, frame))
}

/// The records of the first `count` input images, or the failure of the first bad one.
pub open spec fn image_records(
    images: Seq<ImqrawEncodeImage<'_>>,
    count: nat,
    override_pixel_format: Option<PixelFormat>,
) -> core::result::Result<Seq<RecordModel>, ErrorModel>
    decreases count,
{
    if count == 0 {
        Ok(Seq::empty())
    } else {
        match image_records(images, (count - 1) as nat, override_pixel_format) {
            Ok(before) => match image_record_model(images[count - 1], override_pixel_format) {
                Ok(record) => Ok(before.push(record)),
                Err(error) => Err(error),
            },
            Err(error) => Err(error),
        }
    }
}

proof fn lemma_image_records_error(
    images: Seq<ImqrawEncodeImage<'_>>,
    some: nat,
    all: nat,
    override_pixel_format: Option<PixelFormat>,
)
    requires
        some <= all,
        image_records(images, some, override_pixel_format) is Err,
    ensures
        image_records(images, all, override_pixel_format) == image_records(
            images,
            some,
            override_pixel_format,
        ),
    decreases all,
{
    if some < all {
        lemma_image_records_error(images, some, (all - 1) as nat, override_pixel_format);
    }
}

/// The encoded bundle of input images, or the failure that is reported instead.
pub open spec fn encoded_images(
    images: Option<&[ImqrawEncodeImage<'_>]>,
    image_count: usize,
    out_is_null: bool,
    override_pixel_format: Option<PixelFormat>,
) -> core::result::Result<Seq<u8>, ErrorModel> {
    match images {
        None => Err(failure(ImqrawStatusCode::NullPointer, "image array pointer is null"@)),
        Some(images) => if image_count == 0 {
            Err(
                failure(
                    ImqrawStatusCode::InvalidArgument,
                    "image count must be greater than zero"@,
                ),
            )
        } else if out_is_null {
            Err(failure(ImqrawStatusCode::NullPointer, "out buffer pointer is null"@))
        } else {
            match image_records(images@, images@.len(), override_pixel_format) {
                Err(error) => Err(error),
                Ok(records) => match bundle_fault(records) {
                    Some(fault) => Err(failure(ImqrawStatusCode::EncodeError, fault.message())),
                    None => Ok(bundle_bytes(records)),
                },
            }
        },
    }
}

fn encode_images(
    images: Option<&[ImqrawEncodeImage<'_>]>,
    image_count: usize,
    out_is_null: bool,
    override_pixel_format: Option<PixelFormat>,
) -> (result: core::result::Result<ImqrawByteBuffer, CApiError>)
    ensures
        match result {
            Ok(buffer) => encoded_images(images, image_count, out_is_null, override_pixel_format)
                == Ok::<Seq<u8>, ErrorModel>(buffer.bytes@),
            Err(error) => encoded_images(images, image_count, out_is_null, override_pixel_format)
                == Err::<Seq<u8>, ErrorModel>(error@),
        },
{
    let list = match images {
        Some(list) => list,
        None => return Err(
            CApiError::literal(ImqrawStatusCode::NullPointer, "image array pointer is null"),
        ),
    };
    if image_count == 0 {
        return Err(
            CApiError::literal(
                ImqrawStatusCode::InvalidArgument,
                "image count must be greater than zero",
            ),
        );
    }
    if out_is_null {
        return Err(CApiError::literal(ImqrawStatusCode::NullPointer, "out buffer pointer is null"));
    }
    let mut records: Vec<RawImageRecord> = Vec::new();
    let mut i: usize = 0;
    assert(records@.map_values(|record: RawImageRecord| record@) =~= Seq::<RecordModel>::empty());
    while i < list.len()
        invariant
            i <= list@.len(),
            images == Some(list),
            image_count != 0,
            !out_is_null,
            image_records(list@, i as nat, override_pixel_format) == Ok::<
                Seq<RecordModel>,
                ErrorModel,
            >(records@.map_values(|record: RawImageRecord| record@)),
        decreases list@.len() - i,
    {
        let ghost before = records@;
        match image_record_for_encode(&list[i], override_pixel_format) {
            Ok(record) => {
                records.push(record);
                assert(records@.map_values(|record: RawImageRecord| record@)
                    =~= before.map_values(|record: RawImageRecord| record@).push(record@));
            },
            Err(error) => {
                proof {
                    assert(image_records(list@, (i + 1) as nat, override_pixel_format) is Err);
                    lemma_image_records_error(
                        list@,
                        (i + 1) as nat,
                        list@.len(),
                        override_pixel_format,
                    );
                }
                return Err(error);
            },
        }
        i += 1;
    }
    match encode_bundle(&RawImageBundle::new(records)) {
        Ok(bytes) => Ok(ImqrawByteBuffer { bytes }),
        Err(error) => Err(CApiError::caused(ImqrawStatusCode::EncodeError, &error)),
    }
}

/// Encodes one tightly packed RGBA8 image into an `imqraw` bundle.
pub fn imqraw_encode_rgba8(images: Option<&[ImqrawEncodeImage<'_>]>, out_is_null: bool) -> (result: core::result::Result<ImqrawByteBuffer, CApiError>)
    ensures
        match result {
            Ok(buffer) => encoded_images(images, 1, out_is_null, Some(PixelFormat::Rgba8)) == Ok::<
                Seq<u8>,
                ErrorModel,
            >(buffer.bytes@),
            Err(error) => encoded_images(images, 1, out_is_null, Some(PixelFormat::Rgba8)) == Err::<
                Seq<u8>,
                ErrorModel,
            >(error@),
        },
{
    encode_images(images, 1, out_is_null, Some(PixelFormat::Rgba8))
}

/// Encodes one tightly packed Luma8 image into an `imqraw` bundle.
pub fn imqraw_encode_luma8(images: Option<&[ImqrawEncodeImage<'_>]>, out_is_null: bool) -> (result: core::result::Result<ImqrawByteBuffer, CApiError>)
    ensures
        match result {
            Ok(buffer) => encoded_images(images, 1, out_is_null, Some(PixelFormat::Luma8)) == Ok::<
                Seq<u8>,
                ErrorModel,
            >(buffer.bytes@),
            Err(error) => encoded_images(images, 1, out_is_null, Some(PixelFormat::Luma8)) == Err::<
                Seq<u8>,
                ErrorModel,
            >(error@),
        },
{
    encode_images(images, 1, out_is_null, Some(PixelFormat::Luma8))
}

/// Encodes one image into an `imqraw` bundle using its pixel-format code.
pub fn imqraw_encode_image(images: Option<&[ImqrawEncodeImage<'_>]>, out_is_null: bool) -> (result: core::result::Result<ImqrawByteBuffer, CApiError>)
    ensures
        match result {
            Ok(buffer) => encoded_images(images, 1, out_is_null, None) == Ok::<
                Seq<u8>,
                ErrorModel,
            >(buffer.bytes@),
            Err(error) => encoded_images(images, 1, out_is_null, None) == Err::<
                Seq<u8>,
                ErrorModel,
            >(error@),
        },
{
    encode_images(images, 1, out_is_null, None)
}

/// Encodes multiple images into one `imqraw` bundle.
pub fn imqraw_encode_bundle(
    images: Option<&[ImqrawEncodeImage<'_>]>,
    image_count: usize,
    out_is_null: bool,
) -> (result: core::result::Result<ImqrawByteBuffer, CApiError>)
    ensures
        match result {
            Ok(buffer) => encoded_images(images, image_count, out_is_null, None) == Ok::<
                Seq<u8>,
                ErrorModel,
            >(buffer.bytes@),
            Err(error) => encoded_images(images, image_count, out_is_null, None) == Err::<
                Seq<u8>,
                ErrorModel,
            >(error@),
        },
{
    encode_images(images, image_count, out_is_null, None)
}

/// The bundle that a byte view decodes to, or the failure that is reported instead.
pub open spec fn decoded_view(bytes: ImqrawByteView<'_>, out_is_null: bool) -> core::result::Result<
    Seq<RecordModel>,
    ErrorModel,
> {
    if out_is_null {
        Err(failure(ImqrawStatusCode::NullPointer, "out bundle pointer is null"@))
    } else {
        match view_bytes(bytes) {
            Ok(bytes) => reported(ImqrawStatusCode::DecodeError, bundle_in(bytes)),
            Err(error) => Err(error),
        }
    }
}

/// Decodes an `imqraw` bundle into an opaque handle.
pub fn imqraw_bundle_decode(bytes: ImqrawByteView<'_>, out_is_null: bool) -> (result:
    core::result::Result<ImqrawBundle, CApiError>)
    ensures
        match result {
            Ok(handle) => decoded_view(bytes, out_is_null) == Ok::<Seq<RecordModel>, ErrorModel>(
                handle.bundle@,
            ),
            Err(error) => decoded_view(bytes, out_is_null) == Err::<Seq<RecordModel>, ErrorModel>(
                error@,
            ),
        },
{
    if out_is_null {
        return Err(CApiError::literal(ImqrawStatusCode::NullPointer, "out bundle pointer is null"));
    }
    let bytes = match byte_slice(bytes) {
        Ok(bytes) => bytes,
        Err(error) => return Err(error),
    };
    match decode_bundle(bytes.as_slice()) {
        Ok(bundle) => Ok(ImqrawBundle { bundle }),
        Err(error) => Err(CApiError::caused(ImqrawStatusCode::DecodeError, &error)),
    }
}

/// What is wrong with a handle and the place for a result, if anything.
pub open spec fn handle_fault(
    bundle: Option<&ImqrawBundle>,
    out_is_null: bool,
    out_message: Seq<char>,
) -> Option<ErrorModel> {
    if bundle is None {
        Some(failure(ImqrawStatusCode::NullPointer, "bundle pointer is null"@))
    } else if out_is_null {
        Some(failure(ImqrawStatusCode::NullPointer, out_message))
    } else {
        None
    }
}

/// What is wrong with an image request, if anything: the handle, then the index,
/// then the place for the result.
pub open spec fn image_fault(
    bundle: Option<&ImqrawBundle>,
    image_index: usize,
    out_is_null: bool,
    out_message: Seq<char>,
) -> Option<ErrorModel> {
    match bundle {
        None => Some(failure(ImqrawStatusCode::NullPointer, "bundle pointer is null"@)),
        Some(handle) => if image_index >= handle.bundle.records@.len() {
            Some(
                failure(
                    ImqrawStatusCode::InvalidArgument,
                    "image index "@ + decimal_text(image_index as nat) + " is out of range"@,
                ),
            )
        } else if out_is_null {
            Some(failure(ImqrawStatusCode::NullPointer, out_message))
        } else {
            None
        },
    }
}

fn bundle_ref<'a>(bundle: Option<&'a ImqrawBundle>) -> (result: core::result::Result<
    &'a ImqrawBundle,
    CApiError,
>)
    ensures
        match result {
            Ok(handle) => bundle == Some(handle),
            Err(error) => bundle is None && error@ == failure(
                ImqrawStatusCode::NullPointer,
                "bundle pointer is null"@,
            ),
        },
{
    match bundle {
        Some(handle) => Ok(handle),
        None => Err(CApiError::literal(ImqrawStatusCode::NullPointer, "bundle pointer is null")),
    }
}

fn image_record<'a>(
    bundle: Option<&'a ImqrawBundle>,
    image_index: usize,
    out_is_null: bool,
    out_message: &str,
) -> (result: core::result::Result<&'a RawImageRecord, CApiError>)
    ensures
        match result {
            Ok(record) => image_fault(bundle, image_index, out_is_null, out_message@) is None
                && *record == bundle->0.bundle.records@[image_index as int],
            Err(error) => image_fault(bundle, image_index, out_is_null, out_message@) == Some(
                error@,
            ),
        },
{
    let handle = match bundle_ref(bundle) {
        Ok(handle) => handle,
        Err(error) => return Err(error),
    };
    if image_index >= handle.bundle.records.len() {
        return Err(
            CApiError::new(
                ImqrawStatusCode::InvalidArgument,
                concat3(
                    "image index ",
                    decimal(image_index as u64).as_str(),
                    " is out of range",
                ),
            ),
        );
    }
    if out_is_null {
        return Err(CApiError::literal(ImqrawStatusCode::NullPointer, out_message));
    }
    Ok(&handle.bundle.records[image_index])
}

/// Returns the number of images in a decoded bundle.
pub fn imqraw_bundle_image_count(bundle: Option<&ImqrawBundle>, out_is_null: bool) -> (result:
    core::result::Result<usize, CApiError>)
    ensures
        match result {
            Ok(count) => handle_fault(bundle, out_is_null, "out count pointer is null"@) is None
                && count == bundle->0.bundle@.len(),
            Err(error) => handle_fault(bundle, out_is_null, "out count pointer is null"@) == Some(
                error@,
            ),
        },
{
    let handle = match bundle_ref(bundle) {
        Ok(handle) => handle,
        Err(error) => return Err(error),
    };
    if out_is_null {
        return Err(CApiError::literal(ImqrawStatusCode::NullPointer, "out count pointer is null"));
    }
    Ok(handle.bundle.records.len())
}

/// The metadata of a record as C callers see it.
pub open spec fn info_of(record: RecordModel) -> ImqrawImageInfo {
    ImqrawImageInfo {
        width: record.frame.dims.width,
        height: record.frame.dims.height,
        pixel_format: pixel_format_number(record.frame.format.pixel_format),
        color_space: color_space_number(record.frame.format.color_space),
        transfer: transfer_number(record.frame.format.transfer),
        range: color_range_number(record.frame.format.range),
        plane_count: record.frame.planes.len() as usize,
    }
}

/// Returns metadata for one image in a decoded bundle.
pub fn imqraw_bundle_image_info(
    bundle: Option<&ImqrawBundle>,
    image_index: usize,
    out_is_null: bool,
) -> (result: core::result::Result<ImqrawImageInfo, CApiError>)
    ensures
        match result {
            Ok(info) => image_fault(
                bundle,
                image_index,
                out_is_null,
                "out info pointer is null"@,
            ) is None && info == info_of(bundle->0.bundle@[image_index as int]),
            Err(error) => image_fault(
                bundle,
                image_index,
                out_is_null,
                "out info pointer is null"@,
            ) == Some(error@),
        },
{
    let record = match image_record(
        bundle,
        image_index,
        out_is_null,
        "out info pointer is null",
    ) {
        Ok(record) => record,
        Err(error) => return Err(error),
    };
    let dims = record.frame.dimensions();
    let format = record.frame.format();
    Ok(
        ImqrawImageInfo {
            width: dims.width,
            height: dims.height,
            pixel_format: pixel_format_code(format.pixel_format),
            color_space: color_space_code(format.color_space),
            transfer: transfer_code(format.transfer),
            range: color_range_code(format.range),
            plane_count: record.frame.owned_planes().len(),
        },
    )
}

/// A view of a text's UTF-8 bytes.
pub open spec fn views_text(view: ImqrawStringView<'_>, text: Seq<char>) -> bool {
    view.bytes matches Some(bytes) && bytes@ == encode_utf8(text) && view.len == bytes@.len()
}

fn string_view_from_str(value: &str) -> (view: ImqrawStringView<'_>)
    ensures
        views_text(view, value@),
{
    let bytes = value.as_bytes();
    ImqrawStringView { bytes: Some(bytes), len: bytes.len() }
}

/// Returns a borrowed UTF-8 label view for one image; it is null without a label.
pub fn imqraw_bundle_image_label<'a>(
    bundle: Option<&'a ImqrawBundle>,
    image_index: usize,
    out_is_null: bool,
) -> (result: core::result::Result<ImqrawStringView<'a>, CApiError>)
    ensures
        match result {
            Ok(view) => image_fault(
                bundle,
                image_index,
                out_is_null,
                "out label pointer is null"@,
            ) is None && match bundle->0.bundle@[image_index as int].label {
                Some(label) => views_text(view, label),
                None => view.bytes is None && view.len == 0,
            },
            Err(error) => image_fault(
                bundle,
                image_index,
                out_is_null,
                "out label pointer is null"@,
            ) == Some(error@),
        },
{
    let record = match image_record(
        bundle,
        image_index,
        out_is_null,
        "out label pointer is null",
    ) {
        Ok(record) => record,
        Err(error) => return Err(error),
    };
    match &record.label {
        Some(label) => Ok(string_view_from_str(label.as_str())),
        None => Ok(ImqrawStringView { bytes: None, len: 0 }),
    }
}

/// Returns the number of tags on one image.
pub fn imqraw_bundle_image_tag_count(
    bundle: Option<&ImqrawBundle>,
    image_index: usize,
    out_is_null: bool,
) -> (result: core::result::Result<usize, CApiError>)
    ensures
        match result {
            Ok(count) => image_fault(
                bundle,
                image_index,
                out_is_null,
                "out tag count pointer is null"@,
            ) is None && count == bundle->0.bundle@[image_index as int].tags.len(),
            Err(error) => image_fault(
                bundle,
                image_index,
                out_is_null,
                "out tag count pointer is null"@,
            ) == Some(error@),
        },
{
    match image_record(bundle, image_index, out_is_null, "out tag count pointer is null") {
        Ok(record) => Ok(record.tags.len()),
        Err(error) => Err(error),
    }
}

/// Message for an index behind the last item.
pub open spec fn range_failure(what: Seq<char>, index: usize) -> ErrorModel {
    failure(
        ImqrawStatusCode::InvalidArgument,
        what + " index "@ + decimal_text(index as nat) + " is out of range"@,
    )
}

fn range_error(what: &str, index: usize) -> (error: CApiError)
    ensures
        error@ == range_failure(what@, index),
{
    CApiError::new(
        ImqrawStatusCode::InvalidArgument,
        concat4(what, " index ", decimal(index as u64).as_str(), " is out of range"),
    )
}

/// Returns one borrowed UTF-8 tag view.
pub fn imqraw_bundle_image_tag<'a>(
    bundle: Option<&'a ImqrawBundle>,
    image_index: usize,
    tag_index: usize,
    out_is_null: bool,
) -> (result: core::result::Result<ImqrawStringView<'a>, CApiError>)
    ensures
        match image_fault(bundle, image_index, out_is_null, "out tag pointer is null"@) {
            Some(fault) => result matches Err(error) && error@ == fault,
            None => {
                let tags = bundle->0.bundle@[image_index as int].tags;
                match result {
                    Ok(view) => tag_index < tags.len() && views_text(view, tags[tag_index as int]),
                    Err(error) => tag_index >= tags.len() && error@ == range_failure(
                        "tag"@,
                        tag_index,
                    ),
                }
            },
        },
{
    let record = match image_record(bundle, image_index, out_is_null, "out tag pointer is null") {
        Ok(record) => record,
        Err(error) => return Err(error),
    };
    if tag_index < record.tags.len() {
        Ok(string_view_from_str(record.tags[tag_index].as_str()))
    } else {
        Err(range_error("tag", tag_index))
    }
}

/// Returns one borrowed plane view.
pub fn imqraw_bundle_image_plane<'a>(
    bundle: Option<&'a ImqrawBundle>,
    image_index: usize,
    plane_index: usize,
    out_is_null: bool,
) -> (result: core::result::Result<ImqrawPlaneView<'a>, CApiError>)
    ensures
        match image_fault(bundle, image_index, out_is_null, "out plane pointer is null"@) {
            Some(fault) => result matches Err(error) && error@ == fault,
            None => {
                let planes = bundle->0.bundle@[image_index as int].frame.planes;
                match result {
                    Ok(view) => plane_index < planes.len() && planes[plane_index as int] == (
                    PlaneModel { data: view.data@, stride: view.stride as nat }),
                    Err(error) => plane_index >= planes.len() && error@ == range_failure(
                        "plane"@,
                        plane_index,
                    ),
                }
            },
        },
{
    let record = match image_record(bundle, image_index, out_is_null, "out plane pointer is null") {
        Ok(record) => record,
        Err(error) => return Err(error),
    };
    let planes = record.frame.owned_planes();
    assert(owned_planes_model(planes@).len() == planes@.len());
    if plane_index < planes.len() {
        let plane = &planes[plane_index];
        assert(owned_planes_model(planes@)[plane_index as int] == plane@);
        Ok(ImqrawPlaneView { data: plane.data.as_slice(), stride: plane.stride })
    } else {
        Err(range_error("plane", plane_index))
    }
}

/// Requests name metadata by the numbers that bundles store; zero asks for the default,
/// and any other number is refused.
pub proof fn law_requested_codes(code: u16)
    ensures
        requested_pixel_format(code) is Ok <==> 1 <= code <= 14,
        requested_pixel_format(code) matches Ok(format) ==> crate::imqraw::pixel_format_number(
            format,
        ) == code,
        requested_color_space(code) is Ok <==> code <= 5 || code == 0xffff,
        requested_color_space(code) matches Ok(Some(space)) ==> color_space_number(space) == code,
        requested_color_space(code) == Ok::<Option<ColorSpace>, ErrorModel>(None) <==> code == 0,
        requested_transfer(code) is Ok <==> code <= 5 || code == 0xffff,
        requested_transfer(code) matches Ok(Some(transfer)) ==> transfer_number(transfer) == code,
        requested_transfer(code) == Ok::<Option<Transfer>, ErrorModel>(None) <==> code == 0,
        requested_color_range(code) is Ok <==> code <= 2,
        requested_color_range(code) matches Ok(Some(range)) ==> color_range_number(range) == code,
        requested_color_range(code) == Ok::<Option<ColorRange>, ErrorModel>(None) <==> code == 0,
{
}

/// A format keeps the layout, takes each metadata value that is asked for, and has the
/// layout's own default for each that is not.
pub proof fn law_formats_take_what_is_asked(
    pixel_format: PixelFormat,
    color_space: u16,
    transfer: u16,
    range: u16,
)
    ensures
        requested_format(pixel_format, color_space, transfer, range) matches Ok(format) ==> {
            let own = FormatSpec::standard(pixel_format);
            &&& format.pixel_format == pixel_format
            &&& color_space != 0 ==> color_space_number(format.color_space) == color_space
            &&& color_space == 0 ==> format.color_space == own.color_space
            &&& transfer != 0 ==> transfer_number(format.transfer) == transfer
            &&& transfer == 0 ==> format.transfer == own.transfer
            &&& range != 0 ==> color_range_number(format.range) == range
            &&& range == 0 ==> format.range == own.range
        },
        requested_format(pixel_format, color_space, transfer, range) is Ok <==> (color_space <= 5
            || color_space == 0xffff) && (transfer <= 5 || transfer == 0xffff) && range <= 2,
{
    law_requested_codes(color_space);
    law_requested_codes(transfer);
    law_requested_codes(range);
}

/// A record is the image it was made from: size and layout, the bytes as they were given,
/// tight or plane by plane, the label unless it is empty, and the tags in their order.
pub proof fn law_records_are_the_images(
    image: ImqrawEncodeImage<'_>,
    override_pixel_format: Option<PixelFormat>,
)
    requires
        image_record_model(image, override_pixel_format) is Ok,
    ensures
        ({
            let record = image_record_model(image, override_pixel_format)->Ok_0;
            let frame = record.frame;
            &&& frame.valid()
            &&& frame.dims.width == image.width && frame.dims.height == image.height
            &&& override_pixel_format matches Some(format) ==> frame.format.pixel_format == format
            &&& override_pixel_format is None ==> crate::imqraw::pixel_format_number(
                frame.format.pixel_format,
            ) == image.pixel_format
            &&& image.plane_count == 0 ==> {
                &&& frame.planes.len() == 1
                &&& frame.planes[0].data == match image.data.bytes {
                    Some(bytes) => bytes@,
                    None => Seq::empty(),
                }
                &&& frame.planes[0].stride == frame.format.pixel_format.row_bytes(frame.dims, 0)
            }
            &&& image.plane_count > 0 ==> (image.planes matches Some(planes) && {
                &&& frame.planes.len() == planes@.len()
                &&& forall|i: int|
                    0 <= i < planes@.len() ==> {
                        let plane = #[trigger] frame.planes[i];
                        &&& plane.stride == planes@[i].stride
                        &&& plane.data == match planes@[i].data.bytes {
                            Some(bytes) => bytes@,
                            None => Seq::empty(),
                        }
                    }
            })
            &&& record.label is Some <==> (image.label.bytes matches Some(bytes) && bytes@.len()
                > 0)
            &&& record.label matches Some(text) ==> (image.label.bytes matches Some(bytes)
                && encode_utf8(text) == bytes@)
            &&& image.tags is None ==> record.tags.len() == 0
            &&& image.tags matches Some(tags) ==> record.tags.len() == tags@.len() && forall|
                i: int,
            |
                0 <= i < tags@.len() ==> (tags@[i].bytes matches Some(bytes) ==> encode_utf8(
                    #[trigger] record.tags[i],
                ) == bytes@)
        }),
{
    let record = image_record_model(image, override_pixel_format)->Ok_0;
    let pixel_format = match override_pixel_format {
        Some(format) => format,
        None => requested_pixel_format(image.pixel_format)->Ok_0,
    };
    law_requested_codes(image.pixel_format);
    law_formats_take_what_is_asked(
        pixel_format,
        image.color_space,
        image.transfer,
        image.range,
    );
    let format = requested_format(
        pixel_format,
        image.color_space,
        image.transfer,
        image.range,
    )->Ok_0;
    if image.plane_count == 0 {
        let data = view_bytes(image.data)->Ok_0;
        let plain = checked_tight(data, image.width, image.height, format.pixel_format)->Ok_0;
        lemma_faults_ignore_metadata(plain, record.frame, 0);
    } else {
        let planes = image.planes->Some_0;
        lemma_viewed_planes(planes@, planes@.len());
    }
    if let Some(bytes) = image.label.bytes {
        vstd::utf8::decode_utf8_encode_utf8(bytes@);
        lemma_empty_text(bytes@);
    }
    if let Some(tags) = image.tags {
        lemma_viewed_texts(tags@, tags@.len());
        assert forall|i: int| 0 <= i < tags@.len() implies (tags@[i].bytes matches Some(bytes)
            ==> encode_utf8(#[trigger] record.tags[i]) == bytes@) by {
            if let Some(bytes) = tags@[i].bytes {
                assert(view_text(tags@[i]) == Ok::<Seq<char>, ErrorModel>(record.tags[i]));
                vstd::utf8::decode_utf8_encode_utf8(bytes@);
            }
        }
    }
}

/// Only no bytes stand for no text.
proof fn lemma_empty_text(bytes: Seq<u8>)
    requires
        valid_utf8(bytes),
    ensures
        decode_utf8(bytes).len() == 0 <==> bytes.len() == 0,
{
    vstd::utf8::decode_utf8_encode_utf8(bytes);
    let text = decode_utf8(bytes);
    if text.len() == 0 {
        assert(text =~= Seq::<char>::empty());
        assert(encode_utf8(text).len() == 0);
    }
    if bytes.len() == 0 {
        assert(bytes =~= Seq::<u8>::empty());
    }
}

proof fn lemma_viewed_planes(planes: Seq<ImqrawEncodePlane<'_>>, count: nat)
    requires
        count <= planes.len(),
    ensures
        view_planes(planes, count) matches Ok(models) ==> models.len() == count && forall|i: int|
            0 <= i < count ==> {
                let plane = #[trigger] models[i];
                &&& plane.stride == planes[i].stride
                &&& view_bytes(planes[i].data) == Ok::<Seq<u8>, ErrorModel>(plane.data)
            },
    decreases count,
{
    if count > 0 {
        lemma_viewed_planes(planes, (count - 1) as nat);
    }
}

proof fn lemma_viewed_texts(views: Seq<ImqrawStringView<'_>>, count: nat)
    requires
        count <= views.len(),
    ensures
        view_texts(views, count) matches Ok(read) ==> read.len() == count && forall|i: int|
            0 <= i < count ==> view_text(views[i]) == Ok::<Seq<char>, ErrorModel>(
                #[trigger] read[i],
            ),
    decreases count,
{
    if count > 0 {
        lemma_viewed_texts(views, (count - 1) as nat);
    }
}

/// Images become records one by one, in their order, and none is left out.
pub proof fn law_every_image_becomes_a_record(
    images: Seq<ImqrawEncodeImage<'_>>,
    count: nat,
    override_pixel_format: Option<PixelFormat>,
)
    requires
        count <= images.len(),
    ensures
        image_records(images, count, override_pixel_format) matches Ok(records) ==> {
            &&& records.len() == count
            &&& forall|i: int|
                0 <= i < count ==> image_record_model(images[i], override_pixel_format) == Ok::<
                    RecordModel,
                    ErrorModel,
                >(#[trigger] records[i])
        },
        image_records(images, count, override_pixel_format) is Err ==> exists|i: int|
            0 <= i < count && (#[trigger] image_record_model(
                images[i],
                override_pixel_format,
            )) is Err,
    decreases count,
{
    if count > 0 {
        law_every_image_becomes_a_record(images, (count - 1) as nat, override_pixel_format);
        let last = image_record_model(images[count - 1], override_pixel_format);
    }
}

/// The information on a decoded image is that of its record, by the numbers that bundles
/// store.
pub proof fn law_information_is_that_of_the_record(record: RecordModel)
    requires
        record.frame.planes.len() <= usize::MAX,
    ensures
        ({
            let info = info_of(record);
            let format = record.frame.format;
            &&& info.width == record.frame.dims.width
            &&& info.height == record.frame.dims.height
            &&& requested_pixel_format(info.pixel_format) matches Ok(value) ==> value
                == format.pixel_format
            &&& requested_color_space(info.color_space) == Ok::<Option<ColorSpace>, ErrorModel>(
                Some(format.color_space),
            )
            &&& requested_transfer(info.transfer) == Ok::<Option<Transfer>, ErrorModel>(
                Some(format.transfer),
            )
            &&& requested_color_range(info.range) == Ok::<Option<ColorRange>, ErrorModel>(
                Some(format.range),
            )
            &&& info.plane_count == record.frame.planes.len()
        }),
{
}

/// Encoding needs images, at least one, and a place for the result; what it gives is the
/// bundle of the images' records, which decodes to the same records.
pub proof fn law_encoded_images_are_bundles(
    images: Option<&[ImqrawEncodeImage<'_>]>,
    image_count: usize,
    out_is_null: bool,
    override_pixel_format: Option<PixelFormat>,
)
    ensures
        images is None || image_count == 0 || out_is_null ==> encoded_images(
            images,
            image_count,
            out_is_null,
            override_pixel_format,
        ) is Err,
        encoded_images(images, image_count, out_is_null, override_pixel_format) matches Ok(bytes)
            ==> {
            let records = image_records(
                images->Some_0@,
                images->Some_0@.len(),
                override_pixel_format,
            )->Ok_0;
            &&& records.len() == images->Some_0@.len()
            &&& bytes.len() >= 12
            &&& bytes[8] + 0x100 * bytes[9] + 0x1_0000 * bytes[10] + 0x100_0000 * bytes[11]
                == records.len()
            &&& decoded_view_of(bytes, records)
        },
{
    if let Ok(bytes) = encoded_images(images, image_count, out_is_null, override_pixel_format) {
        let list = images->Some_0@;
        let records = image_records(list, list.len(), override_pixel_format)->Ok_0;
        law_every_image_becomes_a_record(list, list.len(), override_pixel_format);
        law_encodable_bundles(records);
        if list.len() > 0 {
            law_bundles_start_with_their_count(records, records[0]);
        } else {
            let any = RecordModel {
                label: None,
                tags: Seq::empty(),
                frame: FrameModel {
                    dims: Dimensions { width: 1, height: 1 },
                    format: FormatSpec::standard(PixelFormat::Luma8),
                    planes: Seq::empty(),
                },
            };
            law_bundles_start_with_their_count(records, any);
        }
        assert forall|i: int| 0 <= i < records.len() implies (
        #[trigger] records[i]).frame.valid() by {
            law_records_are_the_images(list[i], override_pixel_format);
        }
        if bytes.len() <= usize::MAX && (forall|i: int|
            0 <= i < records.len() ==> kept_whole(#[trigger] records[i])) {
            assert forall|i: int| 0 <= i < records.len() implies storable(
                #[trigger] records[i],
            ) by {
                assert(kept_whole(records[i]));
                law_storable_records(records[i]);
            }
            law_decode_of_encode(records);
        }
    }
}

/// Whether a record's label and strides are read back as they are written.
pub open spec fn kept_whole(record: RecordModel) -> bool {
    &&& record.label matches Some(text) ==> encode_utf8(text).len() < 0xffff_ffff
    &&& forall|p: int|
        0 <= p < record.frame.planes.len() ==> (#[trigger] record.frame.planes[p]).stride
            <= usize::MAX
}

/// Whether bytes decode to records, as far as these are read back as they are written.
pub open spec fn decoded_view_of(bytes: Seq<u8>, records: Seq<RecordModel>) -> bool {
    bytes.len() <= usize::MAX && (forall|i: int|
        0 <= i < records.len() ==> kept_whole(#[trigger] records[i])) ==> bundle_in(bytes) == Ok::<
        Seq<RecordModel>,
        ErrorView,
    >(records)
}

/// Decoding needs bytes and a place for the result, and gives the records of the bundle.
pub proof fn law_decoded_views_are_bundles(bytes: ImqrawByteView<'_>, out_is_null: bool)
    ensures
        out_is_null ==> decoded_view(bytes, out_is_null) is Err,
        !out_is_null ==> match bytes.bytes {
            Some(given) => match bundle_in(given@) {
                Ok(records) => decoded_view(bytes, out_is_null) == Ok::<
                    Seq<RecordModel>,
                    ErrorModel,
                >(records),
                Err(_) => decoded_view(bytes, out_is_null) matches Err(error)
                    && error.code is DecodeError,
            },
            None => decoded_view(bytes, out_is_null) is Err,
        },
{
    if bytes.bytes is None && bytes.len == 0 {
        assert(bundle_in(Seq::<u8>::empty()) is Err);
    }
}

/// An image of a bundle can be asked about exactly when there is a bundle with such an
/// image and a place for the answer; each fault has its own code.
pub proof fn law_questions_that_are_answered(
    bundle: Option<&ImqrawBundle>,
    image_index: usize,
    out_is_null: bool,
    message: Seq<char>,
)
    ensures
        handle_fault(bundle, out_is_null, message) is None <==> bundle is Some && !out_is_null,
        handle_fault(bundle, out_is_null, message) matches Some(fault) ==> fault.code is NullPointer,
        image_fault(bundle, image_index, out_is_null, message) is None <==> (bundle matches Some(
            handle,
        ) && image_index < handle.bundle.records@.len()) && !out_is_null,
        bundle is None ==> image_fault(
            bundle,
            image_index,
            out_is_null,
            message,
        )->Some_0.code is NullPointer,
        bundle matches Some(handle) ==> (image_index >= handle.bundle.records@.len()
            ==> image_fault(
            bundle,
            image_index,
            out_is_null,
            message,
        )->Some_0.code is InvalidArgument),
{
}

/// An image becomes a record exactly when its codes are known, every pointer that is used
/// is there, its bytes hold the rows of its planes, and label and tags are UTF-8.
pub proof fn law_images_that_become_records(
    image: ImqrawEncodeImage<'_>,
    override_pixel_format: Option<PixelFormat>,
)
    ensures
        image_record_model(image, override_pixel_format) is Ok <==> {
            let there = |bytes: Option<&[u8]>, len: usize| bytes is Some || len == 0;
            let text = |view: ImqrawStringView<'_>|
                there(view.bytes, view.len) && (view.bytes matches Some(bytes) ==> valid_utf8(
                    bytes@,
                ));
            &&& override_pixel_format is Some || 1 <= image.pixel_format <= 14
            &&& image.color_space <= 5 || image.color_space == 0xffff
            &&& image.transfer <= 5 || image.transfer == 0xffff
            &&& image.range <= 2
            &&& acceptable_pixels(
                image,
                match override_pixel_format {
                    Some(format) => format,
                    None => requested_pixel_format(image.pixel_format)->Ok_0,
                },
            )
            &&& text(image.label)
            &&& match image.tags {
                Some(tags) => forall|i: int| 0 <= i < tags@.len() ==> text(#[trigger] tags@[i]),
                None => image.tag_count == 0,
            }
        },
{
    law_requested_codes(image.pixel_format);
    let pixel_format = match override_pixel_format {
        Some(format) => format,
        None => requested_pixel_format(image.pixel_format)->Ok_0,
    };
    law_formats_take_what_is_asked(
        pixel_format,
        image.color_space,
        image.transfer,
        image.range,
    );
    if let Ok(format) = requested_format(
        pixel_format,
        image.color_space,
        image.transfer,
        image.range,
    ) {
        lemma_acceptable_pixels(image, format);
    }
    if let Some(tags) = image.tags {
        lemma_readable_texts(tags@, tags@.len());
    }
}

/// Whether the bytes of an image are there and hold the rows of its planes.
pub open spec fn acceptable_pixels(image: ImqrawEncodeImage<'_>, format: PixelFormat) -> bool {
    let dims = Dimensions { width: image.width, height: image.height };
    let holds = |view: ImqrawByteView<'_>, stride: nat, plane: nat|
        {
            let row = format.row_bytes(dims, plane);
            let rows = format.rows(dims, plane);
            let bytes: Seq<u8> = match view.bytes {
                Some(bytes) => bytes@,
                None => Seq::empty(),
            };
            &&& view.bytes is Some || view.len == 0
            &&& row <= u32::MAX && row <= stride && (rows - 1) * stride + row <= bytes.len()
        };
    &&& image.width > 0 && image.height > 0
    &&& if image.plane_count == 0 {
        format.pixel_bytes() is Some && holds(image.data, format.row_bytes(dims, 0), 0)
    } else {
        image.planes matches Some(planes) && planes@.len() == format.planes() && forall|i: int|
            0 <= i < planes@.len() ==> holds(
                (#[trigger] planes@[i]).data,
                planes@[i].stride as nat,
                i as nat,
            )
    }
}

proof fn lemma_acceptable_pixels(image: ImqrawEncodeImage<'_>, format: FormatSpec)
    ensures
        image_frame(image, format) is Ok <==> acceptable_pixels(image, format.pixel_format),
{
    let layout = format.pixel_format;
    let dims = Dimensions { width: image.width, height: image.height };
    if image.plane_count == 0 {
        if let Ok(data) = view_bytes(image.data) {
            if let Some(bytes) = layout.pixel_bytes() {
                let row = image.width as nat * bytes as nat;
                let frame = packed_model(data, image.width, image.height, layout, row);
                law_frames_are_refused_for_cause(frame);
                assert(layout.row_bytes(dims, 0) == row);
                assert(layout.planes() == 1);
                let plane = frame.planes[0];
                if acceptable_pixels(image, layout) {
                    assert(frame.valid());
                }
            }
        }
    } else if let Some(planes) = image.planes {
        lemma_viewed_planes(planes@, planes@.len());
        lemma_readable_planes(planes@, planes@.len());
        if let Ok(models) = view_planes(planes@, planes@.len()) {
            let frame = FrameModel { dims, format, planes: models };
            law_frames_are_refused_for_cause(frame);
            if frame.valid() {
                assert forall|i: int| 0 <= i < planes@.len() implies {
                    let plane = #[trigger] planes@[i];
                    let row = layout.row_bytes(dims, i as nat);
                    let rows = layout.rows(dims, i as nat);
                    let bytes: Seq<u8> = match plane.data.bytes {
                        Some(bytes) => bytes@,
                        None => Seq::empty(),
                    };
                    &&& plane.data.bytes is Some || plane.data.len == 0
                    &&& row <= u32::MAX && row <= plane.stride && (rows - 1) * plane.stride + row
                        <= bytes.len()
                } by {
                    let model = frame.planes[i];
                    assert(view_bytes(planes@[i].data) == Ok::<Seq<u8>, ErrorModel>(model.data));
                }
            }
            if acceptable_pixels(image, layout) {
                assert forall|i: int| 0 <= i < frame.planes.len() implies {
                    let plane = #[trigger] frame.planes[i];
                    let rows = layout.rows(dims, i as nat);
                    let row_bytes = layout.row_bytes(dims, i as nat);
                    &&& row_bytes <= u32::MAX
                    &&& row_bytes <= plane.stride
                    &&& (rows - 1) * plane.stride + row_bytes <= plane.data.len()
                } by {
                    let given = planes@[i];
                    assert(view_bytes(given.data) == Ok::<Seq<u8>, ErrorModel>(
                        frame.planes[i].data,
                    ));
                }
            }
        } else {
            let i = choose|i: int|
                0 <= i < planes@.len() && view_bytes((#[trigger] planes@[i]).data) is Err;
            let given = planes@[i];
        }
    }
}

proof fn lemma_readable_planes(planes: Seq<ImqrawEncodePlane<'_>>, count: nat)
    requires
        count <= planes.len(),
    ensures
        view_planes(planes, count) is Err ==> exists|i: int|
            0 <= i < count && view_bytes((#[trigger] planes[i]).data) is Err,
    decreases count,
{
    if count > 0 {
        lemma_readable_planes(planes, (count - 1) as nat);
        let last = planes[count - 1];
    }
}

proof fn lemma_readable_texts(views: Seq<ImqrawStringView<'_>>, count: nat)
    requires
        count <= views.len(),
    ensures
        view_texts(views, count) is Ok <==> forall|i: int|
            0 <= i < count ==> view_text(#[trigger] views[i]) is Ok,
    decreases count,
{
    if count > 0 {
        lemma_readable_texts(views, (count - 1) as nat);
        let last = views[count - 1];
    }
}

} // verus!
