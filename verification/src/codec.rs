//! The two encodings that are not this library's own: base64 text and PNG
//! images. Both are computed by other crates; what is stated of them here is
//! taken on trust.

use base64::engine::general_purpose::STANDARD;
use base64::Engine;
use vstd::prelude::*;

verus! {

/// The standard, padded base64 text of a byte string.
pub uninterp spec fn base64_standard(bytes: Seq<u8>) -> Seq<char>;

/// How the samples of a decoded pixel are laid out.
#[derive(Clone, Copy, Debug, PartialEq, Eq, Structural)]
pub enum ColorKind {
    Grayscale,
    Rgb,
    Indexed,
    GrayscaleAlpha,
    Rgba,
}

/// A decoded image: its samples row by row, eight bits each.
pub struct RawImage {
    pub data: Vec<u8>,
    pub width: u32,
    pub height: u32,
    pub color: ColorKind,
}

/// The contents of a decoded image.
pub struct RawImageView {
    pub data: Seq<u8>,
    pub width: u32,
    pub height: u32,
    pub color: ColorKind,
}

impl View for RawImage {
    type V = RawImageView;

    open spec fn view(&self) -> RawImageView {
        RawImageView {
            data: self.data@,
            width: self.width,
            height: self.height,
            color: self.color,
        }
    }
}

/// The first frame of a PNG byte stream with its samples brought to eight
/// bits, or `None` where the stream is not a PNG image that can be decoded.
pub uninterp spec fn png_decoded(bytes: Seq<u8>) -> Option<RawImageView>;

/// The error of the `png` crate's decoder. It is handed on as it comes and
/// never looked into.
#[verifier::external_type_specification]
#[verifier::external_body]
pub struct ExDecodingError(png::DecodingError);

/// The big-endian number in the four bytes of `bytes` from `at`.
pub open spec fn be32(bytes: Seq<u8>, at: int) -> nat {
    (bytes[at] as nat) * 16777216 + (bytes[at + 1] as nat) * 65536 + (bytes[at + 2] as nat) * 256
        + (bytes[at + 3] as nat)
}

/// The most samples an image may declare: with two bytes to a sample the
/// image still fits half the address space.
pub open spec fn sample_limit() -> nat {
    (usize::MAX / 16) as nat
}

/// The width and height that a PNG stream declares, where it is long enough
/// to declare any, call for no more than [`sample_limit`] samples of four
/// channels. The header of a PNG stream is its signature of eight bytes, the
/// length and the type of the first chunk in four bytes each, then width and
/// height.
pub open spec fn declared_size_fits(bytes: Seq<u8>) -> bool {
    bytes.len() >= 24 ==> be32(bytes, 16) * be32(bytes, 20) * 4 <= sample_limit()
}

/// Reads the big-endian number in the four bytes of `bytes` from `at`.
fn read_be32(bytes: &[u8], at: usize) -> (n: u64)
    requires
        at + 4 <= bytes@.len(),
    ensures
        n == be32(bytes@, at as int),
        n <= 0xFFFF_FFFF,
{
    let a: u64 = bytes[at] as u64;
    let b: u64 = bytes[at + 1] as u64;
    let c: u64 = bytes[at + 2] as u64;
    let d: u64 = bytes[at + 3] as u64;
    a * 16777216 + b * 65536 + c * 256 + d
}

/// Whether the size that a PNG stream declares is one that can be decoded
/// into memory.
pub fn size_fits(bytes: &[u8]) -> (fits: bool)
    ensures
        fits == declared_size_fits(bytes@),
{
    if bytes.len() < 24 {
        return true;
    }
    let w: u64 = read_be32(bytes, 16);
    let h: u64 = read_be32(bytes, 20);
    let limit: u64 = (usize::MAX / 16) as u64;
    assert(w * h <= 0xFFFF_FFFF * 0xFFFF_FFFF) by (nonlinear_arith)
        requires
            w <= 0xFFFF_FFFF,
            h <= 0xFFFF_FFFF,
    ;
    let pixels: u64 = w * h;
    pixels <= limit / 4
}

/// Calls `encode` of the `base64` crate on its `STANDARD` engine: the
/// standard alphabet with `=` padding. The text returned depends on the bytes
/// alone. The crate computes the length of the text before it encodes, and
/// stops the program where that length does not fit `usize`; inputs that
/// long are left out.
#[verifier::external_body]
pub(crate) fn encode_base64(bytes: &[u8]) -> (text: String)
    requires
        (bytes@.len() / 3) * 4 + 4 <= usize::MAX,
    ensures
        text@ == base64_standard(bytes@),
{
    STANDARD.encode(bytes)
}

/// Decodes a PNG stream with the `png` crate: `Decoder::new` on the bytes,
/// `set_transformations` with `Transformations::normalize_to_color8()`,
/// `read_info`, a buffer of `output_buffer_size` zeroed bytes, and
/// `next_frame` into it. The image returned holds that whole buffer with the
/// width, height and color type that `next_frame` reports. Whether decoding
/// succeeds, and what it yields, depends on the bytes alone. The crate
/// multiplies the declared width and height into the buffer size without a
/// check, so streams that declare more than the limit are left out.
#[verifier::external_body]
pub(crate) fn decode_png(bytes: &[u8]) -> (r: Result<RawImage, png::DecodingError>)
    requires
        declared_size_fits(bytes@),
    ensures
        r is Ok <==> png_decoded(bytes@) is Some,
        r is Ok ==> png_decoded(bytes@) == Some(r->Ok_0@),
{
    let mut decoder = png::Decoder::new(bytes);
    decoder.set_transformations(png::Transformations::normalize_to_color8());
    let mut reader = decoder.read_info()?;
    let mut data = vec![0; reader.output_buffer_size()];
    let info = reader.next_frame(&mut data)?;
    let color = match info.color_type {
        png::ColorType::Grayscale => ColorKind::Grayscale,
        png::ColorType::Rgb => ColorKind::Rgb,
        png::ColorType::Indexed => ColorKind::Indexed,
        png::ColorType::GrayscaleAlpha => ColorKind::GrayscaleAlpha,
        png::ColorType::Rgba => ColorKind::Rgba,
    };
    Ok(RawImage { data, width: info.width, height: info.height, color })
}

} // verus!
