//! Deciding how an image reaches the terminal, and what is sent: the probe
//! for shared-memory support, the reading of its reply, and the local and
//! the streamed transfer.
//!
//! Nothing here touches the terminal or the shared memory. Each function
//! says what is to be written where; the caller writes the segment, moves
//! the cursor, sends the frames in order, and releases the segment.

use crate::codec::{
    base64_standard, declared_size_fits, decode_png, encode_base64, png_decoded, size_fits,
    ColorKind, RawImage, RawImageView,
};
use crate::graphics::{
    commands, cursor_steps, local_command, offset_cursor, query_command, remote_frames,
    remote_frames_of, CommandView, ControlField, ControlValue, CursorStep, GraphicsCommand, Offset,
};
use crate::text::{chars_of, same_chars, to_chars};
use vstd::prelude::*;
use vstd::slice::slice_to_vec;
use vstd::string::*;

verus! {

/// The name of the shared-memory segment that holds an image.
pub const IMAGE_SEGMENT: &'static str = "/RCOWSAY_IMAGE";

/// The name of the shared-memory segment that the probe uses.
pub const TEST_SEGMENT: &'static str = "/RCOWSAY_TEST";

/// The reply of a terminal that can read the probe's segment.
pub const LOCAL_REPLY: &'static str = "Gi=31;OK";

/// How the image reaches the terminal.
#[derive(Clone, Copy, Debug, PartialEq, Eq, Structural)]
pub enum TransferMode {
    /// Through shared memory: the terminal runs on the same machine.
    Local,
    /// As text inside escape sequences.
    Remote,
}

/// Why an image cannot be sent.
#[derive(Clone, Copy, Debug, PartialEq, Eq, Structural)]
pub enum TransferError {
    /// The payload is not a PNG image that can be decoded.
    Decode,
    /// The decoded image is too large to be encoded as text.
    PayloadTooLarge,
}

/// What a shared-memory segment must hold before the frames are sent.
pub struct Segment {
    pub name: String,
    pub data: Vec<u8>,
}

/// The contents of a segment.
pub struct SegmentView {
    pub name: Seq<char>,
    pub data: Seq<u8>,
}

impl View for Segment {
    type V = SegmentView;

    open spec fn view(&self) -> SegmentView {
        SegmentView { name: self.name@, data: self.data@ }
    }
}

/// One exchange with the terminal: the segment to fill first, if any, the
/// cursor steps to take, and the frames to send in order.
pub struct Transmission {
    pub segment: Option<Segment>,
    pub cursor: Vec<CursorStep>,
    pub frames: Vec<GraphicsCommand>,
}

/// The contents of a transmission.
pub struct TransmissionView {
    pub segment: Option<SegmentView>,
    pub cursor: Seq<CursorStep>,
    pub frames: Seq<CommandView>,
}

impl View for Transmission {
    type V = TransmissionView;

    open spec fn view(&self) -> TransmissionView {
        TransmissionView {
            segment: match self.segment {
                Some(s) => Some(s@),
                None => None,
            },
            cursor: self.cursor@,
            frames: commands(self.frames@),
        }
    }
}

/// The three bytes that the probe puts into its segment.
pub open spec fn test_payload() -> Seq<u8> {
    seq![128u8, 49u8, 167u8]
}

/// The probe: the test segment and the query that names it.
pub open spec fn probe_transmission() -> TransmissionView {
    TransmissionView {
        segment: Some(SegmentView { name: TEST_SEGMENT@, data: test_payload() }),
        cursor: Seq::empty(),
        frames: seq![query_command(base64_standard(TEST_SEGMENT.spec_bytes()))],
    }
}

/// A local transfer: the payload as it is in the image segment, the cursor
/// moved, and one frame that names the segment.
pub open spec fn local_transmission(offset: Offset, image: Seq<u8>) -> TransmissionView {
    TransmissionView {
        segment: Some(SegmentView { name: IMAGE_SEGMENT@, data: image }),
        cursor: cursor_steps(offset),
        frames: seq![local_command(base64_standard(IMAGE_SEGMENT.spec_bytes()))],
    }
}

/// The format tag of decoded samples: 32 bits to the pixel with an alpha
/// channel, 24 without.
pub open spec fn pixel_format(color: ColorKind) -> u32 {
    match color {
        ColorKind::Rgba | ColorKind::GrayscaleAlpha => 32,
        _ => 24,
    }
}

/// A streamed transfer of a decoded image whose samples have the text
/// `encoded`: no segment, the cursor moved, and the text split over frames.
pub open spec fn remote_transmission(
    offset: Offset,
    image: RawImageView,
    encoded: Seq<char>,
) -> TransmissionView {
    TransmissionView {
        segment: None,
        cursor: cursor_steps(offset),
        frames: remote_frames(pixel_format(image.color), image.width, image.height, encoded),
    }
}

/// Whether the text of `len` bytes has a length that fits the machine.
pub open spec fn encodable(len: nat) -> bool {
    (len / 3) * 4 + 4 <= usize::MAX
}

/// What a streamed transfer of a PNG payload comes to.
pub open spec fn remote_outcome(offset: Offset, payload: Seq<u8>) -> Result<
    TransmissionView,
    TransferError,
> {
    if !declared_size_fits(payload) {
        Err(TransferError::Decode)
    } else {
        match png_decoded(payload) {
            None => Err(TransferError::Decode),
            Some(image) => if encodable(image.data.len()) {
                Ok(remote_transmission(offset, image, base64_standard(image.data)))
            } else {
                Err(TransferError::PayloadTooLarge)
            },
        }
    }
}

/// Whether a transmission that was returned is the one that was called for.
pub open spec fn delivers(
    r: Result<Transmission, TransferError>,
    want: Result<TransmissionView, TransferError>,
) -> bool {
    match r {
        Ok(t) => want == Ok::<TransmissionView, TransferError>(t@),
        Err(e) => want == Err::<TransmissionView, TransferError>(e),
    }
}

/// The two segments never share a name.
pub proof fn lemma_segment_names_differ()
    ensures
        IMAGE_SEGMENT@ != TEST_SEGMENT@,
{
    reveal_strlit("/RCOWSAY_IMAGE");
    reveal_strlit("/RCOWSAY_TEST");
    assert(IMAGE_SEGMENT@.len() == 14);
    assert(TEST_SEGMENT@.len() == 13);
}

/// The base64 text of a segment name.
fn encode_name(name: &str) -> (text: Vec<char>)
    requires
        is_ascii(name),
        name@.len() <= 64,
    ensures
        text@ == base64_standard(name.spec_bytes()),
{
    broadcast use is_ascii_spec_bytes;

    let bytes = name.as_bytes();
    let text = encode_base64(bytes);
    to_chars(text.as_str())
}

/// Whether the text of `len` bytes has a length that fits the machine.
pub fn fits_encoding(len: usize) -> (fits: bool)
    ensures
        fits == encodable(len as nat),
{
    len / 3 <= (usize::MAX - 4) / 4
}

/// The format tag of decoded samples.
pub fn format_of(color: ColorKind) -> (f: u32)
    ensures
        f == pixel_format(color),
{
    match color {
        ColorKind::Rgba | ColorKind::GrayscaleAlpha => 32,
        _ => 24,
    }
}

/// The probe for shared-memory support: three test bytes for the test
/// segment and the query frame that names it.
pub fn probe() -> (t: Transmission)
    ensures
        t@ == probe_transmission(),
{
    proof {
        reveal_strlit("/RCOWSAY_TEST");
    }
    let mut data: Vec<u8> = Vec::new();
    data.push(128);
    data.push(49);
    data.push(167);
    assert(data@ =~= test_payload());
    let payload = encode_name(TEST_SEGMENT);
    let mut control: Vec<ControlField> = Vec::new();
    control.push(ControlField { key: 'i', value: ControlValue::Number(31) });
    control.push(ControlField { key: 's', value: ControlValue::Number(1) });
    control.push(ControlField { key: 'v', value: ControlValue::Number(1) });
    control.push(ControlField { key: 'a', value: ControlValue::Letter('q') });
    control.push(ControlField { key: 't', value: ControlValue::Letter('s') });
    control.push(ControlField { key: 'f', value: ControlValue::Number(24) });
    let query = GraphicsCommand { control, payload };
    assert(query@.control =~= query_command(query@.payload).control);
    let mut frames: Vec<GraphicsCommand> = Vec::new();
    frames.push(query);
    let t = Transmission {
        segment: Some(Segment { name: TEST_SEGMENT.to_owned(), data }),
        cursor: Vec::new(),
        frames,
    };
    assert(t@.frames =~= probe_transmission().frames);
    assert(t@.cursor =~= probe_transmission().cursor);
    t
}

/// Whether the terminal's reply to the probe grants shared-memory support:
/// only the exact reply `Gi=31;OK` does. No reply in time, given as `None`,
/// and any other reply do not.
pub fn kitty_local_support(reply: Option<&str>) -> (local: bool)
    ensures
        local == (reply is Some && reply->Some_0@ == LOCAL_REPLY@),
{
    match reply {
        Some(text) => {
            let got = to_chars(text);
            let want = to_chars(LOCAL_REPLY);
            same_chars(&got, &want)
        },
        None => false,
    }
}

/// The transfer mode that a reply to the probe decides.
pub fn negotiate(reply: Option<&str>) -> (mode: TransferMode)
    ensures
        mode == mode_for(chars_of(reply)),
{
    if kitty_local_support(reply) {
        TransferMode::Local
    } else {
        TransferMode::Remote
    }
}

/// A local transfer of `image`: the bytes go into the image segment as they
/// are, and one frame tells the terminal to show what the segment holds.
pub fn kitty_image_local(offset: &Offset, image: &[u8]) -> (t: Transmission)
    ensures
        t@ == local_transmission(*offset, image@),
{
    proof {
        reveal_strlit("/RCOWSAY_IMAGE");
    }
    let payload = encode_name(IMAGE_SEGMENT);
    let mut control: Vec<ControlField> = Vec::new();
    control.push(ControlField { key: 'f', value: ControlValue::Number(100) });
    control.push(ControlField { key: 'a', value: ControlValue::Letter('T') });
    control.push(ControlField { key: 't', value: ControlValue::Letter('s') });
    let command = GraphicsCommand { control, payload };
    assert(command@.control =~= local_command(command@.payload).control);
    let mut frames: Vec<GraphicsCommand> = Vec::new();
    frames.push(command);
    let t = Transmission {
        segment: Some(Segment { name: IMAGE_SEGMENT.to_owned(), data: slice_to_vec(image) }),
        cursor: offset_cursor(offset),
        frames,
    };
    assert(t@.frames =~= local_transmission(*offset, image@).frames);
    t
}

/// A streamed transfer of a decoded image whose samples have the base64
/// text `encoded`.
pub fn stream_image(offset: &Offset, image: &RawImage, encoded: &str) -> (t: Transmission)
    ensures
        t@ == remote_transmission(*offset, image@, encoded@),
{
    let text = to_chars(encoded);
    Transmission {
        segment: None,
        cursor: offset_cursor(offset),
        frames: remote_frames_of(format_of(image.color), image.width, image.height, &text),
    }
}

/// A streamed transfer of a decoded image.
pub fn remote_transfer(offset: &Offset, image: &RawImage) -> (t: Transmission)
    requires
        encodable(image.data@.len()),
    ensures
        t@ == remote_transmission(*offset, image@, base64_standard(image.data@)),
{
    let encoded = encode_base64(image.data.as_slice());
    stream_image(offset, image, encoded.as_str())
}

/// A streamed transfer of the PNG image `payload`: the image is decoded,
/// its samples are encoded as base64 text, and the text is split over
/// frames.
///
/// Fails with [`TransferError::Decode`] exactly when the payload declares a
/// size beyond what can be decoded or is not a PNG image that can be
/// decoded, and with [`TransferError::PayloadTooLarge`] exactly when the
/// decoded samples are too many to encode.
pub fn kitty_image_remote(offset: &Offset, payload: &[u8]) -> (r: Result<
    Transmission,
    TransferError,
>)
    ensures
        delivers(r, remote_outcome(*offset, payload@)),
{
    if !size_fits(payload) {
        return Err(TransferError::Decode);
    }
    match decode_png(payload) {
        Err(_) => Err(TransferError::Decode),
        Ok(image) => {
            if fits_encoding(image.data.len()) {
                Ok(remote_transfer(offset, &image))
            } else {
                Err(TransferError::PayloadTooLarge)
            }
        },
    }
}

/// The mode that a reply to the probe decides: local for the exact reply
/// that grants shared-memory support, remote for any other and for none.
pub open spec fn mode_for(reply: Option<Seq<char>>) -> TransferMode {
    if reply == Some(LOCAL_REPLY@) {
        TransferMode::Local
    } else {
        TransferMode::Remote
    }
}

/// What a transfer in a given mode comes to.
pub open spec fn transfer_outcome(mode: TransferMode, offset: Offset, payload: Seq<u8>) -> Result<
    TransmissionView,
    TransferError,
> {
    match mode {
        TransferMode::Local => Ok(local_transmission(offset, payload)),
        TransferMode::Remote => remote_outcome(offset, payload),
    }
}

/// The transmission that shows `payload` in the given mode. A local
/// transfer passes the payload on as it is and cannot fail; a streamed one
/// decodes it first.
pub fn transfer(mode: TransferMode, offset: &Offset, payload: &[u8]) -> (r: Result<
    Transmission,
    TransferError,
>)
    ensures
        delivers(r, transfer_outcome(mode, *offset, payload@)),
{
    match mode {
        TransferMode::Local => Ok(kitty_image_local(offset, payload)),
        TransferMode::Remote => kitty_image_remote(offset, payload),
    }
}

/// The transmission that shows `image`: a local transfer where the reply to
/// the probe grants shared-memory support, a streamed one otherwise.
pub fn cow_image(reply: Option<&str>, offset: &Offset, image: &[u8]) -> (r: Result<
    Transmission,
    TransferError,
>)
    ensures
        delivers(r, transfer_outcome(mode_for(chars_of(reply)), *offset, image@)),
{
    transfer(negotiate(reply), offset, image)
}

} // verus!
