//! The terminal graphics protocol: cursor placement, the escape-sequence
//! frames, and the chunking of a payload over frames.

use crate::text::{copy_range, extend_range, join_with, to_text};
use vstd::prelude::*;

verus! {

/// The most payload characters one frame carries.
pub const CHUNK_SIZE: usize = 4096;

/// The most lines or columns one cursor step can move.
pub const STEP_MAX: u32 = 65535;

/// Where to draw, relative to the cursor: `x` columns to the right, and `y`
/// lines down, or up where `y` is negative.
#[derive(Clone, Copy, Debug, PartialEq, Eq, Structural)]
pub struct Offset {
    pub x: u32,
    pub y: i32,
}

/// Which way a cursor step goes. Steps down and up end in the first column.
#[derive(Clone, Copy, Debug, PartialEq, Eq, Structural)]
pub enum Direction {
    Down,
    Up,
    Right,
}

/// One cursor movement of at least one line or column.
#[derive(Clone, Copy, Debug, PartialEq, Eq, Structural)]
pub struct CursorStep {
    pub direction: Direction,
    pub count: u16,
}

/// The steps that move `n` times in one direction: none for 0, since a
/// terminal reads a step of 0 as a step of 1, and more than one where `n`
/// is beyond what a single step can hold.
pub open spec fn moves(direction: Direction, n: nat) -> Seq<CursorStep>
    decreases n,
{
    if n == 0 {
        Seq::empty()
    } else if n <= 65535 {
        seq![CursorStep { direction, count: n as u16 }]
    } else {
        seq![CursorStep { direction, count: 65535u16 }] + moves(direction, (n - 65535) as nat)
    }
}

/// The steps that apply an offset: down or up first, then right.
pub open spec fn cursor_steps(offset: Offset) -> Seq<CursorStep> {
    if offset.y > 0 {
        moves(Direction::Down, offset.y as nat) + moves(Direction::Right, offset.x as nat)
    } else {
        moves(Direction::Up, (-offset.y) as nat) + moves(Direction::Right, offset.x as nat)
    }
}

/// How far `steps` move in `direction` altogether.
pub open spec fn travelled(steps: Seq<CursorStep>, direction: Direction) -> nat
    decreases steps.len(),
{
    if steps.len() == 0 {
        0
    } else if steps.last().direction == direction {
        travelled(steps.drop_last(), direction) + steps.last().count as nat
    } else {
        travelled(steps.drop_last(), direction)
    }
}

/// Distances add up over a concatenation of steps.
pub proof fn lemma_travelled_concat(a: Seq<CursorStep>, b: Seq<CursorStep>, direction: Direction)
    ensures
        travelled(a + b, direction) == travelled(a, direction) + travelled(b, direction),
    decreases b.len(),
{
    if b.len() == 0 {
        assert(a + b =~= a);
    } else {
        lemma_travelled_concat(a, b.drop_last(), direction);
        assert((a + b).drop_last() =~= a + b.drop_last());
        assert((a + b).last() == b.last());
    }
}

/// What a single step travels.
proof fn lemma_travelled_single(step: CursorStep, direction: Direction)
    ensures
        travelled(seq![step], direction) == if step.direction == direction {
            step.count as nat
        } else {
            0
        },
{
    let one = seq![step];
    assert(one.drop_last() =~= Seq::<CursorStep>::empty());
    assert(travelled(one.drop_last(), direction) == 0);
    assert(one.last() == step);
}

/// The steps for `n` moves in one direction go `n` far in it and nowhere
/// else, and none of them is a step of 0.
pub proof fn lemma_moves_travel(direction: Direction, n: nat, other: Direction)
    ensures
        travelled(moves(direction, n), direction) == n,
        other != direction ==> travelled(moves(direction, n), other) == 0,
        forall|i: int|
            0 <= i < moves(direction, n).len() ==> (#[trigger] moves(direction, n)[i]).count > 0,
    decreases n,
{
    if n == 0 {
    } else if n <= 65535 {
        let step = CursorStep { direction, count: n as u16 };
        lemma_travelled_single(step, direction);
        lemma_travelled_single(step, other);
    } else {
        let step = CursorStep { direction, count: 65535u16 };
        let first = seq![step];
        let rest = moves(direction, (n - 65535) as nat);
        lemma_travelled_single(step, direction);
        lemma_travelled_single(step, other);
        lemma_moves_travel(direction, (n - 65535) as nat, other);
        lemma_travelled_concat(first, rest, direction);
        lemma_travelled_concat(first, rest, other);
        assert forall|i: int| 0 <= i < (first + rest).len() implies (#[trigger] (first
            + rest)[i]).count > 0 by {
            if i > 0 {
                assert((first + rest)[i] == rest[i - 1]);
            }
        }
    }
}

/// The steps for an offset move down by `y` lines, or up by `-y`, and right
/// by `x` columns, and never the other way.
pub proof fn lemma_cursor_steps_reach(offset: Offset)
    ensures
        travelled(cursor_steps(offset), Direction::Down) - travelled(
            cursor_steps(offset),
            Direction::Up,
        ) == offset.y,
        travelled(cursor_steps(offset), Direction::Down) == 0 || travelled(
            cursor_steps(offset),
            Direction::Up,
        ) == 0,
        travelled(cursor_steps(offset), Direction::Right) == offset.x,
{
    let right = moves(Direction::Right, offset.x as nat);
    lemma_moves_travel(Direction::Right, offset.x as nat, Direction::Down);
    lemma_moves_travel(Direction::Right, offset.x as nat, Direction::Up);
    if offset.y > 0 {
        let down = moves(Direction::Down, offset.y as nat);
        lemma_moves_travel(Direction::Down, offset.y as nat, Direction::Up);
        lemma_moves_travel(Direction::Down, offset.y as nat, Direction::Right);
        lemma_travelled_concat(down, right, Direction::Down);
        lemma_travelled_concat(down, right, Direction::Up);
        lemma_travelled_concat(down, right, Direction::Right);
    } else {
        let up = moves(Direction::Up, (-offset.y) as nat);
        lemma_moves_travel(Direction::Up, (-offset.y) as nat, Direction::Down);
        lemma_moves_travel(Direction::Up, (-offset.y) as nat, Direction::Right);
        lemma_travelled_concat(up, right, Direction::Down);
        lemma_travelled_concat(up, right, Direction::Up);
        lemma_travelled_concat(up, right, Direction::Right);
    }
}

/// Appends the steps that move `n` times in `direction`.
fn push_moves(steps: &mut Vec<CursorStep>, direction: Direction, n: u32)
    ensures
        final(steps)@ == old(steps)@ + moves(direction, n as nat),
{
    let mut left: u32 = n;
    assert(steps@ + moves(direction, left as nat) =~= old(steps)@ + moves(direction, n as nat));
    while left > STEP_MAX
        invariant
            steps@ + moves(direction, left as nat) == old(steps)@ + moves(direction, n as nat),
        decreases left,
    {
        let ghost before = steps@;
        steps.push(CursorStep { direction, count: 65535u16 });
        assert(steps@ + moves(direction, (left - 65535) as nat) =~= before + moves(
            direction,
            left as nat,
        ));
        left = left - STEP_MAX;
    }
    if left > 0 {
        let ghost before = steps@;
        steps.push(CursorStep { direction, count: left as u16 });
        assert(steps@ =~= before + moves(direction, left as nat));
    } else {
        assert(steps@ + moves(direction, 0) =~= steps@);
    }
}

/// The cursor steps that apply `offset`: down or up by `|y|` lines, then
/// right by `x` columns.
pub fn offset_cursor(offset: &Offset) -> (steps: Vec<CursorStep>)
    ensures
        steps@ == cursor_steps(*offset),
{
    let mut steps: Vec<CursorStep> = Vec::new();
    if offset.y > 0 {
        push_moves(&mut steps, Direction::Down, offset.y as u32);
    } else {
        let up: i64 = -(offset.y as i64);
        push_moves(&mut steps, Direction::Up, up as u32);
    }
    let ghost vertical = steps@;
    push_moves(&mut steps, Direction::Right, offset.x);
    assert(Seq::<CursorStep>::empty() + vertical =~= vertical);
    steps
}

/// What a control key is set to.
#[derive(Clone, Copy, Debug, PartialEq, Eq, Structural)]
pub enum ControlValue {
    Number(u32),
    Letter(char),
}

/// One `key=value` pair of a frame's control data.
#[derive(Clone, Copy, Debug, PartialEq, Eq, Structural)]
pub struct ControlField {
    pub key: char,
    pub value: ControlValue,
}

/// One escape-sequence frame: control fields and a payload.
pub struct GraphicsCommand {
    pub control: Vec<ControlField>,
    pub payload: Vec<char>,
}

/// The contents of a frame.
pub struct CommandView {
    pub control: Seq<ControlField>,
    pub payload: Seq<char>,
}

impl View for GraphicsCommand {
    type V = CommandView;

    open spec fn view(&self) -> CommandView {
        CommandView { control: self.control@, payload: self.payload@ }
    }
}

/// The contents of a list of frames.
pub open spec fn commands(v: Seq<GraphicsCommand>) -> Seq<CommandView> {
    Seq::new(v.len(), |i: int| v[i]@)
}

/// The character for a digit below ten.
pub open spec fn digit(d: nat) -> char {
    if d == 0 {
        '0'
    } else if d == 1 {
        '1'
    } else if d == 2 {
        '2'
    } else if d == 3 {
        '3'
    } else if d == 4 {
        '4'
    } else if d == 5 {
        '5'
    } else if d == 6 {
        '6'
    } else if d == 7 {
        '7'
    } else if d == 8 {
        '8'
    } else {
        '9'
    }
}

/// `n` in decimal, without leading zeros.
pub open spec fn decimal(n: nat) -> Seq<char>
    decreases n,
{
    if n < 10 {
        seq![digit(n)]
    } else {
        decimal(n / 10).push(digit(n % 10))
    }
}

/// A control field on the wire: key, `=`, value.
pub open spec fn field_text(f: ControlField) -> Seq<char> {
    match f.value {
        ControlValue::Number(n) => seq![f.key, '='] + decimal(n as nat),
        ControlValue::Letter(c) => seq![f.key, '=', c],
    }
}

/// The wire texts of a list of control fields.
pub open spec fn field_texts(fields: Seq<ControlField>) -> Seq<Seq<char>> {
    Seq::new(fields.len(), |i: int| field_text(fields[i]))
}

/// A frame on the wire: the introducer `ESC _ G`, the control fields
/// separated by commas, a semicolon, the payload, and the terminator
/// `ESC \`.
pub open spec fn wire(c: CommandView) -> Seq<char> {
    seq!['\u{1b}', '_', 'G'] + join_with(field_texts(c.control), ',') + seq![';'] + c.payload
        + seq!['\u{1b}', '\\']
}

/// The character for a digit below ten.
fn digit_char(d: u32) -> (c: char)
    requires
        d < 10,
    ensures
        c == digit(d as nat),
{
    if d == 0 {
        '0'
    } else if d == 1 {
        '1'
    } else if d == 2 {
        '2'
    } else if d == 3 {
        '3'
    } else if d == 4 {
        '4'
    } else if d == 5 {
        '5'
    } else if d == 6 {
        '6'
    } else if d == 7 {
        '7'
    } else if d == 8 {
        '8'
    } else {
        '9'
    }
}

/// Appends `n` in decimal.
fn push_decimal(out: &mut Vec<char>, n: u32)
    ensures
        final(out)@ == old(out)@ + decimal(n as nat),
    decreases n,
{
    if n >= 10 {
        push_decimal(out, n / 10);
    }
    out.push(digit_char(n % 10));
    assert(out@ =~= old(out)@ + decimal(n as nat));
}

/// Appends a control field as it goes on the wire.
fn push_field(out: &mut Vec<char>, f: &ControlField)
    ensures
        final(out)@ == old(out)@ + field_text(*f),
{
    out.push(f.key);
    out.push('=');
    match f.value {
        ControlValue::Number(n) => {
            push_decimal(out, n);
            assert(out@ =~= old(out)@ + field_text(*f));
        },
        ControlValue::Letter(c) => {
            out.push(c);
            assert(out@ =~= old(out)@ + field_text(*f));
        },
    }
}

impl GraphicsCommand {
    /// The frame as it goes on the wire.
    pub fn encode(&self) -> (s: String)
        ensures
            s@ == wire(self@),
    {
        let ghost texts = field_texts(self.control@);
        let mut out: Vec<char> = Vec::new();
        out.push('\u{1b}');
        out.push('_');
        out.push('G');
        let ghost intro = out@;
        let mut i: usize = 0;
        assert(texts.take(0) =~= Seq::<Seq<char>>::empty());
        assert(intro + join_with(texts.take(0), ',') =~= intro);
        while i < self.control.len()
            invariant
                i <= self.control.len(),
                texts == field_texts(self.control@),
                out@ == intro + join_with(texts.take(i as int), ','),
            decreases self.control.len() - i,
        {
            let ghost sofar = join_with(texts.take(i as int), ',');
            if i > 0 {
                out.push(',');
            }
            push_field(&mut out, &self.control[i]);
            proof {
                let next = texts.take(i + 1);
                assert(next.drop_last() =~= texts.take(i as int));
                assert(next.last() == field_text(self.control@[i as int]));
                if i > 0 {
                    assert(out@ =~= intro + join_with(next, ','));
                } else {
                    assert(sofar =~= Seq::<char>::empty());
                    assert(out@ =~= intro + join_with(next, ','));
                }
            }
            i += 1;
        }
        assert(texts.take(self.control.len() as int) =~= texts);
        out.push(';');
        extend_range(&mut out, &self.payload, 0, self.payload.len());
        out.push('\u{1b}');
        out.push('\\');
        proof {
            assert(self.payload@.subrange(0, self.payload.len() as int) =~= self.payload@);
            assert(intro =~= seq!['\u{1b}', '_', 'G']);
            assert(out@ =~= wire(self@));
        }
        to_text(&out)
    }
}

/// The field that sets `key` to a number.
pub open spec fn number(key: char, n: u32) -> ControlField {
    ControlField { key, value: ControlValue::Number(n) }
}

/// The field that sets `key` to a letter.
pub open spec fn letter(key: char, c: char) -> ControlField {
    ControlField { key, value: ControlValue::Letter(c) }
}

/// The continuation flag: 1 while more frames follow, 0 on the last.
pub open spec fn flag(more: bool) -> u32 {
    if more {
        1
    } else {
        0
    }
}

/// The frame that asks whether the terminal can read the shared-memory
/// segment named in the payload: `i=31,s=1,v=1,a=q,t=s,f=24`.
pub open spec fn query_command(payload: Seq<char>) -> CommandView {
    CommandView {
        control: seq![
            number('i', 31),
            number('s', 1),
            number('v', 1),
            letter('a', 'q'),
            letter('t', 's'),
            number('f', 24),
        ],
        payload,
    }
}

/// The frame that shows the image held by the shared-memory segment named
/// in the payload: `f=100,a=T,t=s`.
pub open spec fn local_command(payload: Seq<char>) -> CommandView {
    CommandView { control: seq![number('f', 100), letter('a', 'T'), letter('t', 's')], payload }
}

/// The first frame of a streamed image:
/// `f=<format>,s=<width>,v=<height>,a=T,t=d,m=<flag>`.
pub open spec fn first_frame(
    format: u32,
    width: u32,
    height: u32,
    more: bool,
    payload: Seq<char>,
) -> CommandView {
    CommandView {
        control: seq![
            number('f', format),
            number('s', width),
            number('v', height),
            letter('a', 'T'),
            letter('t', 'd'),
            number('m', flag(more)),
        ],
        payload,
    }
}

/// A later frame of a streamed image: `m=<flag>`.
pub open spec fn later_frame(more: bool, payload: Seq<char>) -> CommandView {
    CommandView { control: seq![number('m', flag(more))], payload }
}

/// The number of frames that carry a payload of `len` characters: one for
/// every 4096 characters begun, and one for an empty payload.
pub open spec fn frame_count(len: nat) -> nat {
    if len == 0 {
        1
    } else {
        (len + 4095) / 4096
    }
}

/// The part of `encoded` that frame number `k` carries.
pub open spec fn chunk(encoded: Seq<char>, k: int) -> Seq<char> {
    if (k + 1) * 4096 < encoded.len() {
        encoded.subrange(k * 4096, (k + 1) * 4096)
    } else {
        encoded.subrange(k * 4096, encoded.len() as int)
    }
}

/// Frame number `k` of a streamed image.
pub open spec fn remote_frame(
    format: u32,
    width: u32,
    height: u32,
    encoded: Seq<char>,
    k: int,
) -> CommandView {
    let more = k + 1 < frame_count(encoded.len());
    if k == 0 {
        first_frame(format, width, height, more, chunk(encoded, k))
    } else {
        later_frame(more, chunk(encoded, k))
    }
}

/// The frames that stream an encoded image.
pub open spec fn remote_frames(
    format: u32,
    width: u32,
    height: u32,
    encoded: Seq<char>,
) -> Seq<CommandView> {
    Seq::new(
        frame_count(encoded.len()),
        |k: int| remote_frame(format, width, height, encoded, k),
    )
}

/// The payloads of `frames`, one after the other.
pub open spec fn payloads(frames: Seq<CommandView>) -> Seq<char>
    decreases frames.len(),
{
    if frames.len() == 0 {
        Seq::empty()
    } else {
        payloads(frames.drop_last()) + frames.last().payload
    }
}

/// The payloads of the first `j` frames are the first `j` chunks.
proof fn lemma_payloads_prefix(format: u32, width: u32, height: u32, encoded: Seq<char>, j: nat)
    requires
        j <= frame_count(encoded.len()),
    ensures
        payloads(remote_frames(format, width, height, encoded).take(j as int)) == encoded.take(
            if j * 4096 < encoded.len() {
                (j * 4096) as int
            } else {
                encoded.len() as int
            },
        ),
    decreases j,
{
    let frames = remote_frames(format, width, height, encoded);
    if j == 0 {
        assert(payloads(frames.take(0)) =~= encoded.take(0));
    } else {
        lemma_payloads_prefix(format, width, height, encoded, (j - 1) as nat);
        let upto = frames.take(j as int);
        assert(upto.drop_last() =~= frames.take(j - 1));
        assert(upto.last().payload == chunk(encoded, j - 1));
        assert((j - 1) * 4096 <= encoded.len());
        assert(payloads(upto) =~= encoded.take(
            if j * 4096 < encoded.len() {
                (j * 4096) as int
            } else {
                encoded.len() as int
            },
        ));
    }
}

/// Chunking an encoded payload: a payload that is not empty takes as many
/// frames as it has chunks of 4096 characters, the last one counted even
/// when shorter; every frame but the last carries exactly 4096 characters
/// and the flag 1, the last carries the flag 0; and the payloads in order
/// are the encoded payload.
pub proof fn lemma_chunking(format: u32, width: u32, height: u32, encoded: Seq<char>)
    ensures
        remote_frames(format, width, height, encoded).len() == frame_count(encoded.len()),
        encoded.len() > 0 ==> (frame_count(encoded.len()) - 1) * 4096 < encoded.len()
            <= frame_count(encoded.len()) * 4096,
        payloads(remote_frames(format, width, height, encoded)) == encoded,
        forall|k: int|
            0 <= k < frame_count(encoded.len()) ==> (#[trigger] remote_frames(
                format,
                width,
                height,
                encoded,
            )[k]).control.last() == number('m', flag(k + 1 < frame_count(encoded.len()))),
        forall|k: int|
            0 <= k < frame_count(encoded.len()) - 1 ==> (#[trigger] remote_frames(
                format,
                width,
                height,
                encoded,
            )[k]).payload.len() == 4096,
        remote_frames(format, width, height, encoded).last().payload.len() <= 4096,
{
    let frames = remote_frames(format, width, height, encoded);
    let count = frame_count(encoded.len());
    lemma_payloads_prefix(format, width, height, encoded, count);
    assert(frames.take(count as int) =~= frames);
    assert(encoded.take(encoded.len() as int) =~= encoded);
}

/// Splits an encoded payload over frames.
pub fn remote_frames_of(format: u32, width: u32, height: u32, encoded: &Vec<char>) -> (frames: Vec<
    GraphicsCommand,
>)
    ensures
        commands(frames@) == remote_frames(format, width, height, encoded@),
{
    let len: usize = encoded.len();
    let count: usize = if len == 0 {
        1
    } else {
        (len - 1) / CHUNK_SIZE + 1
    };
    assert(count == frame_count(len as nat));
    let mut frames: Vec<GraphicsCommand> = Vec::new();
    let mut k: usize = 0;
    while k < count
        invariant
            k <= count,
            len == encoded.len(),
            count == frame_count(len as nat),
            commands(frames@) == Seq::new(
                k as nat,
                |j: int| remote_frame(format, width, height, encoded@, j),
            ),
        decreases count - k,
    {
        let start: usize = k * CHUNK_SIZE;
        let end: usize = if len - start > CHUNK_SIZE {
            start + CHUNK_SIZE
        } else {
            len
        };
        let more: bool = k + 1 < count;
        let payload = copy_range(encoded, start, end);
        assert(payload@ == chunk(encoded@, k as int));
        let mut control: Vec<ControlField> = Vec::new();
        if k == 0 {
            control.push(ControlField { key: 'f', value: ControlValue::Number(format) });
            control.push(ControlField { key: 's', value: ControlValue::Number(width) });
            control.push(ControlField { key: 'v', value: ControlValue::Number(height) });
            control.push(ControlField { key: 'a', value: ControlValue::Letter('T') });
            control.push(ControlField { key: 't', value: ControlValue::Letter('d') });
        }
        let m: u32 = if more {
            1
        } else {
            0
        };
        control.push(ControlField { key: 'm', value: ControlValue::Number(m) });
        let frame = GraphicsCommand { control, payload };
        proof {
            let want = remote_frame(format, width, height, encoded@, k as int);
            assert(frame@.control =~= want.control);
            assert(frame@ == want);
        }
        let ghost before = commands(frames@);
        frames.push(frame);
        assert(commands(frames@) =~= before.push(
            remote_frame(format, width, height, encoded@, k as int),
        ));
        assert(commands(frames@) =~= Seq::new(
            (k + 1) as nat,
            |j: int| remote_frame(format, width, height, encoded@, j),
        ));
        k += 1;
    }
    frames
}

} // verus!
