use rcowsay::codec::{size_fits, ColorKind, RawImage};
use rcowsay::graphics::{
    offset_cursor, remote_frames_of, ControlField, ControlValue, CursorStep, Direction,
    GraphicsCommand, Offset,
};
use rcowsay::terminal::{ReplyListener, TerminalKey};
use rcowsay::transfer::{
    cow_image, fits_encoding, format_of, kitty_image_local, kitty_image_remote,
    kitty_local_support, negotiate, probe, remote_transfer, stream_image, transfer, TransferError,
    TransferMode, Transmission, IMAGE_SEGMENT, LOCAL_REPLY, TEST_SEGMENT,
};

const RGB_1X1: [u8; 69] = [
    137, 80, 78, 71, 13, 10, 26, 10, 0, 0, 0, 13, 73, 72, 68, 82, 0, 0, 0, 1, 0, 0, 0, 1, 8, 2, 0,
    0, 0, 144, 119, 83, 222, 0, 0, 0, 12, 73, 68, 65, 84, 120, 218, 99, 224, 18, 145, 3, 0, 0, 104,
    0, 61, 106, 245, 112, 91, 0, 0, 0, 0, 73, 69, 78, 68, 174, 66, 96, 130,
];

const RGBA_2X1: [u8; 71] = [
    137, 80, 78, 71, 13, 10, 26, 10, 0, 0, 0, 13, 73, 72, 68, 82, 0, 0, 0, 2, 0, 0, 0, 1, 8, 6, 0,
    0, 0, 244, 34, 127, 138, 0, 0, 0, 14, 73, 68, 65, 84, 120, 218, 99, 96, 100, 98, 254, 15, 194,
    0, 6, 59, 2, 11, 136, 24, 216, 147, 0, 0, 0, 0, 73, 69, 78, 68, 174, 66, 96, 130,
];

const RGBA_40X40: [u8; 112] = [
    137, 80, 78, 71, 13, 10, 26, 10, 0, 0, 0, 13, 73, 72, 68, 82, 0, 0, 0, 40, 0, 0, 0, 40, 8, 6,
    0, 0, 0, 140, 254, 184, 109, 0, 0, 0, 55, 73, 68, 65, 84, 120, 218, 237, 206, 183, 13, 0, 0, 8,
    0, 32, 203, 255, 55, 235, 21, 38, 14, 12, 236, 68, 86, 207, 103, 33, 40, 40, 40, 40, 40, 40,
    40, 40, 40, 40, 40, 40, 40, 40, 40, 40, 40, 40, 40, 40, 40, 40, 40, 120, 99, 1, 139, 183, 95,
    155, 64, 11, 176, 169, 0, 0, 0, 0, 73, 69, 78, 68, 174, 66, 96, 130,
];

const GRAY_ALPHA_1X1: [u8; 68] = [
    137, 80, 78, 71, 13, 10, 26, 10, 0, 0, 0, 13, 73, 72, 68, 82, 0, 0, 0, 1, 0, 0, 0, 1, 8, 4, 0,
    0, 0, 181, 28, 12, 2, 0, 0, 0, 11, 73, 68, 65, 84, 120, 218, 99, 96, 255, 15, 0, 1, 16, 1, 7,
    149, 123, 23, 188, 0, 0, 0, 0, 73, 69, 78, 68, 174, 66, 96, 130,
];

const GRAY_1X1: [u8; 67] = [
    137, 80, 78, 71, 13, 10, 26, 10, 0, 0, 0, 13, 73, 72, 68, 82, 0, 0, 0, 1, 0, 0, 0, 1, 8, 0, 0,
    0, 0, 58, 126, 155, 85, 0, 0, 0, 10, 73, 68, 65, 84, 120, 218, 99, 96, 7, 0, 0, 9, 0, 8, 141,
    171, 185, 1, 0, 0, 0, 0, 73, 69, 78, 68, 174, 66, 96, 130,
];

fn step(direction: Direction, count: u16) -> CursorStep {
    CursorStep { direction, count }
}

fn wire(t: &Transmission) -> Vec<String> {
    t.frames.iter().map(|f| f.encode()).collect()
}

fn sent(r: Result<Transmission, TransferError>) -> Transmission {
    match r {
        Ok(t) => t,
        Err(e) => panic!("transfer failed: {:?}", e),
    }
}

fn failure(r: Result<Transmission, TransferError>) -> TransferError {
    match r {
        Ok(_) => panic!("transfer went through"),
        Err(e) => e,
    }
}

#[test]
fn offsets_become_cursor_steps() {
    assert_eq!(
        offset_cursor(&Offset { x: 11, y: -1 }),
        vec![step(Direction::Up, 1), step(Direction::Right, 11)]
    );
    assert_eq!(
        offset_cursor(&Offset { x: 4, y: -2 }),
        vec![step(Direction::Up, 2), step(Direction::Right, 4)]
    );
    assert_eq!(
        offset_cursor(&Offset { x: 3, y: 7 }),
        vec![step(Direction::Down, 7), step(Direction::Right, 3)]
    );
    assert_eq!(offset_cursor(&Offset { x: 5, y: 0 }), vec![step(Direction::Right, 5)]);
    assert_eq!(offset_cursor(&Offset { x: 0, y: 2 }), vec![step(Direction::Down, 2)]);
    assert!(offset_cursor(&Offset { x: 0, y: 0 }).is_empty());
}

#[test]
fn offsets_beyond_one_step_take_several() {
    assert_eq!(
        offset_cursor(&Offset { x: 70000, y: 65535 }),
        vec![step(Direction::Down, 65535), step(Direction::Right, 65535), step(Direction::Right, 4465)]
    );
    assert_eq!(
        offset_cursor(&Offset { x: 0, y: -131071 }),
        vec![step(Direction::Up, 65535), step(Direction::Up, 65535), step(Direction::Up, 1)]
    );
    for offset in [
        Offset { x: u32::MAX, y: i32::MIN },
        Offset { x: 1, y: i32::MAX },
        Offset { x: 131070, y: -65536 },
    ] {
        let steps = offset_cursor(&offset);
        let total = |d: Direction| -> i64 {
            steps.iter().filter(|s| s.direction == d).map(|s| s.count as i64).sum()
        };
        assert!(steps.iter().all(|s| s.count > 0));
        assert_eq!(total(Direction::Down) - total(Direction::Up), offset.y as i64);
        assert_eq!(total(Direction::Right), offset.x as i64);
        assert!(total(Direction::Down) == 0 || total(Direction::Up) == 0);
        let first_right = steps.iter().position(|s| s.direction == Direction::Right);
        if let Some(at) = first_right {
            assert!(steps[at..].iter().all(|s| s.direction == Direction::Right));
        }
    }
}

#[test]
fn frames_go_on_the_wire_between_introducer_and_terminator() {
    let frame = GraphicsCommand {
        control: vec![
            ControlField { key: 'f', value: ControlValue::Number(32) },
            ControlField { key: 's', value: ControlValue::Number(0) },
            ControlField { key: 'v', value: ControlValue::Number(4294967295) },
            ControlField { key: 'a', value: ControlValue::Letter('T') },
        ],
        payload: "QUJD".chars().collect(),
    };
    assert_eq!(frame.encode(), "\x1b_Gf=32,s=0,v=4294967295,a=T;QUJD\x1b\\");
    let bare = GraphicsCommand { control: Vec::new(), payload: Vec::new() };
    assert_eq!(bare.encode(), "\x1b_G;\x1b\\");
    let numbers = GraphicsCommand {
        control: vec![
            ControlField { key: 'a', value: ControlValue::Number(7) },
            ControlField { key: 'b', value: ControlValue::Number(10) },
            ControlField { key: 'c', value: ControlValue::Number(109) },
            ControlField { key: 'd', value: ControlValue::Number(1234567890) },
        ],
        payload: Vec::new(),
    };
    assert_eq!(numbers.encode(), "\x1b_Ga=7,b=10,c=109,d=1234567890;\x1b\\");
}

#[test]
fn the_probe_names_the_test_segment() {
    let t = probe();
    let segment = t.segment.as_ref().unwrap();
    assert_eq!(segment.name, "/RCOWSAY_TEST");
    assert_eq!(segment.data, vec![128, 49, 167]);
    assert!(t.cursor.is_empty());
    assert_eq!(wire(&t), vec!["\x1b_Gi=31,s=1,v=1,a=q,t=s,f=24;L1JDT1dTQVlfVEVTVA==\x1b\\"]);
    assert_eq!(TEST_SEGMENT, "/RCOWSAY_TEST");
    assert_eq!(IMAGE_SEGMENT, "/RCOWSAY_IMAGE");
    assert_ne!(TEST_SEGMENT, IMAGE_SEGMENT);
}

#[test]
fn only_the_exact_reply_grants_local_support() {
    assert_eq!(LOCAL_REPLY, "Gi=31;OK");
    assert!(kitty_local_support(Some("Gi=31;OK")));
    assert!(!kitty_local_support(None));
    assert!(!kitty_local_support(Some("")));
    assert!(!kitty_local_support(Some("Gi=31;OK ")));
    assert!(!kitty_local_support(Some("Gi=31;ENOENT")));
    assert!(!kitty_local_support(Some("gi=31;ok")));
    assert_eq!(negotiate(Some("Gi=31;OK")), TransferMode::Local);
    assert_eq!(negotiate(None), TransferMode::Remote);
    assert_eq!(negotiate(Some("Gi=31;EINVAL")), TransferMode::Remote);
}

#[test]
fn the_listener_collects_characters_until_the_terminator() {
    let mut listener = ReplyListener::new();
    assert!(!listener.done);
    for c in "Gi=31".chars() {
        assert!(!listener.feed(&TerminalKey::Char(c)));
    }
    assert!(!listener.feed(&TerminalKey::Other));
    assert!(!listener.feed(&TerminalKey::UnknownEscSeq(vec!['[', 'A'])));
    assert!(!listener.feed(&TerminalKey::UnknownEscSeq(Vec::new())));
    assert!(!listener.feed(&TerminalKey::UnknownEscSeq(vec!['\\', '\\'])));
    for c in ";OK".chars() {
        assert!(!listener.feed(&TerminalKey::Char(c)));
    }
    assert!(listener.feed(&TerminalKey::UnknownEscSeq(vec!['\\'])));
    assert!(listener.done);
    assert!(listener.feed(&TerminalKey::Char('x')));
    assert_eq!(listener.reply(), "Gi=31;OK");
    assert!(kitty_local_support(Some(listener.reply().as_str())));

    let mut other = ReplyListener::new();
    assert!(!other.feed(&TerminalKey::Char('a')));
    assert!(other.feed(&TerminalKey::Unknown));
    assert_eq!(other.reply(), "a");
    assert_eq!(ReplyListener::new().reply(), "");
}

#[test]
fn a_local_transfer_names_the_image_segment() {
    let image = [1u8, 2, 3, 4, 5];
    let t = kitty_image_local(&Offset { x: 11, y: -1 }, &image);
    let segment = t.segment.as_ref().unwrap();
    assert_eq!(segment.name, "/RCOWSAY_IMAGE");
    assert_eq!(segment.data, vec![1, 2, 3, 4, 5]);
    assert_eq!(t.cursor, vec![step(Direction::Up, 1), step(Direction::Right, 11)]);
    assert_eq!(wire(&t), vec!["\x1b_Gf=100,a=T,t=s;L1JDT1dTQVlfSU1BR0U=\x1b\\"]);
}

#[test]
fn payloads_are_split_every_4096_characters() {
    for len in [0usize, 1, 4095, 4096, 4097, 8191, 8192, 8193, 20000] {
        let encoded: Vec<char> = (0..len).map(|i| char::from(b'A' + (i % 26) as u8)).collect();
        let frames = remote_frames_of(24, 3, 5, &encoded);
        let want = if len == 0 { 1 } else { (len + 4095) / 4096 };
        assert_eq!(frames.len(), want, "length {}", len);
        let mut joined: Vec<char> = Vec::new();
        for (k, frame) in frames.iter().enumerate() {
            let last = k + 1 == frames.len();
            let m = ControlField { key: 'm', value: ControlValue::Number(if last { 0 } else { 1 }) };
            assert_eq!(frame.control.last(), Some(&m));
            if k == 0 {
                assert_eq!(
                    frame.control,
                    vec![
                        ControlField { key: 'f', value: ControlValue::Number(24) },
                        ControlField { key: 's', value: ControlValue::Number(3) },
                        ControlField { key: 'v', value: ControlValue::Number(5) },
                        ControlField { key: 'a', value: ControlValue::Letter('T') },
                        ControlField { key: 't', value: ControlValue::Letter('d') },
                        m,
                    ]
                );
            } else {
                assert_eq!(frame.control, vec![m]);
            }
            if !last {
                assert_eq!(frame.payload.len(), 4096);
            } else {
                assert!(frame.payload.len() <= 4096);
            }
            joined.extend(frame.payload.iter());
        }
        assert_eq!(joined, encoded);
    }
}

#[test]
fn a_payload_of_exactly_two_chunks_ends_with_flag_zero() {
    let encoded: Vec<char> = std::iter::repeat('A').take(8192).collect();
    let frames = remote_frames_of(32, 1, 1, &encoded);
    let wires: Vec<String> = frames.iter().map(|f| f.encode()).collect();
    assert_eq!(wires.len(), 2);
    assert_eq!(wires[0], format!("\x1b_Gf=32,s=1,v=1,a=T,t=d,m=1;{}\x1b\\", "A".repeat(4096)));
    assert_eq!(wires[1], format!("\x1b_Gm=0;{}\x1b\\", "A".repeat(4096)));
}

#[test]
fn a_small_image_is_streamed_in_one_frame() {
    let t = sent(kitty_image_remote(&Offset { x: 11, y: -1 }, &RGB_1X1));
    assert!(t.segment.is_none());
    assert_eq!(t.cursor, vec![step(Direction::Up, 1), step(Direction::Right, 11)]);
    assert_eq!(wire(&t), vec!["\x1b_Gf=24,s=1,v=1,a=T,t=d,m=0;ChQe\x1b\\"]);
    let t = sent(kitty_image_remote(&Offset { x: 0, y: 0 }, &RGBA_2X1));
    assert!(t.cursor.is_empty());
    assert_eq!(wire(&t), vec!["\x1b_Gf=32,s=2,v=1,a=T,t=d,m=0;AQID/wECA/8=\x1b\\"]);
}

#[test]
fn the_format_follows_the_alpha_channel() {
    assert_eq!(format_of(ColorKind::Rgb), 24);
    assert_eq!(format_of(ColorKind::Grayscale), 24);
    assert_eq!(format_of(ColorKind::Indexed), 24);
    assert_eq!(format_of(ColorKind::Rgba), 32);
    assert_eq!(format_of(ColorKind::GrayscaleAlpha), 32);
    let t = sent(kitty_image_remote(&Offset { x: 0, y: 0 }, &GRAY_ALPHA_1X1));
    assert_eq!(wire(&t), vec!["\x1b_Gf=32,s=1,v=1,a=T,t=d,m=0;B/8=\x1b\\"]);
    let t = sent(kitty_image_remote(&Offset { x: 0, y: 0 }, &GRAY_1X1));
    assert_eq!(wire(&t), vec!["\x1b_Gf=24,s=1,v=1,a=T,t=d,m=0;Bw==\x1b\\"]);
}

#[test]
fn a_larger_image_is_streamed_in_chunks() {
    let t = sent(kitty_image_remote(&Offset { x: 4, y: -2 }, &RGBA_40X40));
    let encoded = format!("{}AQID/w==", "AQID/wECA/8BAgP/".repeat(533));
    assert_eq!(encoded.len(), 8536);
    let wires = wire(&t);
    assert_eq!(wires.len(), 3);
    assert_eq!(wires[0], format!("\x1b_Gf=32,s=40,v=40,a=T,t=d,m=1;{}\x1b\\", &encoded[..4096]));
    assert_eq!(wires[1], format!("\x1b_Gm=1;{}\x1b\\", &encoded[4096..8192]));
    assert_eq!(wires[2], format!("\x1b_Gm=0;{}\x1b\\", &encoded[8192..]));
    assert_eq!(t.cursor, vec![step(Direction::Up, 2), step(Direction::Right, 4)]);
}

#[test]
fn a_decoded_image_is_encoded_and_streamed() {
    let image = RawImage { data: vec![10, 20, 30], width: 1, height: 1, color: ColorKind::Rgb };
    let t = remote_transfer(&Offset { x: 0, y: 1 }, &image);
    assert_eq!(t.cursor, vec![step(Direction::Down, 1)]);
    assert_eq!(wire(&t), vec!["\x1b_Gf=24,s=1,v=1,a=T,t=d,m=0;ChQe\x1b\\"]);
    let t = stream_image(&Offset { x: 0, y: 0 }, &image, "anything");
    assert_eq!(wire(&t), vec!["\x1b_Gf=24,s=1,v=1,a=T,t=d,m=0;anything\x1b\\"]);
    let empty = RawImage { data: Vec::new(), width: 0, height: 0, color: ColorKind::Rgba };
    let t = remote_transfer(&Offset { x: 0, y: 0 }, &empty);
    assert_eq!(wire(&t), vec!["\x1b_Gf=32,s=0,v=0,a=T,t=d,m=0;\x1b\\"]);
}

#[test]
fn a_payload_that_is_no_image_is_refused() {
    let offset = Offset { x: 11, y: -1 };
    assert_eq!(failure(kitty_image_remote(&offset, b"not a png")), TransferError::Decode);
    assert_eq!(failure(kitty_image_remote(&offset, &[])), TransferError::Decode);
    assert_eq!(failure(kitty_image_remote(&offset, &RGB_1X1[..40])), TransferError::Decode);
    let mut damaged = RGB_1X1.to_vec();
    damaged[45] ^= 0xFF;
    assert_eq!(failure(kitty_image_remote(&offset, &damaged)), TransferError::Decode);
}

#[test]
fn an_image_that_declares_an_impossible_size_is_refused() {
    let mut huge = RGB_1X1.to_vec();
    for at in 16..24 {
        huge[at] = 0xFF;
    }
    assert!(!size_fits(&huge));
    assert!(size_fits(&RGB_1X1));
    assert!(size_fits(&RGB_1X1[..23]));
    assert!(size_fits(&[]));
    assert_eq!(failure(kitty_image_remote(&Offset { x: 0, y: 0 }, &huge)), TransferError::Decode);
}

#[test]
fn the_reply_to_the_probe_selects_the_transfer() {
    let offset = Offset { x: 11, y: -1 };
    let local = sent(cow_image(Some("Gi=31;OK"), &offset, &RGB_1X1));
    assert_eq!(local.segment.as_ref().unwrap().data, RGB_1X1.to_vec());
    assert_eq!(wire(&local), vec!["\x1b_Gf=100,a=T,t=s;L1JDT1dTQVlfSU1BR0U=\x1b\\"]);
    let local = sent(cow_image(Some("Gi=31;OK"), &offset, b"not a png"));
    assert_eq!(local.segment.as_ref().unwrap().data, b"not a png".to_vec());
    let remote = sent(cow_image(None, &offset, &RGB_1X1));
    assert!(remote.segment.is_none());
    assert_eq!(wire(&remote), vec!["\x1b_Gf=24,s=1,v=1,a=T,t=d,m=0;ChQe\x1b\\"]);
    let remote = sent(cow_image(Some("Gi=31;ENOENT"), &offset, &RGB_1X1));
    assert!(remote.segment.is_none());
    assert_eq!(failure(cow_image(None, &offset, b"not a png")), TransferError::Decode);
}

#[test]
fn the_mode_selects_the_transfer() {
    let offset = Offset { x: 4, y: -2 };
    let local = sent(transfer(TransferMode::Local, &offset, &RGBA_2X1));
    assert_eq!(local.segment.as_ref().unwrap().name, "/RCOWSAY_IMAGE");
    assert_eq!(local.segment.as_ref().unwrap().data, RGBA_2X1.to_vec());
    assert_eq!(local.cursor, vec![step(Direction::Up, 2), step(Direction::Right, 4)]);
    assert_eq!(wire(&local), vec!["\x1b_Gf=100,a=T,t=s;L1JDT1dTQVlfSU1BR0U=\x1b\\"]);
    let remote = sent(transfer(TransferMode::Remote, &offset, &RGBA_2X1));
    assert!(remote.segment.is_none());
    assert_eq!(remote.cursor, vec![step(Direction::Up, 2), step(Direction::Right, 4)]);
    assert_eq!(wire(&remote), vec!["\x1b_Gf=32,s=2,v=1,a=T,t=d,m=0;AQID/wECA/8=\x1b\\"]);
    assert_eq!(failure(transfer(TransferMode::Remote, &offset, b"moo")), TransferError::Decode);
    assert!(transfer(TransferMode::Local, &offset, b"moo").is_ok());
}

#[test]
fn only_samples_whose_text_fits_the_machine_are_encoded() {
    assert!(fits_encoding(0));
    assert!(fits_encoding(6400));
    let most = (usize::MAX - 4) / 4 * 3 + 2;
    assert!(fits_encoding(most));
    assert!(!fits_encoding(most + 1));
    assert!(!fits_encoding(usize::MAX));
}
