use embedded_toolbox::framer::{read_length, Framer};
use embedded_toolbox::ident::Uuid;
use embedded_toolbox::model::{ByteOrder, FramerSpec};

fn delimited(max_frame_bytes: usize) -> FramerSpec {
    FramerSpec::EndDelimiter {
        id: Uuid::now_v7(),
        delimiter: vec![b'\n'],
        max_frame_bytes,
    }
}

fn enclosed() -> FramerSpec {
    FramerSpec::StartEnd {
        id: Uuid::now_v7(),
        start: b"<<".to_vec(),
        end: b">>".to_vec(),
        max_frame_bytes: 8,
    }
}

fn sized(max_frame_bytes: usize) -> FramerSpec {
    FramerSpec::LengthField {
        id: Uuid::now_v7(),
        sync_prefix: vec![0xaa, 0x55],
        length_offset: 2,
        length_width: 1,
        byte_order: ByteOrder::Little,
        length_adjustment: 3,
        max_frame_bytes,
    }
}

fn error_of(spec: FramerSpec) -> String {
    match Framer::new(spec) {
        Ok(_) => panic!("an error was expected"),
        Err(message) => message,
    }
}

#[test]
fn delimiter_handles_fragmented_and_multiple_frames() {
    let mut framer = Framer::new(FramerSpec::EndDelimiter {
        id: Uuid::now_v7(),
        delimiter: vec![b'\n'],
        max_frame_bytes: 16,
    })
    .unwrap();
    assert!(framer.push(b"1,2").frames.is_empty());
    let out = framer.push(b",3\n4,5,6\n");
    assert_eq!(out.frames, vec![b"1,2,3".to_vec(), b"4,5,6".to_vec()]);
}

#[test]
fn oversize_frame_resynchronizes_at_delimiter() {
    let mut framer = Framer::new(FramerSpec::EndDelimiter {
        id: Uuid::now_v7(),
        delimiter: vec![b'\n'],
        max_frame_bytes: 4,
    })
    .unwrap();
    let first = framer.push(b"123456");
    assert_eq!(first.oversize_frames, 1);
    let second = framer.push(b"\nok\n");
    assert_eq!(second.frames, vec![b"ok".to_vec()]);
    assert_eq!(second.resyncs, 1);
}

#[test]
fn fragmentation_does_not_change_the_frames() {
    let stream = b"alpha\nbeta\n\ngamma\n";
    let mut whole = Framer::new(delimited(16)).unwrap();
    let expected = whole.push(stream).frames;
    assert_eq!(expected.len(), 4);
    for cut in 0..stream.len() {
        let mut framer = Framer::new(delimited(16)).unwrap();
        let mut frames = framer.push(&stream[..cut]).frames;
        frames.extend(framer.push(&stream[cut..]).frames);
        assert_eq!(frames, expected);
    }
}

#[test]
fn a_long_delimiter_that_is_cut_can_hide_an_oversize_frame() {
    let spec = || FramerSpec::EndDelimiter {
        id: Uuid::now_v7(),
        delimiter: b"\r\n".to_vec(),
        max_frame_bytes: 4,
    };
    let mut whole = Framer::new(spec()).unwrap();
    assert_eq!(whole.push(b"1234\r\n").frames, vec![b"1234".to_vec()]);
    let mut cut = Framer::new(spec()).unwrap();
    let first = cut.push(b"1234\r");
    assert_eq!(first.oversize_frames, 1);
    assert!(cut.push(b"\n").frames.is_empty());
}

#[test]
fn enclosed_payloads_come_out_without_their_marks() {
    let mut framer = Framer::new(enclosed()).unwrap();
    let out = framer.push(b"noise<<one>><<two>>");
    assert_eq!(out.frames, vec![b"one".to_vec(), b"two".to_vec()]);
    assert!(framer.push(b"<<th").frames.is_empty());
    assert_eq!(framer.push(b"ree>>").frames, vec![b"three".to_vec()]);
}

#[test]
fn fixed_frames_have_their_length() {
    let mut framer = Framer::new(FramerSpec::FixedLength {
        id: Uuid::now_v7(),
        length: 3,
        max_frame_bytes: 8,
    })
    .unwrap();
    assert_eq!(framer.push(b"abcdefgh").frames, vec![b"abc".to_vec(), b"def".to_vec()]);
    assert_eq!(framer.push(b"i").frames, vec![b"ghi".to_vec()]);
}

#[test]
fn a_length_field_says_where_the_frame_ends() {
    let mut framer = Framer::new(sized(16)).unwrap();
    let out = framer.push(&[0x00, 0xaa, 0x55, 0x02, 0x10, 0x20, 0xaa, 0x55, 0x00]);
    assert_eq!(
        out.frames,
        vec![vec![0xaa, 0x55, 0x02, 0x10, 0x20], vec![0xaa, 0x55, 0x00]]
    );
}

#[test]
fn a_length_beyond_the_limit_is_skipped() {
    let mut framer = Framer::new(sized(8)).unwrap();
    let out = framer.push(&[0xaa, 0x55, 0xf0, 0xaa, 0x55, 0x00]);
    assert_eq!(out.oversize_frames, 1);
    assert_eq!(out.frames, vec![vec![0xaa, 0x55, 0x00]]);
}

#[test]
fn a_reset_forgets_what_was_begun() {
    let mut framer = Framer::new(delimited(16)).unwrap();
    framer.push(b"half");
    framer.reset();
    assert_eq!(framer.push(b"whole\n").frames, vec![b"whole".to_vec()]);
}

#[test]
fn invalid_rules_are_refused() {
    assert_eq!(error_of(delimited(0)), "maxFrameBytes must be between 1 and 4194304");
    assert_eq!(
        error_of(delimited(4_194_305)),
        "maxFrameBytes must be between 1 and 4194304"
    );
    assert_eq!(
        error_of(FramerSpec::EndDelimiter {
            id: Uuid::now_v7(),
            delimiter: vec![],
            max_frame_bytes: 4,
        }),
        "delimiter must not be empty"
    );
    assert_eq!(
        error_of(FramerSpec::StartEnd {
            id: Uuid::now_v7(),
            start: vec![],
            end: vec![1],
            max_frame_bytes: 4,
        }),
        "start/end must not be empty"
    );
    assert_eq!(
        error_of(FramerSpec::FixedLength {
            id: Uuid::now_v7(),
            length: 5,
            max_frame_bytes: 4,
        }),
        "fixed length exceeds maxFrameBytes"
    );
    assert_eq!(
        error_of(FramerSpec::LengthField {
            id: Uuid::now_v7(),
            sync_prefix: vec![1],
            length_offset: 1,
            length_width: 3,
            byte_order: ByteOrder::Big,
            length_adjustment: 0,
            max_frame_bytes: 4,
        }),
        "length field requires sync prefix and width 1, 2, or 4"
    );
}

#[test]
fn lengths_are_read_in_both_orders() {
    assert_eq!(read_length(&[0x12], ByteOrder::Big), 0x12);
    assert_eq!(read_length(&[0x12, 0x34], ByteOrder::Little), 0x3412);
    assert_eq!(read_length(&[0x12, 0x34], ByteOrder::Big), 0x1234);
    assert_eq!(read_length(&[1, 2, 3, 4], ByteOrder::Little), 0x0403_0201);
    assert_eq!(read_length(&[1, 2, 3, 4], ByteOrder::Big), 0x0102_0304);
}

fn pushed(spec: FramerSpec, pushes: &[&[u8]]) -> (Vec<Vec<u8>>, u64) {
    let mut framer = Framer::new(spec).unwrap();
    let mut frames = Vec::new();
    let mut resyncs = 0;
    for bytes in pushes {
        let out = framer.push(bytes);
        frames.extend(out.frames);
        resyncs += out.resyncs;
    }
    (frames, resyncs)
}

#[test]
fn framing_starts_over_as_often_however_delimited_bytes_are_cut() {
    let whole = pushed(delimited(4), &[b"123456\nok\nabcdef\n"]);
    let cut = pushed(delimited(4), &[b"123", b"456", b"\nok\nab", b"cdef\n"]);
    assert_eq!(whole, (vec![b"ok".to_vec()], 2));
    assert_eq!(cut, whole);
    assert_eq!(pushed(enclosed(), &[b"xx<<a>>"]), (vec![b"a".to_vec()], 1));
    assert_eq!(pushed(enclosed(), &[b"xx", b"<<a>>"]), (vec![b"a".to_vec()], 1));
    assert_eq!(pushed(enclosed(), &[b"x<<a>>"]), (vec![b"a".to_vec()], 1));
    let single = || FramerSpec::StartEnd {
        id: Uuid::nil(),
        start: vec![b'<'],
        end: vec![b'>'],
        max_frame_bytes: 8,
    };
    assert_eq!(pushed(single(), &[b"x<a>"]), (vec![b"a".to_vec()], 1));
    assert_eq!(pushed(single(), &[b"x", b"<a>"]), (vec![b"a".to_vec()], 0));
}

#[test]
fn frames_have_the_shape_of_their_rule() {
    let (frames, _) = pushed(delimited(16), &[b"a\n\nbc\n"]);
    assert_eq!(frames, [b"a".to_vec(), b"".to_vec(), b"bc".to_vec()]);
    assert!(frames.iter().all(|frame| !frame.contains(&b'\n')));
    let (frames, _) = pushed(sized(16), &[&[0xaa, 0x55, 2, 7, 8, 0xaa, 0x55, 0]]);
    assert_eq!(frames, [vec![0xaa, 0x55, 2, 7, 8], vec![0xaa, 0x55, 0]]);
    assert!(frames.iter().all(|frame| frame.len() == frame[2] as usize + 3));
}
