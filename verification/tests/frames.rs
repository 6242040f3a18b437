use zync::clipboard::{fingerprint, ClipboardItem, ClipboardKind};
use zync::frame::{decode_frame, decode_parts, encode_frame};
use zync::stream::{read_frame_from, ReadAction, ReadRequest, ReadState};

const TEXT: &str = "text/plain; charset=utf-8";

fn item(kind: ClipboardKind, mime: &str, bytes: &[u8]) -> ClipboardItem {
    ClipboardItem {
        kind,
        hash: fingerprint(kind.as_str(), mime, bytes),
        mime: mime.to_string(),
        bytes: bytes.to_vec(),
    }
}

fn refused(input: &[u8]) -> String {
    decode_frame(input).unwrap_err()
}

fn stream_refused(input: &[u8]) -> String {
    let mut reader = input;
    read_frame_from(&mut reader).unwrap_err()
}

#[test]
fn frame_round_trips_text_payloads() {
    let bytes = b"hello from zync".to_vec();
    let mime = "text/plain; charset=utf-8".to_string();
    let item = ClipboardItem {
        kind: ClipboardKind::Text,
        hash: fingerprint(ClipboardKind::Text.as_str(), &mime, &bytes),
        mime,
        bytes,
    };

    assert_eq!(decode_frame(&encode_frame(&item)).unwrap(), item);
}

#[test]
fn frame_round_trips_binary_payloads() {
    let bytes = vec![0, 1, 2, b'\n', b'\n', 255];
    let mime = "image/png".to_string();
    let item = ClipboardItem {
        kind: ClipboardKind::Image,
        hash: fingerprint(ClipboardKind::Image.as_str(), &mime, &bytes),
        mime,
        bytes,
    };

    assert_eq!(decode_frame(&encode_frame(&item)).unwrap(), item);
}

#[test]
fn frame_rejects_hash_mismatch() {
    let input = b"ZYNC1\nkind:text\nmime:text/plain; charset=utf-8\nhash:bad\nbytes:3\n\nabc";
    assert!(decode_frame(input).unwrap_err().contains("hash mismatch"));
}

#[test]
fn streaming_reader_reads_multiple_frames() {
    let text_bytes = b"one".to_vec();
    let text_mime = "text/plain; charset=utf-8".to_string();
    let text = ClipboardItem {
        kind: ClipboardKind::Text,
        hash: fingerprint(ClipboardKind::Text.as_str(), &text_mime, &text_bytes),
        mime: text_mime,
        bytes: text_bytes,
    };
    let image_bytes = vec![0, 1, 2, 3];
    let image_mime = "image/png".to_string();
    let image = ClipboardItem {
        kind: ClipboardKind::Image,
        hash: fingerprint(ClipboardKind::Image.as_str(), &image_mime, &image_bytes),
        mime: image_mime,
        bytes: image_bytes,
    };

    let mut stream = encode_frame(&text);
    stream.extend_from_slice(&encode_frame(&image));
    let mut reader = stream.as_slice();

    assert_eq!(read_frame_from(&mut reader).unwrap(), Some(text));
    assert_eq!(read_frame_from(&mut reader).unwrap(), Some(image));
    assert_eq!(read_frame_from(&mut reader).unwrap(), None);
}

#[test]
fn fingerprints_are_exact() {
    assert_eq!(fingerprint("text", TEXT, b"abc"), "e1e2f2514621fbb2");
    assert_eq!(fingerprint("text", TEXT, b"hello from zync"), "71caec934df706ec");
    assert_eq!(
        fingerprint("image", "image/png", &[0, 1, 2, 10, 10, 255]),
        "a08b05d12dd60e6d"
    );
    assert_eq!(fingerprint("", "", b""), "08328807b4eb6fed");
    assert_eq!(fingerprint("text", "", "\u{e9}".as_bytes()), "9c59eeb7c92286fa");
}

#[test]
fn fingerprints_separate_their_parts() {
    assert_ne!(fingerprint("text", "a", b"b"), fingerprint("text", "ab", b""));
    assert_ne!(fingerprint("texta", "", b"b"), fingerprint("text", "a", b"b"));
}

#[test]
fn frames_have_this_form() {
    let frame = encode_frame(&item(ClipboardKind::Text, TEXT, b"abc"));
    assert_eq!(
        frame,
        b"ZYNC1\nkind:text\nmime:text/plain; charset=utf-8\nhash:e1e2f2514621fbb2\nbytes:3\n\nabc"
    );
}

#[test]
fn kinds_read_back() {
    assert_eq!(ClipboardKind::parse(ClipboardKind::Text.as_str()), Ok(ClipboardKind::Text));
    assert_eq!(ClipboardKind::parse(ClipboardKind::Image.as_str()), Ok(ClipboardKind::Image));
    assert_eq!(
        ClipboardKind::parse("video"),
        Err("unsupported clipboard kind: video".to_string())
    );
    assert_eq!(
        ClipboardKind::parse("Text"),
        Err("unsupported clipboard kind: Text".to_string())
    );
}

#[test]
fn empty_and_unicode_contents_round_trip() {
    for content in [
        item(ClipboardKind::Text, TEXT, b""),
        item(ClipboardKind::Text, "", "\u{1f600}".as_bytes()),
        item(ClipboardKind::Image, "image/\u{e9}:\u{4e2d}", &[10, 10]),
        item(ClipboardKind::Text, "a\rb", b"x"),
    ] {
        let frame = encode_frame(&content);
        assert_eq!(decode_frame(&frame).unwrap(), content);
        let mut reader = frame.as_slice();
        assert_eq!(read_frame_from(&mut reader).unwrap(), Some(content));
        assert!(reader.is_empty());
    }
}

#[test]
fn media_types_with_line_ends_do_not_survive() {
    for mime in ["a\nb", "a\r"] {
        let content = item(ClipboardKind::Text, mime, b"x");
        assert!(decode_frame(&encode_frame(&content)).is_err());
        assert!(stream_refused(&encode_frame(&content)).starts_with("invalid frame"));
    }
}

#[test]
fn contents_with_the_same_frame_are_the_same() {
    let a = item(ClipboardKind::Text, TEXT, b"a");
    let b = item(ClipboardKind::Text, TEXT, b"b");
    assert_ne!(encode_frame(&a), encode_frame(&b));
    assert_eq!(encode_frame(&a), encode_frame(&a.clone()));
}

#[test]
fn decode_reports_each_fault() {
    assert_eq!(refused(b""), "invalid frame: missing header terminator");
    assert_eq!(refused(b"ZYNC1\n"), "invalid frame: missing header terminator");
    assert_eq!(refused(b"\n\n"), "invalid frame: bad magic");
    assert_eq!(refused(b"ZYNC2\nkind:text\n\n"), "invalid frame: bad magic");
    assert_eq!(refused(b"ZYNC1\nkind\n\n"), "invalid frame header line: kind");
    assert_eq!(refused(b"ZYNC1\n\r\nkind:text\n\n"), "invalid frame header line: ");
    assert_eq!(refused(b"ZYNC1\nsize:3\n\n"), "unknown frame header: size");
    assert_eq!(refused(b"ZYNC1\nkind:video\n\n"), "unsupported clipboard kind: video");
    assert_eq!(refused(b"ZYNC1\nbytes:x\n\n"), "invalid frame byte length");
    assert_eq!(refused(b"ZYNC1\nbytes:-1\n\n"), "invalid frame byte length");
    assert_eq!(refused(b"ZYNC1\nbytes:3\r\n\nabc"), "invalid frame byte length");
    assert_eq!(
        refused(b"ZYNC1\nbytes:99999999999999999999999\n\n"),
        "invalid frame byte length"
    );
    assert_eq!(refused(b"ZYNC1\n\n"), "invalid frame: missing kind");
    assert_eq!(refused(b"ZYNC1\nkind:text\n\n"), "invalid frame: missing mime");
    assert_eq!(refused(b"ZYNC1\nkind:text\nmime:a\n\n"), "invalid frame: missing hash");
    assert_eq!(
        refused(b"ZYNC1\nkind:text\nmime:a\nhash:b\n\n"),
        "invalid frame: missing bytes"
    );
    assert_eq!(
        refused(b"ZYNC1\nkind:text\nmime:a\nhash:b\nbytes:3\n\nabcd"),
        "invalid frame: expected 3 payload bytes, got 4"
    );
    assert_eq!(
        refused(b"ZYNC1\nkind:text\nmime:text/plain; charset=utf-8\nhash:bad\nbytes:3\n\nabc"),
        "invalid frame: hash mismatch, expected bad, got e1e2f2514621fbb2"
    );
}

#[test]
fn decode_reports_text_that_is_not_utf8() {
    let bytes = b"ZYNC1\nkind:\xff";
    let error = std::str::from_utf8(bytes).unwrap_err();
    let mut input = bytes.to_vec();
    input.extend_from_slice(b"\n\n");
    assert_eq!(refused(&input), format!("invalid frame header encoding: {error}"));
    let cut = b"\xe4\xb8\n\n";
    let error = std::str::from_utf8(&cut[..2]).unwrap_err();
    assert_eq!(refused(cut), format!("invalid frame header encoding: {error}"));
}

#[test]
fn decode_takes_headers_in_any_order_and_the_last_of_each() {
    let input = b"ZYNC1\r\nbytes:+03\nhash:bad\r\nhash:e1e2f2514621fbb2\n\
mime:text/plain; charset=utf-8\nkind:image\nkind:text\n\nabc";
    assert_eq!(decode_frame(input).unwrap(), item(ClipboardKind::Text, TEXT, b"abc"));
}

#[test]
fn both_readers_agree() {
    let frames: [&[u8]; 3] = [
        b"ZYNC1\nkind:text\nmime:text/plain; charset=utf-8\nhash:e1e2f2514621fbb2\nbytes:3\n\nabc",
        b"ZYNC1\r\nbytes:3\nmime:other\r\r\nmime:text/plain; charset=utf-8\r\n\
hash:e1e2f2514621fbb2\r\nkind:text\n\nabc",
        b"ZYNC1\r\r\nbytes:3\n\nabc",
    ];
    for frame in [frames[0], frames[1]] {
        let whole = decode_frame(frame).unwrap();
        assert_eq!(whole, item(ClipboardKind::Text, TEXT, b"abc"));
        let mut stream = frame.to_vec();
        stream.extend_from_slice(b"rest");
        let mut reader = stream.as_slice();
        assert_eq!(read_frame_from(&mut reader).unwrap(), Some(whole));
        assert_eq!(reader, b"rest");
    }
    assert_eq!(refused(frames[2]), "invalid frame: bad magic");
    assert_eq!(stream_refused(frames[2]), "invalid frame: missing kind");
}

#[test]
fn a_media_type_that_ends_with_a_carriage_return_is_read_differently() {
    let odd = item(ClipboardKind::Text, "a\r", b"abc");
    let frame = format!("ZYNC1\nkind:text\nhash:{}\nbytes:3\nmime:a\r\n\nabc", odd.hash);
    assert_eq!(decode_frame(frame.as_bytes()).unwrap(), odd);
    assert!(stream_refused(frame.as_bytes()).contains("hash mismatch"));
}

#[test]
fn decode_parts_reads_a_header_without_line_end() {
    let header = "ZYNC1\nkind:text\nmime:text/plain; charset=utf-8\nhash:e1e2f2514621fbb2\nbytes:3";
    assert_eq!(
        decode_parts(header, b"abc").unwrap(),
        item(ClipboardKind::Text, TEXT, b"abc")
    );
    assert_eq!(decode_parts("", b"").unwrap_err(), "invalid frame: bad magic");
    let ended = format!("{header}\n");
    assert!(decode_parts(&ended, b"abc").is_ok());
}

#[test]
fn stream_reports_each_fault() {
    assert_eq!(stream_refused(b"ZYNC2\n"), "invalid frame: bad magic");
    assert_eq!(stream_refused(b"\n"), "invalid frame: bad magic");
    assert_eq!(stream_refused(b"ZYNC1"), "invalid frame: unexpected end of header");
    assert_eq!(stream_refused(b"ZYNC1\nkind:text\n"), "invalid frame: unexpected end of header");
    assert_eq!(stream_refused(b"ZYNC1\nkind\n"), "invalid frame header line: kind");
    assert_eq!(stream_refused(b"ZYNC1\nsize:3\n"), "unknown frame header: size");
    assert_eq!(stream_refused(b"ZYNC1\nkind:video\n"), "unsupported clipboard kind: video");
    assert_eq!(stream_refused(b"ZYNC1\nbytes:\n"), "invalid frame byte length");
    assert_eq!(stream_refused(b"ZYNC1\n\n"), "invalid frame: missing kind");
    assert_eq!(stream_refused(b"ZYNC1\nkind:text\n\n"), "invalid frame: missing mime");
    assert_eq!(stream_refused(b"ZYNC1\nkind:text\nmime:a\n\n"), "invalid frame: missing hash");
    assert_eq!(
        stream_refused(b"ZYNC1\nkind:text\nmime:a\nhash:b\n\n"),
        "invalid frame: missing bytes"
    );
    assert_eq!(
        stream_refused(b"ZYNC1\nkind:text\nmime:a\nhash:b\nbytes:3\n\nab"),
        "failed to read frame payload: failed to fill whole buffer"
    );
    assert_eq!(
        stream_refused(b"ZYNC1\nkind:text\nmime:text/plain; charset=utf-8\nhash:bad\nbytes:3\n\nabc"),
        "invalid frame: hash mismatch, expected bad, got e1e2f2514621fbb2"
    );
    assert_eq!(
        stream_refused(b"ZYNC1\nkind:\xff\n"),
        "failed to read frame header: stream did not contain valid UTF-8"
    );
    assert_eq!(
        stream_refused(b"\xff\n"),
        "failed to read frame header: stream did not contain valid UTF-8"
    );
}

#[test]
fn stream_takes_carriage_returns_as_line_ends() {
    let mut reader: &[u8] = b"ZYNC1\r\nkind:text\r\r\nmime:text/plain; charset=utf-8\r\n\
hash:e1e2f2514621fbb2\nbytes:3\r\n\r\nabcrest";
    assert_eq!(
        read_frame_from(&mut reader).unwrap(),
        Some(item(ClipboardKind::Text, TEXT, b"abc"))
    );
    assert_eq!(reader, b"rest");
}

#[test]
fn an_empty_stream_has_ended() {
    let mut reader: &[u8] = b"";
    assert_eq!(read_frame_from(&mut reader), Ok(None));
    assert!(reader.is_empty());
}

#[test]
fn a_frame_that_is_cut_short_is_refused() {
    let frame = encode_frame(&item(ClipboardKind::Image, "image/\u{e9}", &[1, 2, 10, 10]));
    for cut in 0..frame.len() {
        assert!(decode_frame(&frame[..cut]).is_err());
        let mut reader = &frame[..cut];
        let read = read_frame_from(&mut reader);
        if cut == 0 {
            assert_eq!(read, Ok(None));
        } else {
            assert!(read.is_err());
        }
    }
}

#[test]
fn a_changed_payload_is_refused() {
    let mut frame = encode_frame(&item(ClipboardKind::Text, TEXT, b"abc"));
    let last = frame.len() - 1;
    frame[last] = b'd';
    assert!(refused(&frame).starts_with(
        "invalid frame: hash mismatch, expected e1e2f2514621fbb2, got "
    ));
    frame.pop();
    assert_eq!(refused(&frame), "invalid frame: expected 3 payload bytes, got 2");
}

#[test]
fn what_arrives_can_be_sent_on() {
    let mut reader: &[u8] = b"ZYNC1\r\nbytes:3\r\nkind:text\nhash:e1e2f2514621fbb2\n\
mime:text/plain; charset=utf-8\r\r\n\nabc";
    let first = read_frame_from(&mut reader).unwrap().unwrap();
    let frame = encode_frame(&first);
    let mut again = frame.as_slice();
    assert_eq!(read_frame_from(&mut again).unwrap(), Some(first.clone()));
    assert_eq!(decode_frame(&frame).unwrap(), first);
}

#[test]
fn reader_asks_for_lines_and_then_for_the_payload() {
    let frame = encode_frame(&item(ClipboardKind::Text, TEXT, b"abc"));
    let mut state = ReadState::Start;
    let mut at = 0;
    loop {
        let piece = match state.request() {
            ReadRequest::Line => {
                let end = frame[at..].iter().position(|b| *b == b'\n').unwrap() + 1;
                frame[at..at + end].to_vec()
            }
            ReadRequest::Exact(n) => {
                assert_eq!(n, 3);
                frame[at..at + n].to_vec()
            }
        };
        at += piece.len();
        match state.advance(Ok(piece)) {
            ReadAction::Continue(next) => state = next,
            ReadAction::Deliver(got) => {
                assert_eq!(got, item(ClipboardKind::Text, TEXT, b"abc"));
                break;
            }
            other => panic!("unexpected action {other:?}"),
        }
    }
    assert_eq!(at, frame.len());
}

#[test]
fn reader_reports_failed_reads() {
    let failed = || Err("gone".to_string());
    assert_eq!(
        ReadState::Start.advance(failed()),
        ReadAction::Refuse("failed to read frame header: gone".to_string())
    );
    let header = match ReadState::Start.advance(Ok(b"ZYNC1\n".to_vec())) {
        ReadAction::Continue(state) => state,
        other => panic!("unexpected action {other:?}"),
    };
    assert_eq!(
        header.advance(failed()),
        ReadAction::Refuse("failed to read frame header: gone".to_string())
    );
    let payload = ReadState::Payload(zync::header::FrameHeader {
        kind: ClipboardKind::Text,
        mime: String::new(),
        hash: String::new(),
        bytes_len: 7,
    });
    assert_eq!(payload.request(), ReadRequest::Exact(7));
    assert_eq!(
        payload.advance(failed()),
        ReadAction::Refuse("failed to read frame payload: gone".to_string())
    );
    assert_eq!(ReadState::Start.advance(Ok(Vec::new())), ReadAction::End);
}

#[test]
fn no_frame_begins_another() {
    let contents = [
        item(ClipboardKind::Text, TEXT, b"abc"),
        item(ClipboardKind::Text, TEXT, b"abcd"),
        item(ClipboardKind::Text, "a\r", b"abc"),
        ClipboardItem { hash: "bad".to_string(), ..item(ClipboardKind::Text, TEXT, b"abc") },
        item(ClipboardKind::Image, "image/png", b""),
        item(ClipboardKind::Image, "image/png", b"\n\n"),
    ];
    for a in &contents {
        for b in &contents {
            assert_eq!(encode_frame(b).starts_with(&encode_frame(a)), a == b);
        }
    }
}

#[test]
fn every_change_of_one_byte_is_refused() {
    let content = item(ClipboardKind::Image, "image/png", &[0, 10, 255]);
    let frame = encode_frame(&content);
    let start = frame.len() - content.bytes.len();
    for i in start..frame.len() {
        for byte in 0..=255u8 {
            if byte != frame[i] {
                let mut changed = frame.clone();
                changed[i] = byte;
                let payload = &changed[start..];
                let message = format!(
                    "invalid frame: hash mismatch, expected {}, got {}",
                    content.hash,
                    fingerprint("image", "image/png", payload)
                );
                assert_eq!(refused(&changed), message);
                assert_eq!(stream_refused(&changed), message);
            }
        }
    }
}

#[test]
fn header_lines_may_come_in_any_order() {
    let lines = [
        "kind:text",
        "mime:text/plain; charset=utf-8",
        "hash:e1e2f2514621fbb2",
        "bytes:3",
    ];
    for order in [[0, 1, 2, 3], [3, 2, 1, 0], [1, 3, 0, 2], [2, 0, 3, 1]] {
        let header: Vec<&str> = order.iter().map(|&i| lines[i]).collect();
        for (end, whole) in [("\n", true), ("\r\n", false)] {
            let frame = format!("ZYNC1{end}{}{end}{end}abc", header.join(end));
            let mut reader = frame.as_bytes();
            let read = read_frame_from(&mut reader).unwrap();
            assert_eq!(read, Some(item(ClipboardKind::Text, TEXT, b"abc")));
            assert!(reader.is_empty());
            assert_eq!(decode_frame(frame.as_bytes()).is_ok(), whole);
        }
    }
}
