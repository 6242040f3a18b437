use zync::cli::ServeConfig;
use zync::clipboard::{fingerprint, ClipboardItem, ClipboardKind};
use zync::frame::{decode_frame, encode_frame};
use zync::pasteboard::{
    apple_class_expr, clipboard_info, describe_clipboard, image_read_script, image_write_script,
    osascript_args, read_clipboard, read_image_clipboard, read_text_clipboard, temp_file_name,
    write_clipboard, ImageFormat, PasteboardForm,
};
use zync::process::{
    agent_result, check_exit, check_output, check_report, connect_result, require_macos,
};
use zync::session::{
    connect_args, on_received, received_marker_path, send_args, send_once, should_suppress_send,
    state_dir, ClipboardAction, Delivery, MarkerAction, Session,
};
use zync::stream::read_frame_from;

fn text(content: &str) -> ClipboardItem {
    read_text_clipboard(true, "exit status: 0", content.as_bytes().to_vec()).unwrap()
}

#[test]
fn forms_are_chosen_by_description() {
    let png = Some(PasteboardForm::Image(ImageFormat::Png));
    let jpeg = Some(PasteboardForm::Image(ImageFormat::Jpeg));
    let tiff = Some(PasteboardForm::Image(ImageFormat::Tiff));
    assert_eq!(read_clipboard("\u{ab}class PNGf\u{bb}, 12, TIFF picture, 20"), png);
    assert_eq!(read_clipboard("PNG picture, 12"), png);
    assert_eq!(read_clipboard("JPEG picture, 12, TIFF picture, 20"), jpeg);
    assert_eq!(read_clipboard("TIFF picture, 20, string, 3"), tiff);
    for plain in ["\u{ab}class utf8\u{bb}, 3", "ut16", "TEXT", "string, 3"] {
        assert_eq!(read_clipboard(plain), Some(PasteboardForm::Text));
    }
    assert_eq!(read_clipboard("PDF, 4"), None);
    assert_eq!(read_clipboard(""), None);
}

#[test]
fn descriptions_come_from_the_output() {
    assert_eq!(clipboard_info(true, b"string, 3\n", b"x"), Ok("string, 3\n".to_string()));
    assert_eq!(
        clipboard_info(true, b"a\xffb", b""),
        Ok(String::from_utf8_lossy(b"a\xffb").to_string())
    );
    assert_eq!(
        clipboard_info(false, b"string", b" no access\n"),
        Err("clipboard info failed: no access".to_string())
    );
    assert_eq!(
        describe_clipboard(false, String::new(), "\n"),
        Err("clipboard info failed: ".to_string())
    );
}

#[test]
fn contents_read_from_the_pasteboard_carry_their_fingerprint() {
    let item = text("abc");
    assert_eq!(item.kind, ClipboardKind::Text);
    assert_eq!(item.mime, "text/plain; charset=utf-8");
    assert_eq!(item.bytes, b"abc");
    assert_eq!(item.hash, "e1e2f2514621fbb2");
    assert_eq!(
        read_text_clipboard(false, "exit status: 1", Vec::new()),
        Err("pbpaste exited with exit status: 1".to_string())
    );
    let image = read_image_clipboard(ImageFormat::Png, vec![0, 1, 2, 10, 10, 255]);
    assert_eq!(image.kind, ClipboardKind::Image);
    assert_eq!(image.mime, "image/png");
    assert_eq!(image.hash, "a08b05d12dd60e6d");
}

#[test]
fn pasteboard_contents_arrive_in_the_form_they_were_read_in() {
    let mut contents = vec![(PasteboardForm::Text, text("caf\u{e9}"))];
    for format in [ImageFormat::Png, ImageFormat::Jpeg, ImageFormat::Tiff] {
        contents.push((
            PasteboardForm::Image(format),
            read_image_clipboard(format, vec![1, 2, 3]),
        ));
    }
    for (form, item) in contents {
        let arrived = decode_frame(&encode_frame(&item)).unwrap();
        assert_eq!(arrived, item);
        assert_eq!(write_clipboard(&arrived), Ok(form));
    }
}

#[test]
fn other_images_are_not_written() {
    let mut image = read_image_clipboard(ImageFormat::Png, vec![1]);
    image.mime = "image/webp".to_string();
    assert_eq!(
        write_clipboard(&image),
        Err("unsupported image MIME type: image/webp".to_string())
    );
    let mut plain = text("x");
    plain.mime = "text/html".to_string();
    assert_eq!(write_clipboard(&plain), Ok(PasteboardForm::Text));
}

#[test]
fn scripts_have_this_form() {
    assert_eq!(apple_class_expr("PNGf"), "\u{ab}class PNGf\u{bb}");
    assert_eq!(
        image_read_script(ImageFormat::Jpeg, "/tmp/a.jpg"),
        vec![
            "set rawData to the clipboard as \u{ab}class JPEG\u{bb}",
            "set outFile to POSIX file \"/tmp/a.jpg\"",
            "set openedFile to open for access outFile with write permission",
            "set eof openedFile to 0",
            "write rawData to openedFile",
            "close access openedFile",
        ]
    );
    assert_eq!(
        image_write_script(ImageFormat::Tiff, "/tmp/a.tiff"),
        vec![
            "set inFile to POSIX file \"/tmp/a.tiff\"",
            "set imageData to read inFile as \u{ab}class TIFF\u{bb}",
            "set the clipboard to imageData",
        ]
    );
    assert_eq!(
        osascript_args(&["one".to_string(), "two".to_string()]),
        vec!["-e", "one", "-e", "two"]
    );
    assert!(osascript_args(&[]).is_empty());
    assert_eq!(ImageFormat::Png.extension(), "png");
    assert_eq!(ImageFormat::Jpeg.extension(), "jpg");
    assert_eq!(ImageFormat::Tiff.extension(), "tiff");
    assert_eq!(temp_file_name(42, 1_700_000_000_000_000_000, "png"), "zync-42-1700000000000000000.png");
}

#[test]
fn ends_of_programs_become_results() {
    assert_eq!(check_exit("pbcopy", true, "exit status: 0"), Ok(()));
    assert_eq!(
        check_exit("pbcopy", false, "exit status: 1"),
        Err("pbcopy exited with exit status: 1".to_string())
    );
    assert_eq!(check_report("ssh", true, "", "warning"), Ok(()));
    assert_eq!(
        check_report("ssh", false, "exit status: 255", " no route \n"),
        Err("ssh exited with exit status: 255; no route".to_string())
    );
    assert_eq!(
        check_output("osascript", false, "exit status: 1", b"bad \xff\n"),
        Err("osascript exited with exit status: 1; bad \u{fffd}".to_string())
    );
    assert_eq!(check_output("osascript", true, "exit status: 0", b""), Ok(()));
}

#[test]
fn ends_of_workers_become_results() {
    let ok = || Some(Ok(()));
    let err = |message: &str| Some(Err(message.to_string()));
    let text = |message: &str| Err(message.to_string());
    assert_eq!(connect_result(ok(), ok(), true, "exit status: 0"), Ok(()));
    assert_eq!(
        connect_result(ok(), ok(), false, "exit status: 255"),
        text("ssh exited with exit status: 255")
    );
    assert_eq!(connect_result(err("s"), err("r"), false, "x"), text("s"));
    assert_eq!(connect_result(ok(), err("r"), false, "x"), text("r"));
    assert_eq!(
        connect_result(None, None, true, "x"),
        text("local clipboard sender panicked")
    );
    assert_eq!(
        connect_result(err("s"), None, true, "x"),
        text("remote clipboard receiver panicked")
    );
    assert_eq!(agent_result(ok(), ok()), Ok(()));
    assert_eq!(agent_result(err("r"), err("s")), text("r"));
    assert_eq!(agent_result(ok(), err("s")), text("s"));
    assert_eq!(agent_result(None, ok()), text("agent receiver panicked"));
    assert_eq!(agent_result(err("r"), None), text("agent sender panicked"));
}

#[test]
fn only_macos_is_supported() {
    assert_eq!(require_macos(true), Ok(()));
    assert_eq!(require_macos(false), Err("zync currently supports macOS only".to_string()));
}

#[test]
fn markers_suppress_what_they_name() {
    assert!(should_suppress_send(Some("abc"), "abc"));
    assert!(should_suppress_send(Some(" abc\n"), "abc"));
    assert!(!should_suppress_send(Some("abd"), "abc"));
    assert!(!should_suppress_send(None, "abc"));
}

#[test]
fn a_received_content_is_not_sent_back() {
    let mut session = Session::new(Delivery::Stream, "local");
    let item = text("from the peer");
    let read = Ok(Some(item.clone()));
    assert_eq!(session.on_clipboard(&read), ClipboardAction::ReadMarker);
    let receipt = on_received(&item, None);
    assert_eq!(
        session.on_marker(&item, Ok(Some(receipt.marker))),
        MarkerAction::AcceptRemote(format!("zync: accepted local clipboard {}", item.hash))
    );
    assert_eq!(session.on_clipboard(&read), ClipboardAction::Wait);
}

#[test]
fn receipts_name_the_content_and_its_sender() {
    let item = text("from the peer");
    let receipt = on_received(&item, Some("remote"));
    assert_eq!(receipt.marker, item.hash);
    assert_eq!(receipt.message, format!("zync: received remote text clipboard {}", item.hash));
    let image = read_image_clipboard(ImageFormat::Png, vec![1, 2, 3]);
    let receipt = on_received(&image, None);
    assert_eq!(receipt.marker, image.hash);
    assert_eq!(receipt.message, format!("zync: received image clipboard {}", image.hash));
}

#[test]
fn an_own_content_is_sent_once() {
    let mut session = Session::new(Delivery::Stream, "agent");
    let item = text("mine");
    let other = text("received");
    let read = Ok(Some(item.clone()));
    assert_eq!(session.on_clipboard(&read), ClipboardAction::ReadMarker);
    assert_eq!(
        session.on_marker(&item, Ok(Some(other.hash.clone()))),
        MarkerAction::Send(encode_frame(&item))
    );
    assert_eq!(session.on_clipboard(&read), ClipboardAction::ReadMarker);
    assert_eq!(session.on_marker(&item, Ok(None)), MarkerAction::Send(encode_frame(&item)));
    assert_eq!(
        session.on_sent(&item, Ok(())),
        Ok(format!("zync: sent text clipboard {}", item.hash))
    );
    assert_eq!(session.on_clipboard(&read), ClipboardAction::Wait);
    assert_eq!(session.on_clipboard(&Ok(Some(other))), ClipboardAction::ReadMarker);
    assert_eq!(session.on_clipboard(&Ok(None)), ClipboardAction::Wait);
    assert_eq!(
        session.on_clipboard(&Err("denied".to_string())),
        ClipboardAction::Report("zync: clipboard read failed: denied".to_string())
    );
}

#[test]
fn a_failed_sending_ends_a_stream_only() {
    let item = text("x");
    let mut stream = Session::new(Delivery::Stream, "local");
    assert_eq!(
        stream.on_sent(&item, Err("closed".to_string())),
        Err("failed to write clipboard frame: closed".to_string())
    );
    assert_eq!(stream.last_seen_hash, None);
    let mut command = Session::new(Delivery::Command, "remote");
    assert_eq!(
        command.on_sent(&item, Err("no route".to_string())),
        Ok(format!("zync: send failed for {}: no route", item.hash))
    );
    assert_eq!(command.last_seen_hash, Some(item.hash.clone()));
}

#[test]
fn a_single_sending_needs_a_content() {
    let item = text("once");
    assert_eq!(send_once(Ok(Some(item.clone()))), Ok(encode_frame(&item)));
    assert_eq!(send_once(Ok(None)), Err("clipboard is empty or unsupported".to_string()));
    assert_eq!(send_once(Err("denied".to_string())), Err("denied".to_string()));
}

#[test]
fn commands_run_on_the_peer() {
    let config = ServeConfig {
        peer: "home".to_string(),
        remote_bin: "zync".to_string(),
        ssh_bin: "ssh".to_string(),
        interval_ms: 750,
    };
    assert_eq!(connect_args(&config), vec!["home", "zync", "agent"]);
    assert_eq!(send_args(&config), vec!["home", "zync", "receive"]);
}

#[test]
fn the_marker_lies_below_the_home_directory() {
    for home in ["/Users/user", "/Users/user/", "/", "", "a//"] {
        let dir = std::path::Path::new(home).join(".zync");
        let marker = dir.join("last-received");
        assert_eq!(
            state_dir(Some(home.as_bytes())),
            Ok(dir.to_str().unwrap().as_bytes().to_vec())
        );
        assert_eq!(
            received_marker_path(Some(home.as_bytes())),
            Ok(marker.to_str().unwrap().as_bytes().to_vec())
        );
    }
    assert_eq!(state_dir(None), Err("HOME is not set".to_string()));
    assert_eq!(received_marker_path(None), Err("HOME is not set".to_string()));
}

#[test]
fn fingerprints_name_themselves_in_markers() {
    let hash = fingerprint("image", "image/png", &[1]);
    assert_eq!(hash.len(), 16);
    assert!(hash.bytes().all(|b| b.is_ascii_digit() || (b'a'..=b'f').contains(&b)));
    assert!(should_suppress_send(Some(&hash), &hash));
}

struct Look {
    read: Result<Option<ClipboardItem>, String>,
    marker: Result<Option<String>, String>,
    sent: Result<(), String>,
}

fn look(read: Result<Option<ClipboardItem>, String>, marker: Option<&ClipboardItem>) -> Look {
    Look { read, marker: Ok(marker.map(|item| item.hash.clone())), sent: Ok(()) }
}

/// The fingerprints for which the marker was asked for, the frames that were sent, and the
/// message that ended the session.
fn run(delivery: Delivery, looks: Vec<Look>) -> (Vec<String>, Vec<Vec<u8>>, Option<String>) {
    let mut session = Session::new(delivery, "local");
    let mut asked = Vec::new();
    let mut frames = Vec::new();
    for look in looks {
        if session.on_clipboard(&look.read) != ClipboardAction::ReadMarker {
            continue;
        }
        let item = look.read.unwrap().unwrap();
        asked.push(item.hash.clone());
        match session.on_marker(&item, look.marker) {
            MarkerAction::AcceptRemote(_) => {}
            MarkerAction::Send(frame) => {
                frames.push(frame);
                if let Err(message) = session.on_sent(&item, look.sent) {
                    return (asked, frames, Some(message));
                }
            }
            MarkerAction::End(message) => return (asked, frames, Some(message)),
        }
    }
    (asked, frames, None)
}

#[test]
fn a_run_sends_each_own_change_once_and_in_order() {
    let (a, b, c) = (text("a"), text("b"), text("c"));
    for delivery in [Delivery::Stream, Delivery::Command] {
        let looks = vec![
            look(Ok(None), None),
            look(Ok(Some(a.clone())), None),
            look(Err("no pasteboard".to_string()), None),
            look(Ok(Some(a.clone())), None),
            look(Ok(Some(b.clone())), Some(&b)),
            look(Ok(Some(b.clone())), None),
            look(Ok(None), None),
            look(Ok(Some(c.clone())), Some(&b)),
            look(Ok(Some(a.clone())), None),
        ];
        let hashes: Vec<String> = [&a, &b, &c, &a].iter().map(|item| item.hash.clone()).collect();
        let frames: Vec<Vec<u8>> = [&a, &c, &a].iter().map(|item| encode_frame(item)).collect();
        assert_eq!(run(delivery, looks), (hashes, frames, None));
    }
}

#[test]
fn a_failed_command_is_not_retried() {
    let (a, b) = (text("a"), text("b"));
    let failed = || Look {
        read: Ok(Some(a.clone())),
        marker: Ok(None),
        sent: Err("ssh exited with 1".to_string()),
    };
    let looks = vec![
        failed(),
        look(Ok(Some(a.clone())), None),
        look(Ok(None), None),
        look(Ok(Some(a.clone())), None),
        look(Ok(Some(b.clone())), None),
    ];
    let (_, frames, ended) = run(Delivery::Command, looks);
    assert_eq!(frames, vec![encode_frame(&a), encode_frame(&b)]);
    assert_eq!(ended, None);
    let looks = vec![failed(), look(Ok(Some(b.clone())), None)];
    let (_, frames, ended) = run(Delivery::Stream, looks);
    assert_eq!(frames, vec![encode_frame(&a)]);
    assert_eq!(ended.unwrap(), "failed to write clipboard frame: ssh exited with 1");
}

#[test]
fn a_marker_that_cannot_be_read_ends_a_session() {
    let a = text("a");
    for delivery in [Delivery::Stream, Delivery::Command] {
        let looks = vec![
            Look {
                read: Ok(Some(a.clone())),
                marker: Err("HOME is not set".to_string()),
                sent: Ok(()),
            },
            look(Ok(Some(text("b"))), None),
        ];
        assert_eq!(
            run(delivery, looks),
            (vec![a.hash.clone()], vec![], Some("HOME is not set".to_string()))
        );
    }
}

#[test]
fn contents_before_a_refused_tail_are_written() {
    let contents = [text("one"), read_image_clipboard(ImageFormat::Jpeg, vec![0, 10, 10])];
    for (tail, end) in [(&b""[..], Ok(())), (b"ZYNC2\n", Err("invalid frame: bad magic"))] {
        let mut bytes = Vec::new();
        for item in &contents {
            bytes.extend_from_slice(&encode_frame(item));
        }
        bytes.extend_from_slice(tail);
        let mut reader = bytes.as_slice();
        let mut written = Vec::new();
        let result = loop {
            match read_frame_from(&mut reader) {
                Ok(Some(item)) => {
                    let form = write_clipboard(&item).unwrap();
                    written.push((form, item.bytes.clone(), on_received(&item, None).marker));
                }
                Ok(None) => break Ok(()),
                Err(message) => break Err(message),
            }
        };
        let expected = vec![
            (PasteboardForm::Text, b"one".to_vec(), contents[0].hash.clone()),
            (
                PasteboardForm::Image(ImageFormat::Jpeg),
                vec![0, 10, 10],
                contents[1].hash.clone(),
            ),
        ];
        assert_eq!(written, expected);
        assert_eq!(result, end.map_err(|message: &str| message.to_string()));
    }
}
