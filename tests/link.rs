use std::sync::mpsc::channel;
use watchy_scom::controller::{send_serial, MyApp};
use watchy_scom::frame::{find_subsequence, Frame, FrameParser, PAYLOAD_LEN};
use watchy_scom::protocol::{Args, SendToGui, SendToSerial, DEFAULT_PORT};
use watchy_scom::relay::Relay;
use watchy_scom::screen::{decode_raster, screen_png, RASTER_LEN};
use watchy_scom::session::{frame_event, ports_event, LinkAction, LocalLink};

const START: &[u8] = b"thisisastartpack";
const END: &[u8] = b"thisisaendddpack";

fn capture(logs: &[u8], payload: &[u8]) -> Vec<u8> {
    let mut v = logs.to_vec();
    v.extend_from_slice(START);
    v.extend_from_slice(payload);
    v.extend_from_slice(END);
    v
}

fn synced_parser() -> FrameParser {
    let mut p = FrameParser::new();
    assert!(p.feed(b"stale bytes").is_empty());
    assert!(p.feed(END).is_empty());
    assert!(p.is_synced());
    p
}

fn payload_pattern(len: usize) -> Vec<u8> {
    (0..len).map(|i| (i * 7 % 251) as u8).collect()
}

#[test]
fn find_subsequence_reports_first_occurrence() {
    assert_eq!(find_subsequence(b"abcabc", b"bc"), Some(1));
    assert_eq!(find_subsequence(b"abcabc", b"cb"), None);
    assert_eq!(find_subsequence(b"ab", b"abc"), None);
    assert_eq!(find_subsequence(b"abc", b""), Some(0));
}

#[test]
fn find_subsequence_matches_whole_vector() {
    assert_eq!(find_subsequence(END, END), Some(0));
    assert_eq!(find_subsequence(b"xxthisisaendddpack", END), Some(2));
}

#[test]
fn nothing_emitted_before_synchronization() {
    let mut p = FrameParser::new();
    assert!(!p.is_synced());
    let stream = capture(b"log line\n", &payload_pattern(PAYLOAD_LEN));
    // The end marker arrives last: everything before it is buffered only.
    let (head, tail) = stream.split_at(stream.len() - 1);
    assert!(p.feed(head).is_empty());
    assert!(!p.is_synced());
    // The first end marker synchronizes and discards the capture.
    assert!(p.feed(tail).is_empty());
    assert!(p.is_synced());
    // Nothing of the discarded capture is replayed later.
    assert!(p.feed(b"more").is_empty());
}

#[test]
fn full_capture_emits_log_then_screen() {
    let mut p = synced_parser();
    let payload = payload_pattern(PAYLOAD_LEN);
    let frames = p.feed(&capture(b"src/main.rs: hello\n", &payload));
    assert_eq!(
        frames,
        vec![Frame::Log(b"src/main.rs: hello\n".to_vec()), Frame::Screen(payload)]
    );
}

#[test]
fn short_capture_emits_log_only_and_advances() {
    let mut p = synced_parser();
    let mut stream = capture(b"first", &payload_pattern(PAYLOAD_LEN - 1));
    let payload = payload_pattern(PAYLOAD_LEN);
    stream.extend_from_slice(&capture(b"second", &payload));
    let frames = p.feed(&stream);
    assert_eq!(
        frames,
        vec![
            Frame::Log(b"first".to_vec()),
            Frame::Log(b"second".to_vec()),
            Frame::Screen(payload)
        ]
    );
}

#[test]
fn end_marker_without_start_emits_log() {
    let mut p = synced_parser();
    let mut stream = b"only text".to_vec();
    stream.extend_from_slice(END);
    assert_eq!(p.feed(&stream), vec![Frame::Log(b"only text".to_vec())]);
}

#[test]
fn start_after_end_discards_buffer() {
    let mut p = synced_parser();
    let mut stream = b"text".to_vec();
    stream.extend_from_slice(END);
    stream.extend_from_slice(START);
    stream.extend_from_slice(b"next");
    assert!(p.feed(&stream).is_empty());
    // The buffer was cleared: the next end marker closes nothing stale.
    let mut after = b"later".to_vec();
    after.extend_from_slice(END);
    assert_eq!(p.feed(&after), vec![Frame::Log(b"later".to_vec())]);
}

#[test]
fn chunk_size_does_not_change_frames() {
    let mut stream = capture(b"a\nb\n", &payload_pattern(PAYLOAD_LEN));
    stream.extend_from_slice(&capture(b"c\n", &payload_pattern(12)));
    stream.extend_from_slice(&capture(b"", &vec![0xFFu8; PAYLOAD_LEN]));
    stream.extend_from_slice(b"partial");

    let mut whole = synced_parser();
    let expected = whole.feed(&stream);
    assert_eq!(expected.len(), 5);

    for size in [1usize, 2, 7, 16, 1000, 7000] {
        let mut p = synced_parser();
        let mut got = Vec::new();
        for chunk in stream.chunks(size) {
            got.extend(p.feed(chunk));
        }
        assert_eq!(got, expected, "chunk size {}", size);
    }
}

#[test]
fn all_zero_payload_is_black() {
    let raster = decode_raster(&vec![0u8; PAYLOAD_LEN]);
    assert_eq!(raster.len(), RASTER_LEN);
    assert!(raster.iter().all(|&b| b == 0));
}

#[test]
fn all_ones_payload_is_white() {
    let raster = decode_raster(&vec![0xFFu8; PAYLOAD_LEN]);
    assert_eq!(raster.len(), RASTER_LEN);
    assert!(raster.iter().all(|&b| b == 255));
}

#[test]
fn truncated_payload_ends_in_red() {
    let raster = decode_raster(&vec![0xFFu8; PAYLOAD_LEN - 1]);
    assert_eq!(raster.len(), RASTER_LEN);
    let last_pixels = &raster[RASTER_LEN - 8 * 3..];
    for px in last_pixels.chunks(3) {
        assert_eq!(px, &[255, 0, 0]);
    }
    assert!(raster[..RASTER_LEN - 8 * 3].iter().all(|&b| b == 255));
}

#[test]
fn pixel_bits_are_msb_first() {
    let mut payload = vec![0u8; PAYLOAD_LEN];
    payload[0] = 0b1000_0001;
    payload[25] = 0b0100_0000; // pixel 201: (x = 1, y = 1)
    let raster = decode_raster(&payload);
    assert_eq!(&raster[0..3], &[255, 255, 255]);
    assert_eq!(&raster[3..6], &[0, 0, 0]);
    assert_eq!(&raster[7 * 3..8 * 3], &[255, 255, 255]);
    assert_eq!(&raster[201 * 3..202 * 3], &[255, 255, 255]);
    assert_eq!(&raster[200 * 3..201 * 3], &[0, 0, 0]);
}

#[test]
fn screen_png_decodes_to_raster() {
    let mut payload = vec![0u8; PAYLOAD_LEN];
    payload[0] = 0b1000_0000;
    let png = screen_png(&payload);
    let img = image::load_from_memory(&png).expect("valid png").to_rgb8();
    assert_eq!((img.width(), img.height()), (200, 200));
    assert_eq!(img.get_pixel(0, 0).0, [255, 255, 255]);
    assert_eq!(img.get_pixel(1, 0).0, [0, 0, 0]);
    assert_eq!(img.get_pixel(199, 199).0, [0, 0, 0]);
}

#[test]
fn ports_event_leads_with_none() {
    let ev = ports_event(Ok(vec!["COM3".to_string(), "/dev/ttyUSB0".to_string()]));
    assert_eq!(
        ev,
        SendToGui::Ports(vec!["None".to_string(), "COM3".to_string(), "/dev/ttyUSB0".to_string()])
    );
    assert_eq!(ports_event(Ok(vec![])), SendToGui::Ports(vec!["None".to_string()]));
}

#[test]
fn ports_event_failure_becomes_log() {
    let ev = ports_event(Err("no ports here".to_string()));
    assert_eq!(ev, SendToGui::LogToShow("no ports here".to_string()));
}

#[test]
fn message_without_port_is_dropped() {
    let link = LocalLink::new();
    assert!(!link.is_connected());
    assert_eq!(
        link.on_command(SendToSerial::SendMessage("up-button:".to_string())),
        LinkAction::NoPort
    );
    assert_eq!(link.on_command(SendToSerial::AskForPorts()), LinkAction::ListPorts);
}

#[test]
fn log_frame_replaces_invalid_utf8() {
    let ev = frame_event(Frame::Log(vec![b'o', b'k', 0xFF, b'!']));
    assert_eq!(ev, SendToGui::LogToShow("ok\u{FFFD}!".to_string()));
    let ev = frame_event(Frame::Log(b"src/a.rs: 1\n".to_vec()));
    assert_eq!(ev, SendToGui::LogToShow("src/a.rs: 1\n".to_string()));
}

#[test]
fn select_port_then_screen_round_trip() {
    let mut link = LocalLink::new();
    let action = link.on_command(SendToSerial::SelectPort("COM3".to_string(), 921600));
    assert_eq!(
        action,
        LinkAction::OpenPort {
            name: "COM3".to_string(),
            baud_rate: 921600,
            timeout_ms: 50000,
            settle_ms: 500
        }
    );
    assert_eq!(link.port_opened(), LinkAction::Write("screen:".to_string()));
    assert!(link.is_connected());
    assert_eq!(
        link.on_command(SendToSerial::SendMessage("screen:".to_string())),
        LinkAction::Write("screen:".to_string())
    );

    let mut payload = vec![0u8; PAYLOAD_LEN];
    payload[PAYLOAD_LEN - 1] = 0x01;
    let mut stale = b"leftover".to_vec();
    stale.extend_from_slice(END);
    assert!(link.on_bytes(&stale).is_empty());
    let stream = capture(b"src/ui.rs: drawn\n", &payload);

    let mut events = Vec::new();
    for chunk in stream.chunks(999) {
        for frame in link.on_bytes(chunk) {
            events.push(frame_event(frame));
        }
    }
    assert_eq!(events.len(), 2);
    assert_eq!(events[0], SendToGui::LogToShow("src/ui.rs: drawn\n".to_string()));
    match &events[1] {
        SendToGui::ShowPng(png) => {
            let img = image::load_from_memory(png).expect("valid png").to_rgb8();
            assert_eq!((img.width(), img.height()), (200, 200));
            assert_eq!(img.get_pixel(199, 199).0, [255, 255, 255]);
            assert_eq!(img.get_pixel(198, 199).0, [0, 0, 0]);
        }
        other => panic!("expected a screen, got {:?}", other),
    }
}

#[test]
fn reopening_port_restarts_stream() {
    let mut link = LocalLink::new();
    link.port_opened();
    let mut stream = b"x".to_vec();
    stream.extend_from_slice(END);
    assert!(link.on_bytes(&stream).is_empty());
    link.port_opened();
    // A fresh parser must synchronize again.
    assert!(link.on_bytes(&stream).is_empty());
    assert_eq!(link.on_bytes(&stream), vec![Frame::Log(b"x".to_vec())]);
}

#[test]
fn relay_remembers_first_client() {
    let mut relay: Relay<u32> = Relay::new();
    assert_eq!(relay.event_target(), None);
    assert!(relay.on_accept(7));
    assert!(!relay.on_accept(9));
    assert_eq!(relay.event_target(), Some(7));
}

#[test]
fn controller_starts_with_defaults() {
    let (tx, rx) = channel();
    let app = MyApp::new(tx, rx);
    assert!(app.tx_serial.is_none());
    assert_eq!(app.sel_port, 0);
    assert!(app.ports.is_empty());
    assert_eq!(app.baud_rate, "921600");
    assert_eq!(app.remote_address, ":24377");
    assert!(app.image.is_empty() && app.logs.is_empty());
    assert!(!app.connected && !app.decided_backend);
}

#[test]
fn send_serial_reports_hand_off() {
    assert!(!send_serial(None, SendToSerial::AskForPorts()));
    let (tx, rx) = channel();
    assert!(send_serial(Some(tx.clone()), SendToSerial::SendMessage("menu-button:".to_string())));
    assert_eq!(rx.recv().unwrap(), SendToSerial::SendMessage("menu-button:".to_string()));
    drop(rx);
    assert!(!send_serial(Some(tx), SendToSerial::AskForPorts()));
}

#[test]
fn relay_port_defaults() {
    assert_eq!(Args::default().port, 24377);
    assert_eq!(DEFAULT_PORT, 24377);
}

#[test]
fn filter_keeps_source_lines() {
    let (kept, hints) = watchy_scom::logs::filter_logs("src/main.rs: a\nnoise\n\nsrc/x.rs: b\r\nsrc/tail");
    assert_eq!(kept, "src/main.rs: a\nsrc/x.rs: b\nsrc/tail\n");
    assert_eq!(hints, 0);
    assert_eq!(watchy_scom::logs::filter_logs(""), (String::new(), 0));
    assert_eq!(watchy_scom::logs::filter_logs("x src/a\n"), (String::new(), 0));
}

#[test]
fn filter_counts_screen_dumps() {
    let dump: String = std::iter::repeat('\u{FFFD}').take(31).collect();
    let short: String = std::iter::repeat('é').take(30).collect();
    let input = format!("{}\n{}\nsrc/{}\n{}", dump, short, dump, dump);
    let (kept, hints) = watchy_scom::logs::filter_logs(&input);
    assert_eq!(kept, format!("src/{}\n", dump));
    assert_eq!(hints, 2);
}

#[test]
fn controller_applies_events() {
    let (tx, rx) = channel();
    let mut app = MyApp::new(tx, rx);
    assert_eq!(app.on_event(SendToGui::Ports(vec!["None".to_string(), "COM3".to_string()])), 0);
    assert_eq!(app.ports, vec!["None".to_string(), "COM3".to_string()]);
    let dump: String = std::iter::repeat('\u{FFFD}').take(40).collect();
    let requests = app.on_event(SendToGui::LogToShow(format!("src/a.rs: 1\n{}\njunk\n", dump)));
    assert_eq!(requests, 1);
    assert_eq!(app.on_event(SendToGui::LogToShow("src/b.rs: 2".to_string())), 0);
    assert_eq!(app.logs, "src/a.rs: 1\nsrc/b.rs: 2\n");
    assert_eq!(app.on_event(SendToGui::ShowPng(vec![1, 2, 3])), 0);
    assert_eq!(app.image, vec![1, 2, 3]);
}

#[test]
fn controller_send_needs_backend() {
    let (tx, rx) = channel();
    let mut app = MyApp::new(tx, rx);
    assert!(!app.send(SendToSerial::AskForPorts()));
    let (tx_serial, rx_serial) = channel();
    app.tx_serial = Some(tx_serial);
    assert!(app.send(SendToSerial::SendMessage("screen:".to_string())));
    assert_eq!(rx_serial.recv().unwrap(), SendToSerial::SendMessage("screen:".to_string()));
}

#[test]
fn baud_rate_beyond_u32_is_refused() {
    let link = LocalLink::new();
    let big = u32::MAX as usize + 1;
    assert_eq!(
        link.on_command(SendToSerial::SelectPort("COM3".to_string(), big)),
        LinkAction::InvalidBaudRate(big)
    );
    assert_eq!(
        link.on_command(SendToSerial::SelectPort("COM3".to_string(), u32::MAX as usize)),
        LinkAction::OpenPort {
            name: "COM3".to_string(),
            baud_rate: u32::MAX,
            timeout_ms: 50000,
            settle_ms: 500
        }
    );
}

#[test]
fn screen_frame_always_gives_png() {
    let ev = frame_event(Frame::Screen(vec![0xFFu8; PAYLOAD_LEN]));
    match ev {
        SendToGui::ShowPng(png) => {
            let img = image::load_from_memory(&png).expect("valid png").to_rgb8();
            assert!(img.pixels().all(|p| p.0 == [255, 255, 255]));
        }
        other => panic!("expected a screen, got {:?}", other),
    }
}

#[test]
fn screen_dump_lines_request_screens() {
    let (tx, rx) = channel();
    let mut app = MyApp::new(tx, rx);
    let (tx_serial, rx_serial) = channel();
    app.tx_serial = Some(tx_serial);
    let dump: String = std::iter::repeat('\u{FFFD}').take(31).collect();
    let input = format!("{}\nsrc/ok.rs: 1\n{}\n\nplain\n", dump, dump);
    assert_eq!(app.on_event(SendToGui::LogToShow(input)), 2);
    assert_eq!(app.logs, "src/ok.rs: 1\n");
    let sent: Vec<SendToSerial> = rx_serial.try_iter().collect();
    assert_eq!(
        sent,
        vec![
            SendToSerial::SendMessage("screen:".to_string()),
            SendToSerial::SendMessage("screen:".to_string())
        ]
    );
}
