use stdin_dispatch::decoder::Decoder;
use stdin_dispatch::dispatch::{
    is_mouse_press_or_hold, DispatchInstruction, InputDispatch, InputEvent, MouseAction,
    LEFT_BUTTON, MIDDLE_BUTTON, RIGHT_BUTTON,
};
use stdin_dispatch::handler::{InputLoop, Routed};
use stdin_dispatch::options::Options;
use stdin_dispatch::query::{
    parse_number, parse_report, parse_response, CapabilityEvent, QueryState, QUERY_TIMEOUT_MS,
};

fn mouse(buttons: u8) -> MouseAction {
    MouseAction { x: 3, y: 4, buttons, modifiers: 0 }
}

fn input_of(r: Routed) -> Vec<DispatchInstruction> {
    match r {
        Routed::Input(v) => v,
        Routed::Response(_) => panic!("chunk went to the query window"),
    }
}

fn response_of(r: Routed) -> Vec<CapabilityEvent> {
    match r {
        Routed::Response(v) => v,
        Routed::Input(_) => panic!("chunk went to user input"),
    }
}

#[test]
fn options_from_yaml_keeps_given() {
    let o = Options::from_yaml(Some(Options { simplified_ui: true }));
    assert!(o.simplified_ui);
}

#[test]
fn options_from_yaml_defaults() {
    assert_eq!(Options::from_yaml(None), Options::default());
    assert!(!Options::from_yaml(None).simplified_ui);
}

#[test]
fn press_or_hold_classification() {
    assert!(is_mouse_press_or_hold(&InputEvent::Mouse(mouse(LEFT_BUTTON))));
    assert!(is_mouse_press_or_hold(&InputEvent::Mouse(mouse(RIGHT_BUTTON))));
    assert!(!is_mouse_press_or_hold(&InputEvent::Mouse(mouse(MIDDLE_BUTTON))));
    assert!(!is_mouse_press_or_hold(&InputEvent::Mouse(mouse(0))));
    assert!(!is_mouse_press_or_hold(&InputEvent::Paste("x".to_string())));
    assert!(!is_mouse_press_or_hold(&InputEvent::Unknown));
}

#[test]
fn first_event_takes_all_pending_bytes() {
    let mut d = InputDispatch::new();
    let out = d.dispatch_events(b"ab", vec![]);
    assert!(out.is_empty());
    assert_eq!(d.pending, b"ab".to_vec());
    let out = d.dispatch_events(b"cd", vec![InputEvent::Unknown, InputEvent::Paste("p".to_string())]);
    assert_eq!(out.len(), 2);
    assert_eq!(out[0].bytes, b"abcd".to_vec());
    assert!(out[1].bytes.is_empty());
    assert!(matches!(out[1].event, InputEvent::Paste(ref s) if s == "p"));
    assert!(d.pending.is_empty());
}

#[test]
fn continuation_repeats_left_press_until_ready() {
    let mut d = InputDispatch::new();
    let out = d.dispatch_events(b"m", vec![InputEvent::Mouse(mouse(LEFT_BUTTON))]);
    assert_eq!(out.len(), 1);
    assert!(d.holding_mouse);
    assert_eq!(d.continuation, Some(mouse(LEFT_BUTTON)));
    for _ in 0..3 {
        let again = d.poll_hold(false).expect("a held press is repeated");
        assert!(matches!(again.event, InputEvent::Mouse(m) if m == mouse(LEFT_BUTTON)));
        assert!(again.bytes.is_empty());
    }
    assert!(d.poll_hold(true).is_none());
    assert!(d.poll_hold(false).is_none());
}

#[test]
fn key_after_press_clears_hold() {
    let mut d = InputDispatch::new();
    let mut lp = InputLoop::new();
    let mut q = QueryState::new();
    let events = lp.decoder.decode(b"a");
    assert_eq!(events.len(), 1);
    let out = d.dispatch_events(
        b"ma",
        vec![InputEvent::Mouse(mouse(LEFT_BUTTON)), events.into_iter().next().unwrap()],
    );
    assert_eq!(out.len(), 2);
    assert!(!d.holding_mouse);
    assert_eq!(d.continuation, None);
    assert!(d.poll_hold(false).is_none());
    let out = input_of(lp.on_chunk(&mut q, b"\x1b[<0;10;5Ma", 0));
    assert_eq!(out.len(), 2);
    assert!(matches!(out[1].event, InputEvent::KeyPress(_)));
    assert!(!lp.input.holding_mouse);
    assert!(lp.poll_hold(false).is_none());
}

#[test]
fn decoder_reports_sgr_mouse_press() {
    let mut dec = Decoder::new();
    let events = dec.decode(b"\x1b[<0;10;5M");
    assert_eq!(events.len(), 1);
    match &events[0] {
        InputEvent::Mouse(m) => {
            assert_eq!((m.x, m.y, m.buttons, m.modifiers), (10, 5, LEFT_BUTTON, 0));
        }
        other => panic!("unexpected {:?}", other),
    }
}

#[test]
fn decoder_reports_key_press() {
    let mut dec = Decoder::new();
    let events = dec.decode(b"q");
    assert_eq!(events.len(), 1);
    assert!(matches!(events[0], InputEvent::KeyPress(_)));
}

#[test]
fn loop_holds_decoded_left_press() {
    let mut lp = InputLoop::new();
    let mut q = QueryState::new();
    let out = input_of(lp.on_chunk(&mut q, b"\x1b[<0;10;5M", 0));
    assert_eq!(out.len(), 1);
    assert_eq!(out[0].bytes, b"\x1b[<0;10;5M".to_vec());
    let again = lp.poll_hold(false).expect("held press repeats");
    assert!(matches!(again.event, InputEvent::Mouse(m) if m.x == 10 && m.y == 5));
    assert!(lp.poll_hold(true).is_none());
    let out = input_of(lp.on_chunk(&mut q, b"z", 1));
    assert_eq!(out.len(), 1);
    assert_eq!(out[0].bytes, b"z".to_vec());
}

fn run(chunks: &[&[u8]]) -> (Vec<Vec<u8>>, Vec<String>, Vec<u8>) {
    let mut lp = InputLoop::new();
    let mut q = QueryState::new();
    let mut bytes = vec![];
    let mut kinds = vec![];
    for c in chunks {
        for d in input_of(lp.on_chunk(&mut q, c, 0)) {
            bytes.push(d.bytes);
            kinds.push(format!("{:?}", d.event));
        }
    }
    (bytes, kinds, lp.input.pending.clone())
}

#[test]
fn every_input_byte_handed_over_once() {
    let chunks: Vec<&[u8]> = vec![b"ab", b"c", b"\x1b[<0;1;2M", b"xyz"];
    let (bytes, _, pending) = run(&chunks);
    let mut joined: Vec<u8> = bytes.concat();
    joined.extend(pending);
    assert_eq!(joined, chunks.concat());
}

#[test]
fn same_chunks_same_instructions() {
    let chunks: Vec<&[u8]> = vec![b"hi", b"\x1b[<0;4;4M", b"\x1b[<32;5;4M", b"!"];
    assert_eq!(run(&chunks), run(&chunks));
}

#[test]
fn query_opens_window_with_deadline() {
    let mut q = QueryState::new();
    assert!(!q.should_parse_as_response(0));
    assert_eq!(q.open_query(1000), "\x1b[14t\x1b[16t");
    assert_eq!(q.deadline, Some(1000 + QUERY_TIMEOUT_MS));
    assert!(q.should_parse_as_response(1000 + QUERY_TIMEOUT_MS));
    assert!(!q.should_parse_as_response(1001 + QUERY_TIMEOUT_MS));
    q.open_query(u64::MAX - 1);
    assert_eq!(q.deadline, Some(u64::MAX));
}

#[test]
fn response_closes_window() {
    let mut lp = InputLoop::new();
    let mut q = QueryState::new();
    q.open_query(0);
    let evs = response_of(lp.on_chunk(&mut q, b"\x1b[4;600;800t\x1b[6;20;10t", 10));
    assert_eq!(
        evs,
        vec![
            CapabilityEvent::TextAreaSize { height: 600, width: 800 },
            CapabilityEvent::CellSize { height: 20, width: 10 },
        ]
    );
    assert_eq!(q.deadline, None);
    assert!(lp.input.pending.is_empty());
    let out = input_of(lp.on_chunk(&mut q, b"k", 20));
    assert_eq!(out[0].bytes, b"k".to_vec());
}

#[test]
fn response_split_across_chunks() {
    let mut q = QueryState::new();
    q.open_query(0);
    assert!(q.consume(b"\x1b[4;60", 1).is_empty());
    assert!(q.deadline.is_some());
    assert!(q.consume(b"0;800t", 2).is_empty());
    assert!(q.deadline.is_some());
    let evs = q.consume(b"\x1b[6;20;10t", 3);
    assert_eq!(
        evs,
        vec![
            CapabilityEvent::TextAreaSize { height: 600, width: 800 },
            CapabilityEvent::CellSize { height: 20, width: 10 },
        ]
    );
    assert_eq!(q.deadline, None);
}

#[test]
fn late_bytes_are_dropped() {
    let mut lp = InputLoop::new();
    let mut q = QueryState::new();
    q.open_query(0);
    let evs = response_of(lp.on_chunk(&mut q, b"\x1b[4;600;800t", QUERY_TIMEOUT_MS + 1));
    assert!(evs.is_empty());
    assert_eq!(q.deadline, None);
    assert!(q.buffer.is_empty());
    assert!(lp.input.pending.is_empty());
}

#[test]
fn unrecognized_bytes_keep_window_open() {
    let mut q = QueryState::new();
    q.open_query(0);
    assert!(q.consume(b"\x1b[5;1;1t", 1).is_empty());
    assert_eq!(q.deadline, Some(QUERY_TIMEOUT_MS));
    assert_eq!(q.buffer, b"\x1b[5;1;1t".to_vec());
}

#[test]
fn closed_window_ignores_consume() {
    let mut q = QueryState::new();
    assert!(q.consume(b"\x1b[4;1;1t", 0).is_empty());
    assert!(q.buffer.is_empty());
}

#[test]
fn number_parsing_limits() {
    assert_eq!(parse_number(b"9999;", 0), Some((9999, 4)));
    assert_eq!(parse_number(b"65535", 0), Some((65535, 5)));
    assert_eq!(parse_number(b"65536", 0), None);
    assert_eq!(parse_number(b"123456", 0), None);
    assert_eq!(parse_number(b"x1", 0), None);
    assert_eq!(parse_number(b"x1", 1), Some((1, 2)));
    assert_eq!(parse_number(b"", 0), None);
}

#[test]
fn report_parsing() {
    assert_eq!(
        parse_report(b"\x1b[6;18;9t", 0),
        Some((CapabilityEvent::CellSize { height: 18, width: 9 }, 9))
    );
    assert_eq!(parse_report(b"\x1b[6;18;9", 0), None);
    assert_eq!(parse_report(b"\x1b[6;18t", 0), None);
    assert_eq!(parse_response(b""), None);
    assert_eq!(parse_response(b"\x1b[4;1;2tx"), None);
}

#[test]
fn large_sizes_are_recognised() {
    let mut q = QueryState::new();
    q.open_query(0);
    let evs = q.consume(b"\x1b[4;12000;20480t\x1b[6;40;20t", 1);
    assert_eq!(evs[0], CapabilityEvent::TextAreaSize { height: 12000, width: 20480 });
    assert_eq!(q.deadline, None);
}

#[test]
fn each_key_carries_its_own_bytes() {
    let mut lp = InputLoop::new();
    let mut q = QueryState::new();
    let out = input_of(lp.on_chunk(&mut q, b"ab", 0));
    assert_eq!(out.len(), 2);
    assert_eq!(out[0].bytes, b"a".to_vec());
    assert_eq!(out[1].bytes, b"b".to_vec());
}

#[test]
fn multibyte_character_is_one_key() {
    let mut lp = InputLoop::new();
    let mut q = QueryState::new();
    let out = input_of(lp.on_chunk(&mut q, "\u{e9}x".as_bytes(), 0));
    assert_eq!(out.len(), 2);
    assert!(matches!(out[0].event, InputEvent::KeyPress(_)));
    assert_eq!(out[0].bytes, "\u{e9}".as_bytes().to_vec());
    assert_eq!(out[1].bytes, b"x".to_vec());
}

#[test]
fn malformed_paste_does_not_panic() {
    let mut lp = InputLoop::new();
    let mut q = QueryState::new();
    let chunk: &[u8] = b"\x1b[200~\xff\x1b[201~";
    let out = input_of(lp.on_chunk(&mut q, chunk, 0));
    let mut joined: Vec<u8> = out.iter().flat_map(|d| d.bytes.clone()).collect();
    joined.extend(lp.input.pending.clone());
    assert_eq!(joined, chunk.to_vec());
    assert!(out.iter().any(|d| matches!(d.event, InputEvent::Paste(ref s) if s == "\u{fffd}")));
}

#[test]
fn key_then_mouse_report_split_bytes() {
    let mut lp = InputLoop::new();
    let mut q = QueryState::new();
    let out = input_of(lp.on_chunk(&mut q, b"a\x1b[<0;1;2M", 0));
    assert_eq!(out.len(), 2);
    assert_eq!(out[0].bytes, b"a".to_vec());
    assert!(matches!(out[1].event, InputEvent::Mouse(m) if m.x == 1 && m.y == 2));
    assert_eq!(out[1].bytes, b"\x1b[<0;1;2M".to_vec());
}
