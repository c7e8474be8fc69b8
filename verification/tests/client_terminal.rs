use ghostty_web::bridge::{
    button_bits, document_title, focus_report, is_ghostty_vt_log, is_real_bell, mouse_report,
    paste_input, reports_motion, MouseKind,
};
use ghostty_web::connection::{
    consume_take_flag, on_close, reconnect_tick, urlencode, websocket_url, CloseOutcome, Tick,
};
use ghostty_web::protocol::{busy_close_reason, ClientMsg};
use ghostty_web::resize::ResizeState;
use ghostty_web::status::{reconnecting_label, Bus, Status};

#[test]
fn button_codes() {
    assert_eq!(button_bits(0, false, false, false), 0);
    assert_eq!(button_bits(2, true, false, true), 22);
    assert_eq!(button_bits(7, true, true, true), 31);
}

#[test]
fn sgr_mouse_reports() {
    assert_eq!(mouse_report(MouseKind::Press, 0, 3, 4), "\u{1b}[<0;3;4M");
    assert_eq!(mouse_report(MouseKind::Release, 2, 10, 1), "\u{1b}[<2;10;1m");
    assert_eq!(mouse_report(MouseKind::Drag, 0, 1, 1), "\u{1b}[<32;1;1M");
    assert_eq!(mouse_report(MouseKind::Wheel { down: true }, 0, 5, 6), "\u{1b}[<65;5;6M");
    assert_eq!(mouse_report(MouseKind::Wheel { down: false }, 0, 5, 6), "\u{1b}[<64;5;6M");
    assert!(reports_motion(false, 1));
    assert!(!reports_motion(false, 0));
}

#[test]
fn paste_is_bracketed_on_request() {
    assert_eq!(paste_input("", true), None);
    assert_eq!(paste_input("ls", true).as_deref(), Some("\u{1b}[200~ls\u{1b}[201~"));
    assert_eq!(paste_input("ls", false).as_deref(), Some("ls"));
}

#[test]
fn focus_and_title() {
    assert_eq!(focus_report(true), "\u{1b}[I");
    assert_eq!(focus_report(false), "\u{1b}[O");
    assert_eq!(document_title(String::new()), "ghostty-web");
    assert_eq!(document_title("vim".to_string()), "vim");
}

#[test]
fn bell_detection_ignores_title_escapes() {
    assert!(is_real_bell("\u{07}"));
    assert!(!is_real_bell("\u{1b}]0;title\u{07}"));
    assert!(!is_real_bell("plain"));
    assert!(!is_real_bell("\u{1b}[31mred\u{07}"));
    assert!(!is_real_bell("\u{07}\u{1b}"));
    assert!(is_real_bell("ding\u{07}done"));
    assert!(!is_real_bell("\u{1b}]2;t\u{07}\u{07}"));
    assert!(is_ghostty_vt_log(Some("[ghostty-vt]")));
    assert!(!is_ghostty_vt_log(Some("other")));
    assert!(!is_ghostty_vt_log(None));
}

#[test]
fn uri_component_encoding() {
    assert_eq!(urlencode("abc-_.!~*'()XYZ09"), "abc-_.!~*'()XYZ09");
    assert_eq!(urlencode("a b&c/é"), "a%20b%26c%2F%C3%A9");
    assert_eq!(urlencode("😀"), "%F0%9F%98%80");
}

#[test]
fn websocket_urls() {
    assert_eq!(
        websocket_url("https:", "example.com", "id 1", 80, 24, true),
        "wss://example.com/ws?sessionId=id%201&cols=80&rows=24&take=1"
    );
    assert_eq!(
        websocket_url("http:", "localhost:8080", "x", 120, 40, false),
        "ws://localhost:8080/ws?sessionId=x&cols=120&rows=40"
    );
}

#[test]
fn close_and_reconnect_countdown() {
    assert!(matches!(on_close(4002), CloseOutcome::Busy));
    let remaining = match on_close(1006) {
        CloseOutcome::Reconnect { remaining } => remaining,
        CloseOutcome::Busy => panic!(),
    };
    assert_eq!(remaining, 2);
    assert!(matches!(reconnect_tick(remaining), Tick::Countdown { remaining: 1 }));
    assert!(matches!(reconnect_tick(1), Tick::Connect));
    assert!(matches!(reconnect_tick(0), Tick::Connect));
    assert_eq!(reconnecting_label(2), "Reconnecting in 2s…");
}

#[test]
fn resize_waits_for_ack() {
    let mut st = ResizeState::new();
    let sent = st.fit(100, 30, 80, 24, 1_000);
    assert!(matches!(sent.as_slice(), [ClientMsg::Resize { cols: 100, rows: 30 }]));
    assert_eq!(st.last_sent, Some(1_000));
    // a newer size while the first is in flight is only remembered
    assert!(st.fit(120, 40, 80, 24, 1_010).is_empty());
    let eff = st.on_ack(100, 30, 80, 24, 1_100);
    assert_eq!(eff.resize_terminal, Some((100, 30)));
    assert!(matches!(eff.send, Some(ClientMsg::Resize { cols: 120, rows: 40 })));
    let eff = st.on_ack(120, 40, 100, 30, 1_200);
    assert_eq!(eff.resize_terminal, Some((120, 40)));
    assert!(eff.send.is_none());
    assert!(!st.in_flight);
    assert!(st.desired.is_none());
    // nothing to do when the size already matches
    assert!(st.fit(120, 40, 120, 40, 1_300).is_empty());
}

#[test]
fn resize_requests_are_spaced() {
    let mut st = ResizeState::new();
    assert_eq!(st.fit(100, 30, 80, 24, 1_000).len(), 1);
    assert!(st.fit(110, 30, 80, 24, 1_005).is_empty());
    // acknowledged 20 ms after the request: the next one must wait
    let eff = st.on_ack(100, 30, 80, 24, 1_020);
    assert!(eff.send.is_none());
    assert!(st.is_deferred());
    assert!(st.retry(1_049).is_none());
    assert!(st.is_deferred());
    assert!(matches!(st.retry(1_050), Some(ClientMsg::Resize { cols: 110, rows: 30 })));
    assert!(!st.is_deferred());
    assert_eq!(st.last_sent, Some(1_050));
    // nothing more is sent while that request is in flight
    assert!(st.retry(2_000).is_none());
    let eff = st.on_ack(110, 30, 100, 30, 1_060);
    assert!(eff.send.is_none());
    assert!(!st.is_deferred());
    // a fit too soon after the last request is held back too
    assert!(st.fit(120, 30, 110, 30, 1_070).is_empty());
    assert!(st.is_deferred());
    assert!(matches!(st.retry(1_100), Some(ClientMsg::Resize { cols: 120, rows: 30 })));
}

#[test]
fn resize_resumes_on_open() {
    let mut st = ResizeState::new();
    let _ = st.fit(90, 20, 80, 24, 0);
    let sent = st.on_open(None, 80, 24, 100);
    assert!(matches!(sent.as_slice(), [ClientMsg::Resize { cols: 90, rows: 20 }]));
    let mut fresh = ResizeState::new();
    assert!(fresh.on_open(Some((80, 24)), 80, 24, 0).is_empty());
    assert!(matches!(fresh.on_open(Some((81, 24)), 80, 24, 0).as_slice(), [ClientMsg::Resize { cols: 81, rows: 24 }]));
}

#[test]
fn status_overlay_visibility() {
    let s: Status<()> = Status::default();
    assert!(!s.is_overlay_visible());
    assert!(!Status::<()>::Connected.is_overlay_visible());
    assert!(Status::<()>::Connecting.is_overlay_visible());
    assert!(Status::Busy { on_take: () }.is_overlay_visible());
    assert!(Status::<()>::Error { message: "x".into() }.is_overlay_visible());
}

#[test]
fn status_bus_subscriptions() {
    let mut bus: Bus<&str, ()> = Bus::new();
    let a = bus.subscribe("a");
    let _b = bus.subscribe("b");
    assert_eq!(bus.listeners(), vec![&"a", &"b"]);
    bus.set_status(Status::Connecting);
    assert!(matches!(bus.current(), Status::Connecting));
    bus.unsubscribe(a);
    assert_eq!(bus.listeners(), vec![&"b"]);
    let c = bus.subscribe("c");
    bus.unsubscribe(c);
    assert_eq!(bus.listeners(), vec![&"b"]);
}

#[test]
fn busy_close_is_recognized_by_client() {
    let (code, reason) = busy_close_reason();
    assert_eq!(code, 4002);
    assert_eq!(reason, "session-busy");
    assert!(matches!(on_close(code), CloseOutcome::Busy));
}

#[test]
fn take_flag_is_consumed_once() {
    let mut stored = Some("1".to_string());
    assert!(consume_take_flag(&mut stored));
    assert_eq!(stored, None);
    assert!(!consume_take_flag(&mut stored));
    let mut other = Some("yes".to_string());
    assert!(!consume_take_flag(&mut other));
    assert_eq!(other, Some("yes".to_string()));
    let mut none: Option<String> = None;
    assert!(!consume_take_flag(&mut none));
}
