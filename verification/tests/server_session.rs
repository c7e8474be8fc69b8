use ghostty_web::protocol::{
    attach_greeting, clamp_dims, handle_client_msg, take_requested, ClientMsg, InboundAction,
    ServerMsg,
};
use ghostty_web::scrollback::{append_scrollback, SCROLLBACK_CAP, SCROLLBACK_KEEP};
use ghostty_web::session::{shell_exited_notice, AttachResult, Session, Sessions};

#[test]
fn scrollback_keeps_everything_under_cap() {
    let mut sb = String::from("abc");
    append_scrollback(&mut sb, "def");
    assert_eq!(sb, "abcdef");
}

#[test]
fn scrollback_trims_to_keep_when_over_cap() {
    let mut sb = String::new();
    append_scrollback(&mut sb, &"a".repeat(SCROLLBACK_CAP));
    assert_eq!(sb.len(), SCROLLBACK_CAP);
    append_scrollback(&mut sb, "b");
    assert_eq!(sb.len(), SCROLLBACK_KEEP);
    assert!(sb.ends_with("ab"));
}

#[test]
fn scrollback_trim_moves_to_char_boundary() {
    let mut sb = String::new();
    let big = format!("{}a", "€".repeat(90_000));
    append_scrollback(&mut sb, &big);
    // cut at 78_001 is inside a '€'; the next boundary is 78_003
    assert_eq!(sb.len(), 270_001 - 78_003);
    assert!(big.ends_with(sb.as_str()));
}

#[test]
fn first_attach_gets_key_one_and_no_scrollback() {
    let mut s: Session<u32> = Session::new("s1".to_string(), 5, 42);
    match s.attach("handle", false, false, 7) {
        AttachResult::Attached { outcome, scrollback } => {
            assert_eq!(outcome.attach_key, 1);
            assert_eq!(outcome.session, "handle");
            assert!(scrollback.is_none());
        }
        AttachResult::Busy => panic!("fresh session busy"),
    }
    assert!(s.is_attached());
    assert_eq!(s.attached_sender(), Some(&7));
    assert_eq!(s.id(), "s1");
    assert_eq!(s.started_at(), 5);
    assert_eq!(s.pid(), 42);
}

#[test]
fn second_attach_without_take_is_busy() {
    let mut s: Session<u32> = Session::new("s".to_string(), 0, 1);
    let _ = s.attach((), false, false, 1);
    assert!(matches!(s.attach((), true, false, 2), AttachResult::Busy));
    assert_eq!(s.attached_sender(), Some(&1));
}

#[test]
fn take_over_replays_scrollback_and_bumps_key() {
    let mut s: Session<u32> = Session::new("s".to_string(), 0, 1);
    let _ = s.attach((), false, false, 1);
    s.append_output("hello");
    match s.attach((), true, true, 2) {
        AttachResult::Attached { outcome, scrollback } => {
            assert_eq!(outcome.attach_key, 2);
            assert_eq!(scrollback.as_deref(), Some("hello"));
        }
        AttachResult::Busy => panic!("take refused"),
    }
    assert_eq!(s.attached_sender(), Some(&2));
    // the taken-over connection closes late: it no longer owns the session
    s.detach_if_current(1);
    assert!(s.is_attached());
    s.detach_if_current(2);
    assert!(!s.is_attached());
}

#[test]
fn reattach_after_detach_replays_scrollback() {
    let mut s: Session<u32> = Session::new("s".to_string(), 0, 1);
    let _ = s.attach((), false, false, 1);
    s.append_output("out");
    s.detach_if_current(1);
    match s.attach((), true, false, 9) {
        AttachResult::Attached { outcome, scrollback } => {
            assert_eq!(outcome.attach_key, 2);
            assert_eq!(scrollback.as_deref(), Some("out"));
        }
        AttachResult::Busy => panic!(),
    }
}

#[test]
fn empty_scrollback_is_not_replayed() {
    let mut s: Session<u32> = Session::new("s".to_string(), 0, 1);
    match s.attach((), true, false, 9) {
        AttachResult::Attached { scrollback, .. } => assert!(scrollback.is_none()),
        AttachResult::Busy => panic!(),
    }
}

#[test]
fn shell_exit_hands_back_attachment() {
    let mut s: Session<u32> = Session::new("s".to_string(), 0, 1);
    let _ = s.attach((), false, false, 3);
    let a = s.shell_exited().expect("attached");
    assert_eq!(a.tx, 3);
    assert_eq!(a.key, 1);
    assert!(!s.is_attached());
    match shell_exited_notice() {
        ServerMsg::Data { value } => assert_eq!(value, "\r\n\u{1b}[33mShell exited\u{1b}[0m\r\n"),
        _ => panic!(),
    }
}

#[test]
fn registry_insert_get_remove() {
    let mut reg: Sessions<u32> = Sessions::new();
    assert!(reg.get("a").is_none());
    reg.insert("a".to_string(), 1);
    reg.insert("b".to_string(), 2);
    assert_eq!(reg.get("a"), Some(&1));
    reg.insert("a".to_string(), 3);
    assert_eq!(reg.get("a"), Some(&3));
    assert_eq!(reg.snapshot(), vec![3, 2]);
    reg.remove("a");
    assert!(reg.get("a").is_none());
    assert_eq!(reg.get("b"), Some(&2));
    reg.remove("zzz");
    assert_eq!(reg.snapshot(), vec![2]);
}

#[test]
fn client_messages_are_dispatched() {
    match handle_client_msg(ClientMsg::Input { value: "ls\r".to_string() }) {
        InboundAction::WriteInput { data } => assert_eq!(data, "ls\r"),
        _ => panic!(),
    }
    match handle_client_msg(ClientMsg::Resize { cols: 100, rows: 30 }) {
        InboundAction::Resize { cols, rows, ack } => {
            assert_eq!((cols, rows), (100, 30));
            assert!(matches!(ack, ServerMsg::Ack { cols: 100, rows: 30 }));
        }
        _ => panic!(),
    }
}

#[test]
fn dims_are_at_least_one() {
    assert_eq!(clamp_dims(0, 0), (1, 1));
    assert_eq!(clamp_dims(80, 24), (80, 24));
}

#[test]
fn greeting_replays_then_acks() {
    let g = attach_greeting(Some("sb".to_string()), 80, 24);
    assert_eq!(g.len(), 2);
    assert!(matches!(&g[0], ServerMsg::Data { value } if value == "sb"));
    assert!(matches!(g[1], ServerMsg::Ack { cols: 80, rows: 24 }));
    let g = attach_greeting(None, 10, 5);
    assert_eq!(g.len(), 1);
    assert!(matches!(g[0], ServerMsg::Ack { cols: 10, rows: 5 }));
}

#[test]
fn take_flag_is_exactly_one() {
    assert!(take_requested(Some("1")));
    assert!(!take_requested(Some("true")));
    assert!(!take_requested(Some("")));
    assert!(!take_requested(None));
}
