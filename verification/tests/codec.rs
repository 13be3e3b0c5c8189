//! The wire protocol codec, exercised frame by frame.

use ttyd_rust::protocol::ClientMessage;
use ttyd_rust::protocol::MouseClickMessage;
use ttyd_rust::protocol::MouseDragMessage;
use ttyd_rust::protocol::ProtocolError;
use ttyd_rust::protocol::ResizeMessage;
use ttyd_rust::protocol::ServerMessage;
use ttyd_rust::protocol::generate_mouse_drag_sequence;
use ttyd_rust::protocol::generate_mouse_sequence;

fn frame(s: &str) -> Vec<u8> {
    s.as_bytes().to_vec()
}

#[test]
fn resize_parses() {
    let msg = ClientMessage::parse(&frame("1{\"columns\":120,\"rows\":40}")).unwrap();
    match msg {
        ClientMessage::Resize { cols, rows } => {
            assert_eq!(cols, 120);
            assert_eq!(rows, 40);
        }
        other => panic!("expected a resize, got {:?}", other),
    }
}

#[test]
fn resize_accepts_whitespace_any_order_and_unknown_members() {
    let msg = ClientMessage::parse(&frame(
        "1 { \"rows\" : 24 , \"extra\" : [1, {\"a\": null}, -2.5e3] , \"columns\" : 80 } ",
    ))
    .unwrap();
    assert!(matches!(msg, ClientMessage::Resize { cols: 80, rows: 24 }));
}

#[test]
fn resize_missing_member_is_refused() {
    let r = ClientMessage::parse(&frame("1{\"columns\":80}"));
    assert_eq!(r.unwrap_err(), ProtocolError::BadPayload);
}

#[test]
fn resize_duplicate_member_is_refused() {
    let r = ClientMessage::parse(&frame("1{\"columns\":80,\"columns\":81,\"rows\":24}"));
    assert_eq!(r.unwrap_err(), ProtocolError::BadPayload);
}

#[test]
fn resize_number_strictness_matches_serde() {
    for payload in [
        "{\"columns\":80.0,\"rows\":24}",
        "{\"columns\":080,\"rows\":24}",
        "{\"columns\":8e1,\"rows\":24}",
        "{\"columns\":-80,\"rows\":24}",
        "{\"columns\":65536,\"rows\":24}",
        "{\"columns\":80,\"rows\":24}",
        "{\"columns\":0,\"rows\":65535}",
    ] {
        let mut f = frame("1");
        f.extend_from_slice(payload.as_bytes());
        let mine = ClientMessage::parse(&f).is_ok();
        let serde = serde_json::from_slice::<std::collections::BTreeMap<String, u16>>(
            payload.as_bytes(),
        )
        .is_ok();
        assert_eq!(mine, serde, "disagreement on {}", payload);
    }
}

#[test]
fn resize_trailing_garbage_is_refused() {
    let r = ClientMessage::parse(&frame("1{\"columns\":80,\"rows\":24}x"));
    assert_eq!(r.unwrap_err(), ProtocolError::BadPayload);
}

#[test]
fn input_carries_bytes_verbatim() {
    let mut f = vec![b'0'];
    f.extend_from_slice(&[0x00, 0xff, 0x1b, b'a']);
    let msg = ClientMessage::parse(&f).unwrap();
    match msg {
        ClientMessage::Input(b) => assert_eq!(b, vec![0x00, 0xff, 0x1b, b'a']),
        other => panic!("expected input, got {:?}", other),
    }
}

#[test]
fn pause_and_resume_parse_with_any_payload() {
    assert!(matches!(
        ClientMessage::parse(&frame("2")).unwrap(),
        ClientMessage::Pause
    ));
    assert!(matches!(
        ClientMessage::parse(&frame("2junk")).unwrap(),
        ClientMessage::Pause
    ));
    assert!(matches!(
        ClientMessage::parse(&frame("3")).unwrap(),
        ClientMessage::Resume
    ));
}

#[test]
fn empty_frame_is_refused() {
    assert_eq!(
        ClientMessage::parse(&[]).unwrap_err(),
        ProtocolError::Empty
    );
}

#[test]
fn unknown_tag_names_the_byte() {
    assert_eq!(
        ClientMessage::parse(&frame("9hello")).unwrap_err(),
        ProtocolError::UnknownTag(b'9')
    );
}

#[test]
fn init_empty_object_defaults() {
    let msg = ClientMessage::parse(&frame("{}")).unwrap();
    match msg {
        ClientMessage::Init(init) => {
            assert_eq!(init.columns, 0);
            assert_eq!(init.rows, 0);
            assert!(init.auth_token.is_none());
        }
        other => panic!("expected init, got {:?}", other),
    }
}

#[test]
fn init_full_object_parses() {
    let msg =
        ClientMessage::parse(&frame("{\"columns\":100,\"rows\":30,\"AuthToken\":\"secret\"}"))
            .unwrap();
    match msg {
        ClientMessage::Init(init) => {
            assert_eq!(init.columns, 100);
            assert_eq!(init.rows, 30);
            assert_eq!(init.auth_token.as_deref(), Some("secret"));
        }
        other => panic!("expected init, got {:?}", other),
    }
}

#[test]
fn init_null_token_is_none() {
    let msg = ClientMessage::parse(&frame("{\"AuthToken\":null,\"columns\":1}")).unwrap();
    match msg {
        ClientMessage::Init(init) => {
            assert_eq!(init.columns, 1);
            assert!(init.auth_token.is_none());
        }
        other => panic!("expected init, got {:?}", other),
    }
}

fn token_of(payload: &str) -> Option<String> {
    let mut f = Vec::new();
    f.extend_from_slice(payload.as_bytes());
    match ClientMessage::parse(&f) {
        Ok(ClientMessage::Init(init)) => init.auth_token,
        _ => None,
    }
}

#[test]
fn init_token_escapes_match_serde() {
    for payload in [
        "{\"AuthToken\":\"a\\\"b\\\\c\\/d\\n\\t\\r\\b\\f\"}",
        "{\"AuthToken\":\"\\u0041\\u00e9\\u20ac\"}",
        "{\"AuthToken\":\"\\ud83d\\ude00\"}",
        "{\"AuthToken\":\"caf\u{e9} \u{1f600}\"}",
    ] {
        let mine = token_of(payload).expect("token expected");
        let v: serde_json::Value = serde_json::from_str(payload).unwrap();
        let theirs = v.get("AuthToken").unwrap().as_str().unwrap();
        assert_eq!(mine, theirs, "disagreement on {}", payload);
    }
}

#[test]
fn init_lone_surrogate_is_refused() {
    let r = ClientMessage::parse(&frame("{\"AuthToken\":\"\\ud800\"}"));
    assert_eq!(r.unwrap_err(), ProtocolError::BadPayload);
}

#[test]
fn init_bad_escape_is_refused() {
    let r = ClientMessage::parse(&frame("{\"AuthToken\":\"\\q\"}"));
    assert_eq!(r.unwrap_err(), ProtocolError::BadPayload);
}

#[test]
fn init_invalid_utf8_token_is_refused() {
    let mut f = frame("{\"AuthToken\":\"");
    f.push(0xff);
    f.extend_from_slice("\"}".as_bytes());
    assert_eq!(ClientMessage::parse(&f).unwrap_err(), ProtocolError::BadPayload);
}

#[test]
fn init_wrong_token_type_is_refused() {
    let r = ClientMessage::parse(&frame("{\"AuthToken\":7}"));
    assert_eq!(r.unwrap_err(), ProtocolError::BadPayload);
}

#[test]
fn mouse_click_parses() {
    let msg = ClientMessage::parse(&frame(
        "4{\"x\":5,\"y\":10,\"button\":0,\"pressed\":true}",
    ))
    .unwrap();
    match msg {
        ClientMessage::MouseClick(c) => {
            assert_eq!((c.x, c.y, c.button, c.pressed), (5, 10, 0, true));
        }
        other => panic!("expected click, got {:?}", other),
    }
}

#[test]
fn mouse_click_wrong_type_is_refused() {
    let r = ClientMessage::parse(&frame("4{\"x\":5,\"y\":10,\"button\":0,\"pressed\":1}"));
    assert_eq!(r.unwrap_err(), ProtocolError::BadPayload);
}

#[test]
fn mouse_click_button_over_255_is_refused() {
    let r = ClientMessage::parse(&frame("4{\"x\":5,\"y\":10,\"button\":256,\"pressed\":true}"));
    assert_eq!(r.unwrap_err(), ProtocolError::BadPayload);
}

#[test]
fn mouse_drag_parses() {
    let msg = ClientMessage::parse(&frame(
        "5{\"x\":7,\"y\":8,\"button\":2,\"start_x\":1,\"start_y\":2}",
    ))
    .unwrap();
    match msg {
        ClientMessage::MouseDrag(d) => {
            assert_eq!((d.x, d.y, d.button, d.start_x, d.start_y), (7, 8, 2, 1, 2));
        }
        other => panic!("expected drag, got {:?}", other),
    }
}

#[test]
fn server_output_frame_has_tag_then_bytes() {
    let f = ServerMessage::Output(vec![0x1b, b'[', b'H']).to_bytes();
    assert_eq!(f, vec![b'0', 0x1b, b'[', b'H']);
}

#[test]
fn server_title_and_preferences_frames() {
    let f = ServerMessage::SetWindowTitle(String::from("bash (host)")).to_bytes();
    assert_eq!(f, {
        let mut v = vec![b'1'];
        v.extend_from_slice(b"bash (host)");
        v
    });
    let f = ServerMessage::SetPreferences(String::from("{}")).to_bytes();
    assert_eq!(f, vec![b'2', b'{', b'}']);
}

#[test]
fn resize_round_trip() {
    let m = ResizeMessage { columns: 0, rows: 65535 };
    let f = m.to_frame();
    assert_eq!(f, frame("1{\"columns\":0,\"rows\":65535}"));
    match ClientMessage::parse(&f).unwrap() {
        ClientMessage::Resize { cols, rows } => {
            assert_eq!((cols, rows), (m.columns, m.rows));
        }
        other => panic!("expected resize, got {:?}", other),
    }
}

#[test]
fn click_round_trip() {
    let m = MouseClickMessage { x: 5, y: 10, button: 0, pressed: true };
    let f = m.to_frame();
    assert_eq!(f, frame("4{\"x\":5,\"y\":10,\"button\":0,\"pressed\":true}"));
    match ClientMessage::parse(&f).unwrap() {
        ClientMessage::MouseClick(c) => assert_eq!(c, m),
        other => panic!("expected click, got {:?}", other),
    }
}

#[test]
fn drag_round_trip() {
    let m = MouseDragMessage { x: 200, y: 3, button: 1, start_x: 42, start_y: 0 };
    let f = m.to_frame();
    assert_eq!(
        f,
        frame("5{\"x\":200,\"y\":3,\"button\":1,\"start_x\":42,\"start_y\":0}")
    );
    match ClientMessage::parse(&f).unwrap() {
        ClientMessage::MouseDrag(d) => assert_eq!(d, m),
        other => panic!("expected drag, got {:?}", other),
    }
}

#[test]
fn click_report_bytes() {
    assert_eq!(generate_mouse_sequence(5, 10, 0, true), vec![0x1b, 0x4d, 0x20, 37, 42]);
    assert_eq!(generate_mouse_sequence(5, 10, 0, false), vec![0x1b, 0x4d, 0x23, 37, 42]);
    assert_eq!(generate_mouse_sequence(0, 0, 1, true)[2], 0x21);
    assert_eq!(generate_mouse_sequence(0, 0, 2, true)[2], 0x22);
    assert_eq!(generate_mouse_sequence(0, 0, 9, true)[2], 0x23);
}

#[test]
fn drag_report_bytes() {
    assert_eq!(generate_mouse_drag_sequence(5, 10, 0), vec![0x1b, 0x4d, 0x60, 37, 42]);
    assert_eq!(generate_mouse_drag_sequence(5, 10, 1)[2], 0x61);
    assert_eq!(generate_mouse_drag_sequence(5, 10, 2)[2], 0x62);
    assert_eq!(generate_mouse_drag_sequence(5, 10, 7)[2], 0x60);
}
