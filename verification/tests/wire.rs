//! Wire-level behavior: colors, identifiers, the codec round trip, and
//! join validation.

use planner_server::codec::{parse_command, render_frame, write_envelope, Outgoing};
use planner_server::color::Color;
use planner_server::commands::{
    Announce, Payload, ReceiveAccessLevelAdjustment, ReceiveCanvas, ReceiveData, ReceiveType,
};
use planner_server::element::{
    Element, ElementAnchor, ElementText, ElementType, NumLit, ScaleRate, TextAlignment, TextFont,
};
use planner_server::ident::uuid_string;
use planner_server::join::{is_valid_request, validate_join, JoinError, Receive};
use planner_server::selection;
use planner_server::state::App;
use planner_server::user::AccessLevel;

fn num(t: &str) -> NumLit {
    NumLit { text: t.to_string() }
}

#[test]
fn color_normalizes_short_forms() {
    assert_eq!(Color::new("#abc").unwrap().as_str(), "#aabbccff");
    assert_eq!(Color::new("AbC").unwrap().as_str(), "#aabbccff");
    assert_eq!(Color::new("#abcd").unwrap().as_str(), "#aabbccdd");
    assert_eq!(Color::new("#1A2b3C").unwrap().as_str(), "#1a2b3cff");
    assert_eq!(Color::new("1a2b3c4d").unwrap().as_str(), "#1a2b3c4d");
}

#[test]
fn color_rejects_bad_input() {
    assert!(Color::new("").is_err());
    assert!(Color::new("#ab").is_err());
    assert!(Color::new("#ggg").is_err());
    assert!(Color::new("#12345").is_err());
    assert!(Color::new("#123456789").is_err());
}

#[test]
fn color_parse_of_printed_color_is_identity() {
    // reading the printed form of a normalized color gives it back
    let c = Color::new("#1a2b3c4d").unwrap();
    let again = Color::new(c.as_str()).unwrap();
    assert_eq!(again.as_str(), c.as_str());
    assert!(again == c);
}

#[test]
fn random_color_is_normalized() {
    let c = Color::get_random_color();
    let text = c.as_str();
    assert_eq!(text.len(), 9);
    assert!(text.starts_with('#'));
    let again = Color::new(text).unwrap();
    assert!(again == c);
}

#[test]
fn uuid_text_is_hyphenated_lowercase() {
    assert_eq!(
        uuid_string(0x00000000_0000_0000_0000_0000000000ffu128),
        "00000000-0000-0000-0000-0000000000ff"
    );
    assert_eq!(
        uuid_string(0xa1a2a3a4_b1b2_c1c2_d1d2_d3d4d5d6d7d8u128),
        "a1a2a3a4-b1b2-c1c2-d1d2-d3d4d5d6d7d8"
    );
}

#[test]
fn command_round_trip_selection() {
    let d = ReceiveData {
        id: Some("i1".to_string()),
        receive: ReceiveType::Selection(selection::Receive { elements: vec![7u128, 0xffu128] }),
    };
    let text = write_envelope(&d);
    assert_eq!(
        text,
        "{\"id\":\"i1\",\"type\":\"selection\",\"elements\":[\"00000000-0000-0000-0000-000000000007\",\"00000000-0000-0000-0000-0000000000ff\"]}"
    );
    let back = parse_command(&text).unwrap();
    assert_eq!(back.id.as_deref(), Some("i1"));
    match back.receive {
        ReceiveType::Selection(r) => assert_eq!(r.elements, vec![7u128, 0xffu128]),
        _ => panic!("wrong command"),
    }
}

#[test]
fn command_round_trip_access_and_canvas() {
    let d = ReceiveData {
        id: None,
        receive: ReceiveType::AccessLevelAdjustment(ReceiveAccessLevelAdjustment {
            user: 0xB,
            access_level: AccessLevel::Admin,
        }),
    };
    let text = write_envelope(&d);
    let back = parse_command(&text).unwrap();
    assert!(back.id.is_none());
    match back.receive {
        ReceiveType::AccessLevelAdjustment(r) => {
            assert_eq!(r.user, 0xB);
            assert_eq!(r.access_level, AccessLevel::Admin);
        }
        _ => panic!("wrong command"),
    }

    let d2 = ReceiveData {
        id: Some("x".to_string()),
        receive: ReceiveType::Canvas(ReceiveCanvas { canvas: 513 }),
    };
    let text2 = write_envelope(&d2);
    assert_eq!(text2, "{\"id\":\"x\",\"type\":\"canvas\",\"canvas\":513}");
    let back2 = parse_command(&text2).unwrap();
    match back2.receive {
        ReceiveType::Canvas(r) => assert_eq!(r.canvas, 513),
        _ => panic!("wrong command"),
    }
}

fn sample_element(uuid: u128) -> Element {
    Element {
        uuid,
        ty: ElementType::Text(ElementText {
            content: "say \"hi\"\\now".to_string(),
            align: TextAlignment::Left,
            color: Color::new("#abc").unwrap(),
            size: num("30"),
            font: TextFont::Serif(Some("Georgia".to_string())),
            background_color: Color::new("#00000000").unwrap(),
            background_blur: num("0.25"),
        }),
        last_edited_by: Some(9),
        selected_by: None,
        x: num("-1.5e2"),
        y: num("4"),
        anchor: ElementAnchor { top: num("0.5"), left: num("0.5") },
        rotation: num("90"),
        scale_rate: ScaleRate::Base,
        z_index: num("2"),
        tags: vec!["a".to_string(), "b,]\"".to_string()],
    }
}

#[test]
fn command_round_trip_elements() {
    let d = ReceiveData {
        id: Some("e1".to_string()),
        receive: ReceiveType::Elements(planner_server::elements::Receive {
            elements: vec![sample_element(3), sample_element(4)],
            deleted_elements: vec![5u128],
        }),
    };
    let text = write_envelope(&d);
    let back = parse_command(&text).unwrap();
    assert_eq!(back.id.as_deref(), Some("e1"));
    match back.receive {
        ReceiveType::Elements(r) => {
            assert_eq!(r.elements.len(), 2);
            assert_eq!(r.elements[0].uuid, 3);
            assert_eq!(r.elements[1].uuid, 4);
            assert_eq!(r.deleted_elements, vec![5u128]);
            assert_eq!(r.elements[0].x.text, "-1.5e2");
            assert_eq!(r.elements[0].tags, vec!["a".to_string(), "b,]\"".to_string()]);
            match &r.elements[0].ty {
                ElementType::Text(t) => {
                    assert_eq!(t.content, "say \"hi\"\\now");
                    assert_eq!(t.align, TextAlignment::Left);
                    assert_eq!(t.color.as_str(), "#aabbccff");
                    match &t.font {
                        TextFont::Serif(Some(f)) => assert_eq!(f, "Georgia"),
                        _ => panic!("wrong font"),
                    }
                }
                _ => panic!("wrong payload"),
            }
        }
        _ => panic!("wrong command"),
    }
    // the re-serialized frame is the same text
    assert_eq!(write_envelope(&parse_command(&text).unwrap()), text);
}

#[test]
fn parse_rejects_malformed_frames() {
    assert!(parse_command("").is_none());
    assert!(parse_command("{}").is_none());
    assert!(parse_command("{\"type\":\"bogus\"}").is_none());
    assert!(parse_command("{\"type\":\"canvas\",\"canvas\":}").is_none());
    assert!(parse_command("{\"type\":\"canvas\",\"canvas\":70000}").is_none());
    assert!(parse_command("{\"type\":\"canvas\",\"canvas\":3}x").is_none());
}

#[test]
fn error_frames_carry_code_and_token() {
    let frame = Announce {
        targets: vec![4],
        id: Some("i1".to_string()),
        payload: Payload::Failure(planner_server::commands::ErrorType::Selection(
            selection::Error::NoPermission,
        )),
    };
    let text = render_frame(&frame);
    assert_eq!(text, "{\"id\":\"i1\",\"error\":{\"code\":\"no_permission\"}}");
    let v: serde_json::Value = serde_json::from_str(&text).unwrap();
    assert_eq!(v["error"]["code"], "no_permission");
}

#[test]
fn join_validation_walks_the_error_ladder() {
    let app = App::new();
    let v = |p: Option<&str>, r: Option<&str>, u: Option<&str>, c: Option<&str>| {
        validate_join(
            &app,
            p.map(|s| s.to_string()),
            r.map(|s| s.to_string()),
            u.map(|s| s.to_string()),
            c.map(|s| s.to_string()),
            None,
            None,
        )
    };
    assert!(matches!(v(None, None, None, None), Err(JoinError::ProtocolError { server: 1 })));
    assert!(matches!(v(Some("2"), None, None, None), Err(JoinError::ProtocolError { .. })));
    assert!(matches!(v(Some("1"), None, None, None), Err(JoinError::RoomMissing)));
    assert!(matches!(v(Some("1"), Some(""), None, None), Err(JoinError::RoomMissing)));
    assert!(matches!(
        v(Some("1"), Some("ab"), None, None),
        Err(JoinError::RoomInvalidLength { min_len: 3, max_len: 32, specified_len: 2 })
    ));
    assert!(matches!(v(Some("1"), Some("abc"), None, None), Err(JoinError::UsernameMissing)));
    assert!(matches!(
        v(Some("1"), Some("abc"), Some("012345678901234567890123456789012"), None),
        Err(JoinError::UsernameInvalidLength { min_len: 1, max_len: 32, specified_len: 33 })
    ));
    assert!(matches!(
        v(Some("1"), Some("abc"), Some("me"), Some("zzz")),
        Err(JoinError::ColorInvalid)
    ));
    let ok = v(Some("1"), Some("abc"), Some("me"), Some("#abc")).unwrap();
    assert_eq!(ok.room_name, "abc");
    assert_eq!(ok.username, "me");
    assert_eq!(ok.color.as_str(), "#aabbccff");
    assert!(ok.canvas.is_none());
    assert!(ok.password.is_none());
}

#[test]
fn join_validation_checks_passwords() {
    let mut app = App::new();
    let mut out = Vec::new();
    let req = Receive {
        room_name: "abc".to_string(),
        password: Some("secret".to_string()),
        username: "A".to_string(),
        color: Color::new("#abc").unwrap(),
        canvas: None,
    };
    assert!(planner_server::join::join_room(&mut app, req, 1, 0xA, &mut out));
    let attempt = |pw: Option<&str>| {
        validate_join(
            &app,
            Some("1".to_string()),
            Some("abc".to_string()),
            Some("B".to_string()),
            None,
            None,
            pw.map(|s| s.to_string()),
        )
    };
    assert!(matches!(attempt(None), Err(JoinError::PasswordRequired)));
    assert!(matches!(attempt(Some("")), Err(JoinError::PasswordRequired)));
    assert!(matches!(attempt(Some("wrong")), Err(JoinError::PasswordIncorrect)));
    assert!(attempt(Some("secret")).is_ok());
}

#[test]
fn join_error_codes_and_reasons() {
    assert_eq!(JoinError::WebsocketError.close_code(), 1011);
    assert_eq!(JoinError::ProtocolError { server: 1 }.close_code(), 4999);
    assert_eq!(JoinError::RoomMissing.close_code(), 4000);
    assert_eq!(
        JoinError::RoomInvalidLength { min_len: 3, max_len: 32, specified_len: 2 }.close_code(),
        4002
    );
    assert_eq!(JoinError::UsernameMissing.close_code(), 4010);
    assert_eq!(
        JoinError::UsernameInvalidLength { min_len: 1, max_len: 32, specified_len: 40 }
            .close_code(),
        4012
    );
    assert_eq!(JoinError::ColorInvalid.close_code(), 4021);
    assert_eq!(JoinError::PasswordRequired.close_code(), 4030);
    assert_eq!(JoinError::PasswordIncorrect.close_code(), 4033);
    assert_eq!(
        JoinError::ProtocolError { server: 1 }.reason(),
        "{\"type\":\"protocol_error\",\"server\":1}"
    );
    assert_eq!(
        JoinError::RoomInvalidLength { min_len: 3, max_len: 32, specified_len: 2 }.reason(),
        "{\"type\":\"room_invalid_length\",\"min_len\":3,\"max_len\":32,\"specified_len\":2}"
    );
    let reason = JoinError::PasswordIncorrect.reason();
    assert!(reason.len() <= 123);
    let v: serde_json::Value = serde_json::from_str(&reason).unwrap();
    assert_eq!(v["type"], "password_incorrect");
}

#[test]
fn upgrade_check_requires_all_headers() {
    let full = |conn: Option<&str>, upg: Option<&str>, ver: Option<&str>, key: bool| {
        is_valid_request("GET", true, conn, upg, ver, key)
    };
    assert!(full(Some("keep-alive, Upgrade"), Some("websocket"), Some("13"), true));
    assert!(full(Some("UPGRADE"), Some("WebSocket"), Some("13"), true));
    assert!(!full(Some("keep-alive"), Some("websocket"), Some("13"), true));
    assert!(!full(None, Some("websocket"), Some("13"), true));
    assert!(!full(Some("Upgrade"), Some("other"), Some("13"), true));
    assert!(!full(Some("Upgrade"), Some("websocket"), Some("12"), true));
    assert!(!full(Some("Upgrade"), Some("websocket"), Some("13"), false));
    assert!(!is_valid_request("POST", true, Some("Upgrade"), Some("websocket"), Some("13"), true));
    assert!(!is_valid_request("GET", false, Some("Upgrade"), Some("websocket"), Some("13"), true));
}

#[test]
fn outgoing_frames_are_valid_json() {
    let frame = Announce {
        targets: vec![1, 2],
        id: None,
        payload: Payload::Event(planner_server::commands::AnnounceType::Disconnect {
            user: 0xAB,
        }),
    };
    let text = render_frame(&frame);
    assert_eq!(
        text,
        "{\"type\":\"disconnect\",\"user\":\"00000000-0000-0000-0000-0000000000ab\"}"
    );
    let rendered = planner_server::codec::render(&vec![frame]);
    assert_eq!(rendered.len(), 2);
    assert_eq!(rendered[0].addr, 1);
    assert_eq!(rendered[1].addr, 2);
    assert_eq!(rendered[0].text, rendered[1].text);
    let _: serde_json::Value = serde_json::from_str(&rendered[0].text).unwrap();
    let _ = Outgoing { addr: 9, text: "x".to_string() };
}

#[test]
fn string_escapes_round_trip() {
    // quotes, backslashes and control characters survive the wire,
    // and the emitted frame is valid JSON
    let id = "a\n\"b\\c\u{1}\tz".to_string();
    let d = ReceiveData {
        id: Some(id.clone()),
        receive: ReceiveType::Selection(selection::Receive { elements: vec![] }),
    };
    let text = write_envelope(&d);
    let v: serde_json::Value = serde_json::from_str(&text).unwrap();
    assert_eq!(v["id"], id.as_str());
    let back = parse_command(&text).unwrap();
    assert_eq!(back.id.as_deref(), Some(id.as_str()));
}

#[test]
fn parser_accepts_common_escapes_and_unicode() {
    let text = "{\"id\":\"x\\t\\r\\n\\b\\f\\/\\u0041\\u00e9\\uD83D\\uDE00\",\"type\":\"selection\",\"elements\":[]}";
    let back = parse_command(text).unwrap();
    assert_eq!(back.id.as_deref(), Some("x\t\r\n\u{8}\u{c}/A\u{e9}\u{1F600}"));
    // a lone surrogate is refused, as is a truncated escape
    assert!(parse_command("{\"id\":\"\\ud800\",\"type\":\"selection\",\"elements\":[]}").is_none());
    assert!(parse_command("{\"id\":\"\\u00\",\"type\":\"selection\",\"elements\":[]}").is_none());
}
