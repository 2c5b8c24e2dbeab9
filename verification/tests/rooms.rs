//! Room scenarios: joins, selection, element edits, access changes,
//! disconnects and admin re-election.

use planner_server::color::Color;
use planner_server::commands::dispatch_text;
use planner_server::ident::uuid_string;
use planner_server::join::{join_room, Receive};
use planner_server::state::App;
use planner_server::user::AccessLevel;

const A: u128 = 0xA;
const B: u128 = 0xB;
const C: u128 = 0xC;

fn join(app: &mut App, name: &str, addr: u64, uuid: u128) -> Vec<planner_server::commands::Announce> {
    let mut out = Vec::new();
    let req = Receive {
        room_name: "roomy".to_string(),
        password: None,
        username: name.to_string(),
        color: Color::new("#abc").unwrap(),
        canvas: None,
    };
    assert!(join_room(app, req, addr, uuid, &mut out));
    out
}

fn seed_uuid(app: &App) -> u128 {
    let room = app.get_room("roomy").unwrap();
    let canvas = room.get_canvas(0).unwrap();
    assert_eq!(canvas.elements.len(), 1);
    canvas.elements[0].uuid
}

fn level_of(app: &App, uuid: u128) -> AccessLevel {
    app.get_room("roomy").unwrap().get_user(uuid).unwrap().access_level
}

fn make_editor(app: &mut App, admin_addr: u64, target: u128) {
    let text = format!(
        "{{\"type\":\"access_level_adjustment\",\"user\":\"{}\",\"access_level\":\"edit\"}}",
        uuid_string(target)
    );
    dispatch_text(app, "roomy", admin_addr, &text);
    assert_eq!(level_of(app, target), AccessLevel::Edit);
}

#[test]
fn first_join_elects_admin_and_seeds_canvas() {
    let mut app = App::new();
    let out = join(&mut app, "A", 1, A);
    // exactly one join event (to nobody) and one on_join (to the joiner)
    assert_eq!(out.len(), 2);
    assert_eq!(out[0].targets.len(), 0);
    assert_eq!(out[1].targets, vec![1]);
    let room = app.get_room("roomy").unwrap();
    assert_eq!(level_of(&app, A), AccessLevel::Admin);
    let canvas = room.get_canvas(0).unwrap();
    assert_eq!(canvas.elements.len(), 1);
    match &canvas.elements[0].ty {
        planner_server::element::ElementType::Text(t) => {
            assert_eq!(t.content, "Hello, world");
        }
        _ => panic!("seed element is text"),
    }
    let frames = planner_server::codec::render(&out);
    assert_eq!(frames.len(), 1);
    assert_eq!(frames[0].addr, 1);
    let v: serde_json::Value = serde_json::from_str(&frames[0].text).unwrap();
    assert_eq!(v["type"], "on_join");
    assert_eq!(v["users"].as_array().unwrap().len(), 1);
    assert_eq!(v["elements"].as_array().unwrap().len(), 1);
    assert_eq!(v["elements"][0]["ty"]["content"], "Hello, world");
}

#[test]
fn second_join_broadcasts_and_defaults_to_view() {
    let mut app = App::new();
    join(&mut app, "A", 1, A);
    let out = join(&mut app, "B", 2, B);
    assert_eq!(out.len(), 2);
    assert_eq!(out[0].targets, vec![1]);
    assert_eq!(out[1].targets, vec![2]);
    assert_eq!(level_of(&app, B), AccessLevel::View);
    let frames = planner_server::codec::render(&out);
    let join_frame: serde_json::Value = serde_json::from_str(&frames[0].text).unwrap();
    assert_eq!(join_frame["type"], "join");
    assert_eq!(join_frame["user"]["username"], "B");
    let on_join: serde_json::Value = serde_json::from_str(&frames[1].text).unwrap();
    assert_eq!(on_join["users"].as_array().unwrap().len(), 2);
}

#[test]
fn viewer_selection_is_refused_with_no_permission() {
    let mut app = App::new();
    join(&mut app, "A", 1, A);
    join(&mut app, "B", 2, B);
    let e0 = seed_uuid(&app);
    let text = format!(
        "{{\"id\":\"i1\",\"type\":\"selection\",\"elements\":[\"{}\"]}}",
        uuid_string(e0)
    );
    let out = dispatch_text(&mut app, "roomy", 2, &text);
    assert_eq!(out.len(), 1);
    assert_eq!(out[0].addr, 2);
    let v: serde_json::Value = serde_json::from_str(&out[0].text).unwrap();
    assert_eq!(v["id"], "i1");
    assert_eq!(v["error"]["code"], "no_permission");
    // server state unchanged: the seed element stays unselected
    let room = app.get_room("roomy").unwrap();
    assert!(room.get_canvas(0).unwrap().elements[0].selected_by.is_none());
}

#[test]
fn admin_promotes_editor_and_admin_handover_demotes() {
    let mut app = App::new();
    join(&mut app, "A", 1, A);
    join(&mut app, "B", 2, B);
    // A makes B an editor: one user_change broadcast to the whole room
    let text = format!(
        "{{\"id\":\"i2\",\"type\":\"access_level_adjustment\",\"user\":\"{}\",\"access_level\":\"edit\"}}",
        uuid_string(B)
    );
    let out = dispatch_text(&mut app, "roomy", 1, &text);
    assert_eq!(level_of(&app, B), AccessLevel::Edit);
    assert_eq!(out.len(), 2);
    let v: serde_json::Value = serde_json::from_str(&out[0].text).unwrap();
    assert_eq!(v["type"], "user_change");
    assert_eq!(v["user"]["access_level"], "edit");
    // A hands B the room: two user_change broadcasts, B up and A down
    let text2 = format!(
        "{{\"type\":\"access_level_adjustment\",\"user\":\"{}\",\"access_level\":\"admin\"}}",
        uuid_string(B)
    );
    let out2 = dispatch_text(&mut app, "roomy", 1, &text2);
    assert_eq!(level_of(&app, B), AccessLevel::Admin);
    assert_eq!(level_of(&app, A), AccessLevel::Edit);
    assert_eq!(out2.len(), 4);
    let up: serde_json::Value = serde_json::from_str(&out2[0].text).unwrap();
    assert_eq!(up["user"]["access_level"], "admin");
    let down: serde_json::Value = serde_json::from_str(&out2[2].text).unwrap();
    assert_eq!(down["user"]["access_level"], "edit");
}

#[test]
fn viewer_cannot_be_changed_by_non_admin() {
    let mut app = App::new();
    join(&mut app, "A", 1, A);
    join(&mut app, "B", 2, B);
    let text = format!(
        "{{\"id\":\"i9\",\"type\":\"access_level_adjustment\",\"user\":\"{}\",\"access_level\":\"admin\"}}",
        uuid_string(B)
    );
    let out = dispatch_text(&mut app, "roomy", 2, &text);
    assert_eq!(level_of(&app, B), AccessLevel::View);
    assert_eq!(out.len(), 1);
    let v: serde_json::Value = serde_json::from_str(&out[0].text).unwrap();
    assert_eq!(v["error"]["code"], "no_permission");
}

#[test]
fn unknown_target_reports_user_does_not_exist() {
    let mut app = App::new();
    join(&mut app, "A", 1, A);
    let text = format!(
        "{{\"id\":\"i3\",\"type\":\"access_level_adjustment\",\"user\":\"{}\",\"access_level\":\"edit\"}}",
        uuid_string(0xDEAD)
    );
    let out = dispatch_text(&mut app, "roomy", 1, &text);
    assert_eq!(out.len(), 1);
    let v: serde_json::Value = serde_json::from_str(&out[0].text).unwrap();
    assert_eq!(v["error"]["code"], "user_does_not_exist");
}

#[test]
fn selection_contention_first_wins() {
    let mut app = App::new();
    join(&mut app, "A", 1, A);
    join(&mut app, "B", 2, B);
    join(&mut app, "C", 3, C);
    make_editor(&mut app, 1, B);
    make_editor(&mut app, 1, C);
    let e0 = seed_uuid(&app);
    // B selects the element: response to B, selection broadcast on canvas
    let text = format!(
        "{{\"id\":\"s1\",\"type\":\"selection\",\"elements\":[\"{}\"]}}",
        uuid_string(e0)
    );
    let out = dispatch_text(&mut app, "roomy", 2, &text);
    assert_eq!(out.len(), 3);
    assert_eq!(out[0].addr, 2);
    let resp: serde_json::Value = serde_json::from_str(&out[0].text).unwrap();
    assert_eq!(resp["type"], "selection_response");
    assert_eq!(resp["newly_selected"].as_array().unwrap().len(), 1);
    assert_eq!(resp["failed_to_select"].as_array().unwrap().len(), 0);
    let bc: serde_json::Value = serde_json::from_str(&out[1].text).unwrap();
    assert_eq!(bc["type"], "selection");
    assert_eq!(
        app.get_room("roomy").unwrap().get_canvas(0).unwrap().elements[0].selected_by,
        Some(B)
    );
    // C tries the same element and fails to take it
    let text2 = format!(
        "{{\"id\":\"s2\",\"type\":\"selection\",\"elements\":[\"{}\"]}}",
        uuid_string(e0)
    );
    let out2 = dispatch_text(&mut app, "roomy", 3, &text2);
    // only the failure response to the sender: no broadcast at all
    assert_eq!(out2.len(), 1);
    assert_eq!(out2[0].addr, 3);
    let resp2: serde_json::Value = serde_json::from_str(&out2[0].text).unwrap();
    assert_eq!(resp2["type"], "selection_response");
    assert_eq!(resp2["failed_to_select"].as_array().unwrap().len(), 1);
    assert_eq!(resp2["newly_selected"].as_array().unwrap().len(), 0);
    // the element still belongs to B
    assert_eq!(
        app.get_room("roomy").unwrap().get_canvas(0).unwrap().elements[0].selected_by,
        Some(B)
    );
}

#[test]
fn edit_of_foreign_selection_reverts_to_server_copy() {
    let mut app = App::new();
    join(&mut app, "A", 1, A);
    join(&mut app, "B", 2, B);
    join(&mut app, "C", 3, C);
    make_editor(&mut app, 1, B);
    make_editor(&mut app, 1, C);
    let e0 = seed_uuid(&app);
    let sel = format!(
        "{{\"type\":\"selection\",\"elements\":[\"{}\"]}}",
        uuid_string(e0)
    );
    dispatch_text(&mut app, "roomy", 2, &sel);
    // C sends an altered copy of the element B holds
    let altered = format!(
        "{{\"id\":\"e1\",\"type\":\"elements\",\"elements\":[{{\"uuid\":\"{}\",\"ty\":{{\"type\":\"text\",\"content\":\"hijack\",\"align\":\"center\",\"color\":\"#aabbccff\",\"size\":30,\"font\":{{\"font_type\":\"sans\",\"custom_font_family\":null}},\"background_color\":\"#00000000\",\"background_blur\":0}},\"last_edited_by\":null,\"selected_by\":null,\"x\":0,\"y\":0,\"anchor\":{{\"top\":0.5,\"left\":0.5}},\"rotation\":0,\"scale_rate\":\"none\",\"z_index\":0,\"tags\":[]}}],\"deleted_elements\":[]}}",
        uuid_string(e0)
    );
    let out = dispatch_text(&mut app, "roomy", 3, &altered);
    // no change took place: only a revert to the sender, no broadcast
    assert_eq!(out.len(), 1);
    assert_eq!(out[0].addr, 3);
    let v: serde_json::Value = serde_json::from_str(&out[0].text).unwrap();
    assert_eq!(v["type"], "elements_changed");
    assert_eq!(v["elements"][0]["ty"]["content"], "Hello, world");
    let room = app.get_room("roomy").unwrap();
    match &room.get_canvas(0).unwrap().elements[0].ty {
        planner_server::element::ElementType::Text(t) => assert_eq!(t.content, "Hello, world"),
        _ => panic!("seed element is text"),
    }
}

#[test]
fn editor_writes_and_deletes_elements() {
    let mut app = App::new();
    join(&mut app, "A", 1, A);
    join(&mut app, "B", 2, B);
    make_editor(&mut app, 1, B);
    let e0 = seed_uuid(&app);
    let fresh = 0x77u128;
    let write = format!(
        "{{\"id\":\"e2\",\"type\":\"elements\",\"elements\":[{{\"uuid\":\"{}\",\"ty\":{{\"type\":\"text\",\"content\":\"note\",\"align\":\"left\",\"color\":\"#aabbccff\",\"size\":30,\"font\":{{\"font_type\":\"mono\",\"custom_font_family\":null}},\"background_color\":\"#00000000\",\"background_blur\":0}},\"last_edited_by\":null,\"selected_by\":null,\"x\":1,\"y\":2,\"anchor\":{{\"top\":0.5,\"left\":0.5}},\"rotation\":0,\"scale_rate\":\"base\",\"z_index\":3,\"tags\":[\"t\"]}}],\"deleted_elements\":[\"{}\"]}}",
        uuid_string(fresh),
        uuid_string(e0)
    );
    let out = dispatch_text(&mut app, "roomy", 2, &write);
    // a real change: response to the sender plus a canvas broadcast
    assert!(out.len() >= 2);
    let room = app.get_room("roomy").unwrap();
    let canvas = room.get_canvas(0).unwrap();
    assert_eq!(canvas.elements.len(), 1);
    assert_eq!(canvas.elements[0].uuid, fresh);
    // a fresh insert starts unselected: the server owns selections
    assert!(canvas.elements[0].selected_by.is_none());
    let resp: serde_json::Value = serde_json::from_str(&out[0].text).unwrap();
    assert_eq!(resp["deleted_elements"][0], uuid_string(e0));
}

#[test]
fn disconnect_promotes_first_editor() {
    let mut app = App::new();
    join(&mut app, "A", 1, A);
    join(&mut app, "B", 2, B);
    join(&mut app, "C", 3, C);
    make_editor(&mut app, 1, B);
    let mut out = Vec::new();
    assert!(app.disconnect_user("roomy", 1, &mut out));
    // disconnect to the two who stay, then the promotion broadcast
    assert_eq!(out.len(), 2);
    assert_eq!(out[0].targets, vec![2, 3]);
    let frames = planner_server::codec::render(&out);
    let disc: serde_json::Value = serde_json::from_str(&frames[0].text).unwrap();
    assert_eq!(disc["type"], "disconnect");
    assert_eq!(disc["user"], uuid_string(A));
    let promo: serde_json::Value = serde_json::from_str(&frames[2].text).unwrap();
    assert_eq!(promo["type"], "user_change");
    assert_eq!(promo["user"]["access_level"], "admin");
    let room = app.get_room("roomy").unwrap();
    assert_eq!(room.users.len(), 2);
    assert_eq!(level_of(&app, B), AccessLevel::Admin);
    assert_eq!(level_of(&app, C), AccessLevel::View);
}

#[test]
fn last_disconnect_drops_the_room() {
    let mut app = App::new();
    join(&mut app, "A", 1, A);
    let mut out = Vec::new();
    assert!(app.disconnect_user("roomy", 1, &mut out));
    assert_eq!(out.len(), 0);
    assert!(app.get_room("roomy").is_none());
    // a later join sees a fresh room with only the seed element
    join(&mut app, "B", 2, B);
    assert_eq!(level_of(&app, B), AccessLevel::Admin);
    let room = app.get_room("roomy").unwrap();
    assert_eq!(room.get_canvas(0).unwrap().elements.len(), 1);
}

#[test]
fn disconnect_clears_selections_everywhere() {
    let mut app = App::new();
    join(&mut app, "A", 1, A);
    join(&mut app, "B", 2, B);
    make_editor(&mut app, 1, B);
    let e0 = seed_uuid(&app);
    let sel = format!("{{\"type\":\"selection\",\"elements\":[\"{}\"]}}", uuid_string(e0));
    dispatch_text(&mut app, "roomy", 2, &sel);
    assert_eq!(
        app.get_room("roomy").unwrap().get_canvas(0).unwrap().elements[0].selected_by,
        Some(B)
    );
    let mut out = Vec::new();
    assert!(app.disconnect_user("roomy", 2, &mut out));
    assert!(
        app.get_room("roomy").unwrap().get_canvas(0).unwrap().elements[0].selected_by.is_none()
    );
}

#[test]
fn demotion_to_view_clears_selections() {
    let mut app = App::new();
    join(&mut app, "A", 1, A);
    join(&mut app, "B", 2, B);
    make_editor(&mut app, 1, B);
    let e0 = seed_uuid(&app);
    let sel = format!("{{\"type\":\"selection\",\"elements\":[\"{}\"]}}", uuid_string(e0));
    dispatch_text(&mut app, "roomy", 2, &sel);
    let demote = format!(
        "{{\"type\":\"access_level_adjustment\",\"user\":\"{}\",\"access_level\":\"view\"}}",
        uuid_string(B)
    );
    dispatch_text(&mut app, "roomy", 1, &demote);
    assert_eq!(level_of(&app, B), AccessLevel::View);
    assert!(
        app.get_room("roomy").unwrap().get_canvas(0).unwrap().elements[0].selected_by.is_none()
    );
}

#[test]
fn canvas_switch_reports_the_new_canvas() {
    let mut app = App::new();
    join(&mut app, "A", 1, A);
    let out = dispatch_text(&mut app, "roomy", 1, "{\"id\":\"c1\",\"type\":\"canvas\",\"canvas\":5}");
    // the mover gets the canvas, the room hears the user change
    assert_eq!(out.len(), 1);
    assert_eq!(out[0].addr, 1);
    let v: serde_json::Value = serde_json::from_str(&out[0].text).unwrap();
    assert_eq!(v["type"], "canvas_response");
    assert_eq!(v["canvas"], 5);
    assert_eq!(v["elements"].as_array().unwrap().len(), 1);
    let room = app.get_room("roomy").unwrap();
    assert_eq!(room.get_user(A).unwrap().canvas, 5);
    assert!(room.get_canvas(5).is_some());
}

#[test]
fn malformed_frames_are_ignored() {
    let mut app = App::new();
    join(&mut app, "A", 1, A);
    let out = dispatch_text(&mut app, "roomy", 1, "not json at all");
    assert!(out.is_empty());
    assert_eq!(app.get_room("roomy").unwrap().users.len(), 1);
}

#[test]
fn every_live_room_has_exactly_one_admin() {
    let mut app = App::new();
    join(&mut app, "A", 1, A);
    join(&mut app, "B", 2, B);
    join(&mut app, "C", 3, C);
    make_editor(&mut app, 1, B);
    let admins = |app: &App| {
        let room = app.get_room("roomy").unwrap();
        room.users.iter().filter(|u| u.access_level == AccessLevel::Admin).count()
    };
    assert_eq!(admins(&app), 1);
    let handover = format!(
        "{{\"type\":\"access_level_adjustment\",\"user\":\"{}\",\"access_level\":\"admin\"}}",
        uuid_string(C)
    );
    dispatch_text(&mut app, "roomy", 1, &handover);
    assert_eq!(admins(&app), 1);
    let mut out = Vec::new();
    app.disconnect_user("roomy", 3, &mut out);
    assert_eq!(admins(&app), 1);
}

#[test]
fn selection_broadcast_reaches_only_the_senders_canvas() {
    let mut app = App::new();
    join(&mut app, "A", 1, A);
    join(&mut app, "B", 2, B);
    join(&mut app, "C", 3, C);
    make_editor(&mut app, 1, B);
    // C moves to another canvas; selection events on canvas 0 skip C
    dispatch_text(&mut app, "roomy", 3, "{\"type\":\"canvas\",\"canvas\":7}");
    let e0 = seed_uuid(&app);
    let sel = format!(
        "{{\"id\":\"s3\",\"type\":\"selection\",\"elements\":[\"{}\"]}}",
        uuid_string(e0)
    );
    let out = dispatch_text(&mut app, "roomy", 2, &sel);
    let mut targets: Vec<u64> = out.iter().map(|o| o.addr).collect();
    targets.sort();
    assert_eq!(targets, vec![1, 2]);
}

#[test]
fn newcomer_lands_on_the_admins_canvas() {
    let mut app = App::new();
    join(&mut app, "A", 1, A);
    dispatch_text(&mut app, "roomy", 1, "{\"type\":\"canvas\",\"canvas\":9}");
    join(&mut app, "B", 2, B);
    let room = app.get_room("roomy").unwrap();
    assert_eq!(room.get_user(B).unwrap().canvas, 9);
    // an explicit canvas wish wins over the admin's canvas
    let mut out = Vec::new();
    let req = Receive {
        room_name: "roomy".to_string(),
        password: None,
        username: "D".to_string(),
        color: Color::new("#abc").unwrap(),
        canvas: Some(2),
    };
    assert!(join_room(&mut app, req, 4, 0xD, &mut out));
    assert_eq!(app.get_room("roomy").unwrap().get_user(0xD).unwrap().canvas, 2);
}

#[test]
fn deselect_by_sending_an_empty_selection() {
    let mut app = App::new();
    join(&mut app, "A", 1, A);
    let e0 = seed_uuid(&app);
    let sel = format!("{{\"type\":\"selection\",\"elements\":[\"{}\"]}}", uuid_string(e0));
    dispatch_text(&mut app, "roomy", 1, &sel);
    assert_eq!(
        app.get_room("roomy").unwrap().get_canvas(0).unwrap().elements[0].selected_by,
        Some(A)
    );
    let out = dispatch_text(&mut app, "roomy", 1, "{\"id\":\"s4\",\"type\":\"selection\",\"elements\":[]}");
    assert!(
        app.get_room("roomy").unwrap().get_canvas(0).unwrap().elements[0].selected_by.is_none()
    );
    let resp: serde_json::Value = serde_json::from_str(&out[0].text).unwrap();
    assert_eq!(resp["newly_deselected"][0], uuid_string(e0));
}

#[test]
fn duplicate_connection_or_identity_is_refused() {
    let mut app = App::new();
    join(&mut app, "A", 1, A);
    let req = |name: &str| Receive {
        room_name: "roomy".to_string(),
        password: None,
        username: name.to_string(),
        color: Color::new("#abc").unwrap(),
        canvas: None,
    };
    let mut out = Vec::new();
    // same connection id
    assert!(!join_room(&mut app, req("B"), 1, B, &mut out));
    // same identity on a fresh connection
    assert!(!join_room(&mut app, req("B"), 9, A, &mut out));
    assert!(out.is_empty());
    assert_eq!(app.get_room("roomy").unwrap().users.len(), 1);
    // a genuinely fresh member still joins
    assert!(join_room(&mut app, req("B"), 2, B, &mut out));
    assert_eq!(app.get_room("roomy").unwrap().users.len(), 2);
}
