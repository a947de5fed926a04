use tuwunel::api::sync_v5::extensions::{
    members_burst, private_receipt_wanted, room_receipts, room_state_moved, to_device_response,
    typing_rooms, wants_one_time_keys_count,
};
use tuwunel::api::sync_v5::rooms::{
    bump_stamp, hero, hero_candidates, hero_name, heroes_avatar, initial_flag, is_lazy,
    kept_required_state, lazy_senders, resolve_state_key, room_config, room_or_heroes,
    state_requests, take_heroes, wants_num_live, Hero, ListConfig, RoomDetails,
};
use tuwunel::matrix::event::Event;

fn pair(a: &str, b: &str) -> (String, String) {
    (a.to_string(), b.to_string())
}

fn event(kind: &str, sender: &str, state_key: Option<&str>, redacted: bool) -> Event {
    Event {
        event_id: "$e".into(),
        room_id: "!r".into(),
        sender: sender.into(),
        kind: kind.into(),
        state_key: state_key.map(str::to_string),
        origin_server_ts: 0,
        redacts: None,
        content: "{}".into(),
        unsigned: None,
        redacted,
    }
}

fn details(limit: usize, state: &[(&str, &str)]) -> RoomDetails {
    RoomDetails { timeline_limit: limit, required_state: state.iter().map(|(a, b)| pair(a, b)).collect() }
}

#[test]
fn room_config_takes_largest_limit_and_union_of_state() {
    let conn = vec![
        ListConfig { id: "a".into(), details: details(5, &[("m.room.name", "")]) },
        ListConfig { id: "b".into(), details: details(20, &[("m.room.name", ""), ("m.room.topic", "")]) },
    ];
    let sub = Some(details(7, &[("m.room.member", "$ME")]));
    let cfg = room_config(&vec!["a".into(), "b".into(), "zzz".into()], &conn, &sub);
    assert_eq!(cfg.timeline_limit, 20);
    let mut state = cfg.required_state.clone();
    state.sort();
    assert_eq!(state, vec![pair("m.room.member", "$ME"), pair("m.room.name", ""), pair("m.room.topic", "")]);
    let none = room_config(&vec![], &conn, &None);
    assert_eq!(none.timeline_limit, 0);
    assert!(none.required_state.is_empty());
}

#[test]
fn initial_only_for_new_rooms() {
    assert_eq!(initial_flag(0), Some(true));
    assert_eq!(initial_flag(3), None);
}

#[test]
fn required_state_needs_a_timeline() {
    assert!(kept_required_state(vec![pair("a", "b")], true).is_empty());
    assert_eq!(kept_required_state(vec![pair("a", "b")], false).len(), 1);
}

#[test]
fn bump_stamp_takes_latest_bumping_event() {
    let tl = vec![
        (3, event("m.room.message", "@u:x", None, false)),
        (5, event("m.room.topic", "@u:x", Some(""), false)),
        (4, event("m.room.member", "@v:x", Some("@v:x"), false)),
        (6, event("m.room.message", "@u:x", None, true)),
    ];
    assert_eq!(bump_stamp(&tl, "@me:x"), Some(3));
    assert_eq!(bump_stamp(&tl, "@v:x"), Some(4));
    assert_eq!(bump_stamp(&vec![(5, event("m.room.topic", "@u:x", Some(""), false))], "@u:x"), None);
    assert_eq!(bump_stamp(&vec![(-2, event("m.sticker", "@u:x", None, false))], "@u:x"), None);
}

#[test]
fn num_live_for_known_rooms_only() {
    assert!(!wants_num_live(0, true, 1, 10));
    assert!(wants_num_live(5, true, 1, 10));
    assert!(wants_num_live(5, false, 10, 10));
    assert!(!wants_num_live(5, false, 9, 10));
}

#[test]
fn lazy_members_and_senders() {
    assert!(is_lazy(&vec![pair("m.room.member", "$LAZY")]));
    assert!(!is_lazy(&vec![pair("m.room.member", "$ME")]));
    let tl = vec![
        (1, event("m.room.message", "@a:x", None, false)),
        (2, event("m.room.message", "@b:x", None, false)),
        (3, event("m.room.message", "@a:x", None, false)),
    ];
    let mut senders = lazy_senders(&tl, true);
    senders.sort();
    assert_eq!(senders, vec!["@a:x", "@b:x"]);
    assert!(lazy_senders(&tl, false).is_empty());
}

#[test]
fn state_keys_resolve() {
    assert_eq!(resolve_state_key("$LAZY", "@me:x"), None);
    assert_eq!(resolve_state_key("*", "@me:x"), None);
    assert_eq!(resolve_state_key("$ME", "@me:x"), Some("@me:x".to_string()));
    assert_eq!(resolve_state_key("", "@me:x"), Some(String::new()));
}

#[test]
fn state_requests_chain_and_resolve() {
    let required = vec![pair("m.room.member", "$LAZY"), pair("m.room.member", "$ME"), pair("m.room.name", "*")];
    let wildcard = vec![pair("m.room.name", "")];
    let senders = vec!["@a:x".to_string()];
    let reqs = state_requests(&required, &wildcard, &senders, "@me:x");
    assert_eq!(
        reqs,
        vec![pair("m.room.member", "@me:x"), pair("m.room.name", ""), pair("m.room.member", "@a:x")]
    );
}

#[test]
fn heroes_take_member_then_profile_values() {
    let h = hero("@a:x".into(), None, Some("Alice".into()), Some("mxc://m".into()), Some("mxc://p".into()));
    assert_eq!(h.name.as_deref(), Some("Alice"));
    assert_eq!(h.avatar.as_deref(), Some("mxc://m"));
}

#[test]
fn hero_candidates_exclude_sender_and_named_rooms() {
    let members = vec!["@me:x".to_string(), "@a:x".to_string()];
    assert_eq!(hero_candidates(members.clone(), "@me:x", false), vec!["@a:x"]);
    assert!(hero_candidates(members, "@me:x", true).is_empty());
}

#[test]
fn take_heroes_keeps_five_loaded() {
    let h = |id: &str| Some(Hero { user_id: id.into(), name: None, avatar: None });
    let loaded = vec![h("1"), None, h("2"), h("3"), h("4"), h("5"), h("6")];
    let heroes = take_heroes(loaded);
    assert_eq!(heroes.len(), 5);
    assert_eq!(heroes[4].user_id, "5");
}

#[test]
fn hero_names() {
    let h = |id: &str, name: Option<&str>| Hero { user_id: id.into(), name: name.map(str::to_string), avatar: None };
    assert_eq!(hero_name(&vec![]), None);
    assert_eq!(hero_name(&vec![h("@a:x", None)]), Some("@a:x".to_string()));
    assert_eq!(hero_name(&vec![h("@a:x", Some("Ann")), h("@b:x", Some("Bob"))]), Some("Bob and Ann".to_string()));
    assert_eq!(
        hero_name(&vec![h("@a:x", Some("Ann")), h("@b:x", Some("Bob")), h("@c:x", None)]),
        Some("Bob, @c:x and Ann".to_string())
    );
}

#[test]
fn heroes_avatar_only_for_bare_rooms() {
    let heroes = vec![Hero { user_id: "@a:x".into(), name: None, avatar: Some("mxc://a".into()) }];
    assert_eq!(heroes_avatar(&None, false, &heroes), Some("mxc://a".to_string()));
    assert_eq!(heroes_avatar(&Some("mxc://r".into()), false, &heroes), None);
    assert_eq!(heroes_avatar(&None, true, &heroes), None);
    assert_eq!(room_or_heroes(None, Some("h".into())), Some("h".to_string()));
    assert_eq!(room_or_heroes(Some("r".into()), Some("h".into())), Some("r".to_string()));
}

#[test]
fn e2ee_room_decisions() {
    assert!(!room_state_moved(None, 5, Some(1)));
    assert!(!room_state_moved(Some(5), 5, Some(1)));
    assert!(!room_state_moved(Some(9), 5, Some(9)));
    assert!(!room_state_moved(Some(9), 5, None));
    assert!(room_state_moved(Some(9), 5, Some(7)));
    assert_eq!(members_burst(false, false, None, 5), None);
    assert_eq!(members_burst(true, true, Some(6), 5), Some(true));
    assert_eq!(members_burst(true, false, Some(2), 5), Some(true));
    assert_eq!(members_burst(true, true, Some(2), 5), Some(false));
    assert!(wants_one_time_keys_count(6, 5));
    assert!(!wants_one_time_keys_count(5, 5));
}

#[test]
fn receipts_and_to_device() {
    assert!(private_receipt_wanted(6, 5, 10));
    assert!(!private_receipt_wanted(5, 5, 10));
    assert!(!private_receipt_wanted(11, 5, 10));
    let r = room_receipts(vec![("a".into(), false), ("b".into(), true)], Some("p".into()));
    assert_eq!(r, Some(vec!["a".to_string(), "p".to_string()]));
    assert_eq!(room_receipts(vec![("b".into(), true)], None), None);
    assert_eq!(to_device_response(vec![], 9).map(|p| p.0), None);
    assert_eq!(to_device_response(vec!["e".into()], 9).map(|p| p.0), Some(9));
}

#[test]
fn typing_rooms_with_typists() {
    let rooms = vec![
        ("!a".to_string(), Some(vec!["@u:x".to_string()])),
        ("!b".to_string(), Some(vec![])),
        ("!c".to_string(), None),
    ];
    assert_eq!(typing_rooms(rooms), vec![("!a".to_string(), vec!["@u:x".to_string()])]);
}

#[test]
fn left_rooms_in_the_window() {
    let own = event("m.room.member", "@u:x", Some("@u:x"), false);
    let r = tuwunel::api::sync_v5::rooms::left_window_room(0, vec!["all".into()], 42, own.clone());
    assert_eq!(r.initial, Some(true));
    assert_eq!(r.lists, vec!["all".to_string()]);
    assert_eq!(r.membership, tuwunel::matrix::event::MembershipState::Leave);
    assert_eq!(r.prev_batch, 42);
    assert!(r.limited);
    assert_eq!(r.required_state.len(), 1);
    assert_eq!(r.required_state[0].event_id, own.event_id);
    let again = tuwunel::api::sync_v5::rooms::left_window_room(5, vec![], 42, own);
    assert_eq!(again.initial, None);
}

#[test]
fn membership_changes_of_other_users() {
    let mut joined = event("m.room.member", "@a:x", Some("@a:x"), false);
    joined.content = r#"{"membership":"join"}"#.into();
    let mut own = event("m.room.member", "@u:x", Some("@u:x"), false);
    own.content = r#"{"membership":"leave"}"#.into();
    let mut left = event("m.room.member", "@b:x", Some("@b:x"), false);
    left.content = r#"{"membership":"leave"}"#.into();
    let mut broken = event("m.room.member", "@c:x", Some("not a user"), false);
    broken.content = r#"{"membership":"join"}"#.into();
    let mut message = event("m.room.message", "@a:x", None, false);
    message.content = r#"{"membership":"join"}"#.into();
    let changes = tuwunel::api::sync_v5::extensions::member_changes(&vec![joined, own, left, broken, message], "@u:x");
    assert_eq!(
        changes,
        vec![("join".to_string(), "@a:x".to_string()), ("leave".to_string(), "@b:x".to_string())]
    );
    let burst = tuwunel::api::sync_v5::extensions::burst_members(
        &vec!["@a:x".to_string(), "@u:x".to_string(), "@b:x".to_string()],
        "@u:x",
    );
    assert_eq!(burst, vec!["@a:x".to_string(), "@b:x".to_string()]);
}

#[test]
fn device_list_changes_of_a_room() {
    let member = |user: &str, membership: &str| {
        let mut e = event("m.room.member", user, Some(user), false);
        e.content = format!("{{\"membership\":\"{membership}\"}}");
        e
    };
    let state = vec![member("@a:x", "join"), member("@b:x", "leave"), member("@u:x", "leave"), member("@c:x", "join")];
    let members = vec!["@a:x".to_string(), "@u:x".to_string(), "@d:x".to_string()];
    let shared = vec!["@c:x".to_string()];
    let keys = vec!["@k:x".to_string(), "@k:x".to_string()];
    let r = tuwunel::api::sync_v5::extensions::e2ee_room_changes("@u:x", keys.clone(), true, Some(false), &state, &members, &shared);
    assert_eq!(r.changed, vec!["@k:x".to_string(), "@a:x".to_string()]);
    assert_eq!(r.left, vec!["@b:x".to_string()]);
    let r = tuwunel::api::sync_v5::extensions::e2ee_room_changes("@u:x", keys.clone(), true, Some(true), &state, &members, &shared);
    assert_eq!(r.changed, vec!["@k:x".to_string(), "@a:x".to_string(), "@d:x".to_string()]);
    let r = tuwunel::api::sync_v5::extensions::e2ee_room_changes("@u:x", keys.clone(), false, Some(true), &state, &members, &shared);
    assert_eq!(r.changed, vec!["@k:x".to_string()]);
    assert!(r.left.is_empty());
    let r = tuwunel::api::sync_v5::extensions::e2ee_room_changes("@u:x", keys, true, None, &state, &members, &shared);
    assert_eq!(r.changed, vec!["@k:x".to_string()]);
    assert!(r.left.is_empty());
}
