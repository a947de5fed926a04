use tuwunel::api::events::{
    choose_event, event_visible, events_check, events_found, events_waited, initial_messages,
    may_see_unredacted, take_batch, EventsError, RoomEventError,
};
use tuwunel::api::register::{
    announces, auth_step, availability, check_appservice, check_username, is_matrix_appservice_irc,
    normalized_username, propose_user_id, registration_auth, registration_gate, registration_notice,
    skips_login, token_validity, unless_guest, after_registration, logged_in_response, random_user_id, registration_outcome, RegistrationFacts, RegistrationOutcome, AuthStage, AuthStep, ProposedUserId, RegisterError, RegisterStep,
};
use tuwunel::api::relations::{
    child_depth, max_depth, page, page_info, relations_limit, target_outcome, Fetch, Relation,
    RelationsError, TargetOutcome,
};
use tuwunel::api::session::{
    is_sso_origin, login_device, login_flows, login_kind_check, login_token_check,
    token_login_check, uiaa_action, DeviceChoice, LoginError, LoginFlow, LoginKind,
    ProviderConfig, UiaaAction, UiaaAuth,
};
use tuwunel::matrix::event::Event;
use tuwunel::utils::math::UInt;

fn event(id: &str, redacted: bool) -> Event {
    Event {
        event_id: id.into(),
        room_id: "!r:x".into(),
        sender: "@u:x".into(),
        kind: "m.room.message".into(),
        state_key: None,
        origin_server_ts: 0,
        redacts: None,
        content: "{}".into(),
        unsigned: None,
        redacted,
    }
}

#[test]
fn irc_bridge_is_recognised() {
    assert!(is_matrix_appservice_irc(Some("irc")));
    assert!(is_matrix_appservice_irc(Some("my-matrix-appservice-irc-bridge")));
    assert!(is_matrix_appservice_irc(Some("matrix_appservice_irc")));
    assert!(!is_matrix_appservice_irc(Some("ircd")));
    assert!(!is_matrix_appservice_irc(None));
}

#[test]
fn registration_gate_errors() {
    assert_eq!(registration_gate(false, false, false, true), Err(RegisterError::Forbidden));
    assert_eq!(registration_gate(false, true, false, true), Ok(()));
    assert_eq!(registration_gate(true, false, true, false), Err(RegisterError::GuestAccessForbidden));
    assert_eq!(registration_gate(true, false, true, true), Ok(()));
}

#[test]
fn usernames_lowercased_unless_irc() {
    assert_eq!(normalized_username("Alice", false), "alice");
    assert_eq!(normalized_username("Alice", true), "Alice");
}

#[test]
fn username_checks_in_order() {
    assert_eq!(check_username(true, false, true, true, false, false), Err(RegisterError::Forbidden));
    assert_eq!(check_username(true, true, true, true, false, false), Ok(()));
    assert_eq!(check_username(false, false, false, true, false, false), Err(RegisterError::InvalidUsername));
    assert_eq!(check_username(false, false, true, false, false, false), Err(RegisterError::InvalidUsername));
    assert_eq!(check_username(false, false, true, false, true, false), Ok(()));
    assert_eq!(check_username(false, false, true, true, false, true), Err(RegisterError::UserInUse));
}

#[test]
fn appservice_checks() {
    assert_eq!(check_appservice(true, None, false, false), Err(RegisterError::MissingToken));
    assert_eq!(check_appservice(true, Some(false), false, false), Err(RegisterError::Exclusive));
    assert_eq!(check_appservice(true, Some(false), false, true), Ok(()));
    assert_eq!(check_appservice(false, None, true, false), Err(RegisterError::Exclusive));
    assert_eq!(check_appservice(false, None, false, false), Ok(()));
}

#[test]
fn registration_auth_flows() {
    assert_eq!(registration_auth(true, false, false), (AuthStage::RegistrationToken, false));
    assert_eq!(registration_auth(true, true, false), (AuthStage::Dummy, true));
    assert_eq!(registration_auth(false, false, true), (AuthStage::Dummy, true));
    assert_eq!(auth_step(true, false), AuthStep::TryAuth);
    assert_eq!(auth_step(false, true), AuthStep::StartSession);
    assert_eq!(auth_step(false, false), AuthStep::NotJson);
}

#[test]
fn login_after_registration() {
    assert!(skips_login(false, true, false));
    assert!(!skips_login(true, true, false));
    assert!(skips_login(true, false, true));
    assert_eq!(unless_guest(true, Some("pw".into())), None);
    assert_eq!(unless_guest(false, Some("pw".into())), Some("pw".to_string()));
    assert!(announces(false, false, false));
    assert!(!announces(true, false, true));
    assert!(!announces(false, true, false));
}

#[test]
fn registration_notice_text() {
    assert_eq!(
        registration_notice(false, "1.2.3.4", Some("phone")),
        "New user registered on this server from IP 1.2.3.4 with device name phone"
    );
    assert_eq!(registration_notice(true, "::1", None), "New guest user registered on this server from IP ::1");
}

#[test]
fn token_validity_and_availability() {
    assert_eq!(token_validity(false, true), Err(RegisterError::Forbidden));
    assert_eq!(token_validity(true, false), Ok(false));
    assert_eq!(availability(false, true, true, false, false, None, false), Ok(true));
    assert_eq!(availability(false, true, true, false, false, Some(false), false), Err(RegisterError::Exclusive));
    assert_eq!(availability(false, true, true, false, false, Some(true), true), Err(RegisterError::Exclusive));
    assert_eq!(availability(false, true, true, false, true, None, false), Err(RegisterError::UserInUse));
}

#[test]
fn proposed_user_ids() {
    match propose_user_id("alice", "example.com") {
        ProposedUserId::Parsed { user_id, strict } => {
            assert_eq!(user_id, "@alice:example.com");
            assert!(strict);
        },
        _ => panic!("expected a user ID"),
    }
    match propose_user_id("Alice Smith", "example.com") {
        ProposedUserId::Parsed { user_id, strict } => {
            assert_eq!(user_id, "@Alice Smith:example.com");
            assert!(!strict);
        },
        _ => panic!("expected a user ID"),
    }
    assert!(matches!(propose_user_id("a:b", "example.com"), ProposedUserId::Invalid));
    assert!(matches!(propose_user_id("@bad", "example.com"), ProposedUserId::Invalid));
    assert!(matches!(propose_user_id("alice", ""), ProposedUserId::BadServerName));
}

#[test]
fn login_flow_listing() {
    let providers = vec![ProviderConfig { id: "gh".into(), brand: "GitHub".into(), icon: None, name: None }];
    let flows = login_flows(true, false, false, &providers);
    assert_eq!(flows.len(), 5);
    match &flows[4] {
        LoginFlow::Sso { providers } => {
            assert_eq!(providers.len(), 1);
            assert_eq!(providers[0].name, "GitHub");
        },
        _ => panic!("expected SSO"),
    }
    assert!(matches!(flows[3], LoginFlow::Token { get_login_token: true }));
    assert_eq!(login_flows(false, false, false, &vec![]).len(), 4);
    assert_eq!(login_flows(false, true, false, &vec![]).len(), 5);
}

#[test]
fn login_checks() {
    assert_eq!(login_kind_check(LoginKind::Other), Err(LoginError::Unknown));
    assert_eq!(login_kind_check(LoginKind::Password), Ok(()));
    assert_eq!(token_login_check(false), Err(LoginError::Unknown));
    assert_eq!(login_token_check(true, false, Some(true)), Err(LoginError::Forbidden));
    assert_eq!(login_token_check(true, true, Some(false)), Err(LoginError::UserDeactivated));
    assert_eq!(login_token_check(true, true, Some(true)), Ok(()));
}

#[test]
fn login_device_choice() {
    let devices = vec!["DEV1".to_string()];
    assert!(matches!(login_device(Some("DEV1".into()), &devices), DeviceChoice::Existing(d) if d == "DEV1"));
    assert!(matches!(login_device(Some("DEV2".into()), &devices), DeviceChoice::New(Some(d)) if d == "DEV2"));
    assert!(matches!(login_device(None, &devices), DeviceChoice::New(None)));
}

#[test]
fn uiaa_decisions() {
    assert_eq!(uiaa_action(UiaaAuth::Jwt, false, false, false), UiaaAction::ValidateJwt);
    assert_eq!(uiaa_action(UiaaAuth::Other, false, true, false), UiaaAction::Refuse(LoginError::MissingToken));
    assert_eq!(uiaa_action(UiaaAuth::Other, true, true, false), UiaaAction::TryAuth);
    assert_eq!(uiaa_action(UiaaAuth::Absent, true, false, false), UiaaAction::Refuse(LoginError::NotJson));
    assert_eq!(uiaa_action(UiaaAuth::Absent, true, true, true), UiaaAction::Accept);
    assert_eq!(uiaa_action(UiaaAuth::Absent, true, true, false), UiaaAction::StartSession);
    assert!(is_sso_origin(Some("sso")));
    assert!(!is_sso_origin(Some("password")));
}

#[test]
fn relation_limits() {
    assert_eq!(max_depth(true), 3);
    assert_eq!(max_depth(false), 0);
    assert_eq!(relations_limit(None), 30);
    assert_eq!(relations_limit(UInt::new(7)), 7);
    assert_eq!(relations_limit(UInt::new(1000)), 100);
    assert_eq!(child_depth(0, 3), Some(1));
    assert_eq!(child_depth(3, 3), None);
}

#[test]
fn relation_targets() {
    assert_eq!(target_outcome(false, Some(1), 1, false), TargetOutcome::Refuse(RelationsError::Forbidden));
    assert_eq!(target_outcome(true, None, 1, false), TargetOutcome::Empty);
    assert_eq!(target_outcome(true, Some(2), 1, false), TargetOutcome::Refuse(RelationsError::NotFound));
    assert_eq!(target_outcome(true, Some(1), 1, true), TargetOutcome::Empty);
    assert_eq!(target_outcome(true, Some(1), 1, false), TargetOutcome::Follow);
}

fn rel(depth: usize, count: u64, kind: &str, rel_type: Option<&str>, visible: bool) -> Relation {
    let mut fetch = Fetch::target(true);
    for _ in 0..depth {
        fetch = fetch.found(0, "m.reaction".into(), None, true, "$parent".into()).1.unwrap();
    }
    fetch.found(count, kind.into(), rel_type.map(str::to_string), visible, format!("${count}")).0
}

#[test]
fn relation_walk_depth() {
    let target = Fetch::target(true);
    let (first, below) = target.found(1, "m.room.message".into(), Some("m.thread".into()), true, "$a".into());
    assert_eq!(first.depth(), 0);
    assert_eq!(first.event_id(), "$a");
    let second = below.unwrap();
    let third = second.found(2, "a".into(), None, true, "$b".into()).1.unwrap();
    let fourth = third.found(3, "a".into(), None, true, "$c".into()).1.unwrap();
    let (deepest, none) = fourth.found(4, "a".into(), None, true, "$d".into());
    assert_eq!(deepest.depth(), 3);
    assert!(none.is_none());
    let (flat, none) = Fetch::target(false).found(5, "a".into(), None, true, "$e".into());
    assert_eq!(flat.depth(), 0);
    assert!(none.is_none());
    assert_eq!(page_info(&vec![deepest], 3, None).recursion_depth, Some(3));
}

#[test]
fn relation_pages() {
    let items = vec![
        rel(0, 10, "m.reaction", Some("m.annotation"), true),
        rel(1, 11, "m.room.message", Some("m.thread"), true),
        rel(0, 12, "m.reaction", Some("m.annotation"), false),
        rel(2, 13, "m.reaction", Some("m.annotation"), true),
        rel(0, 14, "m.reaction", Some("m.annotation"), true),
    ];
    let counts = |v: &Vec<Relation>| v.iter().map(|r| r.count()).collect::<Vec<_>>();
    let all = page(items, None, None, None, 30);
    assert_eq!(counts(&all), vec![10, 11, 13, 14]);
    let info = page_info(&all, 3, None);
    assert_eq!(info.recursion_depth, Some(2));
    assert_eq!(info.next_batch, Some(14));
    assert_eq!(info.prev_batch, Some(10));
    let reactions = page(
        vec![rel(0, 1, "m.reaction", None, true), rel(0, 2, "m.room.message", None, true)],
        None,
        Some("m.reaction"),
        None,
        30,
    );
    assert_eq!(counts(&reactions), vec![1]);
    let stopped = page(vec![rel(0, 1, "a", None, true), rel(0, 2, "a", None, true)], Some(2), None, None, 30);
    assert_eq!(counts(&stopped), vec![1]);
    let limited = page(vec![rel(0, 1, "a", None, true), rel(0, 2, "a", None, true)], None, None, None, 1);
    assert_eq!(counts(&limited), vec![1]);
    let threads = page(vec![rel(0, 1, "a", Some("m.thread"), true), rel(0, 2, "a", None, true)], None, None, Some("m.thread"), 30);
    assert_eq!(counts(&threads), vec![1]);
    let empty = page_info(&vec![], 0, Some(5));
    assert_eq!(empty.recursion_depth, None);
    assert_eq!(empty.prev_batch, Some(5));
    assert_eq!(page_info(&threads, 0, None).recursion_depth, None);
}

#[test]
fn events_listening() {
    assert_eq!(events_check(false, true), Err(EventsError::MissingRoomId));
    assert_eq!(events_check(true, false), Err(EventsError::Forbidden));
    assert_eq!(events_check(true, true), Ok(()));
    let evs: Vec<(u64, Event)> = (1..=60).map(|i| (i, event("$e", false))).collect();
    assert_eq!(take_batch(evs.clone(), 100).len(), 50);
    assert_eq!(take_batch(evs.clone(), 3).len(), 3);
    let found = events_found(take_batch(evs, 3)).unwrap();
    assert_eq!(found.start.as_deref(), Some("1"));
    assert_eq!(found.end, Some(3));
    assert!(events_found(vec![]).is_none());
    assert!(events_waited(false, false, None, 9).is_none());
    let waited = events_waited(true, false, Some("7".into()), 9).unwrap();
    assert_eq!(waited.end, Some(9));
    assert_eq!(waited.start.as_deref(), Some("7"));
    assert_eq!(events_waited(false, true, None, 9).unwrap().end, None);
}

#[test]
fn single_event_access() {
    assert!(may_see_unredacted(true, false, None));
    assert!(may_see_unredacted(false, true, Some((50, 50))));
    assert!(!may_see_unredacted(false, true, Some((0, 50))));
    assert!(!may_see_unredacted(false, false, Some((100, 50))));
    let kept = choose_event(Some(event("$a", false)), Some(Ok(event("$orig", false)))).unwrap();
    assert_eq!(kept.event_id, "$a");
    let original = choose_event(Some(event("$a", true)), Some(Ok(event("$orig", false)))).unwrap();
    assert_eq!(original.event_id, "$orig");
    assert_eq!(choose_event(None, None).map(|e| e.event_id), Err(RoomEventError::NotFound));
    assert_eq!(
        choose_event(None, Some(Err(RoomEventError::NotAllowedUnredacted))).map(|e| e.event_id),
        Err(RoomEventError::NotAllowedUnredacted)
    );
    assert_eq!(event_visible(true, true), Err(RoomEventError::Forbidden));
    assert_eq!(event_visible(true, false), Ok(()));
}

#[test]
fn initial_sync_messages() {
    let newest_first: Vec<(u64, Event)> = (1..=60).rev().map(|i| (i, event("$e", false))).collect();
    let m = initial_messages(newest_first);
    assert_eq!(m.chunk.len(), 50);
    assert_eq!(m.chunk[0].0, 11);
    assert_eq!(m.start, Some(11));
    assert_eq!(m.end, "60");
    let empty = initial_messages(vec![]);
    assert_eq!(empty.start, None);
    assert_eq!(empty.end, "");
}

#[test]
fn registration_sessions() {
    match after_registration("@a:x".into(), false, true, false, Some("DEV".into())) {
        RegisterStep::Respond(r) => {
            assert_eq!(r.user_id, "@a:x");
            assert!(r.device_id.is_none() && r.access_token.is_none());
            assert!(r.refresh_token.is_none() && r.expires_in.is_none());
        },
        RegisterStep::LogIn { .. } => panic!("login was inhibited"),
    }
    assert!(matches!(
        after_registration("@a:x".into(), true, true, false, Some("DEV".into())),
        RegisterStep::LogIn { device_id: None }
    ));
    assert!(matches!(
        after_registration("@a:x".into(), false, false, false, Some("DEV".into())),
        RegisterStep::LogIn { device_id: Some(ref d) } if d == "DEV"
    ));
    assert!(matches!(
        after_registration("@a:x".into(), false, false, true, None),
        RegisterStep::Respond(_)
    ));
    let r = logged_in_response("@a:x".into(), "DEV".into(), "tok".into(), Some(60_000), "ref".into());
    assert_eq!(r.device_id.as_deref(), Some("DEV"));
    assert_eq!(r.access_token.as_deref(), Some("tok"));
    assert_eq!(r.refresh_token.as_deref(), Some("ref"));
    assert_eq!(r.expires_in, Some(60_000));
    let r = logged_in_response("@a:x".into(), "DEV".into(), "tok".into(), None, "ref".into());
    assert!(r.refresh_token.is_none() && r.expires_in.is_none());
}

#[test]
fn random_localparts_are_lowercased() {
    match random_user_id("AbC123xYz0", "example.com") {
        ProposedUserId::Parsed { user_id, strict } => {
            assert_eq!(user_id, "@abc123xyz0:example.com");
            assert!(strict);
        },
        _ => panic!("a random localpart makes a user ID"),
    }
    assert!(matches!(random_user_id("abc", ""), ProposedUserId::BadServerName));
}

fn reg_facts() -> RegistrationFacts {
    RegistrationFacts {
        allow_registration: true,
        from_appservice: false,
        is_guest: false,
        allow_guests: false,
        has_username: true,
        forbidden: false,
        emergency: false,
        parses: true,
        strictly_valid: true,
        is_irc: false,
        exists: false,
        appservice_login: false,
        appservice_match: None,
        reserved: false,
        tokens_enabled: false,
        has_auth: true,
        auth_worked: true,
        has_json_body: true,
    }
}

#[test]
fn registrations_in_order() {
    assert_eq!(registration_outcome(&reg_facts()), RegistrationOutcome::Register);
    let mut f = reg_facts();
    f.has_username = false;
    assert_eq!(registration_outcome(&f), RegistrationOutcome::Refused(RegisterError::MissingUsername));
    f.has_auth = false;
    assert_eq!(registration_outcome(&f), RegistrationOutcome::StartSession(AuthStage::Dummy));
    let mut f = reg_facts();
    f.is_guest = true;
    f.has_username = false;
    f.allow_guests = true;
    f.has_auth = false;
    assert_eq!(registration_outcome(&f), RegistrationOutcome::Register);
    let mut f = reg_facts();
    f.exists = true;
    f.reserved = true;
    assert_eq!(registration_outcome(&f), RegistrationOutcome::Refused(RegisterError::UserInUse));
    let mut f = reg_facts();
    f.reserved = true;
    assert_eq!(registration_outcome(&f), RegistrationOutcome::Refused(RegisterError::Exclusive));
    let mut f = reg_facts();
    f.tokens_enabled = true;
    f.auth_worked = false;
    assert_eq!(registration_outcome(&f), RegistrationOutcome::AuthFailed(AuthStage::RegistrationToken));
    let mut f = reg_facts();
    f.allow_registration = false;
    assert_eq!(registration_outcome(&f), RegistrationOutcome::Refused(RegisterError::Forbidden));
}
