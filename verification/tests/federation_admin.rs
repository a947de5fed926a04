use tuwunel::admin::oauth::{
    associate_check, delete_answer, listing_line, parse_claim, parse_claims,
    remove_pusher_message, session_or_user_id, AssociateError, ClaimError, SessionOrUser,
};
use tuwunel::admin::token::{token_issued, token_list_header, token_list_line, token_max_uses};
use tuwunel::api::directory::{
    all_local, federated_device_name, name_matches, profile_query, room_servers, search_limit,
    search_page, should_show_user, ProfileError, ProfileQuery,
};
use tuwunel::api::invite::{
    appservice_txn_id, check_invite, delivers_locally, invite_fields, InviteContent, InviteError,
    InviteFacts,
};
use tuwunel::api::membership::{
    dehydrated_page, dehydrated_since, join_step, redaction_allowed, room_refused,
    deactivation_notice, DehydratedError, JoinStep,
};
use tuwunel::api::register::{propose_user_id, ProposedUserId};
use tuwunel::matrix::ids::{is_strict_user_id, server_of};
use tuwunel::utils::math::UInt;

#[test]
fn user_ids_by_ruma() {
    assert!(matches!(session_or_user_id("@alice:example.com"), SessionOrUser::User(ref u) if u == "@alice:example.com"));
    assert!(matches!(session_or_user_id("alice:example.com"), SessionOrUser::Session(_)));
    assert!(matches!(session_or_user_id("@alice"), SessionOrUser::Session(_)));
    assert!(matches!(propose_user_id("alice", "example.com:8448"), ProposedUserId::Parsed { ref user_id, strict: true } if user_id == "@alice:example.com:8448"));
    assert!(matches!(propose_user_id("alice", ""), ProposedUserId::BadServerName));
    assert_eq!(server_of("@a:b.c:80"), Some("b.c:80".to_string()));
    assert_eq!(server_of("!opaque"), None);
    assert!(is_strict_user_id("@alice:example.com"));
    assert!(!is_strict_user_id("@Alice:example.com"));
    assert!(!is_strict_user_id("@:example.com"));
    let long = format!("@{}:example.com", "a".repeat(250));
    assert!(!is_strict_user_id(&long));
}

#[test]
fn event_fields_by_serde() {
    let fields = invite_fields(r#"{"room_id":"!room:example.com","type":"m.room.member","state_key":"@b:x.org","content":{"membership":"join"},"origin":7}"#);
    assert_eq!(fields.room_id, Some("!room:example.com".to_string()));
    assert_eq!(fields.kind, Some("m.room.member".to_string()));
    assert_eq!(fields.invited_user, Some("@b:x.org".to_string()));
    assert!(matches!(fields.content, InviteContent::Membership(ref m) if m == "join"));
    assert_eq!(fields.sender, None);
    assert_eq!(fields.origin, None);
    let bad_room = invite_fields(r#"{"room_id":"room","content":"text"}"#);
    assert_eq!(bad_room.room_id, None);
    assert!(matches!(bad_room.content, InviteContent::Invalid));
    let not_json = invite_fields("not json");
    assert_eq!(not_json.kind, None);
    assert!(matches!(not_json.content, InviteContent::Missing));
    let no_membership = invite_fields(r#"{"content":{"displayname":"b"}}"#);
    assert!(matches!(no_membership.content, InviteContent::Invalid));
}

fn facts() -> InviteFacts {
    InviteFacts {
        origin_allowed: true,
        room_version_supported: true,
        room_server_forbidden: false,
        canonical: true,
        path_room_id: "!r:remote.org".into(),
        origin: "remote.org".into(),
        server_name: "local.org".into(),
        invitee_server_allowed: true,
        signed: true,
        room_banned: false,
        block_non_admin_invites: false,
        invitee_is_admin: false,
    }
}

const INVITE: &str = r#"{"room_id":"!r:remote.org","type":"m.room.member","state_key":"@bob:local.org","sender":"@al:remote.org","origin":"remote.org","content":{"membership":"invite"}}"#;

#[test]
fn invite_accepted() {
    let fields = invite_fields(INVITE);
    assert!(matches!(fields.content, InviteContent::Membership(ref m) if m == "invite"));
    assert_eq!(check_invite(&facts(), &fields), Ok(()));
}

#[test]
fn invite_refusals() {
    let fields = invite_fields(INVITE);
    let mut f = facts();
    f.room_version_supported = false;
    assert_eq!(check_invite(&f, &fields), Err(InviteError::IncompatibleRoomVersion));
    let mut f = facts();
    f.path_room_id = "!other:remote.org".into();
    assert_eq!(check_invite(&f, &fields), Err(InviteError::RoomIdMismatch));
    let mut f = facts();
    f.server_name = "elsewhere.org".into();
    assert_eq!(check_invite(&f, &fields), Err(InviteError::ForeignUser));
    let mut f = facts();
    f.origin = "evil.org".into();
    assert_eq!(check_invite(&f, &fields), Err(InviteError::SenderNotFromOrigin));
    let mut f = facts();
    f.room_banned = true;
    assert_eq!(check_invite(&f, &fields), Err(InviteError::RoomBanned));
    f.invitee_is_admin = true;
    assert_eq!(check_invite(&f, &fields), Ok(()));
    let mut f = facts();
    f.block_non_admin_invites = true;
    assert_eq!(check_invite(&f, &fields), Err(InviteError::InvitesBlocked));
    let join = INVITE.replace("\"invite\"", "\"join\"");
    assert_eq!(check_invite(&facts(), &invite_fields(&join)), Err(InviteError::NotInvite));
    let no_type = INVITE.replace("\"type\":\"m.room.member\",", "");
    assert_eq!(check_invite(&facts(), &invite_fields(&no_type)), Err(InviteError::MissingType));
    let no_content = INVITE.replace(",\"content\":{\"membership\":\"invite\"}", "");
    assert_eq!(check_invite(&facts(), &invite_fields(&no_content)), Err(InviteError::MissingContent));
    let bad_content = INVITE.replace("{\"membership\":\"invite\"}", "5");
    assert_eq!(check_invite(&facts(), &invite_fields(&bad_content)), Err(InviteError::InvalidContent));
    let other_origin = INVITE.replace("\"origin\":\"remote.org\"", "\"origin\":\"x.org\"");
    assert_eq!(check_invite(&facts(), &invite_fields(&other_origin)), Err(InviteError::UserNotFromOrigin));
    assert_eq!(InviteError::RoomBanned.message(), "This room is banned on this homeserver.");
}

#[test]
fn invite_delivery() {
    assert!(delivers_locally(false));
    assert!(!delivers_locally(true));
    assert_eq!(appservice_txn_id(&[0xfb, 0xff]), "-_8");
    assert_eq!(appservice_txn_id(b"hello"), "aGVsbG8");
}

#[test]
fn directory_search() {
    assert_eq!(search_limit(UInt::new(3).unwrap()), 3);
    assert_eq!(search_limit(UInt::new(10_000).unwrap()), 500);
    assert!(name_matches("@Alice:x", None, "alice"));
    assert!(name_matches("@a:x", Some("Bob Smith"), "smith"));
    assert!(!name_matches("@a:x", Some("Bob"), "carol"));
    assert!(should_show_user(true, true, false, false));
    assert!(should_show_user(true, false, false, true));
    assert!(!should_show_user(true, false, false, false));
    assert!(!should_show_user(false, true, true, true));
    let (users, limited) = search_page(vec![Some("a".into()), None, Some("b".into()), Some("c".into())], 2);
    assert_eq!(users, vec!["a", "b"]);
    assert!(limited);
    let (users, limited) = search_page(vec![Some("a".into())], 2);
    assert_eq!(users, vec!["a"]);
    assert!(!limited);
}

#[test]
fn room_servers_put_ours_first() {
    let servers = vec!["b.org".into(), "ours.org".into(), "a.org".into(), "b.org".into()];
    let r = room_servers(servers, "ours.org");
    assert_eq!(r.len(), 3);
    assert_eq!(r[0], "ours.org");
    let mut rest = r[1..].to_vec();
    rest.sort();
    assert_eq!(rest, vec!["a.org", "b.org"]);
    let r = room_servers(vec!["x.org".into(), "x.org".into()], "ours.org");
    assert_eq!(r, vec!["x.org"]);
}

#[test]
fn profile_queries() {
    assert!(matches!(profile_query(false, true, None), Err(ProfileError::Forbidden)));
    assert!(matches!(profile_query(true, false, None), Err(ProfileError::InvalidParam)));
    assert!(matches!(profile_query(true, true, Some("displayname".into())), Ok(ProfileQuery::Basic)));
    assert!(matches!(profile_query(true, true, Some("avatar_url".into())), Ok(ProfileQuery::Basic)));
    assert!(matches!(profile_query(true, true, Some("m.tz".into())), Ok(ProfileQuery::Custom(f)) if f == "m.tz"));
    assert!(matches!(profile_query(true, true, None), Ok(ProfileQuery::All)));
}

#[test]
fn federated_devices() {
    assert_eq!(federated_device_name(true, Some("Phone".into()), "DEV".into()), "Phone");
    assert_eq!(federated_device_name(false, Some("Phone".into()), "DEV".into()), "DEV");
    assert_eq!(federated_device_name(true, None, "DEV".into()), "DEV");
    assert!(all_local(&vec!["a.org".into(), "a.org".into()], "a.org"));
    assert!(!all_local(&vec!["a.org".into(), "b.org".into()], "a.org"));
}

#[test]
fn joining() {
    assert_eq!(join_step(0, false, 3), JoinStep::Joined);
    assert_eq!(join_step(0, true, 3), JoinStep::Retry(1));
    assert_eq!(join_step(2, true, 3), JoinStep::GiveUp);
    assert_eq!(join_step(usize::MAX, true, 3), JoinStep::GiveUp);
    assert!(!room_refused(true, true, true, true));
    assert!(room_refused(false, false, false, true));
    assert!(!room_refused(false, false, false, false));
    assert_eq!(
        deactivation_notice("@u:x", "1.2.3.4"),
        "Automatically deactivating user @u:x due to attempted banned room join from IP 1.2.3.4"
    );
    assert!(!redaction_allowed(true, false));
    assert!(redaction_allowed(true, true));
    assert!(redaction_allowed(false, false));
}

#[test]
fn dehydrated_devices() {
    assert_eq!(dehydrated_since(Err(()), "D", None), Err(DehydratedError::Forbidden));
    assert_eq!(dehydrated_since(Ok("E".into()), "D", None), Err(DehydratedError::Forbidden));
    assert_eq!(dehydrated_since(Ok("D".into()), "D", None), Ok(None));
    assert_eq!(dehydrated_since(Ok("D".into()), "D", Some("12")), Ok(Some(12)));
    assert_eq!(dehydrated_since(Ok("D".into()), "D", Some("x")), Err(DehydratedError::InvalidToken));
    let events: Vec<(u64, String)> = (1..=55).map(|i| (i, format!("e{i}"))).collect();
    let (page, next) = dehydrated_page(events);
    assert_eq!(page.len(), 50);
    assert_eq!(next, Some(50));
    assert_eq!(dehydrated_page(vec![]), (vec![], None));
}

#[test]
fn oauth_admin() {
    assert!(matches!(session_or_user_id("@a:x.org"), SessionOrUser::User(u) if u == "@a:x.org"));
    assert!(matches!(session_or_user_id("abc123"), SessionOrUser::Session(s) if s == "abc123"));
    assert!(matches!(parse_claim("sub=123"), Ok((k, v)) if k == "sub" && v == "123"));
    assert!(matches!(parse_claim("a=b=c"), Ok((k, v)) if k == "a" && v == "b=c"));
    assert!(matches!(parse_claim("nothing"), Err(ClaimError::MissingEquals(s)) if s == "nothing"));
    assert!(matches!(parse_claim("=v"), Err(ClaimError::MissingKeyOrValue)));
    assert!(matches!(parse_claim("k="), Err(ClaimError::MissingKeyOrValue)));
    assert!(parse_claims(&vec!["a=1".into(), "b=2".into()]).is_ok());
    assert!(matches!(parse_claims(&vec!["a=1".into(), "b".into(), "=".into()]), Err(ClaimError::MissingEquals(s)) if s == "b"));
    assert_eq!(associate_check(false, true), Err(AssociateError::NotLocal));
    assert_eq!(associate_check(true, false), Err(AssociateError::NotRegistered));
    assert_eq!(associate_check(true, true), Ok(()));
    assert_eq!(listing_line("gh"), "gh\n");
    assert!(delete_answer(false).is_err());
    assert_eq!(delete_answer(true), Ok("deleted any oauth state for {id}"));
    assert_eq!(remove_pusher_message(true), "Pusher deleted.");
    assert_eq!(remove_pusher_message(false), "Pusher was not found but deletion was still attempted.");
}

#[test]
fn registration_tokens() {
    assert_eq!(token_max_uses(Some(3), true), Some(3));
    assert_eq!(token_max_uses(None, true), Some(1));
    assert_eq!(token_max_uses(None, false), None);
    assert_eq!(token_list_header(2), "Found 2 registration tokens:\n");
    assert_eq!(token_list_line("abc"), "- abc\n");
    assert_eq!(token_issued("abc", "never expires"), "New registration token issued: `abc` - never expires");
}
