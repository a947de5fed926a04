use tuwunel::api::sync_v3::{
    client_timeout, compute_heroes, filter_timeline, fold_hero, fold_membership_change,
    in_sync_window, insert_user, joined_room_flags, joined_room_prev_batch, lazy_filter,
    left_room_action, left_room_prev_batch, left_room_timeline, merge_users, notification_count, parse_count,
    parse_u64, send_member_counts, state_plan, still_left, sync_step, take_sender_membership,
    timeline_limit, DeviceListUpdates, HeroCandidate, LeftRoomAction, SyncAction, SyncEvent,
    SyncState,
};
use tuwunel::args::{config_overrides, split_option, OptionError, OverrideValue};
use tuwunel::data::{process_data, DataRequest, Element};
use tuwunel::database::{
    cache_read_options_default, handle, read_options_default, starts_with, Database, Engine,
    LogLevel, LogTarget,
};
use tuwunel::matrix::event::{Event, MembershipState};
use tuwunel::matrix::filter::{Matches, RoomEventFilter, UrlFilter};
use tuwunel::matrix::format::{members, Key, Member, Owned, RedactCopy, Ref, Target};
use tuwunel::matrix::pdu::{Id, RawId};
use tuwunel::utils::debug::{slice_truncated, str_truncated, utf8_len_at_most};
use tuwunel::utils::math::{ruma_from_u64, usize_from_ruma, usize_from_u64_truncated, try_into, UInt, MAX_SAFE_INT};
use tuwunel::utils::result::IsErrOr;
use tuwunel::error::Error;

fn ev(id: &str, kind: &str, sender: &str, state_key: Option<&str>, content: &str) -> Event {
    Event {
        event_id: id.into(),
        room_id: "!r:x".into(),
        sender: sender.into(),
        kind: kind.into(),
        state_key: state_key.map(str::to_string),
        origin_server_ts: 7,
        redacts: None,
        content: content.into(),
        unsigned: None,
        redacted: false,
    }
}

fn open_filter() -> RoomEventFilter {
    RoomEventFilter {
        not_types: vec![],
        not_rooms: vec![],
        limit: None,
        rooms: None,
        not_senders: vec![],
        senders: None,
        types: None,
        url_filter: None,
        lazy_load: false,
    }
}

#[test]
fn tokens_parse_like_str_parse() {
    assert_eq!(parse_u64("123"), Some(123));
    assert_eq!(parse_u64("+7"), Some(7));
    assert_eq!(parse_u64(""), None);
    assert_eq!(parse_u64("-1"), None);
    assert_eq!(parse_u64("18446744073709551615"), Some(u64::MAX));
    assert_eq!(parse_u64("18446744073709551616"), None);
    assert_eq!(parse_count(Some("42")), 42);
    assert_eq!(parse_count(Some("x")), 0);
    assert_eq!(parse_count(None), 0);
    let n = 98765u64;
    assert_eq!(parse_u64(&tuwunel::utils::string::to_small_string(n)), Some(n));
}

#[test]
fn sync_timeouts_clamp() {
    assert_eq!(client_timeout(None, 30000, 5000, 60000), 30000);
    assert_eq!(client_timeout(Some(1), 30000, 5000, 60000), 5000);
    assert_eq!(client_timeout(Some(999999), 30000, 5000, 60000), 60000);
    assert_eq!(client_timeout(Some(u128::MAX), 30000, 5000, 60000), 30000);
}

#[test]
fn sync_state_machine() {
    let s = SyncState { since: 5, full_state: false, next_batch: None, stop_at: 1_000 };
    let (s1, a1) = sync_step(s, SyncEvent::Pending { next_batch: 9 });
    assert_eq!(a1, SyncAction::Build { since: 5, next_batch: 9 });
    let (_, a2) = sync_step(s1, SyncEvent::Built { empty: true });
    assert_eq!(a2, SyncAction::Wait { until: 1_000 });
    let (s3, a3) = sync_step(s1, SyncEvent::Woke { timed_out: false, stopping: false });
    assert_eq!(a3, SyncAction::AwaitPending);
    assert_eq!(s3.since, 9);
    let (_, a4) = sync_step(s1, SyncEvent::Woke { timed_out: true, stopping: false });
    assert_eq!(a4, SyncAction::RespondEmpty { next_batch: 9 });
    let (_, a5) = sync_step(SyncState { since: 9, full_state: false, next_batch: None, stop_at: 1_000 }, SyncEvent::Pending { next_batch: 9 });
    assert_eq!(a5, SyncAction::Wait { until: 1_000 });
    let started = tuwunel::api::sync_v3::sync_start(5, false, 400, 600);
    assert_eq!(started, s);
    let (_, a6) = sync_step(SyncState { since: 12, full_state: true, next_batch: None, stop_at: 1_000 }, SyncEvent::Pending { next_batch: 9 });
    assert_eq!(a6, SyncAction::Build { since: 9, next_batch: 9 });
}

#[test]
fn sync_windows_and_left_rooms() {
    assert!(in_sync_window(5, 9, Some(6)));
    assert!(!in_sync_window(5, 9, Some(5)));
    assert!(!in_sync_window(5, 9, None));
    assert_eq!(left_room_action(None, 0, 9, true, false), LeftRoomAction::Skip);
    assert_eq!(left_room_action(Some(3), 0, 9, false, false), LeftRoomAction::Skip);
    assert_eq!(left_room_action(Some(3), 5, 9, true, false), LeftRoomAction::Skip);
    assert_eq!(left_room_action(Some(7), 5, 9, true, true), LeftRoomAction::Placeholder { prev_batch: 7 });
    assert_eq!(left_room_action(Some(7), 5, 9, true, false), LeftRoomAction::Load { left_count: 7 });
    assert_eq!(left_room_prev_batch(Some(4), 10, 7), Some(4));
    assert_eq!(left_room_prev_batch(None, 0, 7), Some(7));
    assert_eq!(left_room_prev_batch(None, 10, 7), None);
    assert_eq!(timeline_limit(None), 10);
}

#[test]
fn left_room_timelines() {
    let loaded = vec![
        ev("$a", "m.room.message", "@u:x", None, "{}"),
        ev("$b", "m.room.message", "@u:x", None, "{}"),
    ];
    let none = left_room_timeline(loaded.clone(), false, Some(3), &open_filter(), 0, 7);
    assert!(none.events.is_empty());
    assert!(none.limited);
    assert_eq!(none.prev_batch, Some(7));
    let one = left_room_timeline(loaded.clone(), false, Some(3), &open_filter(), 1, 7);
    assert_eq!(one.events.len(), 1);
    assert_eq!(one.events[0].event_id, "$a");
    assert!(!one.limited);
    assert_eq!(one.prev_batch, Some(3));
    let cut = left_room_timeline(loaded, true, Some(3), &open_filter(), 10, 7);
    assert_eq!(cut.events.len(), 2);
    assert!(cut.limited);
}

#[test]
fn timeline_filtering() {
    let mut f = open_filter();
    f.not_types = vec!["m.room.topic".into()];
    let events = vec![
        ev("$1", "m.room.message", "@a:x", None, "{}"),
        ev("$2", "m.room.topic", "@a:x", Some(""), "{}"),
        ev("$3", "m.room.message", "@b:x", None, "{}"),
        ev("$4", "m.room.message", "@b:x", None, "{}"),
    ];
    let kept: Vec<String> = filter_timeline(events, &f, 2).into_iter().map(|e| e.event_id).collect();
    assert_eq!(kept, vec!["$1", "$3"]);
}

#[test]
fn joined_room_decisions() {
    let flags = joined_room_flags(5, 9, 7, Some(6), Some(false), true, false, Some(8));
    assert!(flags.timeline_changed);
    assert!(flags.joined_since_last_sync);
    assert!(flags.lazy_loading);
    assert!(flags.send_notification_counts);
    assert!(flags.send_notification_resets);
    assert_eq!(notification_count(0, &flags), Some(0));
    let quiet = joined_room_flags(5, 9, 5, None, None, true, true, Some(2));
    assert!(!quiet.lazy_loading);
    assert!(!quiet.send_notification_counts);
    assert_eq!(notification_count(3, &quiet), None);
    assert_eq!(joined_room_prev_batch(None, true, 5), Some(5));
    assert_eq!(joined_room_prev_batch(Some(3), true, 5), Some(3));
    let plan = state_plan(false, false, Some(4), None, 8);
    assert!(plan.incremental);
    assert_eq!(plan.horizon, 8);
    assert_eq!(plan.since, 4);
    assert!(!state_plan(true, false, Some(4), Some(6), 8).incremental);
    assert!(lazy_filter(true, "m.room.member", "@me:x", "@me:x"));
    assert!(!lazy_filter(true, "m.room.member", "@other:x", "@me:x"));
    assert!(lazy_filter(true, "m.room.name", "", "@me:x"));
    assert!(compute_heroes(true, 3, 2));
    assert!(!compute_heroes(true, 4, 2));
}

#[test]
fn sender_membership_moves_to_timeline() {
    let mut state = vec![
        ev("$a", "m.room.name", "@x:x", Some(""), "{}"),
        ev("$b", "m.room.member", "@me:x", Some("@me:x"), "{}"),
        ev("$c", "m.room.topic", "@x:x", Some(""), "{}"),
    ];
    let taken = take_sender_membership(&mut state, "@me:x", true, true, false).unwrap();
    assert_eq!(taken.event_id, "$b");
    let ids: Vec<&str> = state.iter().map(|e| e.event_id.as_str()).collect();
    assert_eq!(ids, vec!["$a", "$c"]);
    assert!(take_sender_membership(&mut state, "@me:x", true, true, true).is_none());
    assert!(!send_member_counts(&state));
}

#[test]
fn heroes_and_device_lists() {
    let mut heroes = vec![];
    let cand = |id: &str, m: MembershipState, invited: bool, joined: bool| HeroCandidate {
        user_id: Some(id.into()),
        membership: Some(m),
        is_invited: invited,
        is_joined: joined,
    };
    fold_hero(&mut heroes, "@me:x", cand("@a:x", MembershipState::Join, false, true));
    fold_hero(&mut heroes, "@me:x", cand("@a:x", MembershipState::Join, false, true));
    fold_hero(&mut heroes, "@me:x", cand("@me:x", MembershipState::Join, false, true));
    fold_hero(&mut heroes, "@me:x", cand("@b:x", MembershipState::Leave, false, false));
    fold_hero(&mut heroes, "@me:x", cand("@c:x", MembershipState::Invite, true, false));
    assert_eq!(heroes, vec!["@a:x"]);
    let mut dl = DeviceListUpdates { changed: vec![], left: vec![] };
    fold_membership_change(&mut dl, MembershipState::Join, "@a:x".into(), false);
    fold_membership_change(&mut dl, MembershipState::Join, "@a:x".into(), false);
    fold_membership_change(&mut dl, MembershipState::Join, "@b:x".into(), true);
    fold_membership_change(&mut dl, MembershipState::Leave, "@c:x".into(), false);
    assert_eq!(dl.changed, vec!["@a:x"]);
    assert_eq!(dl.left, vec!["@c:x"]);
    let mut users = vec!["@a:x".to_string()];
    insert_user(&mut users, "@a:x".into());
    merge_users(&mut users, vec!["@b:x".into(), "@a:x".into(), "@b:x".into()]);
    assert_eq!(users, vec!["@a:x", "@b:x"]);
    assert_eq!(still_left(vec![("@a:x".into(), true), ("@b:x".into(), false)]), vec!["@b:x"]);
}

#[test]
fn event_filters() {
    let e = ev("$1", "m.room.message", "@a:x", None, r#"{"url":"mxc://a"}"#);
    assert!(open_filter().matches(&e));
    let mut f = open_filter();
    f.senders = Some(vec!["@b:x".into()]);
    assert!(!f.matches(&e));
    let mut f = open_filter();
    f.url_filter = Some(UrlFilter::EventsWithoutUrl);
    assert!(!f.matches(&e));
    f.url_filter = Some(UrlFilter::EventsWithUrl);
    assert!(f.matches(&e));
    let mut f = open_filter();
    f.not_rooms = vec!["!r:x".into()];
    assert!(!f.matches(&e));
}

#[test]
fn event_formats() {
    let e = ev("$1", "m.room.message", "@a:x", None, "{}");
    let copy = RedactCopy { redacts: None, content: "{}".into() };
    let keys: Vec<Key> = members(&e, Target::SyncTimeline, &copy).into_iter().map(|(k, _)| k).collect();
    assert!(keys.contains(&Key::EventId));
    assert!(!keys.contains(&Key::RoomId));
    let keys: Vec<Key> = members(&e, Target::Timeline, &copy).into_iter().map(|(k, _)| k).collect();
    assert!(keys.contains(&Key::RoomId));
    assert_eq!(Key::OriginServerTs.name(), "origin_server_ts");
    assert!(e.is_membership_of("@a:x") == false);
    let m = ev("$2", "m.room.member", "@a:x", Some("@a:x"), "{}");
    assert!(m.is_membership_of("@a:x"));
    assert!(m.is_membership());
}

#[test]
fn pdu_ids_decode_big_endian() {
    let raw = RawId { shortroomid: [0, 0, 0, 0, 0, 0, 1, 2], count: [0, 0, 0, 0, 0, 0, 0, 9] };
    let id = Id::from_raw(&raw);
    assert_eq!(id.shortroomid, 258);
    assert_eq!(id.count, 9);
}

#[test]
fn json_safe_integers() {
    assert!(UInt::new(MAX_SAFE_INT).is_some());
    assert!(UInt::new(MAX_SAFE_INT + 1).is_none());
    assert_eq!(usize_from_ruma(ruma_from_u64(42)), 42);
    assert_eq!(usize_from_u64_truncated(7), 7);
    let ok: Result<u8, Error> = try_into(200u32);
    assert_eq!(ok, Ok(200));
    let err: Result<u8, Error> = try_into(300u32);
    assert_eq!(err, Err(Error::Arithmetic("failed to convert from u32 to u8".to_string())));
    let ok: Result<u8, Error> = try_into(255i32);
    assert_eq!(ok, Ok(255));
    let err: Result<u8, Error> = try_into(300i32);
    assert_eq!(err, Err(Error::Arithmetic("failed to convert from i32 to u8".to_string())));
    let err: Result<i64, Error> = try_into(u64::MAX);
    assert_eq!(err, Err(Error::Arithmetic("failed to convert from u64 to i64".to_string())));
}

#[test]
fn truncated_debug_views() {
    let v = [1, 2, 3, 4];
    let t = slice_truncated(&v, 2);
    assert!(t.is_truncated());
    assert_eq!(t.shown(), &[1, 2]);
    assert!(!slice_truncated(&v, 4).is_truncated());
    let s = str_truncated("abcdef", 3);
    assert_eq!(s.render(), "\"abc\"...");
    assert_eq!(str_truncated("ab", 3).render(), "\"ab\"");
    assert_eq!(str_truncated("aéb", 2).render(), "\"aé\"...");
    assert_eq!(str_truncated("aé", 2).render(), "\"aé\"...");
    assert!(utf8_len_at_most("éé", 4));
    assert!(!utf8_len_at_most("éé", 3));
}

#[test]
fn is_err_or_cases() {
    let ok: Result<u32, ()> = Ok(3);
    assert!(ok.is_err_or(|v| v == 3));
    assert!(!Ok::<u32, ()>(4).is_err_or(|v| v == 3));
    assert!(Err::<u32, ()>(()).is_err_or(|v| v == 3));
}

#[test]
fn data_processing() {
    let req = DataRequest { data: vec![Element::Num(2), Element::Text("hé".into()), Element::Num(-5)] };
    let resp = process_data(&req);
    assert_eq!(resp.int_sum, -3);
    assert_eq!(resp.string_len, 3);
}

#[test]
fn options_split() {
    assert_eq!(split_option("a=b"), Ok(("a", "b")));
    assert_eq!(split_option("a=b=c"), Ok(("a", "b=c")));
    assert_eq!(split_option("ab"), Err(OptionError::MissingEquals));
    assert_eq!(split_option("=b"), Err(OptionError::MissingKey));
    assert_eq!(split_option("a="), Err(OptionError::MissingValue));
}

#[test]
fn storage_engine() {
    let engine = Engine { corks: 0, flushes: 0, syncs: 0, checksums: true };
    assert!(!engine.corked());
    let mut db = Database { engine };
    let cork = db.cork_and_flush();
    assert!(db.engine.corked());
    cork.release(&mut db);
    assert!(!db.engine.corked());
    assert_eq!(db.engine.flushes, 1);
    let opts = read_options_default(&db.engine);
    assert!(opts.verify_checksums);
    assert!(!cache_read_options_default(&db.engine).fill_cache);
    assert_eq!(handle(LogLevel::Info, "  Options.foo  "), (LogTarget::Trace, "Options.foo"));
    assert_eq!(handle(LogLevel::Fatal, "boom"), (LogTarget::Error, "boom"));
    assert_eq!(handle(LogLevel::Info, "\u{3000}\tOptions x\u{85}\n"), (LogTarget::Trace, "Options x"));
    assert_eq!(handle(LogLevel::Info, "\u{200b}Options"), (LogTarget::Debug, "\u{200b}Options"));
    assert_eq!(handle(LogLevel::Warn, "careful"), (LogTarget::Warn, "careful"));
    assert_eq!(handle(LogLevel::Header, "hdr"), (LogTarget::Debug, "hdr"));
    assert!(starts_with("table_factory options", "table_factory"));
}

fn args_with(option: Vec<&str>, read_only: bool) -> tuwunel::args::Args {
    tuwunel::args::Args {
        config: None,
        option: option.into_iter().map(str::to_string).collect(),
        read_only,
        maintenance: false,
        console: false,
        execute: vec!["ping".into()],
        test: vec![],
        bench: vec![],
        worker_threads: 1,
        global_event_interval: 192,
        kernel_event_interval: 512,
        kernel_events_per_tick: 512,
        worker_histogram_interval: 25,
        worker_histogram_buckets: 20,
        worker_affinity: true,
        gc_on_park: None,
        gc_muzzy: None,
    }
}

#[test]
fn command_line_overrides() {
    let ovs = config_overrides(&args_with(vec!["port=8448", "a.b=\"x\""], true)).ok().unwrap();
    let keys: Vec<&str> = ovs.iter().map(|o| o.key.as_str()).collect();
    assert_eq!(keys, vec!["rocksdb_read_only", "startup_netburst", "listening", "admin_execute", "test", "port", "a.b"]);
    assert!(matches!(ovs[1].value, OverrideValue::Bool(false)));
    assert!(matches!(&ovs[3].value, OverrideValue::List(l) if l == &vec!["ping".to_string()]));
    assert!(matches!(&ovs[5].value, OverrideValue::Toml(t) if t == "port=8448"));
    let err = config_overrides(&args_with(vec!["ok=1", "broken"], false)).err().unwrap();
    assert_eq!(err.0, OptionError::MissingEquals);
    assert_eq!(err.1, "broken");
    let bad = config_overrides(&args_with(vec!["ok=1", "a=["], false)).err().unwrap();
    assert!(matches!(&bad.0, OptionError::InvalidToml(m) if !m.is_empty()));
    assert_eq!(bad.1, "a=[");
    assert!(config_overrides(&args_with(vec!["a=unquoted"], false)).is_err());
    assert!(config_overrides(&args_with(vec!["a=[1, 2]"], false)).is_ok());
    let flags = tuwunel::args::flag_overrides(&args_with(vec![], false));
    assert!(flags.is_empty());
}

#[test]
fn functional_test_arguments() {
    let args = tuwunel::args::Args::default_test(args_with(vec![], false), &["smoke", "fresh"]);
    assert_eq!(args.test, vec!["smoke", "fresh"]);
    assert_eq!(args.option.last().map(String::as_str), Some("server_name=\"localhost\""));
}

#[test]
fn owned_and_lent_events_convert_alike() {
    let mut e = ev("$e", "m.room.member", "@u:x", Some("@u:x"), "{}");
    e.unsigned = Some("{\"age\":1}".into());
    let copy = RedactCopy { redacts: None, content: "{}".into() };
    let lent = Ref(&e).members(Target::Timeline, &copy);
    let owned = Owned(e.clone()).members(Target::Timeline, &copy);
    let names = |v: &Vec<(Key, Member)>| v.iter().map(|(k, _)| k.name()).collect::<Vec<_>>();
    assert_eq!(names(&lent), names(&owned));
    assert!(lent.iter().any(|(k, v)| *k == Key::RoomId && matches!(v, Member::Str(r) if r == "!r:x")));
    assert!(lent.iter().any(|(k, v)| *k == Key::StateKey && matches!(v, Member::Str(s) if s == "@u:x")));
    assert!(lent.iter().any(|(k, _)| *k == Key::Unsigned));
    let sync = Ref(&e).members(Target::SyncTimeline, &copy);
    assert!(!sync.iter().any(|(k, _)| *k == Key::RoomId));
    assert!(sync.iter().any(|(k, v)| *k == Key::EventId && matches!(v, Member::Str(i) if i == "$e")));
}

#[test]
fn sync_rooms_are_assembled() {
    let filter = tuwunel::matrix::filter::RoomFilter {
        not_rooms: vec!["!no:x".into()],
        rooms: None,
        include_leave: false,
        timeline: open_filter(),
        state: open_filter(),
    };
    let r = tuwunel::api::sync_v3::assemble_sync(
        9,
        5,
        &filter,
        vec![("!a:x".to_string(), 1u8, false), ("!e:x".to_string(), 2u8, true), ("!no:x".to_string(), 3u8, false)],
        vec![("!i:x".to_string(), Some(7), 'i'), ("!old:x".to_string(), Some(5), 'o'), ("!late:x".to_string(), Some(10), 'l'), ("!n:x".to_string(), None, 'n')],
        vec![("!k:x".to_string(), Some(9), 'k')],
        vec![("!l:x".to_string(), "left"), ("!no:x".to_string(), "gone")],
    );
    assert_eq!(r.next_batch, 9);
    assert_eq!(r.joined, vec![("!a:x".to_string(), 1u8)]);
    assert_eq!(r.invited, vec![("!i:x".to_string(), 'i')]);
    assert_eq!(r.knocked, vec![("!k:x".to_string(), 'k')]);
    assert_eq!(r.left, vec![("!l:x".to_string(), "left")]);
}

#[test]
fn joined_room_timelines() {
    let own = ev("$m", "m.room.member", "@u:x", Some("@u:x"), "{}");
    let topic = ev("$t", "m.room.topic", "@a:x", Some(""), "{}");
    let f = open_filter();
    let r = tuwunel::api::sync_v3::joined_room_timeline(
        true, None, false, vec![], vec![own.clone(), topic.clone()], "@u:x", &f, &f, true, false, 4, false,
    );
    assert_eq!(r.events.iter().map(|e| e.event_id.as_str()).collect::<Vec<_>>(), vec!["$m"]);
    assert_eq!(r.state.iter().map(|e| e.event_id.as_str()).collect::<Vec<_>>(), vec!["$t"]);
    assert_eq!(r.prev_batch, Some(4));
    assert!(r.limited);
    let msg = ev("$x", "m.room.message", "@a:x", None, "{}");
    let r = tuwunel::api::sync_v3::joined_room_timeline(
        false, Some(7), false, vec![msg.clone(), topic.clone()], vec![topic.clone(), own.clone()], "@u:x", &f, &f, false, false, 4, false,
    );
    assert_eq!(r.events.len(), 2);
    assert_eq!(r.state.iter().map(|e| e.event_id.as_str()).collect::<Vec<_>>(), vec!["$m"]);
    assert_eq!(r.prev_batch, Some(7));
    assert!(!r.limited);
    let r = tuwunel::api::sync_v3::joined_room_timeline(
        false, Some(7), false, vec![topic.clone()], vec![topic], "@u:x", &f, &f, false, false, 4, true,
    );
    assert_eq!(r.state.len(), 1);
}
