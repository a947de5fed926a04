use tuwunel::api::sync_v5::{
    collect_window, matched_lists, rank_rooms, remember_rooms, response_lists, room_sort,
    select_range, selections, selector, sort_rooms, subscription_room, window_last_count,
    window_room, ConnRoom, ListCount, ListRanges, WindowRoom,
};
use tuwunel::matrix::event::MembershipState;
use std::cmp::Ordering;

fn room(id: &str, lists: &[&str], last_count: u64) -> WindowRoom {
    WindowRoom {
        room_id: id.to_string(),
        membership: Some(MembershipState::Join),
        lists: lists.iter().map(|s| s.to_string()).collect(),
        ranked: 0,
        last_count,
    }
}

fn conn(entries: &[(&str, u64)]) -> Vec<ConnRoom> {
    entries
        .iter()
        .map(|(id, since)| ConnRoom { room_id: id.to_string(), roomsince: *since })
        .collect()
}

fn ids(rooms: &[WindowRoom]) -> Vec<String> {
    rooms.iter().map(|r| r.room_id.clone()).collect()
}

#[test]
fn room_sort_orders_most_recent_first() {
    let a = room("!a", &[], 5);
    let b = room("!b", &[], 9);
    assert_eq!(room_sort(&a, &b), Ordering::Greater);
    assert_eq!(room_sort(&b, &a), Ordering::Less);
    assert_eq!(room_sort(&a, &a), Ordering::Equal);
}

#[test]
fn sort_rooms_is_stable_and_descending() {
    let rooms = vec![room("!a", &[], 1), room("!b", &[], 7), room("!c", &[], 7), room("!d", &[], 3)];
    let sorted = sort_rooms(rooms);
    assert_eq!(ids(&sorted), vec!["!b", "!c", "!d", "!a"]);
}

#[test]
fn rank_rooms_numbers_positions() {
    let ranked = rank_rooms(vec![room("!a", &[], 1), room("!b", &[], 2)]);
    assert_eq!(ranked[0].ranked, 0);
    assert_eq!(ranked[1].ranked, 1);
    assert_eq!(ranked[1].room_id, "!b");
}

#[test]
fn last_count_ignores_counts_past_next_batch() {
    let counts = vec![Some(4), None, Some(12), Some(9), Some(2)];
    assert_eq!(window_last_count(&counts, 10), 9);
    assert_eq!(window_last_count(&counts, 100), 12);
    assert_eq!(window_last_count(&vec![Some(50)], 10), 0);
    assert_eq!(window_last_count(&vec![], 10), 0);
}

#[test]
fn matched_lists_keeps_unfiltered_and_passing() {
    let results = vec![
        ("a".to_string(), None),
        ("b".to_string(), Some(false)),
        ("c".to_string(), Some(true)),
    ];
    assert_eq!(matched_lists(results), vec!["a", "c"]);
}

#[test]
fn window_room_counts_only_listed_rooms() {
    let counts = vec![Some(3), Some(8)];
    let listed = window_room("!a".into(), None, vec!["l".into()], &counts, 10);
    assert_eq!(listed.last_count, 8);
    let unlisted = window_room("!b".into(), None, vec![], &counts, 10);
    assert_eq!(unlisted.last_count, 0);
    assert_eq!(unlisted.ranked, 0);
}

#[test]
fn response_lists_counts_rooms_per_list() {
    let rooms = vec![room("!a", &["x", "y"], 1), room("!b", &["x"], 2), room("!c", &[], 3)];
    let lists = response_lists(&rooms);
    let mut counts: Vec<(String, u64)> = lists.iter().map(|l| (l.id.clone(), l.count)).collect();
    counts.sort();
    assert_eq!(counts, vec![("x".to_string(), 2), ("y".to_string(), 1)]);
}

#[test]
fn select_range_takes_inclusive_range_of_eligible_rooms() {
    let rooms = vec![
        room("!a", &["l"], 9),
        room("!b", &["l"], 8),
        room("!c", &["m"], 7),
        room("!d", &["l"], 2),
        room("!e", &["l"], 1),
    ];
    let c = conn(&[("!a", 0), ("!b", 0), ("!c", 0), ("!d", 5), ("!e", 0)]);
    // "!d" is stale (last_count 2 is not past roomsince 5); "!c" is not in "l".
    assert_eq!(ids(&select_range(&rooms, "l", &c, 0, 1)), vec!["!a", "!b"]);
    assert_eq!(ids(&select_range(&rooms, "l", &c, 1, 5)), vec!["!b", "!e"]);
    assert_eq!(ids(&select_range(&rooms, "l", &c, 3, 1)), Vec::<String>::new());
    assert_eq!(ids(&select_range(&rooms, "l", &c, 0, usize::MAX)), vec!["!a", "!b", "!e"]);
}

#[test]
fn select_range_skips_rooms_unknown_to_connection() {
    let rooms = vec![room("!a", &["l"], 9)];
    assert!(select_range(&rooms, "l", &conn(&[]), 0, 10).is_empty());
}

#[test]
fn selections_use_full_range_without_ranges() {
    let rooms = vec![room("!a", &["l"], 9), room("!b", &["l"], 8)];
    let c = conn(&[("!a", 0), ("!b", 0)]);
    let lists = vec![ListCount { id: "l".into(), count: 2 }];
    let none = vec![ListRanges { id: "l".into(), ranges: vec![] }];
    assert_eq!(ids(&selections(&rooms, &c, &lists, &none)), vec!["!a", "!b"]);
    let first = vec![ListRanges { id: "l".into(), ranges: vec![(0, 0), (1, 1)] }];
    assert_eq!(ids(&selections(&rooms, &c, &lists, &first)), vec!["!a", "!b"]);
    let unknown = vec![ListRanges { id: "other".into(), ranges: vec![] }];
    assert!(selections(&rooms, &c, &lists, &unknown).is_empty());
}

#[test]
fn collect_window_keeps_last_entry_per_room() {
    let entries = vec![room("!a", &[], 1), room("!b", &[], 2), room("!a", &["l"], 3)];
    let window = collect_window(entries);
    assert_eq!(window.len(), 2);
    let a = window.iter().find(|r| r.room_id == "!a").unwrap();
    assert_eq!(a.last_count, 3);
}

#[test]
fn remember_rooms_adds_new_rooms_at_zero() {
    let mut c = conn(&[("!a", 7)]);
    remember_rooms(&mut c, &vec![room("!a", &[], 1), room("!b", &[], 1)]);
    assert_eq!(c.len(), 2);
    assert_eq!(c[0].roomsince, 7);
    assert_eq!(c[1].room_id, "!b");
    assert_eq!(c[1].roomsince, 0);
}

#[test]
fn subscription_room_is_unranked() {
    let r = subscription_room("!s".into(), Some(MembershipState::Invite));
    assert_eq!(r.ranked, usize::MAX);
    assert_eq!(r.last_count, 0);
    assert!(r.lists.is_empty());
}

#[test]
fn selector_ranks_counts_and_windows() {
    let mut c = conn(&[("!old", 4)]);
    let rooms = vec![room("!old", &["l"], 3), room("!new", &["l"], 8)];
    let ranges = vec![ListRanges { id: "l".into(), ranges: vec![] }];
    let subs = vec![subscription_room("!s".into(), None)];
    let sel = selector(&mut c, rooms, &ranges, subs);
    assert_eq!(ids(&sel.rooms), vec!["!new", "!old"]);
    assert_eq!(sel.rooms[1].ranked, 1);
    assert_eq!(sel.lists.len(), 1);
    assert_eq!(sel.lists[0].count, 2);
    let mut window = ids(&sel.window);
    window.sort();
    // "!old" is stale: its last activity is not past what was sent.
    assert_eq!(window, vec!["!new", "!s"]);
    assert_eq!(c.len(), 2);
}

#[test]
fn connection_state_of_a_room() {
    let c = conn(&[("!a:x", 3), ("!b:x", 0)]);
    assert_eq!(tuwunel::api::sync_v5::connection_roomsince(&c, "!a:x"), Ok(3));
    assert_eq!(tuwunel::api::sync_v5::connection_roomsince(&c, "!b:x"), Ok(0));
    assert_eq!(tuwunel::api::sync_v5::connection_roomsince(&c, "!z:x"), Err("!z:x".to_string()));
}
