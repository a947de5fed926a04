use vstd::prelude::*;
use crate::matrix::event::Event;
use crate::matrix::json::{json_string_at, json_string_field};
use crate::utils::string::list_contains;

verus! {

/// Keeps events with a URL in their content, or those without one.
#[derive(Debug, Clone, Copy, PartialEq, Eq, Structural)]
pub enum UrlFilter {
    EventsWithUrl,
    EventsWithoutUrl,
}

/// Selects room events by sender, room, type and URL.
pub struct RoomEventFilter {
    pub not_types: Vec<String>,
    pub not_rooms: Vec<String>,
    pub limit: Option<u64>,
    pub rooms: Option<Vec<String>>,
    pub not_senders: Vec<String>,
    pub senders: Option<Vec<String>>,
    pub types: Option<Vec<String>>,
    pub url_filter: Option<UrlFilter>,
    /// Whether membership events are loaded lazily.
    pub lazy_load: bool,
}

/// Selects rooms, and the events in them.
pub struct RoomFilter {
    pub not_rooms: Vec<String>,
    pub rooms: Option<Vec<String>>,
    pub include_leave: bool,
    pub timeline: RoomEventFilter,
    pub state: RoomEventFilter,
}

/// Selects users, such as the senders of presence updates.
pub struct Filter {
    pub not_senders: Vec<String>,
    pub senders: Option<Vec<String>>,
}

/// The filters of a sync request.
pub struct FilterDefinition {
    pub room: RoomFilter,
    pub presence: Filter,
}

/// Whether `v` holds `s`.
pub open spec fn holds(v: Seq<String>, s: Seq<char>) -> bool {
    exists|i: int| 0 <= i < v.len() && (#[trigger] v[i])@ == s
}

/// Allowed by a deny list and an optional allow list.
pub open spec fn allowed(deny: Seq<String>, allow: Option<Vec<String>>, s: Seq<char>) -> bool {
    !holds(deny, s) && match allow {
        Some(a) => holds(a@, s),
        None => true,
    }
}

fn is_allowed(deny: &Vec<String>, allow: &Option<Vec<String>>, s: &str) -> (r: bool)
    ensures
        r == allowed(deny@, *allow, s@),
{
    if list_contains(deny.as_slice(), s) {
        return false;
    }
    match allow {
        Some(a) => list_contains(a.as_slice(), s),
        None => true,
    }
}

pub open spec fn url_allowed(f: RoomEventFilter, e: Event) -> bool {
    match f.url_filter {
        None => true,
        Some(UrlFilter::EventsWithUrl) => json_string_at(e.content@, "url"@) is Some,
        Some(UrlFilter::EventsWithoutUrl) => json_string_at(e.content@, "url"@) is None,
    }
}

/// An event passes when its sender, room, type and URL are all allowed.
pub open spec fn spec_event_matches(f: RoomEventFilter, e: Event) -> bool {
    &&& allowed(f.not_senders@, f.senders, e.sender@)
    &&& allowed(f.not_rooms@, f.rooms, e.room_id@)
    &&& allowed(f.not_types@, f.types, e.kind@)
    &&& url_allowed(f, e)
}

/// Tests a value against a filter.
pub trait Matches<T> {
    fn matches(&self, t: T) -> bool;
}

impl<'a> Matches<&'a Event> for RoomEventFilter {
    fn matches(&self, event: &'a Event) -> (r: bool)
        ensures
            r == spec_event_matches(*self, *event),
            r ==> !holds(self.not_types@, event.kind@) && (self.types matches Some(ts) ==> holds(ts@, event.kind@)),
            r ==> !holds(self.not_senders@, event.sender@) && (self.senders matches Some(ss) ==> holds(
                ss@,
                event.sender@,
            )),
            r ==> !holds(self.not_rooms@, event.room_id@) && (self.rooms matches Some(rs) ==> holds(
                rs@,
                event.room_id@,
            )),
    {
        if !matches_sender(event, self) {
            return false;
        }
        if !matches_room(event, self) {
            return false;
        }
        if !matches_type(event, self) {
            return false;
        }
        if !matches_url(event, self) {
            return false;
        }
        true
    }
}

impl<'a> Matches<&'a str> for RoomFilter {
    fn matches(&self, room_id: &'a str) -> (r: bool)
        ensures
            r == allowed(self.not_rooms@, self.rooms, room_id@),
    {
        matches_room_id(room_id, self)
    }
}

impl<'a> Matches<&'a str> for Filter {
    fn matches(&self, user_id: &'a str) -> (r: bool)
        ensures
            r == allowed(self.not_senders@, self.senders, user_id@),
    {
        matches_user_id(user_id, self)
    }
}

fn matches_user_id(user_id: &str, filter: &Filter) -> (r: bool)
    ensures
        r == allowed(filter.not_senders@, filter.senders, user_id@),
{
    is_allowed(&filter.not_senders, &filter.senders, user_id)
}

fn matches_room_id(room_id: &str, filter: &RoomFilter) -> (r: bool)
    ensures
        r == allowed(filter.not_rooms@, filter.rooms, room_id@),
{
    is_allowed(&filter.not_rooms, &filter.rooms, room_id)
}

fn matches_room(event: &Event, filter: &RoomEventFilter) -> (r: bool)
    ensures
        r == allowed(filter.not_rooms@, filter.rooms, event.room_id@),
{
    is_allowed(&filter.not_rooms, &filter.rooms, event.room_id.as_str())
}

fn matches_sender(event: &Event, filter: &RoomEventFilter) -> (r: bool)
    ensures
        r == allowed(filter.not_senders@, filter.senders, event.sender@),
{
    is_allowed(&filter.not_senders, &filter.senders, event.sender.as_str())
}

fn matches_type(event: &Event, filter: &RoomEventFilter) -> (r: bool)
    ensures
        r == allowed(filter.not_types@, filter.types, event.kind@),
{
    is_allowed(&filter.not_types, &filter.types, event.kind.as_str())
}

fn matches_url(event: &Event, filter: &RoomEventFilter) -> (r: bool)
    ensures
        r == url_allowed(*filter, *event),
{
    proof {
        reveal_strlit("url");
    }
    match filter.url_filter {
        None => true,
        Some(UrlFilter::EventsWithUrl) => json_string_field(event.content.as_str(), "url").is_some(),
        Some(UrlFilter::EventsWithoutUrl) => json_string_field(event.content.as_str(), "url").is_none(),
    }
}

/// An event passes a filter exactly when its sender, room and type are each
/// outside the filter's deny list and, where the filter has an allow list,
/// in it; and its URL is as the filter asks.
pub proof fn lemma_event_filter_parts(f: RoomEventFilter, e: Event)
    ensures
        spec_event_matches(f, e) <==> {
            &&& !holds(f.not_senders@, e.sender@)
            &&& (f.senders matches Some(ss) ==> holds(ss@, e.sender@))
            &&& !holds(f.not_rooms@, e.room_id@)
            &&& (f.rooms matches Some(rs) ==> holds(rs@, e.room_id@))
            &&& !holds(f.not_types@, e.kind@)
            &&& (f.types matches Some(ts) ==> holds(ts@, e.kind@))
            &&& (f.url_filter == Some(UrlFilter::EventsWithUrl) ==> json_string_at(e.content@, "url"@) is Some)
            &&& (f.url_filter == Some(UrlFilter::EventsWithoutUrl) ==> json_string_at(e.content@, "url"@) is None)
        },
{
}

/// A filter that names no sender, room or type, whether allowed or denied,
/// and does not filter on URLs, lets every event through.
pub proof fn lemma_open_filter_matches_all(f: RoomEventFilter, e: Event)
    requires
        f.not_senders@.len() == 0,
        f.senders is None,
        f.not_rooms@.len() == 0,
        f.rooms is None,
        f.not_types@.len() == 0,
        f.types is None,
        f.url_filter is None,
    ensures
        spec_event_matches(f, e),
{
}

} // verus!
