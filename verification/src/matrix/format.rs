use vstd::prelude::*;
use crate::matrix::event::Event;

verus! {

/// An event handed over for formatting.
pub struct Owned(pub Event);

/// An event lent for formatting.
pub struct Ref<'a>(pub &'a Event);

/// The client-facing shapes that an event is formatted into.
#[derive(Debug, Clone, Copy, PartialEq, Eq, Structural)]
pub enum Target {
    /// A timeline event in a sync response (no room ID).
    SyncTimeline,
    /// A timeline event with its room ID.
    Timeline,
    MessageLike,
    SyncMessageLike,
    State,
    SyncState,
    /// Stripped state, as in invites.
    StrippedState,
    /// A child event in a space hierarchy.
    HierarchySpaceChild,
    /// A room membership state event.
    RoomMember,
}

/// The keys of a formatted event.
#[derive(Debug, Clone, Copy, PartialEq, Eq, Structural)]
pub enum Key {
    Content,
    EventId,
    OriginServerTs,
    Redacts,
    RoomId,
    Sender,
    StateKey,
    Type,
    Unsigned,
}

impl Key {
    /// The name of each key.
    pub open spec fn spec_name(&self) -> Seq<char> {
        match self {
            Key::Content => "content"@,
            Key::EventId => "event_id"@,
            Key::OriginServerTs => "origin_server_ts"@,
            Key::Redacts => "redacts"@,
            Key::RoomId => "room_id"@,
            Key::Sender => "sender"@,
            Key::StateKey => "state_key"@,
            Key::Type => "type"@,
            Key::Unsigned => "unsigned"@,
        }
    }

    /// The JSON member name.
    pub fn name(&self) -> (r: &'static str)
        ensures
            r@ == self.spec_name(),
    {
        proof {
            reveal_strlit("content");
            reveal_strlit("event_id");
            reveal_strlit("origin_server_ts");
            reveal_strlit("redacts");
            reveal_strlit("room_id");
            reveal_strlit("sender");
            reveal_strlit("state_key");
            reveal_strlit("type");
            reveal_strlit("unsigned");
        }
        match self {
            Key::Content => "content",
            Key::EventId => "event_id",
            Key::OriginServerTs => "origin_server_ts",
            Key::Redacts => "redacts",
            Key::RoomId => "room_id",
            Key::Sender => "sender",
            Key::StateKey => "state_key",
            Key::Type => "type",
            Key::Unsigned => "unsigned",
        }
    }
}

/// A member's value: a JSON string, a number, or JSON text put in as is.
pub enum Member {
    Str(String),
    Int(u64),
    Json(String),
}

/// The redaction target and content that redaction leaves for the timeline
/// formats.
pub struct RedactCopy {
    pub redacts: Option<String>,
    pub content: String,
}

/// The members that each target may carry, in order.
pub open spec fn target_keys(t: Target) -> Seq<Key> {
    match t {
        Target::SyncTimeline | Target::SyncMessageLike => seq![
            Key::Content,
            Key::EventId,
            Key::OriginServerTs,
            Key::Redacts,
            Key::Sender,
            Key::StateKey,
            Key::Type,
            Key::Unsigned,
        ],
        Target::Timeline | Target::MessageLike | Target::RoomMember => seq![
            Key::Content,
            Key::EventId,
            Key::OriginServerTs,
            Key::Redacts,
            Key::RoomId,
            Key::Sender,
            Key::StateKey,
            Key::Type,
            Key::Unsigned,
        ],
        Target::State => seq![
            Key::Content,
            Key::EventId,
            Key::OriginServerTs,
            Key::RoomId,
            Key::Sender,
            Key::StateKey,
            Key::Type,
            Key::Unsigned,
        ],
        Target::SyncState => seq![
            Key::Content,
            Key::EventId,
            Key::OriginServerTs,
            Key::Sender,
            Key::StateKey,
            Key::Type,
            Key::Unsigned,
        ],
        Target::StrippedState => seq![Key::Content, Key::Sender, Key::StateKey, Key::Type],
        Target::HierarchySpaceChild => seq![
            Key::Content,
            Key::OriginServerTs,
            Key::Sender,
            Key::StateKey,
            Key::Type,
        ],
    }
}

/// Whether the target takes content and redaction target from the redacted
/// copy of the event rather than from the event itself.
pub open spec fn uses_copy(t: Target) -> bool {
    t == Target::SyncTimeline || t == Target::Timeline || t == Target::MessageLike || t
        == Target::SyncMessageLike
}

/// The value of one member, or nothing when the event has none.
pub open spec fn member_value(e: Event, t: Target, copy: RedactCopy, k: Key) -> Option<Member> {
    match k {
        Key::Content => Some(
            Member::Json(
                if uses_copy(t) {
                    copy.content
                } else {
                    e.content
                },
            ),
        ),
        Key::EventId => Some(Member::Str(e.event_id)),
        Key::OriginServerTs => Some(Member::Int(e.origin_server_ts)),
        Key::Redacts => match (if uses_copy(t) {
            copy.redacts
        } else {
            e.redacts
        }) {
            Some(r) => Some(Member::Str(r)),
            None => None,
        },
        Key::RoomId => Some(Member::Str(e.room_id)),
        Key::Sender => Some(Member::Str(e.sender)),
        Key::StateKey => match e.state_key {
            Some(s) => Some(Member::Str(s)),
            None => None,
        },
        Key::Type => Some(Member::Str(e.kind)),
        Key::Unsigned => match e.unsigned {
            Some(u) => Some(Member::Json(u)),
            None => None,
        },
    }
}

/// The members present among `keys`, in order; absent ones are left out.
pub open spec fn present_members(e: Event, t: Target, copy: RedactCopy, keys: Seq<Key>) -> Seq<
    (Key, Member),
>
    decreases keys.len(),
{
    if keys.len() == 0 {
        Seq::empty()
    } else {
        let rest = present_members(e, t, copy, keys.drop_last());
        match member_value(e, t, copy, keys.last()) {
            Some(v) => rest.push((keys.last(), v)),
            None => rest,
        }
    }
}

/// The members of the event formatted for `t`.
pub open spec fn spec_members(e: Event, t: Target, copy: RedactCopy) -> Seq<(Key, Member)> {
    present_members(e, t, copy, target_keys(t))
}

fn keys_of(t: Target) -> (r: Vec<Key>)
    ensures
        r@ == target_keys(t),
{
    let r = match t {
        Target::SyncTimeline | Target::SyncMessageLike => vec![
            Key::Content,
            Key::EventId,
            Key::OriginServerTs,
            Key::Redacts,
            Key::Sender,
            Key::StateKey,
            Key::Type,
            Key::Unsigned,
        ],
        Target::Timeline | Target::MessageLike | Target::RoomMember => vec![
            Key::Content,
            Key::EventId,
            Key::OriginServerTs,
            Key::Redacts,
            Key::RoomId,
            Key::Sender,
            Key::StateKey,
            Key::Type,
            Key::Unsigned,
        ],
        Target::State => vec![
            Key::Content,
            Key::EventId,
            Key::OriginServerTs,
            Key::RoomId,
            Key::Sender,
            Key::StateKey,
            Key::Type,
            Key::Unsigned,
        ],
        Target::SyncState => vec![
            Key::Content,
            Key::EventId,
            Key::OriginServerTs,
            Key::Sender,
            Key::StateKey,
            Key::Type,
            Key::Unsigned,
        ],
        Target::StrippedState => vec![Key::Content, Key::Sender, Key::StateKey, Key::Type],
        Target::HierarchySpaceChild => vec![
            Key::Content,
            Key::OriginServerTs,
            Key::Sender,
            Key::StateKey,
            Key::Type,
        ],
    };
    proof {
        assert(r@ =~= target_keys(t));
    }
    r
}

fn clone_opt(o: &Option<String>) -> (r: Option<String>)
    ensures
        r == *o,
{
    match o {
        Some(s) => Some(s.clone()),
        None => None,
    }
}

fn value_of(e: &Event, t: Target, copy: &RedactCopy, k: Key) -> (r: Option<Member>)
    ensures
        r == member_value(*e, t, *copy, k),
{
    let from_copy = match t {
        Target::SyncTimeline | Target::Timeline | Target::MessageLike | Target::SyncMessageLike => true,
        _ => false,
    };
    match k {
        Key::Content => Some(
            Member::Json(
                if from_copy {
                    copy.content.clone()
                } else {
                    e.content.clone()
                },
            ),
        ),
        Key::EventId => Some(Member::Str(e.event_id.clone())),
        Key::OriginServerTs => Some(Member::Int(e.origin_server_ts)),
        Key::Redacts => {
            let r = if from_copy {
                clone_opt(&copy.redacts)
            } else {
                clone_opt(&e.redacts)
            };
            match r {
                Some(r) => Some(Member::Str(r)),
                None => None,
            }
        },
        Key::RoomId => Some(Member::Str(e.room_id.clone())),
        Key::Sender => Some(Member::Str(e.sender.clone())),
        Key::StateKey => match &e.state_key {
            Some(s) => Some(Member::Str(s.clone())),
            None => None,
        },
        Key::Type => Some(Member::Str(e.kind.clone())),
        Key::Unsigned => match &e.unsigned {
            Some(u) => Some(Member::Json(u.clone())),
            None => None,
        },
    }
}

/// The JSON members of `e` formatted for `t`, in order, leaving out those
/// that the event does not have. The timeline and message formats take the
/// content and the redaction target from `copy`.
pub fn members(e: &Event, t: Target, copy: &RedactCopy) -> (r: Vec<(Key, Member)>)
    ensures
        r@ == spec_members(*e, t, *copy),
{
    let keys = keys_of(t);
    let mut out: Vec<(Key, Member)> = Vec::new();
    let mut i: usize = 0;
    while i < keys.len()
        invariant
            i <= keys@.len(),
            keys@ == target_keys(t),
            out@ == present_members(*e, t, *copy, keys@.take(i as int)),
        decreases keys.len() - i,
    {
        proof {
            assert(keys@.take(i + 1).drop_last() =~= keys@.take(i as int));
            assert(keys@.take(i + 1).last() == keys@[i as int]);
        }
        match value_of(e, t, copy, keys[i]) {
            Some(v) => out.push((keys[i], v)),
            None => {},
        }
        i = i + 1;
    }
    proof {
        assert(keys@.take(keys@.len() as int) =~= keys@);
    }
    out
}

impl Owned {
    /// See [`members`].
    pub fn members(&self, t: Target, copy: &RedactCopy) -> (r: Vec<(Key, Member)>)
        ensures
            r@ == spec_members(self.0, t, *copy),
    {
        members(&self.0, t, copy)
    }
}

impl<'a> Ref<'a> {
    /// See [`members`].
    pub fn members(&self, t: Target, copy: &RedactCopy) -> (r: Vec<(Key, Member)>)
        ensures
            r@ == spec_members(*self.0, t, *copy),
    {
        members(self.0, t, copy)
    }
}

/// Whether `ms` holds the member `k` with value `v`.
pub open spec fn has_member(ms: Seq<(Key, Member)>, k: Key, v: Member) -> bool {
    exists|i: int| 0 <= i < ms.len() && #[trigger] ms[i] == (k, v)
}

/// Whether `ms` holds a member `k`.
pub open spec fn has_key(ms: Seq<(Key, Member)>, k: Key) -> bool {
    exists|i: int| 0 <= i < ms.len() && (#[trigger] ms[i]).0 == k
}

/// A member is present exactly when its key is asked for and the event
/// has a value for it.
proof fn lemma_present_members(e: Event, t: Target, copy: RedactCopy, keys: Seq<Key>)
    ensures
        forall|k: Key, v: Member|
            #[trigger] has_member(present_members(e, t, copy, keys), k, v) <==> (keys.contains(k)
                && member_value(e, t, copy, k) == Some(v)),
        forall|k: Key|
            #[trigger] has_key(present_members(e, t, copy, keys), k) <==> (keys.contains(k)
                && member_value(e, t, copy, k) is Some),
    decreases keys.len(),
{
    if keys.len() > 0 {
        let front = keys.drop_last();
        lemma_present_members(e, t, copy, front);
        let rest = present_members(e, t, copy, front);
        let ms = present_members(e, t, copy, keys);
        let last = keys.last();
        assert forall|k: Key| keys.contains(k) <==> (front.contains(k) || k == last) by {
            if keys.contains(k) {
                let j = choose|j: int| 0 <= j < keys.len() && keys[j] == k;
                if j < keys.len() - 1 {
                    assert(front[j] == k);
                }
            }
            if front.contains(k) {
                let j = choose|j: int| 0 <= j < front.len() && front[j] == k;
                assert(keys[j] == k);
            }
            if k == last {
                assert(keys[keys.len() - 1] == k);
            }
        }
        match member_value(e, t, copy, last) {
            Some(x) => {
                assert(ms == rest.push((last, x)));
                assert forall|k: Key, v: Member| #[trigger] has_member(ms, k, v) <==> (has_member(rest, k, v) || (
                    k, v) == (last, x)) by {
                    if has_member(ms, k, v) {
                        let i = choose|i: int| 0 <= i < ms.len() && ms[i] == (k, v);
                        if i < rest.len() {
                            assert(rest[i] == (k, v));
                        }
                    }
                    if has_member(rest, k, v) {
                        let i = choose|i: int| 0 <= i < rest.len() && rest[i] == (k, v);
                        assert(ms[i] == (k, v));
                    }
                    if (k, v) == (last, x) {
                        assert(ms[rest.len() as int] == (k, v));
                    }
                }
                assert forall|k: Key| #[trigger] has_key(ms, k) <==> (has_key(rest, k) || k == last) by {
                    if has_key(ms, k) {
                        let i = choose|i: int| 0 <= i < ms.len() && ms[i].0 == k;
                        if i < rest.len() {
                            assert(rest[i].0 == k);
                        }
                    }
                    if has_key(rest, k) {
                        let i = choose|i: int| 0 <= i < rest.len() && rest[i].0 == k;
                        assert(ms[i].0 == k);
                    }
                    if k == last {
                        assert(ms[rest.len() as int].0 == k);
                    }
                }
            },
            None => {
                assert(ms == rest);
            },
        }
    } else {
        assert forall|k: Key, v: Member| !#[trigger] has_member(present_members(e, t, copy, keys), k, v) by {}
        assert forall|k: Key| !#[trigger] has_key(present_members(e, t, copy, keys), k) by {}
    }
}

/// What every timeline format of `e` carries: the event ID, the sender,
/// the type and the timestamp; the state key and the unsigned data exactly
/// when the event has them.
pub open spec fn timeline_shape(ms: Seq<(Key, Member)>, e: Event) -> bool {
    &&& has_member(ms, Key::EventId, Member::Str(e.event_id))
    &&& has_member(ms, Key::Sender, Member::Str(e.sender))
    &&& has_member(ms, Key::Type, Member::Str(e.kind))
    &&& has_member(ms, Key::OriginServerTs, Member::Int(e.origin_server_ts))
    &&& (has_key(ms, Key::StateKey) <==> e.state_key is Some)
    &&& (e.state_key matches Some(s) ==> has_member(ms, Key::StateKey, Member::Str(s)))
    &&& (has_key(ms, Key::Unsigned) <==> e.unsigned is Some)
    &&& (e.unsigned matches Some(u) ==> has_member(ms, Key::Unsigned, Member::Json(u)))
}

/// Converting an event for a timeline: the sync and the full timeline
/// formats both carry the event ID, sender, type and timestamp, and the
/// state key and unsigned data exactly when the event has them; only the
/// full format carries the room ID. An owned and a lent event convert
/// alike, as both give [`spec_members`] of the same event.
pub proof fn lemma_timeline_formats(e: Event, copy: RedactCopy)
    ensures
        timeline_shape(spec_members(e, Target::SyncTimeline, copy), e),
        timeline_shape(spec_members(e, Target::Timeline, copy), e),
        !has_key(spec_members(e, Target::SyncTimeline, copy), Key::RoomId),
        has_member(spec_members(e, Target::Timeline, copy), Key::RoomId, Member::Str(e.room_id)),
{
    let ks = target_keys(Target::SyncTimeline);
    let kt = target_keys(Target::Timeline);
    lemma_present_members(e, Target::SyncTimeline, copy, ks);
    lemma_present_members(e, Target::Timeline, copy, kt);
    assert(ks[1] == Key::EventId && ks[2] == Key::OriginServerTs && ks[4] == Key::Sender && ks[5]
        == Key::StateKey && ks[6] == Key::Type && ks[7] == Key::Unsigned);
    assert(kt[1] == Key::EventId && kt[2] == Key::OriginServerTs && kt[4] == Key::RoomId && kt[5]
        == Key::Sender && kt[6] == Key::StateKey && kt[7] == Key::Type && kt[8] == Key::Unsigned);
    assert(!ks.contains(Key::RoomId));
}

} // verus!
