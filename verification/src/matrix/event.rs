use vstd::prelude::*;

verus! {

/// A room event (PDU), with the fields that the library reads.
#[derive(Debug, Clone)]
pub struct Event {
    pub event_id: String,
    pub room_id: String,
    pub sender: String,
    /// The event type, such as `m.room.message`.
    pub kind: String,
    pub state_key: Option<String>,
    pub origin_server_ts: u64,
    pub redacts: Option<String>,
    /// The content, as JSON text.
    pub content: String,
    /// The unsigned data, as JSON text.
    pub unsigned: Option<String>,
    pub redacted: bool,
}

/// The membership, by its string form, that ruma's `RoomMemberEventContent`
/// reads from the JSON object `content`; `None` when ruma refuses the object.
pub uninterp spec fn ruma_member_membership(content: Seq<char>) -> Option<Seq<char>>;

/// `serde_json::from_str` into ruma's `RoomMemberEventContent`, then the
/// string form (`MembershipState::as_str`) of its membership.
#[verifier::external_body]
pub(crate) fn member_content_membership(content: &str) -> (r: Option<String>)
    ensures
        match ruma_member_membership(content@) {
            Some(m) => r matches Some(v) && v@ == m,
            None => r is None,
        },
{
    serde_json::from_str::<ruma::events::room::member::RoomMemberEventContent>(content)
        .ok()
        .map(|c| c.membership.as_str().to_owned())
}


/// A user's membership in a room.
#[derive(Debug, Clone, Copy, PartialEq, Eq, Structural)]
pub enum MembershipState {
    Ban,
    Invite,
    Join,
    Knock,
    Leave,
}

/// The type of membership events.
pub open spec fn member_type() -> Seq<char> {
    "m.room.member"@
}

/// Whether `e` is the membership event of `user`.
pub open spec fn is_membership_of(e: Event, user: Seq<char>) -> bool {
    e.kind@ == member_type() && (e.state_key matches Some(k) && k@ == user)
}

impl Event {
    /// Whether this is the membership event of `user`.
    pub fn is_membership_of(&self, user: &str) -> (r: bool)
        ensures
            r == is_membership_of(*self, user@),
    {
        proof {
            reveal_strlit("m.room.member");
        }
        crate::utils::string::str_eq(self.kind.as_str(), "m.room.member") && match &self.state_key {
            Some(k) => crate::utils::string::str_eq(k.as_str(), user),
            None => false,
        }
    }

    /// Whether this is a membership event.
    pub fn is_membership(&self) -> (r: bool)
        ensures
            r == (self.kind@ == member_type()),
    {
        proof {
            reveal_strlit("m.room.member");
        }
        crate::utils::string::str_eq(self.kind.as_str(), "m.room.member")
    }
}

} // verus!
