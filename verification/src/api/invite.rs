use vstd::prelude::*;
use crate::matrix::ids::{parse_room_id, parse_user_id, ruma_room_id_valid, ruma_user_id_valid, server_of, spec_server_of};
use crate::matrix::event::{member_content_membership, ruma_member_membership};
use crate::matrix::json::{json_field_present, json_has_field, json_object_at, json_object_field, json_string_at, json_string_field};
use crate::utils::string::str_eq;
use base64::Engine;

verus! {

/// Why an invite over federation is refused.
#[derive(Debug, Clone, Copy, PartialEq, Eq, Structural)]
pub enum InviteError {
    /// A room ACL denies a server.
    AclDenied,
    IncompatibleRoomVersion,
    ServerBanned,
    InvalidEvent,
    InvalidRoomId,
    RoomIdMismatch,
    MissingType,
    NotMemberEvent,
    InvalidStateKey,
    ForeignUser,
    InvalidContent,
    MissingContent,
    NotInvite,
    SigningFailed,
    InvalidSender,
    SenderNotFromOrigin,
    UserNotFromOrigin,
    EventNotFromOrigin,
    RoomBanned,
    InvitesBlocked,
}

impl InviteError {
    /// The message of each error.
    pub open spec fn spec_message(&self) -> Seq<char> {
        match self {
            InviteError::AclDenied => "Server was denied by room ACL."@,
            InviteError::IncompatibleRoomVersion => "Server does not support this room version."@,
            InviteError::ServerBanned => "Server is banned on this homeserver."@,
            InviteError::InvalidEvent => "Invite event is invalid."@,
            InviteError::InvalidRoomId => "Invalid room_id property."@,
            InviteError::RoomIdMismatch => "Event room_id does not match the request path."@,
            InviteError::MissingType => "Missing type in event."@,
            InviteError::NotMemberEvent => "Event must be m.room.member type."@,
            InviteError::InvalidStateKey => "Invalid state_key property."@,
            InviteError::ForeignUser => "User does not belong to this homeserver."@,
            InviteError::InvalidContent => "Invalid content object in event."@,
            InviteError::MissingContent => "Missing content in event."@,
            InviteError::NotInvite => "Event membership must be invite."@,
            InviteError::SigningFailed => "Failed to sign event."@,
            InviteError::InvalidSender => "Invalid sender property."@,
            InviteError::SenderNotFromOrigin => "Can only send invites on behalf of your users."@,
            InviteError::UserNotFromOrigin => "Your users can only be from your origin."@,
            InviteError::EventNotFromOrigin => "Can only send events from your origin."@,
            InviteError::RoomBanned => "This room is banned on this homeserver."@,
            InviteError::InvitesBlocked => "This server does not allow room invites."@,
        }
    }

    /// The message sent with the error.
    pub fn message(&self) -> (r: &'static str)
        ensures
            r@ == self.spec_message(),
    {
        proof {
            reveal_strlit("Can only send events from your origin.");
            reveal_strlit("Can only send invites on behalf of your users.");
            reveal_strlit("Event membership must be invite.");
            reveal_strlit("Event must be m.room.member type.");
            reveal_strlit("Event room_id does not match the request path.");
            reveal_strlit("Failed to sign event.");
            reveal_strlit("Invalid content object in event.");
            reveal_strlit("Invalid room_id property.");
            reveal_strlit("Invalid sender property.");
            reveal_strlit("Invalid state_key property.");
            reveal_strlit("Invite event is invalid.");
            reveal_strlit("Missing content in event.");
            reveal_strlit("Missing type in event.");
            reveal_strlit("Server does not support this room version.");
            reveal_strlit("Server is banned on this homeserver.");
            reveal_strlit("Server was denied by room ACL.");
            reveal_strlit("This room is banned on this homeserver.");
            reveal_strlit("This server does not allow room invites.");
            reveal_strlit("User does not belong to this homeserver.");
            reveal_strlit("Your users can only be from your origin.");
        }
        match self {
            InviteError::AclDenied => "Server was denied by room ACL.",
            InviteError::IncompatibleRoomVersion => "Server does not support this room version.",
            InviteError::ServerBanned => "Server is banned on this homeserver.",
            InviteError::InvalidEvent => "Invite event is invalid.",
            InviteError::InvalidRoomId => "Invalid room_id property.",
            InviteError::RoomIdMismatch => "Event room_id does not match the request path.",
            InviteError::MissingType => "Missing type in event.",
            InviteError::NotMemberEvent => "Event must be m.room.member type.",
            InviteError::InvalidStateKey => "Invalid state_key property.",
            InviteError::ForeignUser => "User does not belong to this homeserver.",
            InviteError::InvalidContent => "Invalid content object in event.",
            InviteError::MissingContent => "Missing content in event.",
            InviteError::NotInvite => "Event membership must be invite.",
            InviteError::SigningFailed => "Failed to sign event.",
            InviteError::InvalidSender => "Invalid sender property.",
            InviteError::SenderNotFromOrigin => "Can only send invites on behalf of your users.",
            InviteError::UserNotFromOrigin => "Your users can only be from your origin.",
            InviteError::EventNotFromOrigin => "Can only send events from your origin.",
            InviteError::RoomBanned => "This room is banned on this homeserver.",
            InviteError::InvitesBlocked => "This server does not allow room invites.",
        }
    }
}

/// The content of an invite event, as far as the checks read it.
pub enum InviteContent {
    Missing,
    /// Present, but not member event content.
    Invalid,
    /// The membership it states.
    Membership(String),
}

/// The fields of an invite event that the checks read.
pub struct InviteFields {
    /// The `room_id`, when it is a valid room ID.
    pub room_id: Option<String>,
    /// The `type`, when it is a string.
    pub kind: Option<String>,
    /// The `state_key`, when it is a valid user ID.
    pub invited_user: Option<String>,
    pub content: InviteContent,
    /// The `sender`, when it is a valid user ID.
    pub sender: Option<String>,
    /// The `origin`, when it is a string.
    pub origin: Option<String>,
}

/// A string field of the event that must be a valid ID.
pub open spec fn id_field(json: Seq<char>, key: Seq<char>, valid: spec_fn(Seq<char>) -> bool) -> Option<Seq<char>> {
    match json_string_at(json, key) {
        Some(s) => if valid(s) {
            Some(s)
        } else {
            None
        },
        None => None,
    }
}

pub open spec fn opt_view(o: Option<String>) -> Option<Seq<char>> {
    match o {
        Some(s) => Some(s@),
        None => None,
    }
}

/// What the content of the event says: missing when the event has no
/// content; invalid when it is no object that reads as member event content.
pub open spec fn spec_content(json: Seq<char>) -> Option<Option<Seq<char>>> {
    if !json_has_field(json, "content"@) {
        None
    } else {
        match json_object_at(json, "content"@) {
            Some(c) => Some(ruma_member_membership(c)),
            None => Some(None),
        }
    }
}

pub open spec fn content_view(c: InviteContent) -> Option<Option<Seq<char>>> {
    match c {
        InviteContent::Missing => None,
        InviteContent::Invalid => Some(None),
        InviteContent::Membership(m) => Some(Some(m@)),
    }
}

fn id_string_field(json: &str, key: &str, room: bool) -> (r: Option<String>)
    ensures
        opt_view(r) == id_field(
            json@,
            key@,
            if room {
                |s: Seq<char>| ruma_room_id_valid(s)
            } else {
                |s: Seq<char>| ruma_user_id_valid(s)
            },
        ),
{
    match json_string_field(json, key) {
        Some(s) => if room {
            parse_room_id(s.as_str())
        } else {
            parse_user_id(s.as_str())
        },
        None => None,
    }
}

/// Reads the fields of an invite event given as JSON.
pub fn invite_fields(event: &str) -> (r: InviteFields)
    ensures
        opt_view(r.room_id) == id_field(event@, "room_id"@, |s: Seq<char>| ruma_room_id_valid(s)),
        opt_view(r.kind) == json_string_at(event@, "type"@),
        opt_view(r.invited_user) == id_field(event@, "state_key"@, |s: Seq<char>| ruma_user_id_valid(s)),
        content_view(r.content) == spec_content(event@),
        opt_view(r.sender) == id_field(event@, "sender"@, |s: Seq<char>| ruma_user_id_valid(s)),
        opt_view(r.origin) == json_string_at(event@, "origin"@),
{
    proof {
        reveal_strlit("content");
    }
    let room_id = id_string_field(event, "room_id", true);
    let kind = json_string_field(event, "type");
    let invited_user = id_string_field(event, "state_key", false);
    let content = if !json_field_present(event, "content") {
        InviteContent::Missing
    } else {
        match json_object_field(event, "content") {
            Some(c) => match member_content_membership(c.as_str()) {
                Some(m) => InviteContent::Membership(m),
                None => InviteContent::Invalid,
            },
            None => InviteContent::Invalid,
        }
    };
    let sender = id_string_field(event, "sender", false);
    let origin = json_string_field(event, "origin");
    proof {
        assert(opt_view(room_id) == id_field(event@, "room_id"@, |s: Seq<char>| ruma_room_id_valid(s)));
    }
    InviteFields { room_id, kind, invited_user, content, sender, origin }
}

/// What the checks of an invite learn from outside the event.
pub struct InviteFacts {
    /// The room ACL admits the sending server.
    pub origin_allowed: bool,
    pub room_version_supported: bool,
    /// The server of the room ID is on the forbidden list.
    pub room_server_forbidden: bool,
    /// The event is a canonical JSON object.
    pub canonical: bool,
    /// The room ID of the request path.
    pub path_room_id: String,
    /// The server that sent the request.
    pub origin: String,
    /// This server's name.
    pub server_name: String,
    /// The room ACL admits the invited user's server.
    pub invitee_server_allowed: bool,
    /// The event could be hashed and signed.
    pub signed: bool,
    pub room_banned: bool,
    pub block_non_admin_invites: bool,
    pub invitee_is_admin: bool,
}

/// The checks of an invite in order; the first that fails decides.
pub open spec fn spec_check_invite(facts: InviteFacts, fields: InviteFields) -> Result<(), InviteError> {
    if !facts.origin_allowed {
        Err(InviteError::AclDenied)
    } else if !facts.room_version_supported {
        Err(InviteError::IncompatibleRoomVersion)
    } else if facts.room_server_forbidden {
        Err(InviteError::ServerBanned)
    } else if !facts.canonical {
        Err(InviteError::InvalidEvent)
    } else if fields.room_id is None {
        Err(InviteError::InvalidRoomId)
    } else if fields.room_id->0@ != facts.path_room_id@ {
        Err(InviteError::RoomIdMismatch)
    } else if fields.kind is None {
        Err(InviteError::MissingType)
    } else if fields.kind->0@ != "m.room.member"@ {
        Err(InviteError::NotMemberEvent)
    } else if fields.invited_user is None {
        Err(InviteError::InvalidStateKey)
    } else if spec_server_of(fields.invited_user->0@) != Some(facts.server_name@) {
        Err(InviteError::ForeignUser)
    } else if fields.content is Invalid {
        Err(InviteError::InvalidContent)
    } else if fields.content is Missing {
        Err(InviteError::MissingContent)
    } else if fields.content->Membership_0@ != "invite"@ {
        Err(InviteError::NotInvite)
    } else if !facts.invitee_server_allowed {
        Err(InviteError::AclDenied)
    } else if !facts.signed {
        Err(InviteError::SigningFailed)
    } else if fields.sender is None {
        Err(InviteError::InvalidSender)
    } else if spec_server_of(fields.sender->0@) != Some(facts.origin@) {
        Err(InviteError::SenderNotFromOrigin)
    } else if fields.origin is Some && Some(fields.origin->0@) != spec_server_of(fields.sender->0@) {
        Err(InviteError::UserNotFromOrigin)
    } else if fields.origin is Some && fields.origin->0@ != facts.origin@ {
        Err(InviteError::EventNotFromOrigin)
    } else if facts.room_banned && !facts.invitee_is_admin {
        Err(InviteError::RoomBanned)
    } else if facts.block_non_admin_invites && !facts.invitee_is_admin {
        Err(InviteError::InvitesBlocked)
    } else {
        Ok(())
    }
}

fn server_is(id: &str, server: &str) -> (r: bool)
    ensures
        r == (spec_server_of(id@) == Some(server@)),
{
    match server_of(id) {
        Some(s) => str_eq(s.as_str(), server),
        None => false,
    }
}

/// Checks an invite sent over federation.
pub fn check_invite(facts: &InviteFacts, fields: &InviteFields) -> (r: Result<(), InviteError>)
    ensures
        r == spec_check_invite(*facts, *fields),
        r is Ok ==> invite_acceptable(*facts, *fields),
{
    proof {
        reveal_strlit("m.room.member");
        reveal_strlit("invite");
    }
    if !facts.origin_allowed {
        return Err(InviteError::AclDenied);
    }
    if !facts.room_version_supported {
        return Err(InviteError::IncompatibleRoomVersion);
    }
    if facts.room_server_forbidden {
        return Err(InviteError::ServerBanned);
    }
    if !facts.canonical {
        return Err(InviteError::InvalidEvent);
    }
    let room_id = match &fields.room_id {
        Some(r) => r,
        None => return Err(InviteError::InvalidRoomId),
    };
    if !str_eq(room_id.as_str(), facts.path_room_id.as_str()) {
        return Err(InviteError::RoomIdMismatch);
    }
    let kind = match &fields.kind {
        Some(k) => k,
        None => return Err(InviteError::MissingType),
    };
    if !str_eq(kind.as_str(), "m.room.member") {
        return Err(InviteError::NotMemberEvent);
    }
    let invited = match &fields.invited_user {
        Some(u) => u,
        None => return Err(InviteError::InvalidStateKey),
    };
    if !server_is(invited.as_str(), facts.server_name.as_str()) {
        return Err(InviteError::ForeignUser);
    }
    match &fields.content {
        InviteContent::Invalid => return Err(InviteError::InvalidContent),
        InviteContent::Missing => return Err(InviteError::MissingContent),
        InviteContent::Membership(m) => {
            if !str_eq(m.as_str(), "invite") {
                return Err(InviteError::NotInvite);
            }
        },
    }
    if !facts.invitee_server_allowed {
        return Err(InviteError::AclDenied);
    }
    if !facts.signed {
        return Err(InviteError::SigningFailed);
    }
    let sender = match &fields.sender {
        Some(s) => s,
        None => return Err(InviteError::InvalidSender),
    };
    if !server_is(sender.as_str(), facts.origin.as_str()) {
        return Err(InviteError::SenderNotFromOrigin);
    }
    match &fields.origin {
        Some(o) => {
            if !server_is(sender.as_str(), o.as_str()) {
                return Err(InviteError::UserNotFromOrigin);
            }
            if !str_eq(o.as_str(), facts.origin.as_str()) {
                return Err(InviteError::EventNotFromOrigin);
            }
        },
        None => {},
    }
    if facts.room_banned && !facts.invitee_is_admin {
        return Err(InviteError::RoomBanned);
    }
    if facts.block_non_admin_invites && !facts.invitee_is_admin {
        return Err(InviteError::InvitesBlocked);
    }
    Ok(())
}

/// The character of a six-bit value in the URL-safe base64 alphabet:
/// `A`-`Z`, `a`-`z`, `0`-`9`, `-` and `_`.
pub open spec fn url_safe_char(v: int) -> char {
    if v < 26 {
        (65 + v) as char
    } else if v < 52 {
        (97 + v - 26) as char
    } else if v < 62 {
        (48 + v - 52) as char
    } else if v == 62 {
        '-'
    } else {
        '_'
    }
}

/// What an accepted invite has passed: every ACL and ban check, a
/// canonical `m.room.member` event for the request's room, inviting a user
/// of this server, with an `invite` membership, sent by a user of the
/// sending server (and from it, when the event names an origin), and a
/// signature.
pub open spec fn invite_acceptable(facts: InviteFacts, fields: InviteFields) -> bool {
    &&& facts.origin_allowed && facts.invitee_server_allowed
    &&& facts.room_version_supported && !facts.room_server_forbidden && facts.canonical && facts.signed
    &&& fields.room_id matches Some(r) && r@ == facts.path_room_id@
    &&& fields.kind matches Some(k) && k@ == "m.room.member"@
    &&& fields.invited_user matches Some(u) && spec_server_of(u@) == Some(facts.server_name@)
    &&& fields.content matches InviteContent::Membership(m) && m@ == "invite"@
    &&& fields.sender matches Some(s) && spec_server_of(s@) == Some(facts.origin@)
    &&& (fields.origin matches Some(o) ==> o@ == facts.origin@)
    &&& (facts.room_banned || facts.block_non_admin_invites ==> facts.invitee_is_admin)
}

/// An invite is accepted only when it passes every check of
/// [`invite_acceptable`]; and a refusal by the ACL, the room version or a
/// ban on the room's server comes first, whatever the event says.
pub proof fn lemma_invite_checks(facts: InviteFacts, fields: InviteFields)
    ensures
        spec_check_invite(facts, fields) is Ok ==> invite_acceptable(facts, fields),
        !facts.origin_allowed ==> spec_check_invite(facts, fields) == Err::<(), InviteError>(InviteError::AclDenied),
        invite_acceptable(facts, fields) ==> spec_check_invite(facts, fields) is Ok,
{
}

/// The base64 form, URL-safe and unpadded, of `bytes`: each group of three
/// bytes gives four characters of six bits each, most significant first;
/// a last group of one or two bytes gives two or three characters, its
/// missing bits taken as zero.
pub open spec fn base64_url_nopad(bytes: Seq<u8>) -> Seq<char>
    decreases bytes.len(),
{
    if bytes.len() == 0 {
        Seq::empty()
    } else {
        let b0 = bytes[0] as int;
        if bytes.len() == 1 {
            seq![url_safe_char(b0 / 4), url_safe_char((b0 % 4) * 16)]
        } else {
            let b1 = bytes[1] as int;
            if bytes.len() == 2 {
                seq![url_safe_char(b0 / 4), url_safe_char((b0 % 4) * 16 + b1 / 16), url_safe_char((b1 % 16) * 4)]
            } else {
                let b2 = bytes[2] as int;
                seq![
                    url_safe_char(b0 / 4),
                    url_safe_char((b0 % 4) * 16 + b1 / 16),
                    url_safe_char((b1 % 16) * 4 + b2 / 64),
                    url_safe_char(b2 % 64),
                ] + base64_url_nopad(bytes.skip(3))
            }
        }
    }
}

proof fn lemma_base64_len(bytes: Seq<u8>)
    ensures
        base64_url_nopad(bytes).len() == (4 * bytes.len() + 2) / 3,
    decreases bytes.len(),
{
    if bytes.len() >= 3 {
        lemma_base64_len(bytes.skip(3));
    }
}

/// `base64::engine::general_purpose::URL_SAFE_NO_PAD.encode`: the
/// URL-safe alphabet, without padding, as [`base64_url_nopad`] states.
#[verifier::external_body]
fn encode_url_safe(bytes: &[u8]) -> (r: String)
    requires
        bytes@.len() <= usize::MAX / 4,
    ensures
        r@ == base64_url_nopad(bytes@),
{
    base64::engine::general_purpose::URL_SAFE_NO_PAD.encode(bytes)
}

/// The transaction ID under which an invite is pushed to an appservice:
/// the hash of its event ID, in URL-safe unpadded base64.
pub fn appservice_txn_id(event_id_hash: &[u8]) -> (r: String)
    requires
        event_id_hash@.len() <= usize::MAX / 4,
    ensures
        r@ == base64_url_nopad(event_id_hash@),
        r@.len() == (4 * event_id_hash@.len() + 2) / 3,
{
    proof {
        lemma_base64_len(event_id_hash@);
    }
    encode_url_safe(event_id_hash)
}

/// When this server is not in the room, the invite is recorded, pushed and
/// handed to appservices here; otherwise the room delivers it.
pub fn delivers_locally(server_in_room: bool) -> (r: bool)
    ensures
        r == !server_in_room,
{
    !server_in_room
}

} // verus!
