use vstd::prelude::*;
use crate::utils::string::{push_text, spec_contains, str_contains, str_eq, to_lowercase, unicode_lowercase};
use crate::matrix::ids::{is_strict_user_id, parse_server_name, ruma_server_name_valid, spec_strict_user_id, spec_user_id_with_server, user_id_with_server};

verus! {

/// Why a registration is refused.
#[derive(Debug, Clone, Copy, PartialEq, Eq, Structural)]
pub enum RegisterError {
    /// Registration, or this username, is not allowed.
    Forbidden,
    /// Guests may not register.
    GuestAccessForbidden,
    /// The username is no valid user ID.
    InvalidUsername,
    /// The user ID is taken.
    UserInUse,
    /// The user ID belongs to an appservice namespace, or lies outside the
    /// registering appservice's.
    Exclusive,
    /// An appservice registration without an appservice token.
    MissingToken,
    /// The body is no JSON.
    NotJson,
    /// A registration that is no guest's names no username.
    MissingUsername,
}

/// The bridge whose usernames are taken as they are.
pub open spec fn spec_is_irc_bridge(appservice_id: Option<Seq<char>>) -> bool {
    match appservice_id {
        Some(id) => id == "irc"@ || spec_contains(id, "matrix-appservice-irc"@) || spec_contains(
            id,
            "matrix_appservice_irc"@,
        ),
        None => false,
    }
}

/// Whether the registering appservice is the IRC bridge, whose usernames
/// are neither lowercased nor held to the strict grammar.
pub fn is_matrix_appservice_irc(appservice_id: Option<&str>) -> (r: bool)
    ensures
        r == spec_is_irc_bridge(
            match appservice_id {
                Some(id) => Some(id@),
                None => None,
            },
        ),
{
    match appservice_id {
        Some(id) => str_eq(id, "irc") || str_contains(id, "matrix-appservice-irc") || str_contains(
            id,
            "matrix_appservice_irc",
        ),
        None => false,
    }
}

/// Registration is open to the request: registration is allowed or an
/// appservice registers; and a guest only when guests may register.
pub fn registration_gate(allow_registration: bool, from_appservice: bool, is_guest: bool, allow_guests: bool) -> (r:
    Result<(), RegisterError>)
    ensures
        !allow_registration && !from_appservice ==> r == Err::<(), RegisterError>(RegisterError::Forbidden),
        (allow_registration || from_appservice) && is_guest && !allow_guests ==> r == Err::<(), RegisterError>(
            RegisterError::GuestAccessForbidden,
        ),
        (allow_registration || from_appservice) && !(is_guest && !allow_guests) ==> r is Ok,
{
    if !allow_registration && !from_appservice {
        return Err(RegisterError::Forbidden);
    }
    if is_guest && !allow_guests {
        return Err(RegisterError::GuestAccessForbidden);
    }
    Ok(())
}

/// The username to register: lowercased, unless it comes from the IRC
/// bridge.
pub fn normalized_username(username: &str, is_irc: bool) -> (r: String)
    ensures
        r@ == if is_irc {
            username@
        } else {
            unicode_lowercase(username@)
        },
{
    if is_irc {
        username.to_string()
    } else {
        to_lowercase(username)
    }
}

/// Checks a username: refused when the configuration forbids it (outside
/// emergency mode); an unparsable user ID is invalid, and one that breaks
/// the strict grammar too, unless it comes from the IRC bridge or in
/// emergency mode; a taken one is in use.
pub fn check_username(
    forbidden: bool,
    emergency: bool,
    parses: bool,
    strictly_valid: bool,
    is_irc: bool,
    exists: bool,
) -> (r: Result<(), RegisterError>)
    ensures
        forbidden && !emergency ==> r == Err::<(), RegisterError>(RegisterError::Forbidden),
        !(forbidden && !emergency) && !parses ==> r == Err::<(), RegisterError>(RegisterError::InvalidUsername),
        !(forbidden && !emergency) && parses && !strictly_valid && !is_irc && !emergency ==> r == Err::<
            (),
            RegisterError,
        >(RegisterError::InvalidUsername),
        !(forbidden && !emergency) && parses && (strictly_valid || is_irc || emergency) && exists ==> r == Err::<
            (),
            RegisterError,
        >(RegisterError::UserInUse),
        !(forbidden && !emergency) && parses && (strictly_valid || is_irc || emergency) && !exists ==> r is Ok,
{
    if forbidden && !emergency {
        return Err(RegisterError::Forbidden);
    }
    if !parses {
        return Err(RegisterError::InvalidUsername);
    }
    if !strictly_valid && !is_irc && !emergency {
        return Err(RegisterError::InvalidUsername);
    }
    if exists {
        return Err(RegisterError::UserInUse);
    }
    Ok(())
}

/// Checks the user ID against the appservices: a registration of the
/// appservice login type needs an appservice whose namespace holds the user
/// (emergency mode aside); any other must not take an ID an appservice
/// reserves (emergency mode aside).
pub fn check_appservice(
    appservice_login: bool,
    appservice: Option<bool>,
    reserved: bool,
    emergency: bool,
) -> (r: Result<(), RegisterError>)
    ensures
        appservice_login && appservice is None ==> r == Err::<(), RegisterError>(RegisterError::MissingToken),
        appservice_login && appservice == Some(false) && !emergency ==> r == Err::<(), RegisterError>(
            RegisterError::Exclusive,
        ),
        appservice_login && (appservice == Some(true) || (appservice is Some && emergency)) ==> r is Ok,
        !appservice_login && reserved && !emergency ==> r == Err::<(), RegisterError>(RegisterError::Exclusive),
        !appservice_login && !(reserved && !emergency) ==> r is Ok,
{
    if appservice_login {
        match appservice {
            Some(matches) => {
                if !matches && !emergency {
                    return Err(RegisterError::Exclusive);
                }
                Ok(())
            },
            None => Err(RegisterError::MissingToken),
        }
    } else if reserved && !emergency {
        Err(RegisterError::Exclusive)
    } else {
        Ok(())
    }
}

/// The stage a registration must pass.
#[derive(Debug, Clone, Copy, PartialEq, Eq, Structural)]
pub enum AuthStage {
    RegistrationToken,
    Dummy,
}

/// The interactive authentication of a registration: a registration token
/// when tokens are enabled (and the user is no guest), else the dummy
/// stage; appservices skip it, and guests skip the dummy stage.
pub fn registration_auth(tokens_enabled: bool, is_guest: bool, from_appservice: bool) -> (r: (AuthStage, bool))
    ensures
        tokens_enabled && !is_guest ==> r == (AuthStage::RegistrationToken, from_appservice),
        !(tokens_enabled && !is_guest) ==> r == (AuthStage::Dummy, from_appservice || is_guest),
{
    if tokens_enabled && !is_guest {
        (AuthStage::RegistrationToken, from_appservice)
    } else {
        (AuthStage::Dummy, from_appservice || is_guest)
    }
}

/// What interactive authentication does with a request.
#[derive(Debug, Clone, Copy, PartialEq, Eq, Structural)]
pub enum AuthStep {
    /// Check the auth data sent.
    TryAuth,
    /// Start a session and answer with the flows.
    StartSession,
    /// Refuse: the body is no JSON.
    NotJson,
}

/// Auth data is checked; without it, a JSON body starts a session and any
/// other body is refused.
pub fn auth_step(has_auth: bool, has_json_body: bool) -> (r: AuthStep)
    ensures
        has_auth ==> r == AuthStep::TryAuth,
        !has_auth && has_json_body ==> r == AuthStep::StartSession,
        !has_auth && !has_json_body ==> r == AuthStep::NotJson,
{
    if has_auth {
        AuthStep::TryAuth
    } else if has_json_body {
        AuthStep::StartSession
    } else {
        AuthStep::NotJson
    }
}

/// No device is made when a registered user asks not to be logged in, or
/// when the appservice manages devices itself.
pub fn skips_login(is_guest: bool, inhibit_login: bool, appservice_manages_devices: bool) -> (r: bool)
    ensures
        r == ((!is_guest && inhibit_login) || appservice_manages_devices),
{
    (!is_guest && inhibit_login) || appservice_manages_devices
}

/// What a registration answers: the user, and the session it logged in
/// with, if any.
pub struct RegisterResponse {
    pub user_id: String,
    pub device_id: Option<String>,
    pub access_token: Option<String>,
    /// Given exactly when the access token expires.
    pub refresh_token: Option<String>,
    /// When the access token expires, in milliseconds.
    pub expires_in: Option<u64>,
}

/// What follows the creation of an account: an answer without a session
/// when no login is made, or a login on a new device (with the device ID
/// asked for, which guests do not choose).
pub enum RegisterStep {
    Respond(RegisterResponse),
    LogIn { device_id: Option<String> },
}

/// Decides what follows the creation of an account, as [`skips_login`]
/// and [`unless_guest`] say.
pub fn after_registration(
    user_id: String,
    is_guest: bool,
    inhibit_login: bool,
    appservice_manages_devices: bool,
    device_id: Option<String>,
) -> (r: RegisterStep)
    ensures
        ((!is_guest && inhibit_login) || appservice_manages_devices) ==> (r matches RegisterStep::Respond(resp)
            && resp.user_id@ == user_id@ && resp.device_id is None && resp.access_token is None
            && resp.refresh_token is None && resp.expires_in is None),
        !((!is_guest && inhibit_login) || appservice_manages_devices) ==> (r matches RegisterStep::LogIn {
            device_id: d,
        } && d == if is_guest {
            None
        } else {
            device_id
        }),
{
    if skips_login(is_guest, inhibit_login, appservice_manages_devices) {
        RegisterStep::Respond(
            RegisterResponse {
                user_id,
                device_id: None,
                access_token: None,
                refresh_token: None,
                expires_in: None,
            },
        )
    } else {
        RegisterStep::LogIn { device_id: unless_guest(is_guest, device_id) }
    }
}

/// The answer once the new device is made: its ID and access token, and a
/// refresh token (the one generated) exactly when the access token expires.
pub fn logged_in_response(
    user_id: String,
    device_id: String,
    access_token: String,
    expires_in: Option<u64>,
    generated_refresh_token: String,
) -> (r: RegisterResponse)
    ensures
        r.user_id@ == user_id@,
        r.device_id matches Some(d) && d@ == device_id@,
        r.access_token matches Some(t) && t@ == access_token@,
        r.expires_in == expires_in,
        r.refresh_token is Some <==> expires_in is Some,
        r.refresh_token matches Some(t) ==> t@ == generated_refresh_token@,
{
    let refresh_token = if expires_in.is_some() {
        Some(generated_refresh_token)
    } else {
        None
    };
    RegisterResponse {
        user_id,
        device_id: Some(device_id),
        access_token: Some(access_token),
        refresh_token,
        expires_in,
    }
}

/// Guests get no password and no chosen device ID.
pub fn unless_guest(is_guest: bool, value: Option<String>) -> (r: Option<String>)
    ensures
        r == if is_guest {
            None
        } else {
            value
        },
{
    if is_guest {
        None
    } else {
        value
    }
}

/// Whether a registration is announced: not for appservices, and for
/// guests only when configured.
pub fn announces(from_appservice: bool, is_guest: bool, log_guests: bool) -> (r: bool)
    ensures
        r == (!from_appservice && (!is_guest || log_guests)),
{
    !from_appservice && (!is_guest || log_guests)
}

/// The text that announces a registration.
pub open spec fn spec_notice(is_guest: bool, client: Seq<char>, device_name: Option<Seq<char>>) -> Seq<char> {
    let head = if is_guest {
        "New guest user"@
    } else {
        "New user"@
    };
    let base = head + " registered on this server from IP "@ + client;
    match device_name {
        Some(d) => base + " with device name "@ + d,
        None => base,
    }
}

/// Writes the announcement of a registration.
pub fn registration_notice(is_guest: bool, client: &str, device_name: Option<&str>) -> (r: String)
    ensures
        r@ == spec_notice(
            is_guest,
            client@,
            match device_name {
                Some(d) => Some(d@),
                None => None,
            },
        ),
{
    proof {
        reveal_strlit("New guest user");
        reveal_strlit("New user");
        reveal_strlit(" registered on this server from IP ");
        reveal_strlit(" with device name ");
    }
    let mut notice = String::new();
    if is_guest {
        push_text(&mut notice, "New guest user");
    } else {
        push_text(&mut notice, "New user");
    }
    push_text(&mut notice, " registered on this server from IP ");
    push_text(&mut notice, client);
    match device_name {
        Some(d) => {
            push_text(&mut notice, " with device name ");
            push_text(&mut notice, d);
        },
        None => {},
    }
    proof {
        assert(notice@ =~= spec_notice(
            is_guest,
            client@,
            match device_name {
                Some(d) => Some(d@),
                None => None,
            },
        ));
    }
    notice
}

/// Checking a registration token needs token registration to be enabled.
pub fn token_validity(tokens_enabled: bool, token_valid: bool) -> (r: Result<bool, RegisterError>)
    ensures
        !tokens_enabled ==> r == Err::<bool, RegisterError>(RegisterError::Forbidden),
        tokens_enabled ==> r == Ok::<bool, RegisterError>(token_valid),
{
    if !tokens_enabled {
        Err(RegisterError::Forbidden)
    } else {
        Ok(token_valid)
    }
}

/// Checks an ID for availability: the same checks as registration, then the
/// appservice namespaces.
pub fn availability(
    forbidden: bool,
    parses: bool,
    strictly_valid: bool,
    is_irc: bool,
    exists: bool,
    in_appservice_namespace: Option<bool>,
    reserved: bool,
) -> (r: Result<bool, RegisterError>)
    ensures
        forbidden ==> r == Err::<bool, RegisterError>(RegisterError::Forbidden),
        !forbidden && !parses ==> r == Err::<bool, RegisterError>(RegisterError::InvalidUsername),
        !forbidden && parses && !strictly_valid && !is_irc ==> r == Err::<bool, RegisterError>(
            RegisterError::InvalidUsername,
        ),
        !forbidden && parses && (strictly_valid || is_irc) && exists ==> r == Err::<bool, RegisterError>(
            RegisterError::UserInUse,
        ),
        !forbidden && parses && (strictly_valid || is_irc) && !exists && in_appservice_namespace == Some(false)
            ==> r == Err::<bool, RegisterError>(RegisterError::Exclusive),
        !forbidden && parses && (strictly_valid || is_irc) && !exists && in_appservice_namespace != Some(false)
            && reserved ==> r == Err::<bool, RegisterError>(RegisterError::Exclusive),
        !forbidden && parses && (strictly_valid || is_irc) && !exists && in_appservice_namespace != Some(false)
            && !reserved ==> r == Ok::<bool, RegisterError>(true),
{
    match check_username(forbidden, false, parses, strictly_valid, is_irc, exists) {
        Err(e) => return Err(e),
        Ok(()) => {},
    }
    if in_appservice_namespace == Some(false) {
        return Err(RegisterError::Exclusive);
    }
    if reserved {
        return Err(RegisterError::Exclusive);
    }
    Ok(true)
}

/// The user ID a username stands for.
pub enum ProposedUserId {
    /// The server's own name is no server name.
    BadServerName,
    /// The username makes no user ID.
    Invalid,
    /// The user ID, and whether it meets the strict grammar.
    Parsed { user_id: String, strict: bool },
}

/// Makes the user ID of a username on `server`: a full user ID is taken as
/// it is, a localpart is completed with the server name; then it is checked
/// against the strict grammar.
pub fn propose_user_id(username: &str, server: &str) -> (r: ProposedUserId)
    ensures
        !ruma_server_name_valid(server@) ==> r is BadServerName,
        ruma_server_name_valid(server@) ==> match spec_user_id_with_server(username@, server@) {
            Some(u) => (r matches ProposedUserId::Parsed { user_id, strict } && user_id@ == u && strict
                == spec_strict_user_id(u)),
            None => r is Invalid,
        },
{
    if !parse_server_name(server) {
        return ProposedUserId::BadServerName;
    }
    match user_id_with_server(username, server) {
        Some(u) => {
            let strict = is_strict_user_id(u.as_str());
            ProposedUserId::Parsed { user_id: u, strict }
        },
        None => ProposedUserId::Invalid,
    }
}

/// The user ID of a guest, who chooses none: the random localpart,
/// lowercased, on `server`, checked as [`propose_user_id`] checks a
/// username. The caller draws localparts until one is free.
pub fn random_user_id(random_localpart: &str, server: &str) -> (r: ProposedUserId)
    ensures
        !ruma_server_name_valid(server@) ==> r is BadServerName,
        ruma_server_name_valid(server@) ==> match spec_user_id_with_server(
            unicode_lowercase(random_localpart@),
            server@,
        ) {
            Some(u) => (r matches ProposedUserId::Parsed { user_id, strict } && user_id@ == u && strict
                == spec_strict_user_id(u)),
            None => r is Invalid,
        },
{
    let lower = to_lowercase(random_localpart);
    propose_user_id(lower.as_str(), server)
}

/// What the checks of a registration learn, in the order they ask:
/// whether registration and guests are allowed; for a username that a
/// non-guest gives, whether it is forbidden, parses, meets the strict
/// grammar, comes from the IRC bridge, and is taken; for the user ID (the
/// username's, or a guest's random one), how it stands with the
/// appservices; and the interactive authentication.
pub struct RegistrationFacts {
    pub allow_registration: bool,
    pub from_appservice: bool,
    pub is_guest: bool,
    pub allow_guests: bool,
    pub has_username: bool,
    pub forbidden: bool,
    pub emergency: bool,
    pub parses: bool,
    pub strictly_valid: bool,
    pub is_irc: bool,
    pub exists: bool,
    pub appservice_login: bool,
    /// The registering appservice, and whether its namespace holds the user.
    pub appservice_match: Option<bool>,
    /// An appservice reserves the user ID.
    pub reserved: bool,
    pub tokens_enabled: bool,
    pub has_auth: bool,
    /// The auth data sent passed the stage.
    pub auth_worked: bool,
    pub has_json_body: bool,
}

/// How a registration ends.
#[derive(Debug, Clone, Copy, PartialEq, Eq, Structural)]
pub enum RegistrationOutcome {
    Refused(RegisterError),
    /// The auth data did not pass the stage.
    AuthFailed(AuthStage),
    /// A session starts and the client is told the stage.
    StartSession(AuthStage),
    /// The account is made.
    Register,
}

/// How a registration ends. The checks come in this sequence: whether
/// registration is open to the request; a non-guest's username; the
/// appservice namespaces, when there is a user ID to check; interactive
/// authentication, unless skipped. A non-guest request without a username
/// then always fails.
pub open spec fn spec_registration(f: RegistrationFacts) -> RegistrationOutcome {
    let has_id = f.is_guest || f.has_username;
    let (stage, skip) = if f.tokens_enabled && !f.is_guest {
        (AuthStage::RegistrationToken, f.from_appservice)
    } else {
        (AuthStage::Dummy, f.from_appservice || f.is_guest)
    };
    if !f.allow_registration && !f.from_appservice {
        RegistrationOutcome::Refused(RegisterError::Forbidden)
    } else if f.is_guest && !f.allow_guests {
        RegistrationOutcome::Refused(RegisterError::GuestAccessForbidden)
    } else if !f.is_guest && f.has_username && f.forbidden && !f.emergency {
        RegistrationOutcome::Refused(RegisterError::Forbidden)
    } else if !f.is_guest && f.has_username && (!f.parses || (!f.strictly_valid && !f.is_irc && !f.emergency)) {
        RegistrationOutcome::Refused(RegisterError::InvalidUsername)
    } else if !f.is_guest && f.has_username && f.exists {
        RegistrationOutcome::Refused(RegisterError::UserInUse)
    } else if has_id && f.appservice_login && f.appservice_match is None {
        RegistrationOutcome::Refused(RegisterError::MissingToken)
    } else if has_id && f.appservice_login && f.appservice_match == Some(false) && !f.emergency {
        RegistrationOutcome::Refused(RegisterError::Exclusive)
    } else if has_id && !f.appservice_login && f.reserved && !f.emergency {
        RegistrationOutcome::Refused(RegisterError::Exclusive)
    } else if !skip && f.has_auth && !f.auth_worked {
        RegistrationOutcome::AuthFailed(stage)
    } else if !skip && !f.has_auth && f.has_json_body {
        RegistrationOutcome::StartSession(stage)
    } else if !skip && !f.has_auth {
        RegistrationOutcome::Refused(RegisterError::NotJson)
    } else if !has_id {
        RegistrationOutcome::Refused(RegisterError::MissingUsername)
    } else {
        RegistrationOutcome::Register
    }
}

/// Runs the checks of a registration in order, as [`spec_registration`]
/// states.
pub fn registration_outcome(f: &RegistrationFacts) -> (r: RegistrationOutcome)
    ensures
        r == spec_registration(*f),
        bad_username(*f) ==> r != RegistrationOutcome::Register,
        bad_username(*f) && (f.allow_registration || f.from_appservice) && !(f.forbidden && !f.emergency) ==> r
            == RegistrationOutcome::Refused(RegisterError::InvalidUsername),
{
    if let Err(e) = registration_gate(f.allow_registration, f.from_appservice, f.is_guest, f.allow_guests) {
        return RegistrationOutcome::Refused(e);
    }
    let has_id = f.is_guest || f.has_username;
    if !f.is_guest && f.has_username {
        if let Err(e) = check_username(f.forbidden, f.emergency, f.parses, f.strictly_valid, f.is_irc, f.exists) {
            return RegistrationOutcome::Refused(e);
        }
    }
    if has_id {
        match check_appservice(f.appservice_login, f.appservice_match, f.reserved, f.emergency) {
            Err(e) => {
                proof {
                    if f.appservice_login {
                        if f.appservice_match is None {
                            assert(e == RegisterError::MissingToken);
                        } else if f.appservice_match == Some(false) && !f.emergency {
                            assert(e == RegisterError::Exclusive);
                        } else {
                            assert(f.appservice_match == Some(true) || (f.appservice_match is Some && f.emergency));
                        }
                    }
                }
                return RegistrationOutcome::Refused(e);
            },
            Ok(()) => {},
        }
    }
    let (stage, skip) = registration_auth(f.tokens_enabled, f.is_guest, f.from_appservice);
    if !skip {
        match auth_step(f.has_auth, f.has_json_body) {
            AuthStep::TryAuth => {
                if !f.auth_worked {
                    return RegistrationOutcome::AuthFailed(stage);
                }
            },
            AuthStep::StartSession => {
                return RegistrationOutcome::StartSession(stage);
            },
            AuthStep::NotJson => {
                return RegistrationOutcome::Refused(RegisterError::NotJson);
            },
        }
    }
    if !has_id {
        return RegistrationOutcome::Refused(RegisterError::MissingUsername);
    }
    RegistrationOutcome::Register
}

/// A non-guest names a username that is no user ID, or one that breaks
/// the strict grammar while the registrant is neither the IRC bridge nor in
/// emergency mode.
pub open spec fn bad_username(f: RegistrationFacts) -> bool {
    !f.is_guest && f.has_username && (!f.parses || (!f.strictly_valid && !f.is_irc && !f.emergency))
}

/// A bad username never registers: once registration is open to the
/// request and the username is not forbidden, the request is refused as an
/// invalid username, whatever the appservices and the authentication say.
pub proof fn lemma_bad_username_refused(f: RegistrationFacts)
    ensures
        bad_username(f) ==> spec_registration(f) != RegistrationOutcome::Register,
        bad_username(f) && (f.allow_registration || f.from_appservice) && !(f.forbidden && !f.emergency)
            ==> spec_registration(f) == RegistrationOutcome::Refused(RegisterError::InvalidUsername),
{
}

/// Every registration that goes through was open to the request, and a
/// non-guest's username parsed and was not taken.
pub proof fn lemma_registered_checks(f: RegistrationFacts)
    ensures
        spec_registration(f) == RegistrationOutcome::Register ==> {
            &&& f.allow_registration || f.from_appservice
            &&& !f.is_guest ==> f.has_username && f.parses && !f.exists && !(f.forbidden && !f.emergency)
            &&& f.is_guest ==> f.allow_guests
        },
{
}

} // verus!
