use vstd::prelude::*;
use crate::utils::string::str_eq;

verus! {

/// An identity provider as configured.
pub struct ProviderConfig {
    pub id: String,
    pub brand: String,
    pub icon: Option<String>,
    pub name: Option<String>,
}

/// An identity provider as offered to clients: without a name of its own,
/// it is named by its brand.
pub struct ProviderInfo {
    pub id: String,
    pub brand: String,
    pub icon: Option<String>,
    pub name: String,
}

/// A way to log in.
pub enum LoginFlow {
    ApplicationService,
    Jwt,
    Password,
    Token { get_login_token: bool },
    Sso { providers: Vec<ProviderInfo> },
}

/// Whether the providers are listed: not when they have a page of their
/// own, nor with a single provider.
pub open spec fn lists_providers(custom_page: bool, single_sso: bool) -> bool {
    !custom_page && !single_sso
}

pub open spec fn offered(c: ProviderConfig, p: ProviderInfo) -> bool {
    &&& p.id == c.id
    &&& p.brand == c.brand
    &&& p.icon == c.icon
    &&& p.name == match c.name {
        Some(n) => n,
        None => c.brand,
    }
}

fn offer(c: &ProviderConfig) -> (r: ProviderInfo)
    ensures
        offered(*c, r),
{
    ProviderInfo {
        id: c.id.clone(),
        brand: c.brand.clone(),
        icon: match &c.icon {
            Some(i) => Some(i.clone()),
            None => None,
        },
        name: match &c.name {
            Some(n) => n.clone(),
            None => c.brand.clone(),
        },
    }
}

/// The login flows of the server: appservice, JWT, password, token (which
/// says whether a token can be had from an existing session) and SSO with
/// the listed providers; SSO is left out when providers are listed and
/// there is none.
pub fn login_flows(
    get_login_token: bool,
    custom_page: bool,
    single_sso: bool,
    providers: &Vec<ProviderConfig>,
) -> (r: Vec<LoginFlow>)
    ensures
        r@.len() == if lists_providers(custom_page, single_sso) && providers@.len() == 0 {
            4
        } else {
            5int
        },
        (r@[0] is ApplicationService),
        (r@[1] is Jwt),
        (r@[2] is Password),
        r@[3] == (LoginFlow::Token { get_login_token }),
        r@.len() == 5 ==> (r@[4] matches LoginFlow::Sso { providers: ps } && (if lists_providers(
            custom_page,
            single_sso,
        ) {
            ps@.len() == providers@.len() && forall|i: int| 0 <= i < ps@.len() ==> offered(providers@[i], #[trigger] ps@[i])
        } else {
            ps@.len() == 0
        })),
{
    let list = !custom_page && !single_sso;
    let mut ps: Vec<ProviderInfo> = Vec::new();
    if list {
        let mut i: usize = 0;
        while i < providers.len()
            invariant
                i <= providers@.len(),
                ps@.len() == i,
                forall|k: int| 0 <= k < i ==> offered(providers@[k], #[trigger] ps@[k]),
            decreases providers.len() - i,
        {
            ps.push(offer(&providers[i]));
            i = i + 1;
        }
    }
    let mut flows: Vec<LoginFlow> = Vec::new();
    flows.push(LoginFlow::ApplicationService);
    flows.push(LoginFlow::Jwt);
    flows.push(LoginFlow::Password);
    flows.push(LoginFlow::Token { get_login_token });
    if !(list && ps.len() == 0) {
        flows.push(LoginFlow::Sso { providers: ps });
    }
    flows
}

/// How a user logs in.
#[derive(Debug, Clone, Copy, PartialEq, Eq, Structural)]
pub enum LoginKind {
    Password,
    Token,
    Jwt,
    ApplicationService,
    /// A login type the server does not support.
    Other,
}

/// Why a login is refused.
#[derive(Debug, Clone, Copy, PartialEq, Eq, Structural)]
pub enum LoginError {
    /// Unsupported login type, or token login disabled.
    Unknown,
    /// Tokens cannot be had from an existing session.
    Forbidden,
    /// The user is deactivated.
    UserDeactivated,
    /// No access token came with the request.
    MissingToken,
    /// The body is no JSON.
    NotJson,
    /// The user of a JSON web token is not registered.
    NotFound,
}

/// An unsupported login type is refused before anything is checked.
pub fn login_kind_check(kind: LoginKind) -> (r: Result<(), LoginError>)
    ensures
        kind == LoginKind::Other ==> r == Err::<(), LoginError>(LoginError::Unknown),
        kind != LoginKind::Other ==> r is Ok,
{
    match kind {
        LoginKind::Other => Err(LoginError::Unknown),
        _ => Ok(()),
    }
}

/// A token login needs token login to be enabled.
pub fn token_login_check(login_via_token: bool) -> (r: Result<(), LoginError>)
    ensures
        !login_via_token ==> r == Err::<(), LoginError>(LoginError::Unknown),
        login_via_token ==> r is Ok,
{
    if !login_via_token {
        Err(LoginError::Unknown)
    } else {
        Ok(())
    }
}

/// Whether `id` is among `ids`.
pub open spec fn known(ids: Seq<String>, id: Seq<char>) -> bool {
    exists|i: int| 0 <= i < ids.len() && (#[trigger] ids[i])@ == id
}

/// The device a login goes to.
pub enum DeviceChoice {
    /// A device of the user that exists: its token is replaced.
    Existing(String),
    /// A new device, with the ID asked for, if any.
    New(Option<String>),
}

/// A login reuses the device asked for when the user has it; otherwise a
/// device is made, with that ID if one was asked for.
pub fn login_device(device_id: Option<String>, user_devices: &Vec<String>) -> (r: DeviceChoice)
    ensures
        match device_id {
            Some(d) => if known(user_devices@, d@) {
                r == DeviceChoice::Existing(d)
            } else {
                r == DeviceChoice::New(Some(d))
            },
            None => r == DeviceChoice::New(None),
        },
{
    match device_id {
        Some(d) => {
            if crate::utils::string::list_contains(user_devices.as_slice(), d.as_str()) {
                DeviceChoice::Existing(d)
            } else {
                DeviceChoice::New(Some(d))
            }
        },
        None => DeviceChoice::New(None),
    }
}

/// A login token is given only when logins by token and from an existing
/// session are both enabled, and to an active local user.
pub fn login_token_check(via_existing_session: bool, via_token: bool, active: Option<bool>) -> (r: Result<
    (),
    LoginError,
>)
    ensures
        !(via_existing_session && via_token) ==> r == Err::<(), LoginError>(LoginError::Forbidden),
        via_existing_session && via_token && active == Some(false) ==> r == Err::<(), LoginError>(
            LoginError::UserDeactivated,
        ),
        via_existing_session && via_token && active != Some(false) ==> r is Ok,
{
    if !via_existing_session || !via_token {
        return Err(LoginError::Forbidden);
    }
    match active {
        Some(false) => Err(LoginError::UserDeactivated),
        _ => Ok(()),
    }
}

/// The auth data of an interactive authentication.
#[derive(Debug, Clone, Copy, PartialEq, Eq, Structural)]
pub enum UiaaAuth {
    Jwt,
    Other,
    Absent,
}

/// What interactive authentication does next.
#[derive(Debug, Clone, Copy, PartialEq, Eq, Structural)]
pub enum UiaaAction {
    /// Validate the JSON web token and check that its user exists.
    ValidateJwt,
    /// Check the auth data for the sender.
    TryAuth,
    /// Accept the sender: it logged in by SSO.
    Accept,
    /// Start a session and answer with the flows.
    StartSession,
    Refuse(LoginError),
}

/// Decides interactive authentication: a JSON web token is validated; other
/// auth data is checked for the sender; without auth data, a JSON body
/// starts a session unless the sender logged in by SSO. The sender must be
/// known wherever it is needed.
pub fn uiaa_action(auth: UiaaAuth, has_sender: bool, has_json_body: bool, sso_user: bool) -> (r: UiaaAction)
    ensures
        auth == UiaaAuth::Jwt ==> r == UiaaAction::ValidateJwt,
        auth == UiaaAuth::Other && has_sender ==> r == UiaaAction::TryAuth,
        auth == UiaaAuth::Other && !has_sender ==> r == UiaaAction::Refuse(LoginError::MissingToken),
        auth == UiaaAuth::Absent && !has_json_body ==> r == UiaaAction::Refuse(LoginError::NotJson),
        auth == UiaaAuth::Absent && has_json_body && !has_sender ==> r == UiaaAction::Refuse(
            LoginError::MissingToken,
        ),
        auth == UiaaAuth::Absent && has_json_body && has_sender && sso_user ==> r == UiaaAction::Accept,
        auth == UiaaAuth::Absent && has_json_body && has_sender && !sso_user ==> r == UiaaAction::StartSession,
{
    match auth {
        UiaaAuth::Jwt => UiaaAction::ValidateJwt,
        UiaaAuth::Other => if has_sender {
            UiaaAction::TryAuth
        } else {
            UiaaAction::Refuse(LoginError::MissingToken)
        },
        UiaaAuth::Absent => if !has_json_body {
            UiaaAction::Refuse(LoginError::NotJson)
        } else if !has_sender {
            UiaaAction::Refuse(LoginError::MissingToken)
        } else if sso_user {
            UiaaAction::Accept
        } else {
            UiaaAction::StartSession
        },
    }
}

/// Whether a user logged in by SSO, by the origin recorded for it.
pub fn is_sso_origin(origin: Option<&str>) -> (r: bool)
    ensures
        r == match origin {
            Some(o) => o@ == "sso"@,
            None => false,
        },
{
    match origin {
        Some(o) => str_eq(o, "sso"),
        None => false,
    }
}

} // verus!
