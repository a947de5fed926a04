use vstd::prelude::*;
use vstd::string::*;
use crate::utils::string::{list_contains, str_eq};

verus! {

/// What the operator's configuration file says, as far as [`check`] reads it.
pub struct Config {
    pub server_name: String,
    pub sentry: bool,
    pub sentry_endpoint: Option<String>,
    pub unix_socket_path: Option<String>,
    pub bind_hosts: Vec<String>,
    pub bind_ports: Vec<u16>,
    /// The addresses that the server would listen on.
    pub bind_addrs: Vec<BindAddr>,
    pub tls_certs: Option<String>,
    pub tls_key: Option<String>,
    pub listening: bool,
    pub rocksdb_max_log_files: u64,
    pub emergency_password: Option<String>,
    pub registration_token: Option<String>,
    /// The registration token file, as it was read.
    pub registration_token_file: Option<FileRead>,
    pub max_request_size: usize,
    pub ip_range_denylist: Vec<String>,
    pub allow_registration: bool,
    pub yes_i_am_very_very_sure_i_want_an_open_registration_server_prone_to_abuse: bool,
    pub allow_outgoing_presence: bool,
    pub allow_local_presence: bool,
    pub suppress_push_when_active: bool,
    pub url_preview_domain_contains_allowlist: Vec<String>,
    pub url_preview_domain_explicit_allowlist: Vec<String>,
    pub url_preview_url_contains_allowlist: Vec<String>,
    pub url_preview_bound_interface: Option<BoundInterface>,
    pub default_room_version: String,
    /// The room versions that this server supports.
    pub supported_room_versions: Vec<String>,
    /// The identity providers of the configuration's map, in the map's
    /// order; each stands under its own `key` (see [`providers_keyed`]).
    pub identity_provider: Vec<IdentityProvider>,
    pub sso_custom_providers_page: bool,
    /// The keys of the configuration file that no option claims.
    pub catchall: Vec<String>,
    pub error_on_unknown_config_opts: bool,
}

/// A listening address, as text, and whether it is a loopback address.
pub struct BindAddr {
    pub text: String,
    pub is_loopback: bool,
}

/// The outcome of reading a file that the configuration names.
pub enum FileRead {
    Unreadable,
    Contents(String),
}

/// The interface that URL previews are bound to.
pub enum BoundInterface {
    Address(String),
    Interface(String),
}

/// One configured OAuth/OIDC identity provider.
pub struct IdentityProvider {
    /// The key under which the provider is configured.
    pub key: String,
    /// The provider's identifier.
    pub id: String,
    pub client_id: String,
    pub client_secret: Option<String>,
    /// The client secret file, as it was read.
    pub client_secret_file: Option<FileRead>,
    pub default: bool,
}

/// Facts about the build and the machine that [`check`] depends on.
pub struct Environment {
    pub os: String,
    pub is_unix: bool,
    pub debug_build: bool,
    /// Configuration keys that are no longer used.
    pub deprecated_keys: Vec<String>,
    pub container: ContainerProbe,
}

/// Which container marker files exist.
#[derive(Clone, Copy)]
pub struct ContainerProbe {
    pub proc_vz: bool,
    pub proc_bz: bool,
    pub dockerenv: bool,
    pub containerenv: bool,
}

/// The container runtime that the server appears to run in.
#[derive(Debug, Clone, Copy, PartialEq, Eq, Structural)]
pub enum ContainerKind {
    OpenVz,
    Docker,
    Podman,
}

/// A warning for the operator.
pub enum Warning {
    DebugBuild,
    DeprecatedKey(String),
    DeprecatedKeysFound,
    /// An unknown key; an error rather than a warning when unknown keys are
    /// refused.
    UnknownKey { key: String, refused: bool },
    ListeningDisabled,
    ContainerLoopback { kind: ContainerKind, addr: String },
    OpenRegistration,
    PushSuppression,
    UrlPreviewDomainContainsWildcard,
    UrlPreviewDomainExplicitWildcard,
    UrlPreviewUrlContainsWildcard,
    /// More than one identity provider and none is the default; this one is
    /// taken as the default.
    NoDefaultProvider(String),
}

/// Why a configuration is refused.
pub enum ConfigError {
    UnknownOptions(Vec<String>),
    SentryEndpoint,
    UnixSocketPath,
    Address,
    Port,
    Tls,
    MaxLogFiles,
    ServerName,
    EmergencyPasswordPublic,
    EmergencyPasswordEmpty,
    RegistrationTokenEmpty,
    RegistrationTokenFile,
    MaxRequestSize,
    /// An entry of `ip_range_denylist` that is no IP range.
    IpRangeDenylist { entry: usize, reason: String },
    OpenRegistration,
    AllowLocalPresence,
    UrlPreviewBoundInterface,
    DefaultRoomVersion,
    /// Two identity providers share an identifier.
    DuplicateClientId { provider: usize },
    ClientSecret { provider: usize },
    ClientSecretFileUnreadable { provider: usize },
    ClientSecretFileEmpty { provider: usize },
    /// `reload` may not change the server's name.
    ServerNameChanged,
}

/// The kind of a [`ConfigError`], with the indices it carries.
pub ghost enum Failure {
    UnknownOptions,
    SentryEndpoint,
    UnixSocketPath,
    Address,
    Port,
    Tls,
    MaxLogFiles,
    ServerName,
    EmergencyPasswordPublic,
    EmergencyPasswordEmpty,
    RegistrationTokenEmpty,
    RegistrationTokenFile,
    MaxRequestSize,
    IpRangeDenylist(int),
    OpenRegistration,
    AllowLocalPresence,
    UrlPreviewBoundInterface,
    DefaultRoomVersion,
    DuplicateClientId(int),
    ClientSecret(int),
    ClientSecretFileUnreadable(int),
    ClientSecretFileEmpty(int),
    ServerNameChanged,
}

impl ConfigError {
    pub open spec fn failure(&self) -> Failure {
        match self {
            ConfigError::UnknownOptions(_) => Failure::UnknownOptions,
            ConfigError::SentryEndpoint => Failure::SentryEndpoint,
            ConfigError::UnixSocketPath => Failure::UnixSocketPath,
            ConfigError::Address => Failure::Address,
            ConfigError::Port => Failure::Port,
            ConfigError::Tls => Failure::Tls,
            ConfigError::MaxLogFiles => Failure::MaxLogFiles,
            ConfigError::ServerName => Failure::ServerName,
            ConfigError::EmergencyPasswordPublic => Failure::EmergencyPasswordPublic,
            ConfigError::EmergencyPasswordEmpty => Failure::EmergencyPasswordEmpty,
            ConfigError::RegistrationTokenEmpty => Failure::RegistrationTokenEmpty,
            ConfigError::RegistrationTokenFile => Failure::RegistrationTokenFile,
            ConfigError::MaxRequestSize => Failure::MaxRequestSize,
            ConfigError::IpRangeDenylist { entry, .. } => Failure::IpRangeDenylist(*entry as int),
            ConfigError::OpenRegistration => Failure::OpenRegistration,
            ConfigError::AllowLocalPresence => Failure::AllowLocalPresence,
            ConfigError::UrlPreviewBoundInterface => Failure::UrlPreviewBoundInterface,
            ConfigError::DefaultRoomVersion => Failure::DefaultRoomVersion,
            ConfigError::DuplicateClientId { provider } => Failure::DuplicateClientId(
                *provider as int,
            ),
            ConfigError::ClientSecret { provider } => Failure::ClientSecret(*provider as int),
            ConfigError::ClientSecretFileUnreadable { provider } =>
                Failure::ClientSecretFileUnreadable(*provider as int),
            ConfigError::ClientSecretFileEmpty { provider } => Failure::ClientSecretFileEmpty(
                *provider as int,
            ),
            ConfigError::ServerNameChanged => Failure::ServerNameChanged,
        }
    }

    /// The key of each error.
    pub open spec fn spec_key(&self) -> Seq<char> {
        match self {
            ConfigError::UnknownOptions(_) => "catchall"@,
            ConfigError::SentryEndpoint => "sentry_endpoint"@,
            ConfigError::UnixSocketPath => "unix_socket_path"@,
            ConfigError::Address => "address"@,
            ConfigError::Port => "port"@,
            ConfigError::Tls => "tls"@,
            ConfigError::MaxLogFiles => "max_log_files"@,
            ConfigError::ServerName => "server_name"@,
            ConfigError::EmergencyPasswordPublic => "emergency_password"@,
            ConfigError::EmergencyPasswordEmpty => "emergency_password"@,
            ConfigError::RegistrationTokenEmpty => "registration_token"@,
            ConfigError::RegistrationTokenFile => "registration_token_file"@,
            ConfigError::MaxRequestSize => "max_request_size"@,
            ConfigError::IpRangeDenylist { .. } => "ip_range_denylist"@,
            ConfigError::OpenRegistration => "registration_token"@,
            ConfigError::AllowLocalPresence => "allow_local_presence"@,
            ConfigError::UrlPreviewBoundInterface => "url_preview_bound_interface"@,
            ConfigError::DefaultRoomVersion => "default_room_version"@,
            ConfigError::DuplicateClientId { .. } => "client_id"@,
            ConfigError::ClientSecret { .. } => "client_secret"@,
            ConfigError::ClientSecretFileUnreadable { .. } => "client_secret_file"@,
            ConfigError::ClientSecretFileEmpty { .. } => "client_secret_file"@,
            ConfigError::ServerNameChanged => "server_name"@,
        }
    }

    /// The configuration key that the error is about.
    pub fn key(&self) -> (r: &'static str)
        ensures
            r@ == self.spec_key(),
    {
        proof {
            reveal_strlit("address");
            reveal_strlit("allow_local_presence");
            reveal_strlit("catchall");
            reveal_strlit("client_id");
            reveal_strlit("client_secret");
            reveal_strlit("client_secret_file");
            reveal_strlit("default_room_version");
            reveal_strlit("emergency_password");
            reveal_strlit("ip_range_denylist");
            reveal_strlit("max_log_files");
            reveal_strlit("max_request_size");
            reveal_strlit("port");
            reveal_strlit("registration_token");
            reveal_strlit("registration_token_file");
            reveal_strlit("sentry_endpoint");
            reveal_strlit("server_name");
            reveal_strlit("tls");
            reveal_strlit("unix_socket_path");
            reveal_strlit("url_preview_bound_interface");
        }
        match self {
            ConfigError::UnknownOptions(_) => "catchall",
            ConfigError::SentryEndpoint => "sentry_endpoint",
            ConfigError::UnixSocketPath => "unix_socket_path",
            ConfigError::Address => "address",
            ConfigError::Port => "port",
            ConfigError::Tls => "tls",
            ConfigError::MaxLogFiles => "max_log_files",
            ConfigError::ServerName => "server_name",
            ConfigError::EmergencyPasswordPublic => "emergency_password",
            ConfigError::EmergencyPasswordEmpty => "emergency_password",
            ConfigError::RegistrationTokenEmpty => "registration_token",
            ConfigError::RegistrationTokenFile => "registration_token_file",
            ConfigError::MaxRequestSize => "max_request_size",
            ConfigError::IpRangeDenylist { .. } => "ip_range_denylist",
            ConfigError::OpenRegistration => "registration_token",
            ConfigError::AllowLocalPresence => "allow_local_presence",
            ConfigError::UrlPreviewBoundInterface => "url_preview_bound_interface",
            ConfigError::DefaultRoomVersion => "default_room_version",
            ConfigError::DuplicateClientId { .. } => "client_id",
            ConfigError::ClientSecret { .. } => "client_secret",
            ConfigError::ClientSecretFileUnreadable { .. } => "client_secret_file",
            ConfigError::ClientSecretFileEmpty { .. } => "client_secret_file",
            ConfigError::ServerNameChanged => "server_name",
        }
    }
}

/// The warnings [`check`] gave and the error, if any, that it refused the
/// configuration with.
pub struct CheckOutcome {
    pub warnings: Vec<Warning>,
    pub error: Option<ConfigError>,
}

/// The identity providers form a map: no two stand under the same key.
pub open spec fn providers_keyed(v: Seq<IdentityProvider>) -> bool {
    forall|i: int, j: int|
        0 <= i < v.len() && 0 <= j < v.len() && i != j ==> #[trigger] v[i].key@ != #[trigger] v[j].key@
}

/// Checks that the identity providers form a map, as [`providers_keyed`]
/// says.
pub fn distinct_provider_keys(v: &Vec<IdentityProvider>) -> (r: bool)
    ensures
        r == providers_keyed(v@),
{
    let mut i: usize = 0;
    while i < v.len()
        invariant
            i <= v@.len(),
            forall|a: int, b: int|
                0 <= a < i && 0 <= b < v@.len() && a != b ==> #[trigger] v@[a].key@ != #[trigger] v@[b].key@,
        decreases v.len() - i,
    {
        let mut j: usize = 0;
        while j < v.len()
            invariant
                i < v@.len(),
                j <= v@.len(),
                forall|a: int, b: int|
                    0 <= a < i && 0 <= b < v@.len() && a != b ==> #[trigger] v@[a].key@ != #[trigger] v@[b].key@,
                forall|b: int| 0 <= b < j && b != i ==> v@[i as int].key@ != #[trigger] v@[b].key@,
            decreases v.len() - j,
        {
            if j != i && str_eq(v[i].key.as_str(), v[j].key.as_str()) {
                return false;
            }
            j = j + 1;
        }
        i = i + 1;
    }
    true
}

/// The message that an invalid IP range gets from the `ipaddress` crate.
pub uninterp spec fn ip_parse_error(s: Seq<char>) -> Option<Seq<char>>;

/// How far a scan of an IP range has come: the `/` seen, the colons of the
/// current `/`-separated part before its first `::`, whether that `::` was
/// seen, whether the last character was a colon, and whether an address
/// part (the first two) has eight colons or more before its first `::`.
pub struct IpScan {
    pub slashes: nat,
    pub colons: nat,
    pub found: bool,
    pub prev_colon: bool,
    pub too_long: bool,
}

/// Scans `s` from the left, as [`IpScan`] describes.
pub open spec fn ip_scan(s: Seq<char>) -> IpScan
    decreases s.len(),
{
    if s.len() == 0 {
        IpScan { slashes: 0, colons: 0, found: false, prev_colon: false, too_long: false }
    } else {
        let p = ip_scan(s.drop_last());
        let c = s.last();
        if c == '/' {
            IpScan { slashes: p.slashes + 1, colons: 0, found: false, prev_colon: false, too_long: p.too_long }
        } else if c != ':' {
            IpScan { prev_colon: false, ..p }
        } else if p.found {
            IpScan { prev_colon: true, ..p }
        } else if p.prev_colon {
            IpScan {
                found: true,
                prev_colon: true,
                too_long: p.too_long || (p.slashes < 2 && p.colons >= 9),
                ..p
            }
        } else {
            IpScan { colons: p.colons + 1, prev_colon: true, ..p }
        }
    }
}

/// Whether `ipaddress` can take `s` without running past IPv6's eight
/// groups: in the address and the netmask (the first two `/`-separated
/// parts), at most eight groups stand before the first `::`. The scan
/// counts the first colon of that `::` too, hence nine.
pub open spec fn ip_shape_ok(s: Seq<char>) -> bool {
    !ip_scan(s).too_long
}

/// The message of a range with more than eight groups before `::`.
pub open spec fn too_many_groups_message() -> Seq<char> {
    "IPv6 allows at most eight groups before ::"@
}

/// Why an entry of the IP range denylist is refused: too many groups before
/// `::`, else what `ipaddress` says.
pub open spec fn ip_range_error(s: Seq<char>) -> Option<Seq<char>> {
    if !ip_shape_ok(s) {
        Some(too_many_groups_message())
    } else {
        ip_parse_error(s)
    }
}

/// Checks the shape that [`ip_shape_ok`] asks for.
fn ip_shape(s: &str) -> (r: bool)
    ensures
        r == ip_shape_ok(s@),
{
    let n = s.unicode_len();
    let mut slashes: usize = 0;
    let mut colons: usize = 0;
    let mut found = false;
    let mut prev_colon = false;
    let mut too_long = false;
    let mut i: usize = 0;
    while i < n
        invariant
            n == s@.len(),
            i <= n,
            slashes <= i,
            colons <= i,
            ip_scan(s@.take(i as int)) == (IpScan { slashes: slashes as nat, colons: colons as nat, found, prev_colon, too_long }),
        decreases n - i,
    {
        let c = s.get_char(i);
        proof {
            assert(s@.take(i + 1).drop_last() =~= s@.take(i as int));
            assert(s@.take(i + 1).last() == c);
        }
        if c == '/' {
            slashes = slashes + 1;
            colons = 0;
            found = false;
            prev_colon = false;
        } else if c != ':' {
            prev_colon = false;
        } else if found {
            prev_colon = true;
        } else if prev_colon {
            too_long = too_long || (slashes < 2 && colons >= 9);
            found = true;
        } else {
            colons = colons + 1;
            prev_colon = true;
        }
        i = i + 1;
    }
    proof {
        assert(s@.take(n as int) =~= s@);
    }
    !too_long
}

/// `ipaddress::IPAddress::parse`: gives back the parser's error message for
/// a string that is no IP address or range, and nothing for one that is.
/// Which strings it accepts is left to the crate. A string with more than
/// eight groups before `::` in its address or netmask makes the crate
/// compute `128 - 16 * groups` below zero, so such strings are left out.
/// For some IPv4-mapped addresses the crate also prints a diagnostic line
/// to standard output; nothing here states that output.
#[verifier::external_body]
fn parse_ip_range(cidr: &str) -> (r: Option<String>)
    requires
        ip_shape_ok(cidr@),
    ensures
        r is Some <==> ip_parse_error(cidr@) is Some,
        r matches Some(m) ==> ip_parse_error(cidr@) == Some(m@),
{
    ipaddress::IPAddress::parse(cidr).err()
}

/// The example emergency password that the documentation shows.
pub open spec fn public_example_password() -> Seq<char> {
    "F670$2CP@Hw8mG7RY1$%!#Ic7YA"@
}

pub open spec fn opt_is_empty(o: Option<String>) -> bool {
    o matches Some(s) && s@.len() == 0
}

/// The container the marker files point to.
pub open spec fn spec_container(p: ContainerProbe) -> Option<ContainerKind> {
    if p.proc_vz && !p.proc_bz {
        Some(ContainerKind::OpenVz)
    } else if p.dockerenv {
        Some(ContainerKind::Docker)
    } else if p.containerenv {
        Some(ContainerKind::Podman)
    } else {
        None
    }
}

/// Finds the container runtime from its marker files: OpenVZ (a guest
/// marker without a host marker), Docker, or Podman, in that order.
pub fn detect_container(p: ContainerProbe) -> (r: Option<ContainerKind>)
    ensures
        r == spec_container(p),
{
    if p.proc_vz && !p.proc_bz {
        Some(ContainerKind::OpenVz)
    } else if p.dockerenv {
        Some(ContainerKind::Docker)
    } else if p.containerenv {
        Some(ContainerKind::Podman)
    } else {
        None
    }
}

/// The first deprecated key in `catchall`, if any.
pub open spec fn first_deprecated(keys: Seq<String>, deprecated: Seq<String>) -> Option<int> {
    if exists|i: int| 0 <= i < keys.len() && is_deprecated(keys[i], deprecated) {
        Some(
            choose|i: int|
                0 <= i < keys.len() && is_deprecated(keys[i], deprecated) && forall|j: int|
                    0 <= j < i ==> !is_deprecated(keys[j], deprecated),
        )
    } else {
        None
    }
}

pub open spec fn is_deprecated(key: String, deprecated: Seq<String>) -> bool {
    exists|d: int| 0 <= d < deprecated.len() && (#[trigger] deprecated[d])@ == key@
}

/// The keys other than `config`, in order.
pub open spec fn unknown_keys(keys: Seq<String>) -> Seq<String>
    decreases keys.len(),
{
    if keys.len() == 0 {
        Seq::empty()
    } else if keys.last()@ == "config"@ {
        unknown_keys(keys.drop_last())
    } else {
        unknown_keys(keys.drop_last()).push(keys.last())
    }
}

/// One warning per unknown key.
pub open spec fn unknown_warnings(keys: Seq<String>, refused: bool) -> Seq<Warning> {
    unknown_keys(keys).map_values(|k: String| Warning::UnknownKey { key: k, refused })
}

pub open spec fn deprecated_warnings(c: Config, env: Environment) -> Seq<Warning> {
    match first_deprecated(c.catchall@, env.deprecated_keys@) {
        Some(i) => seq![Warning::DeprecatedKey(c.catchall@[i]), Warning::DeprecatedKeysFound],
        None => Seq::empty(),
    }
}

/// The warnings given before any error can be found.
pub open spec fn early_warnings(c: Config, env: Environment) -> Seq<Warning> {
    (if env.debug_build {
        seq![Warning::DebugBuild]
    } else {
        Seq::empty()
    }) + deprecated_warnings(c, env) + unknown_warnings(
        c.catchall@,
        c.error_on_unknown_config_opts,
    )
}

/// Refusals about how the server listens.
pub open spec fn listen_failure(c: Config, env: Environment) -> Option<Failure> {
    if c.sentry && c.sentry_endpoint is None {
        Some(Failure::SentryEndpoint)
    } else if !env.is_unix && c.unix_socket_path is Some {
        Some(Failure::UnixSocketPath)
    } else if c.unix_socket_path is None && c.bind_hosts@.len() == 0 {
        Some(Failure::Address)
    } else if c.unix_socket_path is None && c.bind_ports@.len() == 0 {
        Some(Failure::Port)
    } else if (c.tls_certs is Some) != (c.tls_key is Some) {
        Some(Failure::Tls)
    } else {
        None
    }
}

/// One warning per loopback listening address when running in a container.
pub open spec fn container_warnings(addrs: Seq<BindAddr>, kind: Option<ContainerKind>) -> Seq<
    Warning,
>
    decreases addrs.len(),
{
    if addrs.len() == 0 {
        Seq::empty()
    } else {
        let rest = container_warnings(addrs.drop_last(), kind);
        match kind {
            Some(k) if addrs.last().is_loopback => rest.push(
                Warning::ContainerLoopback { kind: k, addr: addrs.last().text },
            ),
            _ => rest,
        }
    }
}

pub open spec fn listening_warnings(c: Config, env: Environment) -> Seq<Warning> {
    (if !c.listening {
        seq![Warning::ListeningDisabled]
    } else {
        Seq::empty()
    }) + (if c.unix_socket_path is None {
        container_warnings(c.bind_addrs@, spec_container(env.container))
    } else {
        Seq::empty()
    })
}

pub open spec fn token_file_bad(f: Option<FileRead>) -> bool {
    match f {
        Some(FileRead::Unreadable) => true,
        Some(FileRead::Contents(s)) => s@.len() == 0,
        None => false,
    }
}

/// Refusals about storage, secrets and request sizes.
pub open spec fn secret_failure(c: Config, env: Environment) -> Option<Failure> {
    if c.rocksdb_max_log_files == 0 {
        Some(Failure::MaxLogFiles)
    } else if !env.debug_build && c.server_name@ == "your.server.name"@ {
        Some(Failure::ServerName)
    } else if c.emergency_password matches Some(p) && p@ == public_example_password() {
        Some(Failure::EmergencyPasswordPublic)
    } else if opt_is_empty(c.emergency_password) {
        Some(Failure::EmergencyPasswordEmpty)
    } else if opt_is_empty(c.registration_token) {
        Some(Failure::RegistrationTokenEmpty)
    } else if token_file_bad(c.registration_token_file) {
        Some(Failure::RegistrationTokenFile)
    } else if c.max_request_size < 10_000_000 {
        Some(Failure::MaxRequestSize)
    } else {
        None
    }
}

/// The first entry of the IP range denylist that does not parse.
pub open spec fn first_bad_ip(list: Seq<String>) -> Option<int> {
    if exists|i: int| 0 <= i < list.len() && (#[trigger] ip_range_error(list[i]@)) is Some {
        Some(
            choose|i: int|
                0 <= i < list.len() && ip_range_error(list[i]@) is Some && forall|j: int|
                    0 <= j < i ==> ip_range_error(list[j]@) is None,
        )
    } else {
        None
    }
}

pub open spec fn open_registration(c: Config) -> bool {
    c.allow_registration && c.registration_token is None && c.registration_token_file is None
}

pub open spec fn has_wildcard(list: Seq<String>) -> bool {
    exists|i: int| 0 <= i < list.len() && (#[trigger] list[i])@ == "*"@
}

pub open spec fn late_warnings(c: Config) -> Seq<Warning> {
    (if c.suppress_push_when_active {
        seq![Warning::PushSuppression]
    } else {
        Seq::empty()
    }) + (if has_wildcard(c.url_preview_domain_contains_allowlist@) {
        seq![Warning::UrlPreviewDomainContainsWildcard]
    } else {
        Seq::empty()
    }) + (if has_wildcard(c.url_preview_domain_explicit_allowlist@) {
        seq![Warning::UrlPreviewDomainExplicitWildcard]
    } else {
        Seq::empty()
    }) + (if has_wildcard(c.url_preview_url_contains_allowlist@) {
        seq![Warning::UrlPreviewUrlContainsWildcard]
    } else {
        Seq::empty()
    })
}

pub open spec fn interface_names_supported(os: Seq<char>) -> bool {
    os == "android"@ || os == "fuchsia"@ || os == "linux"@
}

/// Whether another provider shares the identifier of provider `i`.
pub open spec fn duplicated(ps: Seq<IdentityProvider>, i: int) -> bool {
    exists|j: int| 0 <= j < ps.len() && j != i && (#[trigger] ps[j]).id@ == ps[i].id@
}

/// What is wrong with provider `i`'s client secret, if anything.
pub open spec fn secret_problem(ps: Seq<IdentityProvider>, i: int) -> Option<Failure> {
    if ps[i].client_secret is Some {
        None
    } else {
        match ps[i].client_secret_file {
            None => Some(Failure::ClientSecret(i)),
            Some(FileRead::Unreadable) => Some(Failure::ClientSecretFileUnreadable(i)),
            Some(FileRead::Contents(s)) => if s@.len() == 0 {
                Some(Failure::ClientSecretFileEmpty(i))
            } else {
                None
            },
        }
    }
}

/// The first provider (in order) for which `p` holds.
pub open spec fn first_where(n: int, p: spec_fn(int) -> bool) -> Option<int> {
    if exists|i: int| 0 <= i < n && #[trigger] p(i) {
        Some(choose|i: int| 0 <= i < n && #[trigger] p(i) && forall|j: int| 0 <= j < i ==> !#[trigger] p(j))
    } else {
        None
    }
}

/// Refusals about room versions and identity providers.
pub open spec fn provider_failure(c: Config, env: Environment) -> Option<Failure> {
    let ps = c.identity_provider@;
    if c.url_preview_bound_interface matches Some(BoundInterface::Interface(_))
        && !interface_names_supported(env.os@) {
        Some(Failure::UrlPreviewBoundInterface)
    } else if !has_room_version(c.supported_room_versions@, c.default_room_version@) {
        Some(Failure::DefaultRoomVersion)
    } else if first_where(ps.len() as int, |i: int| duplicated(ps, i)) is Some {
        Some(Failure::DuplicateClientId(first_where(ps.len() as int, |i: int| duplicated(ps, i))->0))
    } else if first_where(ps.len() as int, |i: int| secret_problem(ps, i) is Some) is Some {
        secret_problem(ps, first_where(ps.len() as int, |i: int| secret_problem(ps, i) is Some)->0)
    } else {
        None
    }
}

pub open spec fn has_room_version(list: Seq<String>, v: Seq<char>) -> bool {
    exists|i: int| 0 <= i < list.len() && (#[trigger] list[i])@ == v
}

pub open spec fn default_provider_warnings(c: Config) -> Seq<Warning> {
    let ps = c.identity_provider@;
    if !c.sso_custom_providers_page && ps.len() > 1 && forall|i: int|
        0 <= i < ps.len() ==> !(#[trigger] ps[i]).default {
        seq![Warning::NoDefaultProvider(ps[0].id)]
    } else {
        Seq::empty()
    }
}

/// What the rules decide after the listening rules: about IP ranges,
/// open registration, presence, URL previews and identity providers.
pub open spec fn spec_after_secrets(c: Config, env: Environment) -> (Seq<Warning>, Option<Failure>) {
    if first_bad_ip(c.ip_range_denylist@) is Some {
        (Seq::empty(), Some(Failure::IpRangeDenylist(first_bad_ip(c.ip_range_denylist@)->0)))
    } else if open_registration(c)
        && !c.yes_i_am_very_very_sure_i_want_an_open_registration_server_prone_to_abuse {
        (Seq::empty(), Some(Failure::OpenRegistration))
    } else {
        let w3 = if open_registration(c) {
            seq![Warning::OpenRegistration]
        } else {
            Seq::empty()
        };
        if c.allow_outgoing_presence && !c.allow_local_presence {
            (w3, Some(Failure::AllowLocalPresence))
        } else {
            let w4 = w3 + late_warnings(c);
            if provider_failure(c, env) is Some {
                (w4, provider_failure(c, env))
            } else {
                (w4 + default_provider_warnings(c), None)
            }
        }
    }
}

/// What the rules decide once the keys of the file have been accepted.
pub open spec fn spec_after_keys(c: Config, env: Environment) -> (Seq<Warning>, Option<Failure>) {
    if listen_failure(c, env) is Some {
        (Seq::empty(), listen_failure(c, env))
    } else {
        let w2 = listening_warnings(c, env);
        if secret_failure(c, env) is Some {
            (w2, secret_failure(c, env))
        } else {
            (w2 + spec_after_secrets(c, env).0, spec_after_secrets(c, env).1)
        }
    }
}

/// Everything [`check`] decides: the warnings it gives and the refusal, if
/// any, in the order in which the rules are tried.
pub open spec fn spec_check(c: Config, env: Environment) -> (Seq<Warning>, Option<Failure>) {
    let w1 = early_warnings(c, env);
    if c.error_on_unknown_config_opts && unknown_keys(c.catchall@).len() > 0 {
        (w1, Some(Failure::UnknownOptions))
    } else {
        (w1 + spec_after_keys(c, env).0, spec_after_keys(c, env).1)
    }
}

pub open spec fn fail_of(o: Option<ConfigError>) -> Option<Failure> {
    match o {
        Some(e) => Some(e.failure()),
        None => None,
    }
}

fn is_deprecated_key(key: &String, deprecated: &Vec<String>) -> (r: bool)
    ensures
        r == is_deprecated(*key, deprecated@),
{
    list_contains(deprecated.as_slice(), key.as_str())
}

/// Warns about the first deprecated key of the configuration file.
pub fn warn_deprecated(c: &Config, env: &Environment) -> (r: Vec<Warning>)
    ensures
        r@ == deprecated_warnings(*c, *env),
{
    let mut i: usize = 0;
    while i < c.catchall.len()
        invariant
            i <= c.catchall@.len(),
            forall|j: int| 0 <= j < i ==> !is_deprecated(c.catchall@[j], env.deprecated_keys@),
        decreases c.catchall.len() - i,
    {
        if is_deprecated_key(&c.catchall[i], &env.deprecated_keys) {
            let ghost first = first_deprecated(c.catchall@, env.deprecated_keys@);
            proof {
                let k = first->0;
                if k != i {
                    if k < i {
                        assert(!is_deprecated(c.catchall@[k], env.deprecated_keys@));
                    } else {
                        assert(is_deprecated(c.catchall@[i as int], env.deprecated_keys@));
                    }
                }
            }
            let mut r = Vec::new();
            r.push(Warning::DeprecatedKey(c.catchall[i].clone()));
            r.push(Warning::DeprecatedKeysFound);
            return r;
        }
        i = i + 1;
    }
    Vec::new()
}

/// Warns about every unknown key, and refuses them when the configuration
/// says so.
pub fn warn_unknown_key(c: &Config, warnings: &mut Vec<Warning>) -> (r: Result<(), ConfigError>)
    ensures
        final(warnings)@ == old(warnings)@ + unknown_warnings(
            c.catchall@,
            c.error_on_unknown_config_opts,
        ),
        r is Err <==> c.error_on_unknown_config_opts && unknown_keys(c.catchall@).len() > 0,
        r matches Err(e) ==> e matches ConfigError::UnknownOptions(keys) && keys@ == unknown_keys(
            c.catchall@,
        ),
{
    let ghost start = warnings@;
    let refused = c.error_on_unknown_config_opts;
    let mut unknown: Vec<String> = Vec::new();
    let mut i: usize = 0;
    while i < c.catchall.len()
        invariant
            i <= c.catchall@.len(),
            refused == c.error_on_unknown_config_opts,
            unknown@ == unknown_keys(c.catchall@.take(i as int)),
            warnings@ == start + unknown_warnings(c.catchall@.take(i as int), refused),
        decreases c.catchall.len() - i,
    {
        let key = &c.catchall[i];
        proof {
            assert(c.catchall@.take(i + 1).drop_last() =~= c.catchall@.take(i as int));
            assert(c.catchall@.take(i + 1).last() == c.catchall@[i as int]);
        }
        if !str_eq(key.as_str(), "config") {
            proof {
                reveal_strlit("config");
            }
            unknown.push(key.clone());
            warnings.push(Warning::UnknownKey { key: key.clone(), refused });
            proof {
                assert(unknown_warnings(c.catchall@.take(i + 1), refused) =~= unknown_warnings(
                    c.catchall@.take(i as int),
                    refused,
                ).push(Warning::UnknownKey { key: *key, refused }));
            }
        } else {
            proof {
                reveal_strlit("config");
            }
        }
        i = i + 1;
    }
    proof {
        assert(c.catchall@.take(c.catchall@.len() as int) =~= c.catchall@);
    }
    if unknown.len() > 0 && refused {
        Err(ConfigError::UnknownOptions(unknown))
    } else {
        Ok(())
    }
}

fn check_listen(c: &Config, env: &Environment) -> (r: Option<ConfigError>)
    ensures
        fail_of(r) == listen_failure(*c, *env),
{
    if c.sentry && c.sentry_endpoint.is_none() {
        Some(ConfigError::SentryEndpoint)
    } else if !env.is_unix && c.unix_socket_path.is_some() {
        Some(ConfigError::UnixSocketPath)
    } else if c.unix_socket_path.is_none() && c.bind_hosts.len() == 0 {
        Some(ConfigError::Address)
    } else if c.unix_socket_path.is_none() && c.bind_ports.len() == 0 {
        Some(ConfigError::Port)
    } else if c.tls_certs.is_some() != c.tls_key.is_some() {
        Some(ConfigError::Tls)
    } else {
        None
    }
}

fn push_container_warnings(c: &Config, env: &Environment, warnings: &mut Vec<Warning>)
    ensures
        final(warnings)@ == old(warnings)@ + container_warnings(
            c.bind_addrs@,
            spec_container(env.container),
        ),
{
    let ghost start = warnings@;
    let kind = detect_container(env.container);
    let mut i: usize = 0;
    while i < c.bind_addrs.len()
        invariant
            i <= c.bind_addrs@.len(),
            kind == spec_container(env.container),
            warnings@ == start + container_warnings(c.bind_addrs@.take(i as int), kind),
        decreases c.bind_addrs.len() - i,
    {
        proof {
            assert(c.bind_addrs@.take(i + 1).drop_last() =~= c.bind_addrs@.take(i as int));
            assert(c.bind_addrs@.take(i + 1).last() == c.bind_addrs@[i as int]);
        }
        let addr = &c.bind_addrs[i];
        match kind {
            Some(k) => {
                if addr.is_loopback {
                    warnings.push(Warning::ContainerLoopback { kind: k, addr: addr.text.clone() });
                }
            },
            None => {},
        }
        i = i + 1;
    }
    proof {
        assert(c.bind_addrs@.take(c.bind_addrs@.len() as int) =~= c.bind_addrs@);
    }
}

fn is_empty_opt(o: &Option<String>) -> (r: bool)
    ensures
        r == opt_is_empty(*o),
{
    match o {
        Some(s) => s.as_str().is_empty(),
        None => false,
    }
}

fn check_secrets(c: &Config, env: &Environment) -> (r: Option<ConfigError>)
    ensures
        fail_of(r) == secret_failure(*c, *env),
{
    proof {
        reveal_strlit("your.server.name");
        reveal_strlit("F670$2CP@Hw8mG7RY1$%!#Ic7YA");
    }
    if c.rocksdb_max_log_files == 0 {
        return Some(ConfigError::MaxLogFiles);
    }
    if !env.debug_build && str_eq(c.server_name.as_str(), "your.server.name") {
        return Some(ConfigError::ServerName);
    }
    let public = match &c.emergency_password {
        Some(p) => str_eq(p.as_str(), "F670$2CP@Hw8mG7RY1$%!#Ic7YA"),
        None => false,
    };
    if public {
        return Some(ConfigError::EmergencyPasswordPublic);
    }
    if is_empty_opt(&c.emergency_password) {
        return Some(ConfigError::EmergencyPasswordEmpty);
    }
    if is_empty_opt(&c.registration_token) {
        return Some(ConfigError::RegistrationTokenEmpty);
    }
    let bad_file = match &c.registration_token_file {
        Some(FileRead::Unreadable) => true,
        Some(FileRead::Contents(s)) => s.as_str().is_empty(),
        None => false,
    };
    if bad_file {
        return Some(ConfigError::RegistrationTokenFile);
    }
    if c.max_request_size < 10_000_000 {
        return Some(ConfigError::MaxRequestSize);
    }
    None
}

fn check_ip_ranges(list: &Vec<String>) -> (r: Option<ConfigError>)
    ensures
        fail_of(r) == match first_bad_ip(list@) {
            Some(i) => Some(Failure::IpRangeDenylist(i)),
            None => None,
        },
        r matches Some(e) ==> e matches ConfigError::IpRangeDenylist { entry, reason } && Some(
            reason@,
        ) == ip_range_error(list@[entry as int]@),
{
    let mut i: usize = 0;
    while i < list.len()
        invariant
            i <= list@.len(),
            forall|j: int| 0 <= j < i ==> ip_range_error(list@[j]@) is None,
        decreases list.len() - i,
    {
        if !ip_shape(list[i].as_str()) {
            proof {
                reveal_strlit("IPv6 allows at most eight groups before ::");
                let k = first_bad_ip(list@)->0;
                assert(ip_range_error(list@[i as int]@) is Some);
                if k != i {
                    if k < i {
                        assert(ip_range_error(list@[k]@) is None);
                    } else {
                        assert(ip_range_error(list@[i as int]@) is Some);
                    }
                }
            }
            return Some(ConfigError::IpRangeDenylist {
                entry: i,
                reason: "IPv6 allows at most eight groups before ::".to_string(),
            });
        }
        match parse_ip_range(list[i].as_str()) {
            Some(reason) => {
                proof {
                    let k = first_bad_ip(list@)->0;
                    assert(ip_range_error(list@[i as int]@) is Some);
                    if k != i {
                        if k < i {
                            assert(ip_range_error(list@[k]@) is None);
                        } else {
                            assert(ip_range_error(list@[i as int]@) is Some);
                        }
                    }
                }
                return Some(ConfigError::IpRangeDenylist { entry: i, reason });
            },
            None => {},
        }
        i = i + 1;
    }
    None
}

fn has_wildcard_entry(list: &Vec<String>) -> (r: bool)
    ensures
        r == has_wildcard(list@),
{
    proof {
        reveal_strlit("*");
    }
    list_contains(list.as_slice(), "*")
}

fn push_late_warnings(c: &Config, warnings: &mut Vec<Warning>)
    ensures
        final(warnings)@ == old(warnings)@ + late_warnings(*c),
{
    let ghost start = warnings@;
    if c.suppress_push_when_active {
        warnings.push(Warning::PushSuppression);
    }
    if has_wildcard_entry(&c.url_preview_domain_contains_allowlist) {
        warnings.push(Warning::UrlPreviewDomainContainsWildcard);
    }
    if has_wildcard_entry(&c.url_preview_domain_explicit_allowlist) {
        warnings.push(Warning::UrlPreviewDomainExplicitWildcard);
    }
    if has_wildcard_entry(&c.url_preview_url_contains_allowlist) {
        warnings.push(Warning::UrlPreviewUrlContainsWildcard);
    }
    proof {
        assert(warnings@ =~= start + late_warnings(*c));
    }
}

fn find_duplicate(ps: &Vec<IdentityProvider>) -> (r: Option<usize>)
    ensures
        match r {
            Some(i) => first_where(ps@.len() as int, |i: int| duplicated(ps@, i)) == Some(i as int),
            None => first_where(ps@.len() as int, |i: int| duplicated(ps@, i)) is None,
        },
{
    let ghost p = |i: int| duplicated(ps@, i);
    let mut i: usize = 0;
    while i < ps.len()
        invariant
            i <= ps@.len(),
            p == |i: int| duplicated(ps@, i),
            forall|j: int| 0 <= j < i ==> !#[trigger] p(j),
        decreases ps.len() - i,
    {
        let mut count: usize = 0;
        let mut j: usize = 0;
        while j < ps.len()
            invariant
                i < ps@.len(),
                j <= ps@.len(),
                count <= j,
                count == 0 ==> forall|m: int| 0 <= m < j ==> (#[trigger] ps@[m]).id@ != ps@[i as int].id@ || m == i,
                count > 0 ==> duplicated(ps@, i as int),
            decreases ps.len() - j,
        {
            if j != i && str_eq(ps[j].id.as_str(), ps[i].id.as_str()) {
                count = count + 1;
            }
            j = j + 1;
        }
        if count > 0 {
            proof {
                assert(p(i as int));
                let k = first_where(ps@.len() as int, p)->0;
                if k != i {
                    if k < i {
                        assert(!p(k));
                    } else {
                        assert(p(i as int));
                    }
                }
            }
            return Some(i);
        }
        proof {
            assert(!p(i as int));
        }
        i = i + 1;
    }
    proof {
        assert(!exists|i: int| 0 <= i < ps@.len() && #[trigger] p(i));
    }
    None
}

fn provider_secret_problem(ps: &Vec<IdentityProvider>, i: usize) -> (r: Option<ConfigError>)
    requires
        i < ps@.len(),
    ensures
        fail_of(r) == secret_problem(ps@, i as int),
{
    let p = &ps[i];
    if p.client_secret.is_some() {
        return None;
    }
    match &p.client_secret_file {
        None => Some(ConfigError::ClientSecret { provider: i }),
        Some(FileRead::Unreadable) => Some(ConfigError::ClientSecretFileUnreadable { provider: i }),
        Some(FileRead::Contents(s)) => if s.as_str().is_empty() {
            Some(ConfigError::ClientSecretFileEmpty { provider: i })
        } else {
            None
        },
    }
}

fn find_secret_problem(ps: &Vec<IdentityProvider>) -> (r: Option<ConfigError>)
    ensures
        match first_where(ps@.len() as int, |i: int| secret_problem(ps@, i) is Some) {
            Some(i) => fail_of(r) == secret_problem(ps@, i),
            None => r is None,
        },
{
    let ghost p = |i: int| secret_problem(ps@, i) is Some;
    let mut i: usize = 0;
    while i < ps.len()
        invariant
            i <= ps@.len(),
            p == |i: int| secret_problem(ps@, i) is Some,
            forall|j: int| 0 <= j < i ==> !#[trigger] p(j),
        decreases ps.len() - i,
    {
        let r = provider_secret_problem(ps, i);
        if r.is_some() {
            proof {
                assert(p(i as int));
                let k = first_where(ps@.len() as int, p)->0;
                if k != i {
                    if k < i {
                        assert(!p(k));
                    } else {
                        assert(p(i as int));
                    }
                }
            }
            return r;
        }
        i = i + 1;
    }
    proof {
        assert(!exists|i: int| 0 <= i < ps@.len() && #[trigger] p(i));
    }
    None
}

fn supports_interface_names(os: &str) -> (r: bool)
    ensures
        r == interface_names_supported(os@),
{
    proof {
        reveal_strlit("android");
        reveal_strlit("fuchsia");
        reveal_strlit("linux");
    }
    str_eq(os, "android") || str_eq(os, "fuchsia") || str_eq(os, "linux")
}

fn check_providers(c: &Config, env: &Environment) -> (r: Option<ConfigError>)
    ensures
        fail_of(r) == provider_failure(*c, *env),
{
    let iface = match &c.url_preview_bound_interface {
        Some(BoundInterface::Interface(_)) => true,
        _ => false,
    };
    if iface && !supports_interface_names(env.os.as_str()) {
        return Some(ConfigError::UrlPreviewBoundInterface);
    }
    if !list_contains(c.supported_room_versions.as_slice(), c.default_room_version.as_str()) {
        return Some(ConfigError::DefaultRoomVersion);
    }
    match find_duplicate(&c.identity_provider) {
        Some(i) => {
            return Some(ConfigError::DuplicateClientId { provider: i });
        },
        None => {},
    }
    find_secret_problem(&c.identity_provider)
}

fn push_default_provider_warning(c: &Config, warnings: &mut Vec<Warning>)
    ensures
        final(warnings)@ == old(warnings)@ + default_provider_warnings(*c),
{
    let ghost start = warnings@;
    let ps = &c.identity_provider;
    if c.sso_custom_providers_page || ps.len() <= 1 {
        proof {
            assert(warnings@ =~= start + default_provider_warnings(*c));
        }
        return;
    }
    let mut i: usize = 0;
    while i < ps.len()
        invariant
            i <= ps@.len(),
            warnings@ == start,
            ps == &c.identity_provider,
            !c.sso_custom_providers_page,
            ps@.len() > 1,
            forall|j: int| 0 <= j < i ==> !(#[trigger] ps@[j]).default,
        decreases ps.len() - i,
    {
        if ps[i].default {
            proof {
                assert(warnings@ =~= start + default_provider_warnings(*c));
            }
            return;
        }
        i = i + 1;
    }
    warnings.push(Warning::NoDefaultProvider(ps[0].id.clone()));
    proof {
        assert(warnings@ =~= start + default_provider_warnings(*c));
    }
}

fn check_after_secrets(c: &Config, env: &Environment, warnings: &mut Vec<Warning>) -> (r: Option<
    ConfigError,
>)
    ensures
        final(warnings)@ == old(warnings)@ + spec_after_secrets(*c, *env).0,
        fail_of(r) == spec_after_secrets(*c, *env).1,
        r matches Some(ConfigError::IpRangeDenylist { entry, reason }) ==> Some(reason@)
            == ip_range_error(c.ip_range_denylist@[entry as int]@),
{
    let ghost start = warnings@;
    let ips = check_ip_ranges(&c.ip_range_denylist);
    if ips.is_some() {
        proof {
            assert(warnings@ =~= start + spec_after_secrets(*c, *env).0);
        }
        return ips;
    }
    let open = c.allow_registration && c.registration_token.is_none()
        && c.registration_token_file.is_none();
    if open && !c.yes_i_am_very_very_sure_i_want_an_open_registration_server_prone_to_abuse {
        proof {
            assert(warnings@ =~= start + spec_after_secrets(*c, *env).0);
        }
        return Some(ConfigError::OpenRegistration);
    }
    if open {
        warnings.push(Warning::OpenRegistration);
    }
    if c.allow_outgoing_presence && !c.allow_local_presence {
        proof {
            assert(warnings@ =~= start + spec_after_secrets(*c, *env).0);
        }
        return Some(ConfigError::AllowLocalPresence);
    }
    push_late_warnings(c, warnings);
    let providers = check_providers(c, env);
    if providers.is_some() {
        proof {
            assert(warnings@ =~= start + spec_after_secrets(*c, *env).0);
        }
        return providers;
    }
    push_default_provider_warning(c, warnings);
    proof {
        assert(warnings@ =~= start + spec_after_secrets(*c, *env).0);
    }
    None
}

fn check_after_keys(c: &Config, env: &Environment, warnings: &mut Vec<Warning>) -> (r: Option<
    ConfigError,
>)
    ensures
        final(warnings)@ == old(warnings)@ + spec_after_keys(*c, *env).0,
        fail_of(r) == spec_after_keys(*c, *env).1,
        r matches Some(ConfigError::IpRangeDenylist { entry, reason }) ==> Some(reason@)
            == ip_range_error(c.ip_range_denylist@[entry as int]@),
        r matches Some(e) ==> !(e is UnknownOptions),
{
    let ghost start = warnings@;
    let listen = check_listen(c, env);
    if listen.is_some() {
        proof {
            assert(warnings@ =~= start + spec_after_keys(*c, *env).0);
        }
        return listen;
    }
    if !c.listening {
        warnings.push(Warning::ListeningDisabled);
    }
    if c.unix_socket_path.is_none() {
        push_container_warnings(c, env, warnings);
    }
    proof {
        assert(warnings@ =~= start + listening_warnings(*c, *env));
    }
    let secrets = check_secrets(c, env);
    if secrets.is_some() {
        return secrets;
    }
    let ghost w2 = warnings@;
    let r = check_after_secrets(c, env, warnings);
    proof {
        assert(warnings@ =~= start + spec_after_keys(*c, *env).0);
    }
    r
}

/// Checks a configuration: gives the warnings that the operator should see
/// and refuses a configuration that the server cannot run with, naming the
/// first rule that it breaks.
pub fn check(c: &Config, env: &Environment) -> (out: CheckOutcome)
    requires
        providers_keyed(c.identity_provider@),
    ensures
        (out.warnings@, fail_of(out.error)) == spec_check(*c, *env),
        out.error matches Some(ConfigError::UnknownOptions(keys)) ==> keys@ == unknown_keys(
            c.catchall@,
        ),
        out.error matches Some(ConfigError::IpRangeDenylist { entry, reason }) ==> Some(reason@)
            == ip_range_error(c.ip_range_denylist@[entry as int]@),
{
    let mut warnings: Vec<Warning> = Vec::new();
    if env.debug_build {
        warnings.push(Warning::DebugBuild);
    }
    let mut dep = warn_deprecated(c, env);
    warnings.append(&mut dep);
    let unknown = warn_unknown_key(c, &mut warnings);
    proof {
        assert(warnings@ =~= early_warnings(*c, *env));
    }
    match unknown {
        Err(e) => {
            return CheckOutcome { warnings, error: Some(e) };
        },
        Ok(()) => {},
    }
    let ghost w1 = warnings@;
    let error = check_after_keys(c, env, &mut warnings);
    CheckOutcome { warnings, error }
}

/// Checks a configuration that replaces a running one: as [`check`], and
/// the server's name may not change. A refusal by [`check`] is given back
/// as it is, with the same keys or reason; only the server's name of the
/// running configuration is read.
pub fn reload(old: &Config, new: &Config, env: &Environment) -> (out: CheckOutcome)
    requires
        providers_keyed(new.identity_provider@),
    ensures
        out.error matches Some(ConfigError::UnknownOptions(keys)) ==> keys@ == unknown_keys(
            new.catchall@,
        ),
        out.error matches Some(ConfigError::IpRangeDenylist { entry, reason }) ==> Some(reason@)
            == ip_range_error(new.ip_range_denylist@[entry as int]@),
        spec_check(*new, *env).1 is Some ==> (out.warnings@, fail_of(out.error)) == spec_check(
            *new,
            *env,
        ),
        spec_check(*new, *env).1 is None ==> out.warnings@ == spec_check(*new, *env).0 && fail_of(
            out.error,
        ) == if new.server_name@ != old.server_name@ {
            Some(Failure::ServerNameChanged)
        } else {
            None
        },
{
    let out = check(new, env);
    if out.error.is_some() {
        return out;
    }
    if new.server_name != old.server_name {
        return CheckOutcome { warnings: out.warnings, error: Some(ConfigError::ServerNameChanged) };
    }
    out
}

} // verus!
