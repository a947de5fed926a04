use tuwunel::config::{
    check, detect_container, reload, BindAddr, Config, ConfigError, ContainerKind, ContainerProbe,
    Environment, FileRead, IdentityProvider, Warning,
};

fn base() -> Config {
    Config {
        server_name: "example.org".into(),
        sentry: false,
        sentry_endpoint: None,
        unix_socket_path: None,
        bind_hosts: vec!["127.0.0.1".into()],
        bind_ports: vec![8008],
        bind_addrs: vec![BindAddr { text: "127.0.0.1:8008".into(), is_loopback: true }],
        tls_certs: None,
        tls_key: None,
        listening: true,
        rocksdb_max_log_files: 3,
        emergency_password: None,
        registration_token: None,
        registration_token_file: None,
        max_request_size: 20_000_000,
        ip_range_denylist: vec!["10.0.0.0/8".into(), "fe80::/64".into()],
        allow_registration: false,
        yes_i_am_very_very_sure_i_want_an_open_registration_server_prone_to_abuse: false,
        allow_outgoing_presence: false,
        allow_local_presence: true,
        suppress_push_when_active: false,
        url_preview_domain_contains_allowlist: vec![],
        url_preview_domain_explicit_allowlist: vec![],
        url_preview_url_contains_allowlist: vec![],
        url_preview_bound_interface: None,
        default_room_version: "11".into(),
        supported_room_versions: vec!["10".into(), "11".into()],
        identity_provider: vec![],
        sso_custom_providers_page: false,
        catchall: vec![],
        error_on_unknown_config_opts: false,
    }
}

fn env() -> Environment {
    Environment {
        os: "linux".into(),
        is_unix: true,
        debug_build: false,
        deprecated_keys: vec!["old_key".into()],
        container: ContainerProbe { proc_vz: false, proc_bz: false, dockerenv: false, containerenv: false },
    }
}

fn error_key(c: &Config, e: &Environment) -> Option<&'static str> {
    check(c, e).error.map(|err| err.key())
}

#[test]
fn valid_configuration_passes() {
    let out = check(&base(), &env());
    assert!(out.error.is_none());
    assert!(out.warnings.is_empty());
}

#[test]
fn container_detection() {
    let p = |vz, bz, docker, podman| ContainerProbe { proc_vz: vz, proc_bz: bz, dockerenv: docker, containerenv: podman };
    assert_eq!(detect_container(p(true, false, true, true)), Some(ContainerKind::OpenVz));
    assert_eq!(detect_container(p(true, true, true, false)), Some(ContainerKind::Docker));
    assert_eq!(detect_container(p(false, false, false, true)), Some(ContainerKind::Podman));
    assert_eq!(detect_container(p(false, false, false, false)), None);
}

#[test]
fn loopback_in_container_warns() {
    let mut e = env();
    e.container.dockerenv = true;
    let out = check(&base(), &e);
    assert!(out.error.is_none());
    assert!(matches!(out.warnings.as_slice(), [Warning::ContainerLoopback { kind: ContainerKind::Docker, .. }]));
}

#[test]
fn listening_rules() {
    let mut c = base();
    c.sentry = true;
    assert_eq!(error_key(&c, &env()), Some("sentry_endpoint"));
    let mut c = base();
    c.bind_ports = vec![];
    assert_eq!(error_key(&c, &env()), Some("port"));
    let mut c = base();
    c.tls_certs = Some("cert.pem".into());
    assert_eq!(error_key(&c, &env()), Some("tls"));
    let mut e = env();
    e.is_unix = false;
    let mut c = base();
    c.unix_socket_path = Some("/run/t.sock".into());
    assert_eq!(error_key(&c, &e), Some("unix_socket_path"));
}

#[test]
fn secret_rules() {
    let mut c = base();
    c.rocksdb_max_log_files = 0;
    assert_eq!(error_key(&c, &env()), Some("max_log_files"));
    let mut c = base();
    c.server_name = "your.server.name".into();
    assert_eq!(error_key(&c, &env()), Some("server_name"));
    let mut c = base();
    c.emergency_password = Some("F670$2CP@Hw8mG7RY1$%!#Ic7YA".into());
    assert!(matches!(check(&c, &env()).error, Some(ConfigError::EmergencyPasswordPublic)));
    let mut c = base();
    c.emergency_password = Some(String::new());
    assert!(matches!(check(&c, &env()).error, Some(ConfigError::EmergencyPasswordEmpty)));
    let mut c = base();
    c.registration_token_file = Some(FileRead::Unreadable);
    assert_eq!(error_key(&c, &env()), Some("registration_token_file"));
    let mut c = base();
    c.max_request_size = 1024;
    assert_eq!(error_key(&c, &env()), Some("max_request_size"));
}

#[test]
fn bad_ip_range_is_named() {
    let mut c = base();
    c.ip_range_denylist = vec!["10.0.0.0/8".into(), "not-an-ip".into()];
    match check(&c, &env()).error {
        Some(ConfigError::IpRangeDenylist { entry, reason }) => {
            assert_eq!(entry, 1);
            assert!(!reason.is_empty());
        },
        _ => panic!("expected the denylist to be refused"),
    }
}

#[test]
fn open_registration_needs_consent() {
    let mut c = base();
    c.allow_registration = true;
    assert_eq!(error_key(&c, &env()), Some("registration_token"));
    c.yes_i_am_very_very_sure_i_want_an_open_registration_server_prone_to_abuse = true;
    let out = check(&c, &env());
    assert!(out.error.is_none());
    assert!(matches!(out.warnings.as_slice(), [Warning::OpenRegistration]));
    c.registration_token = Some("secret".into());
    assert!(check(&c, &env()).warnings.is_empty());
}

#[test]
fn presence_and_previews() {
    let mut c = base();
    c.allow_outgoing_presence = true;
    c.allow_local_presence = false;
    assert_eq!(error_key(&c, &env()), Some("allow_local_presence"));
    let mut c = base();
    c.url_preview_domain_contains_allowlist = vec!["*".into()];
    c.suppress_push_when_active = true;
    let out = check(&c, &env());
    assert!(matches!(
        out.warnings.as_slice(),
        [Warning::PushSuppression, Warning::UrlPreviewDomainContainsWildcard]
    ));
    let mut e = env();
    e.os = "macos".into();
    let mut c = base();
    c.url_preview_bound_interface = Some(tuwunel::config::BoundInterface::Interface("eth0".into()));
    assert_eq!(error_key(&c, &e), Some("url_preview_bound_interface"));
    let mut c = base();
    c.default_room_version = "9".into();
    assert_eq!(error_key(&c, &env()), Some("default_room_version"));
}

fn provider(id: &str, secret: Option<&str>, file: Option<FileRead>, default: bool) -> IdentityProvider {
    IdentityProvider {
        key: id.into(),
        id: id.into(),
        client_id: id.into(),
        client_secret: secret.map(str::to_string),
        client_secret_file: file,
        default,
    }
}

#[test]
fn identity_providers() {
    let mut c = base();
    let mut twin = provider("a", Some("s"), None, false);
    twin.key = "a2".into();
    c.identity_provider = vec![provider("a", Some("s"), None, false), twin];
    assert!(tuwunel::config::distinct_provider_keys(&c.identity_provider));
    assert!(matches!(check(&c, &env()).error, Some(ConfigError::DuplicateClientId { provider: 0 })));
    assert!(!tuwunel::config::distinct_provider_keys(&vec![provider("a", None, None, false), provider("a", None, None, false)]));
    c.identity_provider = vec![provider("a", Some("s"), None, false), provider("b", None, None, false)];
    assert!(matches!(check(&c, &env()).error, Some(ConfigError::ClientSecret { provider: 1 })));
    c.identity_provider = vec![provider("a", None, Some(FileRead::Contents(String::new())), false)];
    assert!(matches!(check(&c, &env()).error, Some(ConfigError::ClientSecretFileEmpty { provider: 0 })));
    c.identity_provider = vec![provider("a", Some("s"), None, false), provider("b", Some("s"), None, false)];
    let out = check(&c, &env());
    assert!(out.error.is_none());
    assert!(matches!(out.warnings.as_slice(), [Warning::NoDefaultProvider(id)] if id == "a"));
}

#[test]
fn unknown_and_deprecated_keys() {
    let mut c = base();
    c.catchall = vec!["config".into(), "old_key".into(), "mystery".into()];
    let out = check(&c, &env());
    assert!(out.error.is_none());
    assert!(matches!(
        out.warnings.as_slice(),
        [
            Warning::DeprecatedKey(d),
            Warning::DeprecatedKeysFound,
            Warning::UnknownKey { key: k1, refused: false },
            Warning::UnknownKey { key: k2, refused: false },
        ] if d == "old_key" && k1 == "old_key" && k2 == "mystery"
    ));
    c.error_on_unknown_config_opts = true;
    assert_eq!(error_key(&c, &env()), Some("catchall"));
}

#[test]
fn reload_keeps_server_name() {
    let old = base();
    let mut new = base();
    new.server_name = "other.org".into();
    assert!(matches!(reload(&old, &new, &env()).error, Some(ConfigError::ServerNameChanged)));
    assert!(reload(&old, &base(), &env()).error.is_none());
}

#[test]
fn overlong_ipv6_range_is_refused_without_parsing() {
    let mut c = base();
    c.ip_range_denylist = vec!["1:2:3:4:5:6:7:8:9::".into()];
    match check(&c, &env()).error {
        Some(ConfigError::IpRangeDenylist { entry, reason }) => {
            assert_eq!(entry, 0);
            assert_eq!(reason, "IPv6 allows at most eight groups before ::");
        },
        _ => panic!("expected the denylist to be refused"),
    }
    c.ip_range_denylist = vec!["1:2:3:4:5:6:7:8::/64".into(), "1.2.3.4/24/1:2:3:4:5:6:7:8:9::".into()];
    assert!(check(&c, &env()).error.is_none());
}
