//! Security profiles, and the rules that go with them.

use cameodb_server::posture::{
    evaluate, is_loopback_bind, node_key_outcome, resolve_profile, Keyring, NodeKeyFile, Outcome,
    PostureConfig, Profile,
};

#[derive(Clone, Copy)]
enum Role {
    Admin,
    Writer,
    Reader,
}

fn config_for(profile: Option<Profile>, bind: &str) -> PostureConfig {
    PostureConfig {
        profile,
        bind_address: bind.to_string(),
        tls_enabled: false,
        cors_allowed_origins: vec![],
        admin_enabled: true,
        max_concurrent_requests: 128,
        max_body_size_mb: 64 + 64,
        security_enabled: false,
        keyring: Ok(Keyring {
            enabled: false,
            empty: true,
            node_admin: false,
            write: false,
            index_admin: false,
            summary: "no keys".to_string(),
        }),
        audit_enabled: false,
        audit_file: None,
        cluster_enabled: false,
        has_psk: false,
        node_key: NodeKeyFile::NotWritten,
        total_memory_limit_mb: 2048,
    }
}

fn with_key(config: &mut PostureConfig, role: Role) {
    config.security_enabled = true;
    config.keyring = Ok(Keyring {
        enabled: true,
        empty: false,
        node_admin: matches!(role, Role::Admin),
        write: matches!(role, Role::Admin | Role::Writer),
        index_admin: matches!(role, Role::Admin),
        summary: match role {
            Role::Admin => "1 key (1 admin)",
            Role::Writer => "1 key (1 writer)",
            Role::Reader => "1 key (1 reader)",
        }
        .to_string(),
    });
}

fn outcome_for(config: &PostureConfig, rule: &str) -> Outcome {
    evaluate(config)
        .unwrap()
        .checks
        .into_iter()
        .find(|c| c.rule == rule)
        .unwrap_or_else(|| panic!("no rule named {rule}"))
        .outcome
}

fn auth_outcome(config: &PostureConfig) -> Outcome {
    outcome_for(config, "auth")
}

#[test]
fn local_is_inferred_only_for_loopback() {
    let posture = evaluate(&config_for(None, "127.0.0.1")).unwrap();
    assert_eq!(posture.profile, Profile::Local);
    assert!(posture.inferred);

    let err = evaluate(&config_for(None, "0.0.0.0")).unwrap_err();
    assert!(err.contains("no security profile declared"), "{}", err);
}

#[test]
fn local_rejects_non_loopback_bind() {
    let posture = evaluate(&config_for(Some(Profile::Local), "0.0.0.0")).unwrap();
    let bind = posture.checks.iter().find(|c| c.rule == "bind").unwrap();
    assert!(bind.outcome.is_fail(), "{:?}", bind);
}

#[test]
fn wildcard_cors_allowed_only_when_local() {
    let mut local = config_for(Some(Profile::Local), "127.0.0.1");
    local.cors_allowed_origins = vec!["*".to_string()];
    assert!(matches!(outcome_for(&local, "cors"), Outcome::Warn(_)));

    let mut internal = config_for(Some(Profile::Internal), "0.0.0.0");
    internal.cors_allowed_origins = vec!["*".to_string()];
    assert!(outcome_for(&internal, "cors").is_fail());
}

#[test]
fn empty_cors_is_a_pass_not_an_error() {
    let mut c = config_for(Some(Profile::Internal), "0.0.0.0");
    c.cors_allowed_origins = vec![];
    let cors = outcome_for(&c, "cors");
    assert!(matches!(cors, Outcome::Pass(_)), "{:?}", cors);
}

#[test]
fn internal_requires_psk_when_clustered() {
    let mut c = config_for(Some(Profile::Internal), "0.0.0.0");
    c.cluster_enabled = true;
    assert!(outcome_for(&c, "cluster_psk").is_fail());

    c.has_psk = true;
    assert!(matches!(outcome_for(&c, "cluster_psk"), Outcome::Pass(_)));
}

#[test]
fn external_requires_tls_admin_off_and_blocks_on_missing_auth() {
    let mut c = config_for(Some(Profile::External), "0.0.0.0");
    c.cors_allowed_origins = vec![];
    let posture = evaluate(&c).unwrap();
    let failed: Vec<&str> = posture.failures().iter().map(|c| c.rule).collect();
    assert!(failed.contains(&"tls"), "{:?}", failed);
    assert!(failed.contains(&"admin_api"), "{:?}", failed);
    assert!(failed.contains(&"auth"), "{:?}", failed);
}

fn node_key_outcome_for(mode: Option<u32>) -> Outcome {
    let mut c = config_for(Some(Profile::Local), "127.0.0.1");
    c.node_key = match mode {
        Some(mode) => {
            NodeKeyFile::Mode { mode, path: "/data/node_identity.json".to_string() }
        }
        None => NodeKeyFile::NotWritten,
    };
    outcome_for(&c, "node_key")
}

#[test]
fn a_world_readable_node_key_is_reported_and_an_owner_only_one_passes() {
    let loose = node_key_outcome_for(Some(0o644));
    assert!(matches!(loose, Outcome::Warn(_)), "{:?}", loose);
    assert!(loose.message().contains("chmod 600"), "{:?}", loose);

    let tight = node_key_outcome_for(Some(0o600));
    assert!(matches!(tight, Outcome::Pass(_)), "{:?}", tight);

    let absent = node_key_outcome_for(None);
    assert!(matches!(absent, Outcome::Pass(_)), "{:?}", absent);
}

#[test]
fn unauthenticated_loopback_passes_but_a_reachable_node_does_not() {
    assert!(matches!(
        auth_outcome(&config_for(Some(Profile::Local), "127.0.0.1")),
        Outcome::Pass(_)
    ));

    let mut internal = config_for(Some(Profile::Internal), "0.0.0.0");
    internal.cors_allowed_origins = vec![];
    assert!(matches!(auth_outcome(&internal), Outcome::Warn(_)));

    let mut external = config_for(Some(Profile::External), "0.0.0.0");
    external.cors_allowed_origins = vec![];
    assert!(auth_outcome(&external).is_fail());
}

#[test]
fn the_tool_fails_an_open_node_where_the_node_itself_only_warns() {
    let mut exposed = config_for(Some(Profile::Internal), "0.0.0.0");
    exposed.cors_allowed_origins = vec![];
    assert!(
        evaluate(&exposed).unwrap().unauthenticated_off_box(),
        "an off-box bind with no keyring is what the tool has to fail"
    );
    assert!(
        matches!(auth_outcome(&exposed), Outcome::Warn(_)),
        "and the node still has to start"
    );

    let mut loopback = config_for(Some(Profile::Internal), "127.0.0.1");
    loopback.cors_allowed_origins = vec![];
    assert!(
        !evaluate(&loopback).unwrap().unauthenticated_off_box(),
        "nothing off-box can reach a loopback bind, so there is nothing to fail"
    );

    let mut keyed = config_for(Some(Profile::Internal), "0.0.0.0");
    keyed.cors_allowed_origins = vec![];
    with_key(&mut keyed, Role::Admin);
    assert!(!evaluate(&keyed).unwrap().unauthenticated_off_box());

    let mut external = config_for(Some(Profile::External), "0.0.0.0");
    external.cors_allowed_origins = vec![];
    assert!(auth_outcome(&external).is_fail());
    assert!(!evaluate(&external).unwrap().unauthenticated_off_box());
}

#[test]
fn an_admin_api_with_no_admin_key_is_closed_rather_than_open() {
    let mut c = config_for(Some(Profile::Internal), "0.0.0.0");
    c.cors_allowed_origins = vec![];
    with_key(&mut c, Role::Writer);

    let outcome = outcome_for(&c, "admin_api");
    assert!(matches!(outcome, Outcome::Warn(_)));
    assert!(
        outcome.message().contains("no key holds node-admin"),
        "expected the missing capability to be named, got: {}",
        outcome.message()
    );
    assert!(
        !outcome.message().contains("unauthenticated"),
        "an authenticated node must not be described as unauthenticated: {}",
        outcome.message()
    );
}

#[test]
fn auth_enabled_without_a_key_refuses_to_start() {
    let mut c = config_for(Some(Profile::Local), "127.0.0.1");
    c.security_enabled = true;
    c.keyring = Ok(Keyring {
        enabled: true,
        empty: true,
        node_admin: false,
        write: false,
        index_admin: false,
        summary: "no keys".to_string(),
    });
    let outcome = auth_outcome(&c);
    assert!(outcome.is_fail(), "{:?}", outcome);
    assert!(outcome.message().contains("no keys"), "{:?}", outcome);
}

#[test]
fn a_broken_security_section_fails_the_rule_rather_than_being_reported_as_keys() {
    let mut c = config_for(Some(Profile::Local), "127.0.0.1");
    c.security_enabled = true;
    c.keyring = Err("key_hash 'not-a-digest' is not a digest".to_string());
    let outcome = auth_outcome(&c);
    assert!(outcome.is_fail(), "{:?}", outcome);
    assert!(outcome.message().contains("unusable"), "{:?}", outcome);
}

#[test]
fn configured_keys_pass_and_unblock_the_external_profile() {
    let mut c = config_for(Some(Profile::Local), "127.0.0.1");
    with_key(&mut c, Role::Admin);
    let outcome = auth_outcome(&c);
    assert!(matches!(outcome, Outcome::Pass(_)), "{:?}", outcome);
    assert!(outcome.message().contains("1 key (1 admin)"), "{:?}", outcome);

    let mut external = config_for(Some(Profile::External), "0.0.0.0");
    external.cors_allowed_origins = vec![];
    external.admin_enabled = false;
    external.tls_enabled = true;
    with_key(&mut external, Role::Admin);
    let posture = evaluate(&external).unwrap();
    assert_eq!(posture.failures().len(), 0, "{}", posture.render());
}

#[test]
fn a_read_only_key_ring_is_called_out() {
    let mut c = config_for(Some(Profile::Local), "127.0.0.1");
    with_key(&mut c, Role::Reader);
    let outcome = auth_outcome(&c);
    assert!(matches!(outcome, Outcome::Warn(_)), "{:?}", outcome);
    assert!(outcome.message().contains("read-only"), "{:?}", outcome);
}

#[test]
fn a_scoped_key_no_longer_needs_a_warning_of_its_own() {
    let mut c = config_for(Some(Profile::Local), "127.0.0.1");
    with_key(&mut c, Role::Admin);
    let outcome = auth_outcome(&c);
    assert!(matches!(outcome, Outcome::Pass(_)), "{:?}", outcome);
    assert!(!outcome.message().contains("/mcp"), "{:?}", outcome);
}

#[test]
fn an_admin_key_settles_the_off_box_admin_api_warning() {
    let mut c = config_for(Some(Profile::Internal), "0.0.0.0");
    c.cors_allowed_origins = vec![];
    c.admin_enabled = true;
    assert!(matches!(outcome_for(&c, "admin_api"), Outcome::Warn(_)));

    with_key(&mut c, Role::Admin);
    assert!(
        matches!(outcome_for(&c, "admin_api"), Outcome::Pass(_)),
        "{:?}",
        outcome_for(&c, "admin_api")
    );
}

#[test]
fn plaintext_warning_names_the_keys_once_there_are_any() {
    let mut c = config_for(Some(Profile::Internal), "0.0.0.0");
    c.cors_allowed_origins = vec![];
    assert!(!outcome_for(&c, "tls").message().contains("API key"));

    with_key(&mut c, Role::Writer);
    assert!(outcome_for(&c, "tls").message().contains("API key"), "{:?}", outcome_for(&c, "tls"));
}

#[test]
fn limits_ceiling_catches_concurrency_times_body_size() {
    let mut c = config_for(Some(Profile::Internal), "0.0.0.0");
    c.cors_allowed_origins = vec![];
    // 128 × (512 + 64) MB = 73 728 MB, past the 64 GB internal ceiling.
    c.max_body_size_mb = 512 + 64;
    c.max_concurrent_requests = 128;
    let limits = outcome_for(&c, "limits");
    assert!(limits.is_fail(), "{:?}", limits);
}

#[test]
fn limits_warns_when_in_flight_data_outgrows_the_memory_budget() {
    let mut c = config_for(Some(Profile::Internal), "0.0.0.0");
    c.cors_allowed_origins = vec![];
    // 128 × (128 + 64) MB = 24 576 MB: under the 64 GB ceiling, over the memory budget.
    c.max_body_size_mb = 128 + 64;
    c.max_concurrent_requests = 128;
    c.total_memory_limit_mb = 2048;
    let internal = outcome_for(&c, "limits");
    assert!(matches!(internal, Outcome::Warn(_)), "{:?}", internal);
    assert!(internal.message().contains("2048 MB"), "{:?}", internal);

    c.profile = Some(Profile::Local);
    c.bind_address = "127.0.0.1".to_string();
    let local = outcome_for(&c, "limits");
    assert!(matches!(local, Outcome::Pass(_)), "{:?}", local);
}

#[test]
fn loopback_detection_does_not_resolve_dns() {
    assert!(is_loopback_bind("127.0.0.1"));
    assert!(is_loopback_bind("::1"));
    assert!(is_loopback_bind("localhost"));
    assert!(!is_loopback_bind("0.0.0.0"));
    assert!(!is_loopback_bind("::"));
    assert!(!is_loopback_bind("10.0.0.5"));
    // Would resolve to loopback on many machines; still treated as reachable so the
    // posture cannot change meaning between restarts.
    assert!(!is_loopback_bind("my-host.local"));
}

#[test]
fn default_config_starts_clean_on_loopback() {
    let mut c = config_for(None, "");
    c.bind_address = "127.0.0.1".to_string();
    let posture = evaluate(&c).unwrap();
    assert_eq!(posture.failures().len(), 0, "{}", posture.render());
}

#[test]
fn a_profile_is_read_in_any_case() {
    assert_eq!(Profile::parse("  LoCaL \n"), Ok(Profile::Local));
    assert_eq!(Profile::parse("internal"), Ok(Profile::Internal));
    assert_eq!(Profile::parse(Profile::External.as_str()), Ok(Profile::External));
    assert_eq!(
        Profile::parse(" Open "),
        Err("unknown profile 'open' (expected one of: local, internal, external)".to_string())
    );
}

#[test]
fn a_declared_profile_wins_over_the_bind() {
    assert_eq!(
        resolve_profile(&config_for(Some(Profile::External), "127.0.0.1")),
        Ok((Profile::External, false))
    );
    assert_eq!(resolve_profile(&config_for(None, " LOCALHOST ")), Ok((Profile::Local, true)));
    assert_eq!(
        resolve_profile(&config_for(None, "10.0.0.5")),
        Err(
            "no security profile declared and bind_address '10.0.0.5' is reachable from other \
             hosts.\nSet `profile` under [node] to one of:\n  local    — reachable only from this \
             machine, permissive\n  internal — trusted network: explicit CORS origins, cluster PSK \
             required\n  external — untrusted network: TLS required, admin endpoints off, auth \
             required"
                .to_string()
        )
    );
}

#[test]
fn the_mode_of_a_key_file_is_shown_in_octal() {
    let file = NodeKeyFile::Mode { mode: 0o100644, path: "/d/k".to_string() };
    assert_eq!(
        node_key_outcome(Profile::Local, &file).message(),
        "node_identity.json is 0644; the node's private key is readable by other local accounts. \
         chmod 600 /d/k"
    );
    assert_eq!(
        node_key_outcome(Profile::Internal, &file).message(),
        "node_identity.json is 0644; this key is the node's cluster identity and is readable \
         beyond its owner. chmod 600 /d/k"
    );
    let tight = NodeKeyFile::Mode { mode: 0o100700, path: "/d/k".to_string() };
    assert_eq!(
        node_key_outcome(Profile::External, &tight).message(),
        "node_identity.json is 0700 (owner only)"
    );
}

#[test]
fn a_posture_is_shown_rule_by_rule() {
    let mut c = config_for(None, "127.0.0.1");
    c.audit_enabled = true;
    c.audit_file = Some("/var/log/audit".to_string());
    let shown = evaluate(&c).unwrap().render();
    let lines: Vec<&str> = shown.lines().collect();
    assert_eq!(
        lines[0],
        "Security profile: local (inferred from a loopback bind address; declare it with \
         `profile` under [node])"
    );
    assert_eq!(lines[1], "  [PASS] bind             127.0.0.1 (loopback only)");
    assert_eq!(lines[5], "  [PASS] audit_trail      audit trail to /var/log/audit");
    assert_eq!(lines.len(), 10);
    assert_eq!(
        lines[9],
        "  [PASS] limits           128 concurrent × 128 MB body = 16384 MB worst case in flight"
    );
}

#[test]
fn what_starts_on_an_untrusted_network_starts_on_a_trusted_one() {
    let mut c = config_for(Some(Profile::External), "0.0.0.0");
    c.admin_enabled = false;
    c.tls_enabled = true;
    c.cluster_enabled = true;
    c.has_psk = true;
    with_key(&mut c, Role::Admin);
    assert_eq!(evaluate(&c).unwrap().failures().len(), 0);
    c.profile = Some(Profile::Internal);
    assert_eq!(evaluate(&c).unwrap().failures().len(), 0);
}

#[test]
fn a_product_too_large_to_count_is_over_every_ceiling() {
    let mut c = config_for(Some(Profile::Internal), "0.0.0.0");
    c.max_concurrent_requests = usize::MAX;
    c.max_body_size_mb = 2;
    assert!(outcome_for(&c, "limits").is_fail());
    c.profile = Some(Profile::Local);
    assert!(!outcome_for(&c, "limits").is_fail());
}

#[test]
fn warnings_and_failures_are_kept_apart() {
    let posture = evaluate(&config_for(Some(Profile::External), "0.0.0.0")).unwrap();
    let failed: Vec<&str> = posture.failures().iter().map(|c| c.rule).collect();
    let warned: Vec<&str> = posture.warnings().iter().map(|c| c.rule).collect();
    assert_eq!(failed, vec!["tls", "admin_api", "auth"]);
    assert_eq!(warned, vec!["audit_trail", "limits"]);
    assert_eq!(posture.checks[1].outcome.marker(), "FAIL");
}
