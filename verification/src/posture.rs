//! Security posture presets.
//!
//! A deployment declares where it sits on the network, and every rule that goes with that answer is
//! held against its configuration. Presets assert, they never rewrite: every value stays as it was
//! written, and the preset decides which combinations are allowed.

use vstd::prelude::*;
use vstd::string::*;
use crate::{errors, ip, text};
use crate::ip::reads_as_loopback;
use crate::text::{count_text, lower_text, same_text, trim_text};

verus! {

// ---------------------------------------------------------------------------
// Profiles
// ---------------------------------------------------------------------------

/// Where a node sits on the network. The rules get stricter as the reach widens.
#[derive(Debug, Clone, Copy, PartialEq, Eq, Structural)]
pub enum Profile {
    /// Reachable only from this machine.
    Local,
    /// Reachable on a trusted network, but not from the internet.
    Internal,
    /// Reachable from an untrusted network.
    External,
}

/// The name of a profile.
pub open spec fn profile_name(profile: Profile) -> Seq<char> {
    match profile {
        Profile::Local => "local"@,
        Profile::Internal => "internal"@,
        Profile::External => "external"@,
    }
}

/// The profile of a name.
pub open spec fn profile_named(name: Seq<char>) -> Option<Profile> {
    if name == "local"@ {
        Some(Profile::Local)
    } else if name == "internal"@ {
        Some(Profile::Internal)
    } else if name == "external"@ {
        Some(Profile::External)
    } else {
        None
    }
}

impl Profile {
    /// The name of the profile.
    pub fn as_str(self) -> (name: &'static str)
        ensures
            name@ == profile_name(self),
    {
        match self {
            Profile::Local => "local",
            Profile::Internal => "internal",
            Profile::External => "external",
        }
    }

    /// The profile of a name, in whatever case and with whatever space around it.
    pub fn parse(s: &str) -> (profile: Result<Profile, String>)
        ensures
            match profile {
                Ok(p) => profile_named(text::lowered(text::trimmed(s@))) == Some(p),
                Err(message) => profile_named(text::lowered(text::trimmed(s@))) is None && message@
                    == "unknown profile '"@ + text::lowered(text::trimmed(s@))
                    + "' (expected one of: local, internal, external)"@,
            },
    {
        let name: String = lower_text(trim_text(s).as_str());
        if same_text(name.as_str(), "local") {
            Ok(Profile::Local)
        } else if same_text(name.as_str(), "internal") {
            Ok(Profile::Internal)
        } else if same_text(name.as_str(), "external") {
            Ok(Profile::External)
        } else {
            let mut message: String = String::from_str("unknown profile '");
            message.append(name.as_str());
            message.append("' (expected one of: local, internal, external)");
            Err(message)
        }
    }
}

/// Every profile is read back from its name.
pub proof fn law_a_profile_is_read_back(profile: Profile)
    ensures
        profile_named(text::lowered(text::trimmed(profile_name(profile)))) == Some(profile),
{
    reveal_strlit("local");
    reveal_strlit("internal");
    reveal_strlit("external");
    let name = profile_name(profile);
    assert(!text::is_space(name[0]) && !text::is_space(name[name.len() - 1]));
    assert(text::after_space(name, 0) == 0);
    assert(text::before_space(name, name.len() as int) == name.len());
    assert(text::trimmed(name) =~= name);
    assert forall|i: int| 0 <= i < name.len() implies text::small(#[trigger] name[i]) == name[i] by {}
    assert(text::lowered(name) =~= name);
    if profile == Profile::External {
        assert("external"@.len() == 8 && "internal"@.len() == 8 && "local"@.len() == 5);
        assert("external"@[0] == 'e' && "internal"@[0] == 'i');
    }
}

// ---------------------------------------------------------------------------
// Outcomes
// ---------------------------------------------------------------------------

/// What one rule comes to.
#[derive(Debug, PartialEq, Eq)]
pub enum Outcome {
    Pass(String),
    /// Allowed, but the operator should know. Never blocks startup.
    Warn(String),
    /// Blocks startup.
    Fail(String),
}

/// What one rule comes to, as a value of the model.
pub enum OutcomeV {
    Pass(Seq<char>),
    Warn(Seq<char>),
    Fail(Seq<char>),
}

impl View for Outcome {
    type V = OutcomeV;

    open spec fn view(&self) -> OutcomeV {
        match *self {
            Outcome::Pass(m) => OutcomeV::Pass(m@),
            Outcome::Warn(m) => OutcomeV::Warn(m@),
            Outcome::Fail(m) => OutcomeV::Fail(m@),
        }
    }
}

/// The word that a rule's outcome is marked with.
pub open spec fn marker_of(outcome: OutcomeV) -> Seq<char> {
    match outcome {
        OutcomeV::Pass(_) => "PASS"@,
        OutcomeV::Warn(_) => "WARN"@,
        OutcomeV::Fail(_) => "FAIL"@,
    }
}

/// What a rule's outcome says.
pub open spec fn message_of(outcome: OutcomeV) -> Seq<char> {
    match outcome {
        OutcomeV::Pass(m) => m,
        OutcomeV::Warn(m) => m,
        OutcomeV::Fail(m) => m,
    }
}

impl Outcome {
    /// Whether the outcome blocks startup.
    pub fn is_fail(&self) -> (fails: bool)
        ensures
            fails == self@ is Fail,
    {
        match self {
            Outcome::Fail(_) => true,
            _ => false,
        }
    }

    /// The word that the outcome is marked with.
    pub fn marker(&self) -> (marker: &'static str)
        ensures
            marker@ == marker_of(self@),
    {
        match self {
            Outcome::Pass(_) => "PASS",
            Outcome::Warn(_) => "WARN",
            Outcome::Fail(_) => "FAIL",
        }
    }

    /// What the outcome says.
    pub fn message(&self) -> (message: &str)
        ensures
            message@ == message_of(self@),
    {
        match self {
            Outcome::Pass(m) => m.as_str(),
            Outcome::Warn(m) => m.as_str(),
            Outcome::Fail(m) => m.as_str(),
        }
    }
}

/// An outcome that passes.
fn pass(message: &str) -> (outcome: Outcome)
    ensures
        outcome@ == OutcomeV::Pass(message@),
{
    Outcome::Pass(String::from_str(message))
}

/// An outcome that warns.
fn warn(message: &str) -> (outcome: Outcome)
    ensures
        outcome@ == OutcomeV::Warn(message@),
{
    Outcome::Warn(String::from_str(message))
}

/// An outcome that fails.
fn fail(message: &str) -> (outcome: Outcome)
    ensures
        outcome@ == OutcomeV::Fail(message@),
{
    Outcome::Fail(String::from_str(message))
}

/// One named rule and how a configuration fared against it.
#[derive(Debug, PartialEq, Eq)]
pub struct Check {
    pub rule: &'static str,
    pub outcome: Outcome,
}

/// Rules and their outcomes, as values of the model.
pub open spec fn check_models(checks: Seq<Check>) -> Seq<(Seq<char>, OutcomeV)> {
    checks.map_values(|check: Check| (check.rule@, check.outcome@))
}

// ---------------------------------------------------------------------------
// What is judged
// ---------------------------------------------------------------------------

/// The keys that a node holds.
#[derive(Debug, PartialEq, Eq)]
pub struct Keyring {
    /// Whether requests are authenticated at all.
    pub enabled: bool,
    /// Whether there is no key.
    pub empty: bool,
    /// Whether some key may administer the node.
    pub node_admin: bool,
    /// Whether some key may write.
    pub write: bool,
    /// Whether some key may administer indexes.
    pub index_admin: bool,
    /// How many keys of which roles there are, in words.
    pub summary: String,
}

/// What is known of the file that holds a node's private key.
#[derive(Debug, PartialEq, Eq)]
pub enum NodeKeyFile {
    /// No path for data is configured.
    NoDataPath,
    /// The file has not been written yet.
    NotWritten,
    /// The file has this mode and this path.
    Mode { mode: u32, path: String },
    /// The platform has no modes.
    Unsupported,
}

/// What the rules read of a configuration.
#[derive(Debug, PartialEq, Eq)]
pub struct PostureConfig {
    /// The profile that is declared, if one is.
    pub profile: Option<Profile>,
    pub bind_address: String,
    pub tls_enabled: bool,
    pub cors_allowed_origins: Vec<String>,
    pub admin_enabled: bool,
    pub max_concurrent_requests: usize,
    /// The largest request body that is taken.
    pub max_body_size_mb: usize,
    /// Whether authentication is asked for.
    pub security_enabled: bool,
    /// The keys, or why they cannot be read.
    pub keyring: Result<Keyring, String>,
    pub audit_enabled: bool,
    pub audit_file: Option<String>,
    pub cluster_enabled: bool,
    pub has_psk: bool,
    pub node_key: NodeKeyFile,
    pub total_memory_limit_mb: usize,
}

/// Whether an address can only be reached from this machine. A name other than `localhost` counts as
/// reachable: to resolve it would make the answer depend on when it is asked.
pub open spec fn binds_loopback(address: Seq<char>) -> bool {
    text::lowered(text::trimmed(address)) == "localhost"@ || ip::is_loopback_address(text::trimmed(address))
}

/// Whether an address can only be reached from this machine.
pub fn is_loopback_bind(addr: &str) -> (loopback: bool)
    ensures
        loopback == binds_loopback(addr@),
{
    let inner: String = trim_text(addr);
    same_text(lower_text(inner.as_str()).as_str(), "localhost") || reads_as_loopback(
        inner.as_str(),
    )
}

/// What is said of a reachable node that declares no profile.
pub open spec fn undeclared(address: Seq<char>) -> Seq<char> {
    "no security profile declared and bind_address '"@ + address
        + "' is reachable from other hosts.\nSet `profile` under [node] to one of:\n  local    — reachable only from this machine, permissive\n  internal — trusted network: explicit CORS origins, cluster PSK required\n  external — untrusted network: TLS required, admin endpoints off, auth required"@
}

/// The profile of a configuration, and whether it was inferred.
pub open spec fn resolved(config: PostureConfig) -> Option<(Profile, bool)> {
    match config.profile {
        Some(declared) => Some((declared, false)),
        None => if binds_loopback(config.bind_address@) {
            Some((Profile::Local, true))
        } else {
            None
        },
    }
}

/// Resolves the profile: a declared one wins, and a node that only this machine can reach is local.
/// Any other node must say what it is.
pub fn resolve_profile(config: &PostureConfig) -> (profile: Result<(Profile, bool), String>)
    ensures
        match profile {
            Ok(p) => resolved(*config) == Some(p),
            Err(message) => resolved(*config) is None && message@ == undeclared(
                config.bind_address@,
            ),
        },
{
    if let Some(declared) = config.profile {
        return Ok((declared, false));
    }
    if is_loopback_bind(config.bind_address.as_str()) {
        Ok((Profile::Local, true))
    } else {
        let mut message: String = String::from_str(
            "no security profile declared and bind_address '",
        );
        message.append(config.bind_address.as_str());
        message.append(
            "' is reachable from other hosts.\nSet `profile` under [node] to one of:\n  local    — reachable only from this machine, permissive\n  internal — trusted network: explicit CORS origins, cluster PSK required\n  external — untrusted network: TLS required, admin endpoints off, auth required",
        );
        Err(message)
    }
}

// ---------------------------------------------------------------------------
// Reach
// ---------------------------------------------------------------------------

/// The rule on the bind address.
pub open spec fn bind_rule(profile: Profile, address: Seq<char>) -> OutcomeV {
    if binds_loopback(address) {
        OutcomeV::Pass(address + " (loopback only)"@)
    } else if profile == Profile::Local {
        OutcomeV::Fail(
            "profile 'local' requires a loopback bind_address, found '"@ + address
                + "'. Use 127.0.0.1, or declare profile 'internal'/'external'"@,
        )
    } else {
        OutcomeV::Pass(address + " (reachable off-box)"@)
    }
}

fn check_bind(profile: Profile, loopback: bool, address: &str) -> (outcome: Outcome)
    requires
        loopback == binds_loopback(address@),
    ensures
        outcome@ == bind_rule(profile, address@),
{
    if loopback {
        let mut message: String = String::from_str(address);
        message.append(" (loopback only)");
        return Outcome::Pass(message);
    }
    match profile {
        Profile::Local => {
            let mut message: String = String::from_str(
                "profile 'local' requires a loopback bind_address, found '",
            );
            message.append(address);
            message.append("'. Use 127.0.0.1, or declare profile 'internal'/'external'");
            Outcome::Fail(message)
        },
        _ => {
            let mut message: String = String::from_str(address);
            message.append(" (reachable off-box)");
            Outcome::Pass(message)
        },
    }
}

/// The rule on TLS.
pub open spec fn tls_rule(profile: Profile, tls: bool, security: bool) -> OutcomeV {
    if tls {
        OutcomeV::Pass("HTTPS enabled"@)
    } else {
        match profile {
            Profile::External => OutcomeV::Fail(
                "profile 'external' requires TLS. Set [network.http.tls] enabled = true with cert_file and key_file"@,
            ),
            Profile::Internal => if security {
                OutcomeV::Warn(
                    "plaintext HTTP on a network-reachable bind; every API key travels in the clear and can be replayed by anyone on the path"@,
                )
            } else {
                OutcomeV::Warn(
                    "plaintext HTTP on a network-reachable bind; traffic travels in the clear"@,
                )
            },
            Profile::Local => OutcomeV::Pass("plaintext (loopback only)"@),
        }
    }
}

fn check_tls(profile: Profile, tls: bool, security: bool) -> (outcome: Outcome)
    ensures
        outcome@ == tls_rule(profile, tls, security),
{
    if tls {
        return pass("HTTPS enabled");
    }
    match profile {
        Profile::External => fail(
            "profile 'external' requires TLS. Set [network.http.tls] enabled = true with cert_file and key_file",
        ),
        Profile::Internal => if security {
            warn(
                "plaintext HTTP on a network-reachable bind; every API key travels in the clear and can be replayed by anyone on the path",
            )
        } else {
            warn("plaintext HTTP on a network-reachable bind; traffic travels in the clear")
        },
        Profile::Local => pass("plaintext (loopback only)"),
    }
}

/// The rule on origins that browsers may call from.
pub open spec fn cors_rule(profile: Profile, origins: Seq<Seq<char>>) -> OutcomeV {
    if origins.contains("*"@) {
        if profile == Profile::Local {
            OutcomeV::Warn(
                "any origin allowed (\"*\"); any web page you visit can call this node"@,
            )
        } else {
            OutcomeV::Fail(
                "profile '"@ + profile_name(profile)
                    + "' does not allow cors_allowed_origins = [\"*\"]. List the origins that need browser access, or use [] to refuse cross-origin requests entirely"@,
            )
        }
    } else if origins.len() == 0 {
        OutcomeV::Pass("no cross-origin browser access"@)
    } else {
        OutcomeV::Pass(text::decimal(origins.len()) + " explicit origin(s)"@)
    }
}

fn check_cors(profile: Profile, origins: &Vec<String>) -> (outcome: Outcome)
    ensures
        outcome@ == cors_rule(profile, text::texts(origins@)),
{
    if crate::text::holds_text(origins, "*") {
        return match profile {
            Profile::Local => warn(
                "any origin allowed (\"*\"); any web page you visit can call this node",
            ),
            _ => {
                let mut message: String = String::from_str("profile '");
                message.append(profile.as_str());
                message.append(
                    "' does not allow cors_allowed_origins = [\"*\"]. List the origins that need browser access, or use [] to refuse cross-origin requests entirely",
                );
                Outcome::Fail(message)
            },
        };
    }
    assert(text::texts(origins@).len() == origins@.len());
    if origins.len() == 0 {
        pass("no cross-origin browser access")
    } else {
        let mut message: String = count_text(origins.len());
        message.append(" explicit origin(s)");
        Outcome::Pass(message)
    }
}

// ---------------------------------------------------------------------------
// Access
// ---------------------------------------------------------------------------

/// Whether requests are authenticated.
pub open spec fn authenticates(keyring: Result<Keyring, String>) -> bool {
    match keyring {
        Ok(ring) => ring.enabled,
        Err(_) => false,
    }
}

/// Whether requests are authenticated and some key may administer the node.
pub open spec fn has_admin_key(keyring: Result<Keyring, String>) -> bool {
    match keyring {
        Ok(ring) => ring.enabled && ring.node_admin,
        Err(_) => false,
    }
}

/// The rule on the administrative endpoints.
pub open spec fn admin_rule(
    profile: Profile,
    admin: bool,
    loopback: bool,
    keyring: Result<Keyring, String>,
) -> OutcomeV {
    if !admin {
        OutcomeV::Pass("/_admin/* disabled"@)
    } else if profile == Profile::External {
        OutcomeV::Fail(
            "profile 'external' requires admin endpoints to be disabled: they allow memory purges and writer eviction. Set [network.http] admin_enabled = false"@,
        )
    } else if loopback {
        OutcomeV::Pass("/_admin/* enabled (loopback only)"@)
    } else if has_admin_key(keyring) {
        OutcomeV::Pass("/_admin/* reachable off-box, gated on a key holding node-admin"@)
    } else if authenticates(keyring) {
        OutcomeV::Warn(
            "/_admin/* is reachable off-box and no key holds node-admin, so nothing can call it. Mint one with `cameodb keygen --role admin`, or set [network.http] admin_enabled = false"@,
        )
    } else {
        OutcomeV::Warn(
            "/_admin/* is reachable off-box and unauthenticated: memory purge, forced commit and writer eviction are open to anyone who can reach the port"@,
        )
    }
}

fn check_admin(profile: Profile, admin: bool, loopback: bool, keyring: &Result<Keyring, String>) -> (
    outcome: Outcome)
    ensures
        outcome@ == admin_rule(profile, admin, loopback, *keyring),
{
    if !admin {
        return pass("/_admin/* disabled");
    }
    if let Profile::External = profile {
        return fail(
            "profile 'external' requires admin endpoints to be disabled: they allow memory purges and writer eviction. Set [network.http] admin_enabled = false",
        );
    }
    if loopback {
        return pass("/_admin/* enabled (loopback only)");
    }
    let (enabled, node_admin): (bool, bool) = match keyring {
        Ok(ring) => (ring.enabled, ring.node_admin),
        Err(_) => (false, false),
    };
    if enabled && node_admin {
        pass("/_admin/* reachable off-box, gated on a key holding node-admin")
    } else if enabled {
        warn(
            "/_admin/* is reachable off-box and no key holds node-admin, so nothing can call it. Mint one with `cameodb keygen --role admin`, or set [network.http] admin_enabled = false",
        )
    } else {
        warn(
            "/_admin/* is reachable off-box and unauthenticated: memory purge, forced commit and writer eviction are open to anyone who can reach the port",
        )
    }
}

/// The rule on the record of who did what. Its absence endangers nothing in flight, so it never
/// fails.
pub open spec fn audit_rule(profile: Profile, enabled: bool, file: Option<Seq<char>>) -> OutcomeV {
    if enabled {
        match file {
            Some(path) => OutcomeV::Pass("audit trail to "@ + path),
            None => if profile == Profile::External {
                OutcomeV::Warn(
                    "audit trail is in-memory only; it is lost on restart and cannot be read after a crash. Set [security.audit] file to keep one"@,
                )
            } else {
                OutcomeV::Pass("audit trail enabled (in-memory, /_admin/audit)"@)
            },
        }
    } else if profile == Profile::External {
        OutcomeV::Warn(
            "no audit trail: this node cannot say who read which index. Set [security.audit] enabled = true"@,
        )
    } else {
        OutcomeV::Pass("audit trail disabled"@)
    }
}

fn check_audit(profile: Profile, enabled: bool, file: &Option<String>) -> (outcome: Outcome)
    ensures
        outcome@ == audit_rule(profile, enabled, errors::opt_text(*file)),
{
    let external: bool = match profile {
        Profile::External => true,
        _ => false,
    };
    if enabled {
        match file {
            Some(path) => {
                let mut message: String = String::from_str("audit trail to ");
                message.append(path.as_str());
                Outcome::Pass(message)
            },
            None => if external {
                warn(
                    "audit trail is in-memory only; it is lost on restart and cannot be read after a crash. Set [security.audit] file to keep one",
                )
            } else {
                pass("audit trail enabled (in-memory, /_admin/audit)")
            },
        }
    } else if external {
        warn(
            "no audit trail: this node cannot say who read which index. Set [security.audit] enabled = true",
        )
    } else {
        pass("audit trail disabled")
    }
}

/// The rule on the key that the nodes of a cluster share.
pub open spec fn psk_rule(profile: Profile, cluster: bool, psk: bool) -> OutcomeV {
    if !cluster {
        OutcomeV::Pass("single node; cluster disabled"@)
    } else if psk {
        OutcomeV::Pass("pre-shared key configured"@)
    } else if profile == Profile::Local {
        OutcomeV::Warn("cluster enabled without a PSK; any libp2p node can join"@)
    } else {
        OutcomeV::Fail(
            "profile '"@ + profile_name(profile)
                + "' requires a cluster pre-shared key when the cluster is enabled. Set [network.cluster] psk_file (preferred) or psk"@,
        )
    }
}

fn check_psk(profile: Profile, cluster: bool, psk: bool) -> (outcome: Outcome)
    ensures
        outcome@ == psk_rule(profile, cluster, psk),
{
    if !cluster {
        return pass("single node; cluster disabled");
    }
    if psk {
        return pass("pre-shared key configured");
    }
    match profile {
        Profile::Local => warn("cluster enabled without a PSK; any libp2p node can join"),
        _ => {
            let mut message: String = String::from_str("profile '");
            message.append(profile.as_str());
            message.append(
                "' requires a cluster pre-shared key when the cluster is enabled. Set [network.cluster] psk_file (preferred) or psk",
            );
            Outcome::Fail(message)
        },
    }
}

/// The permission bits of a mode in octal, in four digits.
pub open spec fn octal(mode: u32) -> Seq<char> {
    seq![
        '0',
        text::digit_char((mode / 64 % 8) as nat),
        text::digit_char((mode / 8 % 8) as nat),
        text::digit_char((mode % 8) as nat),
    ]
}

/// A digit.
fn digit(n: u32) -> (c: char)
    requires
        n < 8,
    ensures
        c == text::digit_char(n as nat),
{
    if n == 0 {
        '0'
    } else if n == 1 {
        '1'
    } else if n == 2 {
        '2'
    } else if n == 3 {
        '3'
    } else if n == 4 {
        '4'
    } else if n == 5 {
        '5'
    } else if n == 6 {
        '6'
    } else {
        '7'
    }
}

/// The rule on the file that holds the node's private key: what its mode lets others read. It never
/// fails, because the file may be managed from outside.
pub open spec fn node_key_rule(profile: Profile, file: NodeKeyFile) -> OutcomeV {
    match file {
        NodeKeyFile::NoDataPath => OutcomeV::Pass("no data path configured"@),
        NodeKeyFile::NotWritten => OutcomeV::Pass("no node identity written yet"@),
        NodeKeyFile::Unsupported => OutcomeV::Pass(
            "permission check not available on this platform"@,
        ),
        NodeKeyFile::Mode { mode, path } => {
            let bits = mode % 512;
            if bits % 64 == 0 {
                OutcomeV::Pass("node_identity.json is "@ + octal(bits) + " (owner only)"@)
            } else if profile == Profile::Local {
                OutcomeV::Warn(
                    "node_identity.json is "@ + octal(bits)
                        + "; the node's private key is readable by other local accounts. chmod 600 "@
                        + path@,
                )
            } else {
                OutcomeV::Warn(
                    "node_identity.json is "@ + octal(bits)
                        + "; this key is the node's cluster identity and is readable beyond its owner. chmod 600 "@
                        + path@,
                )
            }
        },
    }
}

/// Judges the file that holds the node's private key.
pub fn node_key_outcome(profile: Profile, file: &NodeKeyFile) -> (outcome: Outcome)
    ensures
        outcome@ == node_key_rule(profile, *file),
{
    match file {
        NodeKeyFile::NoDataPath => pass("no data path configured"),
        NodeKeyFile::NotWritten => pass("no node identity written yet"),
        NodeKeyFile::Unsupported => pass("permission check not available on this platform"),
        NodeKeyFile::Mode { mode, path } => {
            let bits: u32 = *mode % 512;
            let mut message: String = String::from_str("node_identity.json is ");
            let ghost head = message@;
            message.push('0');
            message.push(digit(bits / 64 % 8));
            message.push(digit(bits / 8 % 8));
            message.push(digit(bits % 8));
            assert(message@ =~= head + octal(bits));
            if bits % 64 == 0 {
                message.append(" (owner only)");
                return Outcome::Pass(message);
            }
            match profile {
                Profile::Local => {
                    message.append(
                        "; the node's private key is readable by other local accounts. chmod 600 ",
                    );
                },
                _ => {
                    message.append(
                        "; this key is the node's cluster identity and is readable beyond its owner. chmod 600 ",
                    );
                },
            }
            message.append(path.as_str());
            Outcome::Warn(message)
        },
    }
}

/// The rule on authentication.
pub open spec fn auth_rule(
    profile: Profile,
    loopback: bool,
    keyring: Result<Keyring, String>,
) -> OutcomeV {
    match keyring {
        Err(error) => OutcomeV::Fail("[security] is unusable: "@ + error@),
        Ok(ring) => if !ring.enabled {
            match profile {
                Profile::External => OutcomeV::Fail(
                    "profile 'external' requires authentication. Set [security] enabled = true and configure at least one key with `cameodb keygen --role admin`"@,
                ),
                Profile::Internal => if !loopback {
                    OutcomeV::Warn(
                        "all HTTP and MCP endpoints are unauthenticated; anyone who can reach the port can read, write, and delete. Set [security] enabled = true and mint a key with `cameodb keygen --role admin`, or declare profile = \"local\" and bind loopback if nothing off-box should reach it"@,
                    )
                } else {
                    OutcomeV::Warn(
                        "all HTTP and MCP endpoints are unauthenticated; the bind is loopback, so only this machine can reach them"@,
                    )
                },
                Profile::Local => OutcomeV::Pass("unauthenticated (loopback only)"@),
            }
        } else if ring.empty {
            OutcomeV::Fail(
                "[security] enabled = true but no keys are configured, so nothing could ever authenticate and every request would be refused. Mint one with `cameodb keygen --role admin`, or set enabled = false"@,
            )
        } else if !ring.write && !ring.index_admin {
            OutcomeV::Warn(
                ring.summary@
                    + " enforced; no key holds write or index-admin, so this node is read-only"@,
            )
        } else {
            OutcomeV::Pass(ring.summary@ + " enforced on every route"@)
        },
    }
}

fn check_auth(profile: Profile, loopback: bool, keyring: &Result<Keyring, String>) -> (outcome:
    Outcome)
    ensures
        outcome@ == auth_rule(profile, loopback, *keyring),
{
    match keyring {
        Err(error) => {
            let mut message: String = String::from_str("[security] is unusable: ");
            message.append(error.as_str());
            Outcome::Fail(message)
        },
        Ok(ring) => if !ring.enabled {
            match profile {
                Profile::External => fail(
                    "profile 'external' requires authentication. Set [security] enabled = true and configure at least one key with `cameodb keygen --role admin`",
                ),
                Profile::Internal => if !loopback {
                    warn(
                        "all HTTP and MCP endpoints are unauthenticated; anyone who can reach the port can read, write, and delete. Set [security] enabled = true and mint a key with `cameodb keygen --role admin`, or declare profile = \"local\" and bind loopback if nothing off-box should reach it",
                    )
                } else {
                    warn(
                        "all HTTP and MCP endpoints are unauthenticated; the bind is loopback, so only this machine can reach them",
                    )
                },
                Profile::Local => pass("unauthenticated (loopback only)"),
            }
        } else if ring.empty {
            fail(
                "[security] enabled = true but no keys are configured, so nothing could ever authenticate and every request would be refused. Mint one with `cameodb keygen --role admin`, or set enabled = false",
            )
        } else if !ring.write && !ring.index_admin {
            let mut message: String = ring.summary.clone();
            message.append(
                " enforced; no key holds write or index-admin, so this node is read-only",
            );
            Outcome::Warn(message)
        } else {
            let mut message: String = ring.summary.clone();
            message.append(" enforced on every route");
            Outcome::Pass(message)
        },
    }
}

// ---------------------------------------------------------------------------
// Resources
// ---------------------------------------------------------------------------

/// How much request data may be in flight at once, in megabytes.
pub open spec fn worst_case(concurrent: usize, body: usize) -> int {
    if concurrent * body > usize::MAX {
        usize::MAX as int
    } else {
        concurrent * body
    }
}

/// How much request data a profile allows in flight at once, in megabytes.
pub open spec fn ceiling(profile: Profile) -> int {
    match profile {
        Profile::Local => usize::MAX as int,
        Profile::Internal => 65536,
        Profile::External => 16384,
    }
}

/// What all of the messages on request data start with.
pub open spec fn in_flight_text(concurrent: usize, body: usize) -> Seq<char> {
    "max_concurrent_requests ("@ + text::decimal(concurrent as nat) + ") × body limit ("@ + text::decimal(
        body as nat,
    ) + " MB) allows "@ + text::decimal(worst_case(concurrent, body) as nat)
        + " MB of in-flight request data, over "@
}

/// The rule on request data in flight: under the ceiling of the profile, and better under what the
/// node can hold.
pub open spec fn limits_rule(
    profile: Profile,
    concurrent: usize,
    body: usize,
    budget: usize,
) -> OutcomeV {
    let worst = worst_case(concurrent, body);
    if worst > ceiling(profile) {
        OutcomeV::Fail(
            in_flight_text(concurrent, body) + "the "@ + text::decimal(ceiling(profile) as nat)
                + " MB ceiling for profile '"@ + profile_name(profile)
                + "'. Lower network.http.max_concurrent_requests or limits.max_record_size_mb"@,
        )
    } else if profile != Profile::Local && worst > budget {
        OutcomeV::Warn(
            in_flight_text(concurrent, body) + "this node's limits.total_memory_limit_mb ("@
                + text::decimal(budget as nat)
                + " MB). Lower network.http.max_concurrent_requests or limits.max_record_size_mb, or raise the memory limit"@,
        )
    } else {
        OutcomeV::Pass(
            text::decimal(concurrent as nat) + " concurrent × "@ + text::decimal(body as nat) + " MB body = "@
                + text::decimal(worst as nat) + " MB worst case in flight"@,
        )
    }
}

/// What all of the messages on request data start with.
fn tell_in_flight(concurrent: usize, body: usize, worst: usize) -> (message: String)
    requires
        worst == worst_case(concurrent, body),
    ensures
        message@ == in_flight_text(concurrent, body),
{
    let mut message: String = String::from_str("max_concurrent_requests (");
    message.append(count_text(concurrent).as_str());
    message.append(") × body limit (");
    message.append(count_text(body).as_str());
    message.append(" MB) allows ");
    message.append(count_text(worst).as_str());
    message.append(" MB of in-flight request data, over ");
    message
}

fn check_limits(profile: Profile, concurrent: usize, body: usize, budget: usize) -> (outcome: Outcome)
    ensures
        outcome@ == limits_rule(profile, concurrent, body, budget),
{
    let worst: usize = match concurrent.checked_mul(body) {
        Some(product) => product,
        None => usize::MAX,
    };
    let allowed: usize = match profile {
        Profile::Local => usize::MAX,
        Profile::Internal => 65536,
        Profile::External => 16384,
    };
    let local: bool = match profile {
        Profile::Local => true,
        _ => false,
    };
    if worst > allowed {
        let mut message: String = tell_in_flight(concurrent, body, worst);
        message.append("the ");
        message.append(count_text(allowed).as_str());
        message.append(" MB ceiling for profile '");
        message.append(profile.as_str());
        message.append(
            "'. Lower network.http.max_concurrent_requests or limits.max_record_size_mb",
        );
        Outcome::Fail(message)
    } else if !local && worst > budget {
        let mut message: String = tell_in_flight(concurrent, body, worst);
        message.append("this node's limits.total_memory_limit_mb (");
        message.append(count_text(budget).as_str());
        message.append(
            " MB). Lower network.http.max_concurrent_requests or limits.max_record_size_mb, or raise the memory limit",
        );
        Outcome::Warn(message)
    } else {
        let mut message: String = count_text(concurrent);
        message.append(" concurrent × ");
        message.append(count_text(body).as_str());
        message.append(" MB body = ");
        message.append(count_text(worst).as_str());
        message.append(" MB worst case in flight");
        Outcome::Pass(message)
    }
}

// ---------------------------------------------------------------------------
// The whole posture
// ---------------------------------------------------------------------------

/// The full assessment of a configuration.
#[derive(Debug, PartialEq, Eq)]
pub struct Posture {
    pub profile: Profile,
    /// Whether the profile was inferred from the bind address rather than declared.
    pub inferred: bool,
    pub checks: Vec<Check>,
    /// Whether a node that others can reach is left unauthenticated.
    pub off_box: bool,
}

/// Every rule held against a configuration, in the order in which they are reported.
pub open spec fn judged(profile: Profile, config: PostureConfig) -> Seq<(Seq<char>, OutcomeV)> {
    let loopback = binds_loopback(config.bind_address@);
    seq![
        ("bind"@, bind_rule(profile, config.bind_address@)),
        ("tls"@, tls_rule(profile, config.tls_enabled, config.security_enabled)),
        ("cors"@, cors_rule(profile, text::texts(config.cors_allowed_origins@))),
        ("admin_api"@, admin_rule(profile, config.admin_enabled, loopback, config.keyring)),
        ("audit_trail"@, audit_rule(profile, config.audit_enabled, errors::opt_text(config.audit_file))),
        ("cluster_psk"@, psk_rule(profile, config.cluster_enabled, config.has_psk)),
        ("node_key"@, node_key_rule(profile, config.node_key)),
        ("auth"@, auth_rule(profile, loopback, config.keyring)),
        (
            "limits"@,
            limits_rule(
                profile,
                config.max_concurrent_requests,
                config.max_body_size_mb,
                config.total_memory_limit_mb,
            ),
        ),
    ]
}

/// Whether a configuration leaves a node that others can reach unauthenticated, and starts.
pub open spec fn open_off_box(profile: Profile, config: PostureConfig) -> bool {
    !binds_loopback(config.bind_address@) && !authenticates(config.keyring) && profile
        != Profile::External
}

/// Holds every rule against a configuration.
pub fn evaluate(config: &PostureConfig) -> (posture: Result<Posture, String>)
    ensures
        match posture {
            Ok(p) => {
                &&& resolved(*config) == Some((p.profile, p.inferred))
                &&& check_models(p.checks@) == judged(p.profile, *config)
                &&& p.off_box == open_off_box(p.profile, *config)
            },
            Err(message) => resolved(*config) is None && message@ == undeclared(
                config.bind_address@,
            ),
        },
{
    let (profile, inferred): (Profile, bool) = match resolve_profile(config) {
        Ok(found) => found,
        Err(message) => {
            return Err(message);
        },
    };
    let loopback: bool = is_loopback_bind(config.bind_address.as_str());
    let auth_enabled: bool = match &config.keyring {
        Ok(ring) => ring.enabled,
        Err(_) => false,
    };
    let external: bool = match profile {
        Profile::External => true,
        _ => false,
    };
    let checks: Vec<Check> = vec![
        Check {
            rule: "bind",
            outcome: check_bind(profile, loopback, config.bind_address.as_str()),
        },
        Check {
            rule: "tls",
            outcome: check_tls(profile, config.tls_enabled, config.security_enabled),
        },
        Check { rule: "cors", outcome: check_cors(profile, &config.cors_allowed_origins) },
        Check {
            rule: "admin_api",
            outcome: check_admin(profile, config.admin_enabled, loopback, &config.keyring),
        },
        Check {
            rule: "audit_trail",
            outcome: check_audit(profile, config.audit_enabled, &config.audit_file),
        },
        Check {
            rule: "cluster_psk",
            outcome: check_psk(profile, config.cluster_enabled, config.has_psk),
        },
        Check { rule: "node_key", outcome: node_key_outcome(profile, &config.node_key) },
        Check { rule: "auth", outcome: check_auth(profile, loopback, &config.keyring) },
        Check {
            rule: "limits",
            outcome: check_limits(
                profile,
                config.max_concurrent_requests,
                config.max_body_size_mb,
                config.total_memory_limit_mb,
            ),
        },
    ];
    assert(check_models(checks@) =~= judged(profile, *config));
    Ok(Posture { profile, inferred, checks, off_box: !loopback && !auth_enabled && !external })
}

/// Those of some outcomes that fail, or those that warn.
pub open spec fn outcomes_where(
    checks: Seq<(Seq<char>, OutcomeV)>,
    fails: bool,
) -> Seq<(Seq<char>, OutcomeV)>
    decreases checks.len(),
{
    if checks.len() == 0 {
        Seq::empty()
    } else {
        let before = outcomes_where(checks.drop_last(), fails);
        if (fails && checks.last().1 is Fail) || (!fails && checks.last().1 is Warn) {
            before.push(checks.last())
        } else {
            before
        }
    }
}

/// References to rules and their outcomes, as values of the model.
pub open spec fn check_refs(checks: Seq<&Check>) -> Seq<(Seq<char>, OutcomeV)> {
    checks.map_values(|check: &Check| (check.rule@, check.outcome@))
}

/// The width that a rule's name is padded to.
pub const RULE_WIDTH: usize = 16;

/// A name, padded to the width of a rule's name.
pub open spec fn padded(name: Seq<char>) -> Seq<char> {
    if name.len() >= RULE_WIDTH {
        name
    } else {
        name + Seq::new((RULE_WIDTH - name.len()) as nat, |i: int| ' ')
    }
}

/// One rule as it is shown.
pub open spec fn check_line(check: (Seq<char>, OutcomeV)) -> Seq<char> {
    "  ["@ + marker_of(check.1) + "] "@ + padded(check.0) + " "@ + message_of(check.1) + "\n"@
}

/// Rules as they are shown, one to a line.
pub open spec fn check_lines(checks: Seq<(Seq<char>, OutcomeV)>) -> Seq<char>
    decreases checks.len(),
{
    if checks.len() == 0 {
        Seq::empty()
    } else {
        check_lines(checks.drop_last()) + check_line(checks.last())
    }
}

/// A posture as it is shown.
pub open spec fn rendered(
    profile: Profile,
    inferred: bool,
    checks: Seq<(Seq<char>, OutcomeV)>,
) -> Seq<char> {
    "Security profile: "@ + profile_name(profile) + (if inferred {
        " (inferred from a loopback bind address; declare it with `profile` under [node])"@
    } else {
        ""@
    }) + "\n"@ + check_lines(checks)
}

/// Adds a name, padded to the width of a rule's name.
fn push_padded(out: &mut String, name: &str)
    ensures
        final(out)@ == old(out)@ + padded(name@),
{
    let chars: Vec<char> = crate::text::chars_of(name);
    let ghost start = out@;
    out.append(name);
    let mut width: usize = chars.len();
    assert(out@ =~= start + name@);
    let ghost first = width;
    while width < RULE_WIDTH
        invariant
            first == name@.len(),
            first <= width,
            width <= RULE_WIDTH || width == first,
            out@ == start + name@ + Seq::new((width - first) as nat, |i: int| ' '),
        decreases RULE_WIDTH - width,
    {
        let ghost before = out@;
        out.push(' ');
        width += 1;
        assert(out@ =~= start + name@ + Seq::new((width - first) as nat, |i: int| ' '));
    }
    assert(out@ =~= start + padded(name@));
}

impl Posture {
    /// Whether the configuration leaves a reachable node unauthenticated. The one warning that fails
    /// a check of the configuration, while the node itself still starts.
    pub fn unauthenticated_off_box(&self) -> (open: bool)
        ensures
            open == self.off_box,
    {
        self.off_box
    }

    /// The rules that block startup.
    pub fn failures(&self) -> (failures: Vec<&Check>)
        ensures
            check_refs(failures@) == outcomes_where(check_models(self.checks@), true),
    {
        self.outcomes(true)
    }

    /// The rules that the operator should know about.
    pub fn warnings(&self) -> (warnings: Vec<&Check>)
        ensures
            check_refs(warnings@) == outcomes_where(check_models(self.checks@), false),
    {
        self.outcomes(false)
    }

    /// The rules that fail, or those that warn.
    fn outcomes(&self, fails: bool) -> (found: Vec<&Check>)
        ensures
            check_refs(found@) == outcomes_where(check_models(self.checks@), fails),
    {
        let ghost all = check_models(self.checks@);
        let mut found: Vec<&Check> = Vec::new();
        let mut i: usize = 0;
        assert(check_refs(found@) =~= outcomes_where(all.take(0), fails));
        while i < self.checks.len()
            invariant
                i <= self.checks.len(),
                all == check_models(self.checks@),
                check_refs(found@) == outcomes_where(all.take(i as int), fails),
            decreases self.checks.len() - i,
        {
            proof {
                assert(all.take(i + 1).drop_last() =~= all.take(i as int));
                assert(all.take(i + 1).last() == all[i as int]);
            }
            let wanted: bool = match &self.checks[i].outcome {
                Outcome::Fail(_) => fails,
                Outcome::Warn(_) => !fails,
                Outcome::Pass(_) => false,
            };
            if wanted {
                let ghost before = found@;
                found.push(&self.checks[i]);
                assert(check_refs(found@) =~= check_refs(before).push(all[i as int]));
            }
            i += 1;
        }
        assert(all.take(self.checks.len() as int) =~= all);
        found
    }

    /// The posture as it is shown.
    pub fn render(&self) -> (shown: String)
        ensures
            shown@ == rendered(self.profile, self.inferred, check_models(self.checks@)),
    {
        let ghost all = check_models(self.checks@);
        let mut out: String = String::from_str("Security profile: ");
        out.append(self.profile.as_str());
        if self.inferred {
            out.append(
                " (inferred from a loopback bind address; declare it with `profile` under [node])",
            );
        } else {
            out.append("");
        }
        out.append("\n");
        let ghost head = out@;
        let mut i: usize = 0;
        assert(out@ =~= head + check_lines(all.take(0)));
        while i < self.checks.len()
            invariant
                i <= self.checks.len(),
                all == check_models(self.checks@),
                out@ == head + check_lines(all.take(i as int)),
            decreases self.checks.len() - i,
        {
            proof {
                assert(all.take(i + 1).drop_last() =~= all.take(i as int));
                assert(all.take(i + 1).last() == all[i as int]);
            }
            let ghost before = out@;
            out.append("  [");
            out.append(self.checks[i].outcome.marker());
            out.append("] ");
            push_padded(&mut out, self.checks[i].rule);
            out.append(" ");
            out.append(self.checks[i].outcome.message());
            out.append("\n");
            assert(out@ =~= before + check_line(all[i as int]));
            assert(out@ =~= head + check_lines(all.take(i + 1)));
            i += 1;
        }
        assert(all.take(self.checks.len() as int) =~= all);
        out
    }
}

// ---------------------------------------------------------------------------
// What the profiles promise
// ---------------------------------------------------------------------------

/// Whether no rule fails.
pub open spec fn starts(profile: Profile, config: PostureConfig) -> bool {
    forall|i: int| 0 <= i < judged(profile, config).len() ==> !(#[trigger] judged(
        profile,
        config,
    )[i].1 is Fail)
}

/// A node on an untrusted network that starts serves TLS, keeps its administrative endpoints shut,
/// authenticates with keys that it holds, names the origins that may call it, shares a key with its
/// cluster, and bounds the request data in flight.
pub proof fn law_external_starts_only_closed(config: PostureConfig)
    requires
        starts(Profile::External, config),
    ensures
        config.tls_enabled,
        !config.admin_enabled,
        config.keyring matches Ok(ring) && ring.enabled && !ring.empty,
        !text::texts(config.cors_allowed_origins@).contains("*"@),
        config.cluster_enabled ==> config.has_psk,
        worst_case(config.max_concurrent_requests, config.max_body_size_mb) <= 16384,
{
    let rules = judged(Profile::External, config);
    assert(!(rules[1].1 is Fail));
    assert(!(rules[2].1 is Fail));
    assert(!(rules[3].1 is Fail));
    assert(!(rules[5].1 is Fail));
    assert(!(rules[7].1 is Fail));
    assert(!(rules[8].1 is Fail));
}

/// A local node that starts can only be reached from its own machine.
pub proof fn law_local_starts_only_on_loopback(config: PostureConfig)
    requires
        starts(Profile::Local, config),
    ensures
        binds_loopback(config.bind_address@),
{
    assert(!(judged(Profile::Local, config)[0].1 is Fail));
}

/// The rules get stricter as the reach widens: a configuration that starts on an untrusted network
/// starts on a trusted one too.
pub proof fn law_what_starts_external_starts_internal(config: PostureConfig)
    requires
        starts(Profile::External, config),
    ensures
        starts(Profile::Internal, config),
{
    let strict = judged(Profile::External, config);
    let loose = judged(Profile::Internal, config);
    assert forall|i: int| 0 <= i < loose.len() implies !(#[trigger] loose[i].1 is Fail) by {
        assert(!(strict[i].1 is Fail));
    }
}

/// Where nothing authenticates a node that others can reach and no rule fails, the posture says so.
pub proof fn law_an_open_node_is_never_passed_over(profile: Profile, config: PostureConfig)
    requires
        starts(profile, config),
        !binds_loopback(config.bind_address@),
        !authenticates(config.keyring),
    ensures
        open_off_box(profile, config),
        profile == Profile::Internal,
        judged(profile, config)[7].1 is Warn,
{
    let rules = judged(profile, config);
    assert(!(rules[0].1 is Fail));
    assert(!(rules[7].1 is Fail));
}

/// A profile is inferred only for a node that its own machine alone can reach.
pub proof fn law_only_a_loopback_node_is_inferred(config: PostureConfig)
    ensures
        resolved(config) matches Some((profile, true)) ==> profile == Profile::Local
            && binds_loopback(config.bind_address@),
{
}

} // verus!
