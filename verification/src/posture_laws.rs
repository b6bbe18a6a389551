//! What each security profile lets a node do, and what it tells of the node.

use vstd::prelude::*;
use crate::{errors, posture, text};
use crate::posture::{NodeKeyFile, OutcomeV, PostureConfig, Profile};

verus! {

/// Whether the configuration's keys let anyone administer the node.
pub open spec fn someone_administers(config: PostureConfig) -> bool {
    config.keyring matches Ok(ring) && ring.enabled && ring.node_admin
}

/// A node is judged by nine rules, in this order.
pub proof fn law_a_node_is_judged_by_every_rule(profile: Profile, config: PostureConfig)
    ensures
        ({
            let judged = posture::judged(profile, config);
            &&& judged.len() == 9
            &&& judged[0].0 == "bind"@
            &&& judged[1].0 == "tls"@
            &&& judged[2].0 == "cors"@
            &&& judged[3].0 == "admin_api"@
            &&& judged[4].0 == "audit_trail"@
            &&& judged[5].0 == "cluster_psk"@
            &&& judged[6].0 == "node_key"@
            &&& judged[7].0 == "auth"@
            &&& judged[8].0 == "limits"@
        }),
{
}

/// What a profile asks of how the node can be reached: a local node stays on this machine, an external
/// one speaks TLS and has no administration, and only a local one lets every origin in.
#[verifier::rlimit(40)]
pub proof fn law_a_profile_limits_how_a_node_is_reached(profile: Profile, config: PostureConfig)
    ensures
        ({
            let judged = posture::judged(profile, config);
            let here = posture::binds_loopback(config.bind_address@);
            let any = text::texts(config.cors_allowed_origins@).contains("*"@);
            &&& judged[0].1 is Fail <==> profile == Profile::Local && !here
            &&& !(judged[0].1 is Warn)
            &&& judged[1].1 is Fail <==> profile == Profile::External && !config.tls_enabled
            &&& judged[1].1 is Warn <==> profile == Profile::Internal && !config.tls_enabled
            &&& judged[2].1 is Fail <==> any && profile != Profile::Local
            &&& judged[2].1 is Warn <==> any && profile == Profile::Local
            &&& judged[3].1 is Fail <==> config.admin_enabled && profile == Profile::External
            &&& judged[3].1 is Warn <==> config.admin_enabled && profile != Profile::External && !here
                && !someone_administers(config)
        }),
{
}

/// What a profile asks of what the node keeps: an external node keeps a trail in a file, and a cluster
/// needs a shared key on any network.
#[verifier::rlimit(40)]
pub proof fn law_a_profile_limits_what_a_node_keeps(profile: Profile, config: PostureConfig)
    ensures
        ({
            let judged = posture::judged(profile, config);
            &&& !(judged[4].1 is Fail)
            &&& judged[4].1 is Warn <==> profile == Profile::External && (!config.audit_enabled
                || config.audit_file is None)
            &&& judged[5].1 is Fail <==> config.cluster_enabled && !config.has_psk && profile
                != Profile::Local
            &&& judged[5].1 is Warn <==> config.cluster_enabled && !config.has_psk && profile
                == Profile::Local
        }),
{
    let judged = posture::judged(profile, config);
    assert(judged[4].1 == posture::audit_rule(
        profile,
        config.audit_enabled,
        errors::opt_text(config.audit_file),
    ));
    assert(judged[5].1 == posture::psk_rule(profile, config.cluster_enabled, config.has_psk));
}

/// A node's own key is for its owner alone: whatever the profile, it is warned of where anyone else may
/// use it.
#[verifier::rlimit(40)]
pub proof fn law_a_nodes_key_is_for_its_owner(profile: Profile, config: PostureConfig)
    ensures
        !(posture::judged(profile, config)[6].1 is Fail),
        posture::judged(profile, config)[6].1 is Warn <==> (config.node_key matches NodeKeyFile::Mode {
            mode,
            ..
        } && mode % 64 != 0),
{
    assert(posture::judged(profile, config)[6].1 == posture::node_key_rule(profile, config.node_key));
    if let NodeKeyFile::Mode { mode, path } = config.node_key {
        assert((mode % 512) % 64 == mode % 64);
    }
}

/// What a profile asks of the keys: they can be read, and where they are used there are some; an
/// external node uses them, an internal one is warned that it does not, and so is one that nobody can
/// write to.
#[verifier::rlimit(40)]
pub proof fn law_a_profile_limits_who_a_node_answers(profile: Profile, config: PostureConfig)
    ensures
        ({
            let judged = posture::judged(profile, config);
            &&& config.keyring is Err ==> judged[7].1 is Fail
            &&& config.keyring matches Ok(ring) ==> {
                &&& judged[7].1 is Fail <==> (ring.enabled && ring.empty) || (!ring.enabled && profile
                    == Profile::External)
                &&& judged[7].1 is Warn <==> (!ring.enabled && profile == Profile::Internal) || (
                ring.enabled && !ring.empty && !ring.write && !ring.index_admin)
            }
        }),
{
}

/// What a profile asks of the load: what can be in flight at once stays under the profile's ceiling,
/// and is warned of above the node's own memory; a local node has no ceiling.
#[verifier::rlimit(40)]
pub proof fn law_a_profile_limits_what_is_in_flight(profile: Profile, config: PostureConfig)
    ensures
        ({
            let judged = posture::judged(profile, config);
            let whole = config.max_concurrent_requests * config.max_body_size_mb;
            let flight = if whole > usize::MAX {
                usize::MAX as int
            } else {
                whole
            };
            &&& profile == Profile::Local ==> judged[8].1 is Pass
            &&& profile == Profile::Internal ==> (judged[8].1 is Fail <==> flight > 65536)
            &&& profile == Profile::External ==> (judged[8].1 is Fail <==> flight > 16384)
            &&& profile == Profile::Internal ==> (judged[8].1 is Warn <==> flight <= 65536 && flight
                > config.total_memory_limit_mb)
            &&& profile == Profile::External ==> (judged[8].1 is Warn <==> flight <= 16384 && flight
                > config.total_memory_limit_mb)
        }),
{
}

/// A node has the profile that it declares; one that declares none is a local one where it stays on
/// this machine, and has none where it does not.
pub proof fn law_a_node_has_the_profile_it_declares(config: PostureConfig)
    ensures
        config.profile matches Some(declared) ==> posture::resolved(config) == Some((declared, false)),
        config.profile is None && posture::binds_loopback(config.bind_address@) ==> posture::resolved(
            config,
        ) == Some((Profile::Local, true)),
        config.profile is None && !posture::binds_loopback(config.bind_address@)
            ==> posture::resolved(config) is None,
{
}

/// A node is open off this machine where it can be reached, nobody has to say who they are, and its
/// profile is not one that forbids it.
pub proof fn law_a_node_is_open_where_anyone_may_ask(profile: Profile, config: PostureConfig)
    ensures
        posture::open_off_box(profile, config) <==> !posture::binds_loopback(config.bind_address@) && !(
        config.keyring matches Ok(ring) && ring.enabled) && profile != Profile::External,
{
}

/// The failures and the warnings are the rules that came out so, in order, and no other.
pub proof fn law_failures_are_the_rules_that_fail(checks: Seq<(Seq<char>, OutcomeV)>)
    ensures
        posture::outcomes_where(checks, true) == checks.filter(
            |check: (Seq<char>, OutcomeV)| check.1 is Fail,
        ),
        posture::outcomes_where(checks, false) == checks.filter(
            |check: (Seq<char>, OutcomeV)| check.1 is Warn,
        ),
    decreases checks.len(),
{
    reveal(Seq::filter);
    if checks.len() > 0 {
        law_failures_are_the_rules_that_fail(checks.drop_last());
    }
}

/// An outcome is told by its kind and its own words.
pub proof fn law_an_outcome_is_told_by_its_kind(words: Seq<char>)
    ensures
        posture::marker_of(OutcomeV::Pass(words)) == "PASS"@,
        posture::marker_of(OutcomeV::Warn(words)) == "WARN"@,
        posture::marker_of(OutcomeV::Fail(words)) == "FAIL"@,
        posture::message_of(OutcomeV::Pass(words)) == words,
        posture::message_of(OutcomeV::Warn(words)) == words,
        posture::message_of(OutcomeV::Fail(words)) == words,
{
}

/// A rule's name is set in a column of its own: it keeps all its letters, and blanks fill it up.
pub proof fn law_a_rule_is_set_in_a_column(name: Seq<char>)
    ensures
        posture::padded(name).len() >= 16,
        name.len() >= 16 ==> posture::padded(name) == name,
        name.len() < 16 ==> posture::padded(name).len() == 16,
        name.is_prefix_of(posture::padded(name)),
        forall|i: int|
            name.len() <= i < posture::padded(name).len() ==> #[trigger] posture::padded(name)[i] == ' ',
{
    assert(posture::padded(name).subrange(0, name.len() as int) =~= name);
}

/// The permissions of a file are written in octal.
pub proof fn law_permissions_are_written_in_octal(mode: u32)
    requires
        mode < 512,
    ensures
        ({
            let written = posture::octal(mode);
            &&& written.len() == 4
            &&& written[0] == '0'
            &&& forall|i: int| 0 <= i < 4 ==> 48 <= (#[trigger] written[i]) as int <= 55
            &&& (written[1] as int - 48) * 64 + (written[2] as int - 48) * 8 + (written[3] as int - 48)
                == mode
        }),
{
}

/// A report names the profile, says where it was inferred, and has a line for every rule, in order:
/// what came of it, its name and its words.
pub proof fn law_a_report_has_a_line_for_every_rule(
    profile: Profile,
    inferred: bool,
    checks: Seq<(Seq<char>, OutcomeV)>,
)
    ensures
        ({
            let lines = checks.map_values(
                |check: (Seq<char>, OutcomeV)|
                    "  ["@ + posture::marker_of(check.1) + "] "@ + posture::padded(check.0) + " "@
                        + posture::message_of(check.1) + "\n"@,
            );
            let head = "Security profile: "@ + posture::profile_name(profile);
            let told = posture::rendered(profile, inferred, checks);
            &&& head.is_prefix_of(told)
            &&& posture::check_lines(checks) == lines.flatten()
            &&& told.len() >= lines.flatten().len() && told.skip(
                (told.len() - lines.flatten().len()) as int,
            ) == lines.flatten()
            &&& !inferred ==> told == head + ""@ + "\n"@ + lines.flatten()
        }),
{
    lemma_lines(checks);
    let head = "Security profile: "@ + posture::profile_name(profile);
    let told = posture::rendered(profile, inferred, checks);
    let lines = posture::check_lines(checks);
    assert(told.subrange(0, head.len() as int) =~= head);
    assert(told.skip((told.len() - lines.len()) as int) =~= lines);
}

/// The lines of a report are the lines of its rules.
proof fn lemma_lines(checks: Seq<(Seq<char>, OutcomeV)>)
    ensures
        posture::check_lines(checks) == checks.map_values(
            |check: (Seq<char>, OutcomeV)|
                "  ["@ + posture::marker_of(check.1) + "] "@ + posture::padded(check.0) + " "@
                    + posture::message_of(check.1) + "\n"@,
        ).flatten(),
    decreases checks.len(),
{
    let line = |check: (Seq<char>, OutcomeV)|
        "  ["@ + posture::marker_of(check.1) + "] "@ + posture::padded(check.0) + " "@
            + posture::message_of(check.1) + "\n"@;
    let lines = checks.map_values(line);
    lines.lemma_flatten_and_flatten_alt_are_equivalent();
    if checks.len() > 0 {
        let rest = checks.drop_last();
        lemma_lines(rest);
        let before = rest.map_values(line);
        before.lemma_flatten_and_flatten_alt_are_equivalent();
        assert(lines.drop_last() =~= before);
        assert(lines.last() == line(checks.last()));
    } else {
        assert(lines =~= Seq::empty());
    }
}

} // verus!
