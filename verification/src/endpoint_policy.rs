//! Endpoint policies: from what a profile says to what the proxy enforces.
use vstd::prelude::*;

use crate::command_policy::{
    CommandPoliciesConfig, EndpointPolicyConfig, EndpointRuleConfig, PolicyDecision,
    PolicyDecisionConfig,
};
use crate::error;
use crate::error::{ErrorView, ProxyError};
use crate::proxy_config::{
    ProxyEndpointPolicyConfig, ProxyEndpointPolicyConfigView, ProxyEndpointPolicyDecision,
    ProxyEndpointPolicyDefault, ProxyEndpointPolicyDefaultView, ProxyEndpointPolicyRule,
    ProxyEndpointPolicyRuleView,
};
use crate::values::DeepClone;

verus! {

/// The text an optional string holds.
pub fn as_text(value: &Option<String>) -> (text: Option<&str>)
    ensures
        text.deep_view() == value.deep_view(),
{
    match value {
        Some(value) => Some(value.as_str()),
        None => None,
    }
}

/// The backend that an approval goes to: the one it names, else the default one.
pub open spec fn approval_backend(
    config: CommandPoliciesConfig,
    backend: Option<Seq<char>>,
) -> Option<Seq<char>> {
    if backend is Some {
        backend
    } else {
        config.approval_defaults.backend.deep_view()
    }
}

/// How long an approval may take: what it says itself, else what its backend says, else the
/// default.
pub open spec fn approval_timeout(
    config: CommandPoliciesConfig,
    backend: Option<Seq<char>>,
    explicit: Option<u64>,
) -> Option<u64> {
    let backends = config.approval_backends.deep_view();
    let of_backend = match approval_backend(config, backend) {
        Some(name) => if backends.contains_key(name) {
            backends[name].timeout_secs
        } else {
            None
        },
        None => None,
    };
    if explicit is Some {
        explicit
    } else if of_backend is Some {
        of_backend
    } else {
        config.approval_defaults.timeout_secs
    }
}

/// How long an approval may take.
pub fn resolve_approval_timeout(
    config: &CommandPoliciesConfig,
    backend: Option<&str>,
    explicit_timeout: Option<u64>,
) -> (timeout: Option<u64>)
    ensures
        timeout == approval_timeout(*config, backend.deep_view(), explicit_timeout),
{
    if explicit_timeout.is_some() {
        return explicit_timeout;
    }
    let name = match backend {
        Some(name) => Some(name),
        None => as_text(&config.approval_defaults.backend),
    };
    if let Some(name) = name {
        if let Some(backend) = config.approval_backends.get(name) {
            if backend.timeout_secs.is_some() {
                return backend.timeout_secs;
            }
        }
    }
    config.approval_defaults.timeout_secs
}

/// The proxy's word for a decision.
pub open spec fn proxy_decision(decision: PolicyDecision) -> ProxyEndpointPolicyDecision {
    match decision {
        PolicyDecision::Deny => ProxyEndpointPolicyDecision::Deny,
        PolicyDecision::Approve => ProxyEndpointPolicyDecision::Approve,
        PolicyDecision::Allow => ProxyEndpointPolicyDecision::Allow,
    }
}

/// The proxy's word for a decision.
pub fn policy_decision_to_proxy(decision: &PolicyDecision) -> (out: ProxyEndpointPolicyDecision)
    ensures
        out == proxy_decision(*decision),
{
    match decision {
        PolicyDecision::Deny => ProxyEndpointPolicyDecision::Deny,
        PolicyDecision::Approve => ProxyEndpointPolicyDecision::Approve,
        PolicyDecision::Allow => ProxyEndpointPolicyDecision::Allow,
    }
}

/// The decision of a `PolicyDecisionConfig`, with or without a route.
pub open spec fn decision_of(decision: PolicyDecisionConfig) -> PolicyDecision {
    match decision {
        PolicyDecisionConfig::Decision(decision) => decision,
        PolicyDecisionConfig::RoutedApproval(route) => route.decision,
    }
}

/// Whether a decision asks for an approval.
pub fn endpoint_decision_is_approve(decision: &PolicyDecisionConfig) -> (approve: bool)
    ensures
        approve == (decision_of(*decision) == PolicyDecision::Approve),
{
    match decision {
        PolicyDecisionConfig::Decision(decision) => *decision == PolicyDecision::Approve,
        PolicyDecisionConfig::RoutedApproval(route) => route.decision == PolicyDecision::Approve,
    }
}

/// The backend that a decision is routed to by name.
pub open spec fn routed_backend(decision: PolicyDecisionConfig) -> Option<Seq<char>> {
    match decision {
        PolicyDecisionConfig::Decision(_) => None,
        PolicyDecisionConfig::RoutedApproval(route) => route.backend.deep_view(),
    }
}

/// The backend that a default decision is routed to by name.
pub fn default_backend_name(default: &PolicyDecisionConfig) -> (name: Option<&str>)
    ensures
        name.deep_view() == routed_backend(*default),
{
    match default {
        PolicyDecisionConfig::Decision(_) => None,
        PolicyDecisionConfig::RoutedApproval(route) => as_text(&route.backend),
    }
}

/// What the proxy does where no rule matches.
pub open spec fn proxy_default(
    config: CommandPoliciesConfig,
    default: PolicyDecisionConfig,
) -> ProxyEndpointPolicyDefaultView {
    ProxyEndpointPolicyDefaultView {
        decision: proxy_decision(decision_of(default)),
        backend: routed_backend(default),
        timeout_secs: match default {
            PolicyDecisionConfig::Decision(_) => config.approval_defaults.timeout_secs,
            PolicyDecisionConfig::RoutedApproval(route) => approval_timeout(
                config,
                route.backend.deep_view(),
                route.timeout_secs,
            ),
        },
    }
}

/// What the proxy does where no rule matches.
pub fn endpoint_default_to_proxy(
    config: &CommandPoliciesConfig,
    default: &PolicyDecisionConfig,
) -> (out: ProxyEndpointPolicyDefault)
    ensures
        out.deep_view() == proxy_default(*config, *default),
{
    match default {
        PolicyDecisionConfig::Decision(decision) => ProxyEndpointPolicyDefault {
            decision: policy_decision_to_proxy(decision),
            backend: None,
            timeout_secs: config.approval_defaults.timeout_secs,
        },
        PolicyDecisionConfig::RoutedApproval(route) => ProxyEndpointPolicyDefault {
            decision: policy_decision_to_proxy(&route.decision),
            backend: route.backend.deep_clone(),
            timeout_secs: resolve_approval_timeout(
                config,
                as_text(&route.backend),
                route.timeout_secs,
            ),
        },
    }
}

/// The rule of the proxy for a rule of a profile.
pub open spec fn proxy_rule(
    config: CommandPoliciesConfig,
    rule: EndpointRuleConfig,
) -> ProxyEndpointPolicyRuleView {
    ProxyEndpointPolicyRuleView {
        method: rule.method@,
        path: rule.path@,
        backend: rule.backend.deep_view(),
        reason: rule.reason.deep_view(),
        timeout_secs: approval_timeout(config, rule.backend.deep_view(), rule.timeout_secs),
    }
}

/// The rule of the proxy for a rule of a profile.
pub fn endpoint_rule_to_proxy(
    config: &CommandPoliciesConfig,
    rule: &EndpointRuleConfig,
) -> (out: ProxyEndpointPolicyRule)
    ensures
        out.deep_view() == proxy_rule(*config, *rule),
{
    ProxyEndpointPolicyRule {
        method: rule.method.clone(),
        path: rule.path.clone(),
        backend: rule.backend.deep_clone(),
        reason: rule.reason.deep_clone(),
        timeout_secs: resolve_approval_timeout(config, as_text(&rule.backend), rule.timeout_secs),
    }
}

/// The rules of the proxy for the rules of a profile, in the same order.
pub open spec fn proxy_rules(
    config: CommandPoliciesConfig,
    rules: Seq<EndpointRuleConfig>,
) -> Seq<ProxyEndpointPolicyRuleView> {
    Seq::new(rules.len(), |i: int| proxy_rule(config, rules[i]))
}

fn endpoint_rules_to_proxy(
    config: &CommandPoliciesConfig,
    rules: &Vec<EndpointRuleConfig>,
) -> (out: Vec<ProxyEndpointPolicyRule>)
    ensures
        out.deep_view() == proxy_rules(*config, rules@),
{
    let mut out: Vec<ProxyEndpointPolicyRule> = Vec::new();
    let mut i: usize = 0;
    while i < rules.len()
        invariant
            i <= rules@.len(),
            out@.len() == i,
            forall|j: int|
                0 <= j < i ==> (#[trigger] out@[j]).deep_view() == proxy_rule(*config, rules@[j]),
        decreases rules@.len() - i,
    {
        out.push(endpoint_rule_to_proxy(config, &rules[i]));
        i = i + 1;
    }
    assert(out.deep_view() =~= proxy_rules(*config, rules@));
    out
}

/// The policy of the proxy for a policy of a profile.
pub open spec fn proxy_policy(
    config: CommandPoliciesConfig,
    policy: EndpointPolicyConfig,
) -> ProxyEndpointPolicyConfigView {
    ProxyEndpointPolicyConfigView {
        default: proxy_default(config, policy.default),
        deny: proxy_rules(config, policy.deny@),
        approve: proxy_rules(config, policy.approve@),
        allow: proxy_rules(config, policy.allow@),
    }
}

/// The policy of the proxy for a policy of a profile.
pub fn endpoint_policy_to_proxy_policy(
    config: &CommandPoliciesConfig,
    policy: &EndpointPolicyConfig,
) -> (out: ProxyEndpointPolicyConfig)
    ensures
        out.deep_view() == proxy_policy(*config, *policy),
{
    ProxyEndpointPolicyConfig {
        default: endpoint_default_to_proxy(config, &policy.default),
        deny: endpoint_rules_to_proxy(config, &policy.deny),
        approve: endpoint_rules_to_proxy(config, &policy.approve),
        allow: endpoint_rules_to_proxy(config, &policy.allow),
    }
}

/// What is wrong with sending an approval to `backend`, if anything.
pub open spec fn backend_fault(
    config: CommandPoliciesConfig,
    credential_name: Seq<char>,
    backend: Option<Seq<char>>,
) -> Option<ErrorView> {
    match approval_backend(config, backend) {
        None => Some(
            error::credential_fault(
                credential_name,
                " endpoint_policy approve route requires an approval backend"@,
            ),
        ),
        Some(name) => if config.approval_backends.deep_view().contains_key(name) {
            None
        } else {
            Some(
                error::credential_fault(
                    credential_name,
                    error::quoting(
                        " endpoint_policy references unknown approval backend "@,
                        name,
                        ""@,
                    ),
                ),
            )
        },
    }
}

/// Checks that an approval can be sent to `backend`, or to the default one where it names none.
pub fn validate_endpoint_approval_backend(
    config: &CommandPoliciesConfig,
    credential_name: &str,
    backend: Option<&str>,
) -> (checked: Result<(), ProxyError>)
    ensures
        match checked {
            Ok(_) => backend_fault(*config, credential_name@, backend.deep_view()) is None,
            Err(e) => backend_fault(*config, credential_name@, backend.deep_view()) == Some(
                e.deep_view(),
            ),
        },
{
    let name = match backend {
        Some(name) => Some(name),
        None => as_text(&config.approval_defaults.backend),
    };
    match name {
        None => Err(
            error::credential_error(
                credential_name,
                " endpoint_policy approve route requires an approval backend",
            ),
        ),
        Some(name) => {
            if config.approval_backends.contains_key(name) {
                Ok(())
            } else {
                let complaint = error::quote(
                    " endpoint_policy references unknown approval backend ",
                    name,
                    "",
                );
                Err(error::credential_error(credential_name, complaint.as_str()))
            }
        },
    }
}

/// What is wrong with the first of `rules` that cannot be sent to its backend, if any cannot.
pub open spec fn first_backend_fault(
    config: CommandPoliciesConfig,
    credential_name: Seq<char>,
    rules: Seq<EndpointRuleConfig>,
) -> Option<ErrorView>
    decreases rules.len(),
{
    if rules.len() == 0 {
        None
    } else {
        let fault = backend_fault(config, credential_name, rules[0].backend.deep_view());
        if fault is Some {
            fault
        } else {
            first_backend_fault(config, credential_name, rules.drop_first())
        }
    }
}

/// What is wrong with the approvals that `policy` asks for, if anything: the default decision
/// first, then the rules in order.
pub open spec fn approval_fault(
    config: CommandPoliciesConfig,
    credential_name: Seq<char>,
    policy: EndpointPolicyConfig,
) -> Option<ErrorView> {
    let of_default = if decision_of(policy.default) == PolicyDecision::Approve {
        backend_fault(config, credential_name, routed_backend(policy.default))
    } else {
        None
    };
    if of_default is Some {
        of_default
    } else {
        first_backend_fault(config, credential_name, policy.approve@)
    }
}

/// Checks that every approval that `policy` asks for can be sent to a backend.
pub fn validate_endpoint_policy_approval_routes(
    config: &CommandPoliciesConfig,
    credential_name: &str,
    policy: &EndpointPolicyConfig,
) -> (checked: Result<(), ProxyError>)
    ensures
        match checked {
            Ok(_) => approval_fault(*config, credential_name@, *policy) is None,
            Err(e) => approval_fault(*config, credential_name@, *policy) == Some(e.deep_view()),
        },
{
    if endpoint_decision_is_approve(&policy.default) {
        let backend = default_backend_name(&policy.default);
        validate_endpoint_approval_backend(config, credential_name, backend)?;
    }
    let rules = &policy.approve;
    let mut i: usize = 0;
    assert(rules@.skip(0) =~= rules@);
    while i < rules.len()
        invariant
            i <= rules@.len(),
            *rules == policy.approve,
            approval_fault(*config, credential_name@, *policy) == first_backend_fault(
                *config,
                credential_name@,
                rules@.skip(i as int),
            ),
        decreases rules@.len() - i,
    {
        assert(rules@.skip(i as int)[0] == rules@[i as int]);
        assert(rules@.skip(i as int).drop_first() =~= rules@.skip(i + 1));
        validate_endpoint_approval_backend(config, credential_name, as_text(&rules[i].backend))?;
        i = i + 1;
    }
    Ok(())
}

/// Whether an approval that names `backend`, or no backend, has one to go to.
pub open spec fn has_backend(config: CommandPoliciesConfig, backend: Option<Seq<char>>) -> bool {
    match approval_backend(config, backend) {
        None => false,
        Some(name) => config.approval_backends.deep_view().contains_key(name),
    }
}

/// A policy passes the check exactly if each approval it asks for, by default or by a rule, goes
/// to a backend that the configuration defines.
pub proof fn lemma_approvals_have_backends(
    config: CommandPoliciesConfig,
    credential_name: Seq<char>,
    policy: EndpointPolicyConfig,
)
    ensures
        approval_fault(config, credential_name, policy) is None <==> {
            &&& decision_of(policy.default) == PolicyDecision::Approve ==> has_backend(
                config,
                routed_backend(policy.default),
            )
            &&& forall|i: int|
                0 <= i < policy.approve@.len() ==> has_backend(
                    config,
                    (#[trigger] policy.approve@[i]).backend.deep_view(),
                )
        },
{
    lemma_rules_have_backends(config, credential_name, policy.approve@);
}

proof fn lemma_rules_have_backends(
    config: CommandPoliciesConfig,
    credential_name: Seq<char>,
    rules: Seq<EndpointRuleConfig>,
)
    ensures
        first_backend_fault(config, credential_name, rules) is None <==> (forall|i: int|
            0 <= i < rules.len() ==> has_backend(
                config,
                (#[trigger] rules[i]).backend.deep_view(),
            )),
    decreases rules.len(),
{
    if rules.len() > 0 {
        let rest = rules.drop_first();
        lemma_rules_have_backends(config, credential_name, rest);
        assert forall|i: int| 0 <= i < rest.len() implies #[trigger] rest[i] == rules[i + 1] by {}
        if first_backend_fault(config, credential_name, rules) is None {
            assert forall|i: int| 0 <= i < rules.len() implies has_backend(
                config,
                (#[trigger] rules[i]).backend.deep_view(),
            ) by {
                if i > 0 {
                    assert(rest[i - 1] == rules[i]);
                }
            }
        }
        if forall|i: int|
            0 <= i < rules.len() ==> has_backend(
                config,
                (#[trigger] rules[i]).backend.deep_view(),
            ) {
            assert(has_backend(config, rules[0].backend.deep_view()));
            assert forall|i: int| 0 <= i < rest.len() implies has_backend(
                config,
                (#[trigger] rest[i]).backend.deep_view(),
            ) by {
                assert(rest[i] == rules[i + 1]);
            }
        }
    }
}

/// The proxy's policy keeps every deny, approve and allow rule of the profile's policy, in its
/// place and with its method, path, backend and reason, and keeps the default decision.
pub proof fn lemma_policy_keeps_rules(config: CommandPoliciesConfig, policy: EndpointPolicyConfig)
    ensures
        keeps_rules(proxy_policy(config, policy).deny, policy.deny@),
        keeps_rules(proxy_policy(config, policy).approve, policy.approve@),
        keeps_rules(proxy_policy(config, policy).allow, policy.allow@),
        proxy_policy(config, policy).default.decision == proxy_decision(
            decision_of(policy.default),
        ),
        proxy_policy(config, policy).default.backend == routed_backend(policy.default),
{
}

/// Whether `kept` are `rules` rule by rule, except for how long an approval may take.
pub open spec fn keeps_rules(
    kept: Seq<ProxyEndpointPolicyRuleView>,
    rules: Seq<EndpointRuleConfig>,
) -> bool {
    &&& kept.len() == rules.len()
    &&& forall|i: int|
        0 <= i < rules.len() ==> {
            &&& (#[trigger] kept[i]).method == rules[i].method@
            &&& kept[i].path == rules[i].path@
            &&& kept[i].backend == rules[i].backend.deep_view()
            &&& kept[i].reason == rules[i].reason.deep_view()
        }
}

/// A timeout that a rule sets itself stands in the proxy's rule; and a rule has no timeout only
/// where neither it, nor its backend, nor the defaults set one.
pub proof fn lemma_timeout_precedence(
    config: CommandPoliciesConfig,
    backend: Option<Seq<char>>,
    explicit: Option<u64>,
)
    ensures
        explicit is Some ==> approval_timeout(config, backend, explicit) == explicit,
        approval_timeout(config, backend, explicit) is None <==> {
            &&& explicit is None
            &&& config.approval_defaults.timeout_secs is None
            &&& forall|name: Seq<char>|
                approval_backend(config, backend) == Some(name)
                    && #[trigger] config.approval_backends.deep_view().contains_key(name)
                    ==> config.approval_backends.deep_view()[name].timeout_secs is None
        },
{
}

/// An approval's own timeout goes before all. Without one, the timeout of the backend that it
/// names counts, or of the default backend where it names none; and where that backend is
/// unknown or has no timeout, the default timeout.
pub proof fn lemma_timeout_comes_from_the_nearest_place(
    config: CommandPoliciesConfig,
    backend: Option<Seq<char>>,
    explicit: Option<u64>,
    name: Seq<char>,
)
    ensures
        explicit matches Some(secs) ==> approval_timeout(config, backend, explicit) == Some(secs),
        explicit is None && (backend == Some(name) || backend is None && (
        config.approval_defaults.backend matches Some(default) && default@ == name)) ==> {
            let known = config.approval_backends.deep_view();
            let timeout = approval_timeout(config, backend, explicit);
            &&& known.contains_key(name) && known[name].timeout_secs is Some ==> timeout
                == known[name].timeout_secs
            &&& !known.contains_key(name) || known[name].timeout_secs is None ==> timeout
                == config.approval_defaults.timeout_secs
        },
        explicit is None && backend is None && config.approval_defaults.backend is None
            ==> approval_timeout(config, backend, explicit)
            == config.approval_defaults.timeout_secs,
{
}

/// A rule of the profile is enforced as it stands: its method, path, backend and reason, and how
/// long its approval may take, are the rule's. Each rule stays in its row and in its place, and no
/// row has more or fewer.
pub proof fn lemma_rules_are_enforced_as_written(
    config: CommandPoliciesConfig,
    policy: EndpointPolicyConfig,
    i: int,
)
    ensures
        ({
            let out = proxy_policy(config, policy);
            &&& out.deny.len() == policy.deny@.len()
            &&& out.approve.len() == policy.approve@.len()
            &&& out.allow.len() == policy.allow@.len()
            &&& 0 <= i < policy.deny@.len() ==> {
                let rule = policy.deny@[i];
                &&& out.deny[i].method == rule.method@
                &&& out.deny[i].path == rule.path@
                &&& out.deny[i].backend == rule.backend.deep_view()
                &&& out.deny[i].reason == rule.reason.deep_view()
                &&& out.deny[i].timeout_secs == approval_timeout(
                    config,
                    rule.backend.deep_view(),
                    rule.timeout_secs,
                )
            }
            &&& 0 <= i < policy.approve@.len() ==> {
                let rule = policy.approve@[i];
                &&& out.approve[i].method == rule.method@
                &&& out.approve[i].path == rule.path@
                &&& out.approve[i].backend == rule.backend.deep_view()
                &&& out.approve[i].reason == rule.reason.deep_view()
                &&& out.approve[i].timeout_secs == approval_timeout(
                    config,
                    rule.backend.deep_view(),
                    rule.timeout_secs,
                )
            }
            &&& 0 <= i < policy.allow@.len() ==> {
                let rule = policy.allow@[i];
                &&& out.allow[i].method == rule.method@
                &&& out.allow[i].path == rule.path@
                &&& out.allow[i].backend == rule.backend.deep_view()
                &&& out.allow[i].reason == rule.reason.deep_view()
                &&& out.allow[i].timeout_secs == approval_timeout(
                    config,
                    rule.backend.deep_view(),
                    rule.timeout_secs,
                )
            }
        }),
{
}

/// What happens where no rule matches is what the profile says: denied, approved or allowed as it
/// decides, by the backend and within the time of the decision's route; without a route by no
/// backend of its own and within the default time.
pub proof fn lemma_default_is_enforced_as_written(
    config: CommandPoliciesConfig,
    policy: EndpointPolicyConfig,
)
    ensures
        ({
            let out = proxy_policy(config, policy).default;
            &&& policy.default matches PolicyDecisionConfig::Decision(decision) ==> {
                &&& out.decision is Deny <==> decision is Deny
                &&& out.decision is Approve <==> decision is Approve
                &&& out.decision is Allow <==> decision is Allow
                &&& out.backend is None
                &&& out.timeout_secs == config.approval_defaults.timeout_secs
            }
            &&& policy.default matches PolicyDecisionConfig::RoutedApproval(route) ==> {
                &&& out.decision is Deny <==> route.decision is Deny
                &&& out.decision is Approve <==> route.decision is Approve
                &&& out.decision is Allow <==> route.decision is Allow
                &&& out.backend == route.backend.deep_view()
                &&& out.timeout_secs == approval_timeout(
                    config,
                    route.backend.deep_view(),
                    route.timeout_secs,
                )
            }
        }),
{
}

/// An approval that names a backend needs that one to be known, and one that names none needs a
/// default backend that is known; the complaint says which of the two is missing.
pub proof fn lemma_approval_needs_its_own_or_the_default_backend(
    config: CommandPoliciesConfig,
    credential_name: Seq<char>,
    name: Seq<char>,
)
    ensures
        ({
            let known = config.approval_backends.deep_view();
            let unknown = Some(
                error::credential_fault(
                    credential_name,
                    " endpoint_policy references unknown approval backend "@ + "'"@ + name + "'"@
                        + ""@,
                ),
            );
            let of_none = backend_fault(config, credential_name, None);
            &&& backend_fault(config, credential_name, Some(name)) == if known.contains_key(name) {
                None
            } else {
                unknown
            }
            &&& config.approval_defaults.backend is None ==> of_none == Some(
                error::credential_fault(
                    credential_name,
                    " endpoint_policy approve route requires an approval backend"@,
                ),
            )
            &&& config.approval_defaults.backend matches Some(default) ==> default@ == name
                ==> of_none == if known.contains_key(name) {
                None
            } else {
                unknown
            }
        }),
{
}

/// The complaint about a policy is about the first approval that has no backend to go to, the
/// default decision's before the rules', and there is none only where every approval has one.
pub proof fn lemma_first_approval_without_backend_is_told(
    config: CommandPoliciesConfig,
    credential_name: Seq<char>,
    policy: EndpointPolicyConfig,
    at: int,
)
    ensures
        ({
            let fault = approval_fault(config, credential_name, policy);
            let of_default = match policy.default {
                PolicyDecisionConfig::Decision(PolicyDecision::Approve) => backend_fault(
                    config,
                    credential_name,
                    None,
                ),
                PolicyDecisionConfig::RoutedApproval(route) => if route.decision is Approve {
                    backend_fault(config, credential_name, route.backend.deep_view())
                } else {
                    None
                },
                _ => None,
            };
            &&& of_default is Some ==> fault == of_default
            &&& of_default is None && 0 <= at < policy.approve@.len() && backend_fault(
                config,
                credential_name,
                policy.approve@[at].backend.deep_view(),
            ) is Some && (forall|i: int|
                0 <= i < at ==> backend_fault(
                    config,
                    credential_name,
                    (#[trigger] policy.approve@[i]).backend.deep_view(),
                ) is None) ==> fault == backend_fault(
                config,
                credential_name,
                policy.approve@[at].backend.deep_view(),
            )
            &&& of_default is None && (forall|i: int|
                0 <= i < policy.approve@.len() ==> backend_fault(
                    config,
                    credential_name,
                    (#[trigger] policy.approve@[i]).backend.deep_view(),
                ) is None) ==> fault is None
        }),
{
    lemma_first_fault_of_rules(config, credential_name, policy.approve@, at);
}

proof fn lemma_first_fault_of_rules(
    config: CommandPoliciesConfig,
    credential_name: Seq<char>,
    rules: Seq<EndpointRuleConfig>,
    at: int,
)
    ensures
        0 <= at < rules.len() && backend_fault(
            config,
            credential_name,
            rules[at].backend.deep_view(),
        ) is Some && (forall|i: int|
            0 <= i < at ==> backend_fault(
                config,
                credential_name,
                (#[trigger] rules[i]).backend.deep_view(),
            ) is None) ==> first_backend_fault(config, credential_name, rules) == backend_fault(
            config,
            credential_name,
            rules[at].backend.deep_view(),
        ),
        (forall|i: int|
            0 <= i < rules.len() ==> backend_fault(
                config,
                credential_name,
                (#[trigger] rules[i]).backend.deep_view(),
            ) is None) ==> first_backend_fault(config, credential_name, rules) is None,
    decreases rules.len(),
{
    if rules.len() > 0 {
        let rest = rules.drop_first();
        lemma_first_fault_of_rules(config, credential_name, rest, at - 1);
        assert forall|i: int| 0 <= i < rest.len() implies #[trigger] rest[i] == rules[i + 1] by {}
    }
}

} // verus!
