//! What holds of granting, whatever the configuration and whatever the host answers.
use vstd::prelude::*;

use crate::command_policy::{
    CommandCredentialConfig, CommandCredentialGrantConfig, CommandCredentialGrantPolicyConfig,
    CommandPoliciesConfig, CommandSandboxConfig,
};
use crate::endpoint_policy;
use crate::grants;
use crate::grants::{Answer, GrantRequestView, Progress, Reply, SettingsView};
use crate::host::HaltView;
use crate::profile::CustomCredentialDefView;

verus! {

/// Whether `after` is what becomes of `before` when there are the answers `more` beyond those
/// that `before` was found with: the same, with `more` left over, unless `before` is a question,
/// which comes only when every answer is used up.
pub open spec fn goes_on<T>(before: Reply<T>, after: Reply<T>, more: Seq<Answer>) -> bool {
    match before {
        Reply::Got { value, rest } => after == Reply::Got { value, rest: rest + more },
        Reply::Stopped { halt, rest } => match halt {
            HaltView::Failed(_) => after == Reply::<T>::Stopped { halt, rest: rest + more },
            HaltView::Ask(_) => rest.len() == 0,
        },
    }
}

proof fn lemma_answer_goes_on(request: GrantRequestView, answers: Seq<Answer>, more: Seq<Answer>)
    ensures
        goes_on(
            grants::answer_to(request, answers),
            grants::answer_to(request, answers + more),
            more,
        ),
{
    if answers.len() > 0 {
        assert((answers + more)[0] == answers[0]);
        assert((answers + more).drop_first() =~= answers.drop_first() + more);
    }
}

proof fn lemma_verdict_goes_on(
    name: Seq<char>,
    variable: Seq<char>,
    base_url_variable: Option<Seq<char>>,
    answers: Seq<Answer>,
    more: Seq<Answer>,
)
    ensures
        goes_on(
            grants::verdict_on_both(name, variable, base_url_variable, answers),
            grants::verdict_on_both(name, variable, base_url_variable, answers + more),
            more,
        ),
{
    lemma_answer_goes_on(GrantRequestView::CheckEnvVar { name: variable }, answers, more);
    if let Reply::Got { value: _, rest } = grants::verdict_on(
        name,
        " has invalid env_var: "@,
        variable,
        answers,
    ) {
        if let Some(other) = base_url_variable {
            lemma_answer_goes_on(GrantRequestView::CheckEnvVar { name: other }, rest, more);
        }
    }
}

proof fn lemma_expansion_goes_on(
    path: Option<Seq<char>>,
    answers: Seq<Answer>,
    more: Seq<Answer>,
)
    ensures
        goes_on(
            grants::expansion_of(path, answers),
            grants::expansion_of(path, answers + more),
            more,
        ),
{
    if let Some(path) = path {
        lemma_answer_goes_on(GrantRequestView::ExpandPath { path }, answers, more);
    }
}

proof fn lemma_tls_files_go_on(
    credential: CommandCredentialConfig,
    answers: Seq<Answer>,
    more: Seq<Answer>,
)
    ensures
        goes_on(
            grants::tls_files_of(credential, answers),
            grants::tls_files_of(credential, answers + more),
            more,
        ),
{
    lemma_expansion_goes_on(credential.tls_ca.deep_view(), answers, more);
    if let Reply::Got { value: _, rest } = grants::expansion_of(
        credential.tls_ca.deep_view(),
        answers,
    ) {
        lemma_expansion_goes_on(credential.tls_client_cert.deep_view(), rest, more);
        if let Reply::Got { value: _, rest } = grants::expansion_of(
            credential.tls_client_cert.deep_view(),
            rest,
        ) {
            lemma_expansion_goes_on(credential.tls_client_key.deep_view(), rest, more);
        }
    }
}

/// Whether `after` is what becomes of `before` when there are the answers `more` beyond those
/// that `before` was found with.
pub open spec fn runs_on(before: Progress, after: Progress, more: Seq<Answer>) -> bool {
    if let Some(HaltView::Ask(_)) = before.halt {
        before.answers.len() == 0
    } else {
        after == Progress { answers: before.answers + more, ..before }
    }
}

/// The same start with the answers `more` added behind those it has.
pub open spec fn with_more(p: Progress, more: Seq<Answer>) -> Progress {
    Progress { answers: p.answers + more, ..p }
}

proof fn lemma_routed_runs_on(
    config: CommandPoliciesConfig,
    grant: CommandCredentialGrantPolicyConfig,
    credential: CommandCredentialConfig,
    credential_key: Option<Seq<char>>,
    p: Progress,
    more: Seq<Answer>,
)
    requires
        p.halt is None,
    ensures
        runs_on(
            grants::routed(config, grant, credential, credential_key, p),
            grants::routed(config, grant, credential, credential_key, with_more(p, more)),
            more,
        ),
{
    lemma_tls_files_go_on(credential, p.answers, more);
}

proof fn lemma_grant_runs_on(
    config: CommandPoliciesConfig,
    grant: CommandCredentialGrantConfig,
    p: Progress,
    more: Seq<Answer>,
)
    requires
        p.halt is None,
    ensures
        runs_on(
            grants::granted(config, grant, p),
            grants::granted(config, grant, with_more(p, more)),
            more,
        ),
{
    if let CommandCredentialGrantConfig::Policy(g) = grant {
        if grants::is_proxy_credential(config, g.name@) {
            let credential = config.credentials.deep_view()[g.name@];
            if grants::grant_fault(config, g, credential) is None {
                let variable = credential.env_var->0@;
                let other = credential.base_url_env_var.deep_view();
                lemma_verdict_goes_on(g.name@, variable, other, p.answers, more);
                if let Reply::Got { value: _, rest } = grants::verdict_on_both(
                    g.name@,
                    variable,
                    other,
                    p.answers,
                ) {
                    match credential.source {
                        None => {
                            lemma_routed_runs_on(
                                config,
                                g,
                                credential,
                                credential.credential_key.deep_view(),
                                Progress { answers: rest, ..p },
                                more,
                            );
                        },
                        Some(source) => {
                            lemma_answer_goes_on(grants::source_request(source), rest, more);
                            if let Reply::Got { value: secret, rest } = grants::answer_to(
                                grants::source_request(source),
                                rest,
                            ) {
                                lemma_routed_runs_on(
                                    config,
                                    g,
                                    credential,
                                    Some(
                                        "env://"@ + crate::source_env::source_variable(g.name@),
                                    ),
                                    Progress {
                                        settings: grants::with_secret(
                                            p.settings,
                                            g.name@,
                                            secret,
                                        ),
                                        answers: rest,
                                        halt: p.halt,
                                    },
                                    more,
                                );
                            }
                        },
                    }
                }
            }
        }
    }
}

proof fn lemma_grants_run_on(
    config: CommandPoliciesConfig,
    row: Seq<CommandCredentialGrantConfig>,
    p: Progress,
    more: Seq<Answer>,
)
    requires
        p.halt is None,
    ensures
        runs_on(
            grants::all_granted(config, row, p),
            grants::all_granted(config, row, with_more(p, more)),
            more,
        ),
    decreases row.len(),
{
    if row.len() > 0 {
        let next = grants::granted(config, row[0], p);
        lemma_grant_runs_on(config, row[0], p, more);
        if next.halt is None {
            lemma_grants_run_on(config, row.drop_first(), next, more);
        } else {
            reveal_with_fuel(grants::all_granted, 2);
        }
    }
}

proof fn lemma_sandboxes_run_on(
    config: CommandPoliciesConfig,
    sandboxes: Seq<CommandSandboxConfig>,
    p: Progress,
    more: Seq<Answer>,
)
    requires
        p.halt is None,
    ensures
        runs_on(
            grants::all_collected(config, sandboxes, p),
            grants::all_collected(config, sandboxes, with_more(p, more)),
            more,
        ),
    decreases sandboxes.len(),
{
    if sandboxes.len() > 0 {
        let next = grants::collected(config, sandboxes[0], p);
        lemma_grants_run_on(config, sandboxes[0].credentials@, p, more);
        if next.halt is None {
            lemma_sandboxes_run_on(config, sandboxes.drop_first(), next, more);
        } else {
            reveal_with_fuel(grants::all_collected, 2);
        }
    }
}

/// Running again with more answers repeats the earlier run. Where that run came to an end, in
/// success or in an error, the longer one ends in the same way and leaves the new answers
/// untouched; where it ended in a question, it had used every answer it was given.
pub proof fn lemma_answers_replay(
    config: Option<CommandPoliciesConfig>,
    settings: SettingsView,
    answers: Seq<Answer>,
    more: Seq<Answer>,
)
    ensures
        runs_on(
            grants::extended(config, Progress::start(settings, answers)),
            grants::extended(config, Progress::start(settings, answers + more)),
            more,
        ),
{
    if let Some(config) = config {
        lemma_sandboxes_run_on(
            config,
            grants::sandboxes_of(config.commands.listed()),
            Progress::start(settings, answers),
            more,
        );
    }
}

/// Whether every credential that tool sandboxes are granted has a route of its own, with a
/// variable for its token and an endpoint policy, and is served by the proxy; and only such
/// credentials have a variable for their address.
pub open spec fn grants_are_routed(s: SettingsView) -> bool {
    &&& forall|name: Seq<char>| #[trigger]
        s.tool_sandbox_proxy_credentials.contains(name) ==> {
            &&& s.custom_credentials.contains_key(name)
            &&& s.custom_credentials[name].env_var is Some
            &&& s.custom_credentials[name].endpoint_policy is Some
            &&& s.credentials.contains(name)
        }
    &&& s.base_url_env_vars.dom().subset_of(s.tool_sandbox_proxy_credentials)
}

/// Whether `after` adds to `before` without changing it: the credentials served before come
/// first and in the same order, the routes there were stand as they were, and what is new on
/// either list was granted to a tool sandbox.
pub open spec fn adds_to(before: SettingsView, after: SettingsView) -> bool {
    &&& before.credentials.is_prefix_of(after.credentials)
    &&& before.credentials.no_duplicates() ==> after.credentials.no_duplicates()
    &&& before.custom_credentials.submap_of(after.custom_credentials)
    &&& before.proxy_source_env_vars.dom().subset_of(after.proxy_source_env_vars.dom())
    &&& before.base_url_env_vars.dom().subset_of(after.base_url_env_vars.dom())
    &&& before.tool_sandbox_proxy_credentials.subset_of(after.tool_sandbox_proxy_credentials)
    &&& forall|name: Seq<char>| #[trigger]
        after.custom_credentials.contains_key(name) ==> before.custom_credentials.contains_key(
            name,
        ) || after.tool_sandbox_proxy_credentials.contains(name)
    &&& forall|name: Seq<char>| #[trigger]
        after.credentials.contains(name) ==> before.credentials.contains(name)
            || after.tool_sandbox_proxy_credentials.contains(name)
    &&& grants_are_routed(before) ==> grants_are_routed(after)
}

proof fn lemma_adds_to_itself(s: SettingsView)
    ensures
        adds_to(s, s),
{
    assert(s.credentials =~= s.credentials.subrange(0, s.credentials.len() as int));
}

proof fn lemma_adds_to_transitive(a: SettingsView, b: SettingsView, c: SettingsView)
    requires
        adds_to(a, b),
        adds_to(b, c),
    ensures
        adds_to(a, c),
{
    assert(a.credentials =~= c.credentials.subrange(0, a.credentials.len() as int)) by {
        assert forall|i: int| 0 <= i < a.credentials.len() implies a.credentials[i]
            == c.credentials[i] by {
            assert(b.credentials.subrange(0, a.credentials.len() as int)[i] == b.credentials[i]);
            assert(c.credentials.subrange(0, b.credentials.len() as int)[i] == c.credentials[i]);
        }
    }
    assert forall|name: Seq<char>| #[trigger] c.custom_credentials.contains_key(name) implies {
        a.custom_credentials.contains_key(name) || c.tool_sandbox_proxy_credentials.contains(name)
    } by {
        assert(b.custom_credentials.contains_key(name)
            || c.tool_sandbox_proxy_credentials.contains(name));
    }
    assert forall|name: Seq<char>| #[trigger] c.credentials.contains(name) implies {
        a.credentials.contains(name) || c.tool_sandbox_proxy_credentials.contains(name)
    } by {
        assert(b.credentials.contains(name) || c.tool_sandbox_proxy_credentials.contains(name));
    }
    assert(a.custom_credentials.submap_of(c.custom_credentials)) by {
        assert forall|name: Seq<char>| #[trigger] a.custom_credentials.contains_key(name) implies {
            c.custom_credentials.contains_key(name) && a.custom_credentials[name]
                == c.custom_credentials[name]
        } by {
            assert(b.custom_credentials.contains_key(name));
        }
    }
}

proof fn lemma_route_adds(
    s: SettingsView,
    name: Seq<char>,
    route: CustomCredentialDefView,
    base_url_variable: Option<Seq<char>>,
)
    requires
        grants::route_fault(s, name, route) is None,
        route.env_var is Some,
        route.endpoint_policy is Some,
    ensures
        adds_to(s, grants::with_route(s, name, route, base_url_variable)),
{
    let after = grants::with_route(s, name, route, base_url_variable);
    assert(s.credentials =~= after.credentials.subrange(0, s.credentials.len() as int));
    assert forall|other: Seq<char>| #[trigger] after.credentials.contains(other) implies {
        s.credentials.contains(other) || other == name
    } by {
        let i = after.credentials.index_of(other);
        if i < s.credentials.len() {
            assert(s.credentials[i] == other);
        }
    }
    assert forall|other: Seq<char>| s.credentials.contains(
        other,
    ) implies #[trigger] after.credentials.contains(other) by {
        let i = s.credentials.index_of(other);
        assert(after.credentials[i] == other);
    }
    assert(after.credentials.contains(name)) by {
        if !s.credentials.contains(name) {
            assert(after.credentials.last() == name);
        }
    }
    if s.credentials.no_duplicates() && !s.credentials.contains(name) {
        assert forall|i: int, j: int|
            0 <= i < after.credentials.len() && 0 <= j < after.credentials.len() && i
                != j implies after.credentials[i] != after.credentials[j] by {
            if i < s.credentials.len() {
                assert(after.credentials[i] == s.credentials[i]);
                assert(s.credentials.contains(s.credentials[i]));
            }
            if j < s.credentials.len() {
                assert(after.credentials[j] == s.credentials[j]);
                assert(s.credentials.contains(s.credentials[j]));
            }
        }
    }
}

proof fn lemma_grant_adds(
    config: CommandPoliciesConfig,
    grant: CommandCredentialGrantConfig,
    p: Progress,
)
    ensures
        adds_to(p.settings, grants::granted(config, grant, p).settings),
{
    lemma_adds_to_itself(p.settings);
    if let CommandCredentialGrantConfig::Policy(g) = grant {
        if grants::is_proxy_credential(config, g.name@) {
            let credential = config.credentials.deep_view()[g.name@];
            let variable = credential.env_var->0@;
            let other = credential.base_url_env_var.deep_view();
            if grants::grant_fault(config, g, credential) is None {
                if let Reply::Got { value: _, rest } = grants::verdict_on_both(
                    g.name@,
                    variable,
                    other,
                    p.answers,
                ) {
                    match credential.source {
                        None => {
                            lemma_routed_adds(
                                config,
                                g,
                                credential,
                                credential.credential_key.deep_view(),
                                Progress { answers: rest, ..p },
                            );
                        },
                        Some(source) => {
                            if let Reply::Got { value: secret, rest } = grants::answer_to(
                                grants::source_request(source),
                                rest,
                            ) {
                                let settings = grants::with_secret(p.settings, g.name@, secret);
                                assert(adds_to(p.settings, settings));
                                let here = Progress { settings, answers: rest, halt: p.halt };
                                let key = Some(
                                    "env://"@ + crate::source_env::source_variable(g.name@),
                                );
                                lemma_routed_adds(config, g, credential, key, here);
                                lemma_adds_to_transitive(
                                    p.settings,
                                    settings,
                                    grants::routed(config, g, credential, key, here).settings,
                                );
                            }
                        },
                    }
                }
            }
        }
    }
}

proof fn lemma_routed_adds(
    config: CommandPoliciesConfig,
    grant: CommandCredentialGrantPolicyConfig,
    credential: CommandCredentialConfig,
    credential_key: Option<Seq<char>>,
    p: Progress,
)
    requires
        grants::grant_fault(config, grant, credential) is None,
    ensures
        adds_to(
            p.settings,
            grants::routed(config, grant, credential, credential_key, p).settings,
        ),
{
    lemma_adds_to_itself(p.settings);
    if let Reply::Got { value: files, rest } = grants::tls_files_of(credential, p.answers) {
        let route = grants::granted_route(config, grant, credential, credential_key, files);
        if grants::route_fault(p.settings, grant.name@, route) is None {
            lemma_route_adds(
                p.settings,
                grant.name@,
                route,
                credential.base_url_env_var.deep_view(),
            );
        }
    }
}

proof fn lemma_grants_add(
    config: CommandPoliciesConfig,
    row: Seq<CommandCredentialGrantConfig>,
    p: Progress,
)
    ensures
        adds_to(p.settings, grants::all_granted(config, row, p).settings),
    decreases row.len(),
{
    lemma_adds_to_itself(p.settings);
    if row.len() > 0 && p.halt is None {
        let next = grants::granted(config, row[0], p);
        lemma_grant_adds(config, row[0], p);
        lemma_grants_add(config, row.drop_first(), next);
        lemma_adds_to_transitive(
            p.settings,
            next.settings,
            grants::all_granted(config, row, p).settings,
        );
    }
}

proof fn lemma_sandboxes_add(
    config: CommandPoliciesConfig,
    sandboxes: Seq<CommandSandboxConfig>,
    p: Progress,
)
    ensures
        adds_to(p.settings, grants::all_collected(config, sandboxes, p).settings),
    decreases sandboxes.len(),
{
    lemma_adds_to_itself(p.settings);
    if sandboxes.len() > 0 && p.halt is None {
        let next = grants::collected(config, sandboxes[0], p);
        lemma_grants_add(config, sandboxes[0].credentials@, p);
        lemma_sandboxes_add(config, sandboxes.drop_first(), next);
        lemma_adds_to_transitive(
            p.settings,
            next.settings,
            grants::all_collected(config, sandboxes, p).settings,
        );
    }
}

/// Granting only ever adds to the settings, wherever it stops: it reorders and drops no
/// credential, serves none twice, replaces no route, and gives every credential it grants a
/// route with a token variable and an endpoint policy.
pub proof fn lemma_granting_adds(
    config: Option<CommandPoliciesConfig>,
    settings: SettingsView,
    answers: Seq<Answer>,
)
    ensures
        adds_to(
            settings,
            grants::extended(config, Progress::start(settings, answers)).settings,
        ),
{
    lemma_adds_to_itself(settings);
    if let Some(config) = config {
        lemma_sandboxes_add(
            config,
            grants::sandboxes_of(config.commands.listed()),
            Progress::start(settings, answers),
        );
    }
}

/// Whether the settings serve `grant` as it asks: a proxy credential only under an endpoint
/// policy whose approvals all have a backend, and through a route to the credential's upstream
/// that carries that policy.
pub open spec fn serves_grant(
    config: CommandPoliciesConfig,
    grant: CommandCredentialGrantConfig,
    s: SettingsView,
) -> bool {
    match grant {
        CommandCredentialGrantConfig::Name(name) => !grants::is_proxy_credential(config, name@),
        CommandCredentialGrantConfig::Policy(g) => grants::is_proxy_credential(config, g.name@)
            ==> {
            let credential = config.credentials.deep_view()[g.name@];
            &&& g.endpoint_policy is Some
            &&& endpoint_policy::approval_fault(config, g.name@, g.endpoint_policy->0) is None
            &&& s.tool_sandbox_proxy_credentials.contains(g.name@)
            &&& s.credentials.contains(g.name@)
            &&& s.custom_credentials.contains_key(g.name@)
            &&& Some(s.custom_credentials[g.name@].upstream) == credential.upstream.deep_view()
            &&& s.custom_credentials[g.name@].env_var == credential.env_var.deep_view()
            &&& s.custom_credentials[g.name@].endpoint_policy == Some(
                endpoint_policy::proxy_policy(config, g.endpoint_policy->0),
            )
        },
    }
}

/// Whether the settings serve every grant of `sandbox`, and it uses no proxy credential beyond
/// its grants.
pub open spec fn serves_sandbox(
    config: CommandPoliciesConfig,
    sandbox: CommandSandboxConfig,
    s: SettingsView,
) -> bool {
    &&& forall|i: int|
        0 <= i < sandbox.use_credentials@.len() ==> !grants::is_proxy_credential(
            config,
            (#[trigger] sandbox.use_credentials@[i])@,
        )
    &&& forall|i: int|
        0 <= i < sandbox.credentials@.len() ==> serves_grant(
            config,
            #[trigger] sandbox.credentials@[i],
            s,
        )
}

proof fn lemma_serving_lasts(
    config: CommandPoliciesConfig,
    grant: CommandCredentialGrantConfig,
    before: SettingsView,
    after: SettingsView,
)
    requires
        serves_grant(config, grant, before),
        adds_to(before, after),
    ensures
        serves_grant(config, grant, after),
{
    if let CommandCredentialGrantConfig::Policy(g) = grant {
        if grants::is_proxy_credential(config, g.name@) {
            let i = before.credentials.index_of(g.name@);
            assert(after.credentials.subrange(0, before.credentials.len() as int)[i]
                == after.credentials[i]);
        }
    }
}

proof fn lemma_grant_serves(
    config: CommandPoliciesConfig,
    grant: CommandCredentialGrantConfig,
    p: Progress,
)
    requires
        p.halt is None,
        grants::granted(config, grant, p).halt is None,
    ensures
        serves_grant(config, grant, grants::granted(config, grant, p).settings),
{
    if let CommandCredentialGrantConfig::Policy(g) = grant {
        if grants::is_proxy_credential(config, g.name@) {
            let end = grants::granted(config, grant, p).settings;
            assert(end.credentials.contains(g.name@)) by {
                if !p.settings.credentials.contains(g.name@) {
                    assert(end.credentials.last() == g.name@);
                }
            }
        }
    }
}

proof fn lemma_grants_serve(
    config: CommandPoliciesConfig,
    row: Seq<CommandCredentialGrantConfig>,
    p: Progress,
)
    requires
        p.halt is None,
        grants::all_granted(config, row, p).halt is None,
    ensures
        forall|i: int|
            0 <= i < row.len() ==> serves_grant(
                config,
                #[trigger] row[i],
                grants::all_granted(config, row, p).settings,
            ),
    decreases row.len(),
{
    if row.len() > 0 {
        let next = grants::granted(config, row[0], p);
        let end = grants::all_granted(config, row, p).settings;
        reveal_with_fuel(grants::all_granted, 2);
        assert(next.halt is None);
        lemma_grant_serves(config, row[0], p);
        lemma_grants_add(config, row.drop_first(), next);
        lemma_serving_lasts(config, row[0], next.settings, end);
        lemma_grants_serve(config, row.drop_first(), next);
        assert forall|i: int| 0 <= i < row.len() implies serves_grant(
            config,
            #[trigger] row[i],
            end,
        ) by {
            if i > 0 {
                assert(row.drop_first()[i - 1] == row[i]);
            }
        }
    }
}

proof fn lemma_no_proxy_credential(config: CommandPoliciesConfig, names: Seq<String>)
    requires
        grants::first_proxy_credential(config, names) is None,
    ensures
        forall|i: int|
            0 <= i < names.len() ==> !grants::is_proxy_credential(config, (#[trigger] names[i])@),
    decreases names.len(),
{
    if names.len() > 0 {
        lemma_no_proxy_credential(config, names.drop_first());
        assert forall|i: int| 0 <= i < names.len() implies !grants::is_proxy_credential(
            config,
            (#[trigger] names[i])@,
        ) by {
            if i > 0 {
                assert(names.drop_first()[i - 1] == names[i]);
            }
        }
    }
}

proof fn lemma_sandboxes_serve(
    config: CommandPoliciesConfig,
    sandboxes: Seq<CommandSandboxConfig>,
    p: Progress,
)
    requires
        p.halt is None,
        grants::all_collected(config, sandboxes, p).halt is None,
    ensures
        forall|i: int|
            0 <= i < sandboxes.len() ==> serves_sandbox(
                config,
                #[trigger] sandboxes[i],
                grants::all_collected(config, sandboxes, p).settings,
            ),
    decreases sandboxes.len(),
{
    if sandboxes.len() > 0 {
        let first = sandboxes[0];
        let next = grants::collected(config, first, p);
        let end = grants::all_collected(config, sandboxes, p).settings;
        reveal_with_fuel(grants::all_collected, 2);
        assert(next.halt is None);
        lemma_no_proxy_credential(config, first.use_credentials@);
        lemma_grants_serve(config, first.credentials@, p);
        lemma_sandboxes_add(config, sandboxes.drop_first(), next);
        assert forall|i: int| 0 <= i < first.credentials@.len() implies serves_grant(
            config,
            #[trigger] first.credentials@[i],
            end,
        ) by {
            lemma_serving_lasts(config, first.credentials@[i], next.settings, end);
        }
        assert(serves_sandbox(config, first, end));
        lemma_sandboxes_serve(config, sandboxes.drop_first(), next);
        assert forall|i: int| 0 <= i < sandboxes.len() implies serves_sandbox(
            config,
            #[trigger] sandboxes[i],
            end,
        ) by {
            if i > 0 {
                assert(sandboxes.drop_first()[i - 1] == sandboxes[i]);
            }
        }
    }
}

/// Where granting a configuration in force succeeds, every sandbox in it is served as it asks,
/// and none has a proxy credential without an endpoint policy.
pub proof fn lemma_success_serves_every_sandbox(
    config: CommandPoliciesConfig,
    settings: SettingsView,
    answers: Seq<Answer>,
    at: int,
)
    requires
        config.active,
        grants::extended(Some(config), Progress::start(settings, answers)).halt is None,
        0 <= at < grants::sandboxes_of(config.commands.listed()).len(),
    ensures
        serves_sandbox(
            config,
            grants::sandboxes_of(config.commands.listed())[at],
            grants::extended(Some(config), Progress::start(settings, answers)).settings,
        ),
{
    lemma_sandboxes_serve(
        config,
        grants::sandboxes_of(config.commands.listed()),
        Progress::start(settings, answers),
    );
}

/// Granting cannot succeed where two grants give one proxy credential different endpoint
/// policies, be they in one sandbox or in two.
pub proof fn lemma_conflicting_grants_are_refused(
    config: CommandPoliciesConfig,
    settings: SettingsView,
    answers: Seq<Answer>,
    sandbox: int,
    grant: int,
    other_sandbox: int,
    other_grant: int,
)
    requires
        config.active,
        ({
            let sandboxes = grants::sandboxes_of(config.commands.listed());
            &&& 0 <= sandbox < sandboxes.len()
            &&& 0 <= other_sandbox < sandboxes.len()
            &&& 0 <= grant < sandboxes[sandbox].credentials@.len()
            &&& 0 <= other_grant < sandboxes[other_sandbox].credentials@.len()
            &&& conflict(
                config,
                sandboxes[sandbox].credentials@[grant],
                sandboxes[other_sandbox].credentials@[other_grant],
            )
        }),
    ensures
        grants::extended(Some(config), Progress::start(settings, answers)).halt is Some,
{
    let end = grants::extended(Some(config), Progress::start(settings, answers));
    let sandboxes = grants::sandboxes_of(config.commands.listed());
    if end.halt is None {
        lemma_success_serves_every_sandbox(config, settings, answers, sandbox);
        lemma_success_serves_every_sandbox(config, settings, answers, other_sandbox);
        assert(serves_grant(config, sandboxes[sandbox].credentials@[grant], end.settings));
        assert(serves_grant(
            config,
            sandboxes[other_sandbox].credentials@[other_grant],
            end.settings,
        ));
    }
}

/// Whether two grants give one proxy credential endpoint policies that the proxy would enforce
/// differently.
pub open spec fn conflict(
    config: CommandPoliciesConfig,
    a: CommandCredentialGrantConfig,
    b: CommandCredentialGrantConfig,
) -> bool {
    match (a, b) {
        (CommandCredentialGrantConfig::Policy(a), CommandCredentialGrantConfig::Policy(b)) => {
            &&& a.name@ == b.name@
            &&& grants::is_proxy_credential(config, a.name@)
            &&& a.endpoint_policy is Some
            &&& b.endpoint_policy is Some
            &&& endpoint_policy::proxy_policy(config, a.endpoint_policy->0)
                != endpoint_policy::proxy_policy(config, b.endpoint_policy->0)
        },
        _ => false,
    }
}

/// Whether a second run that has come to `again`, where the first had come to `once` at the same
/// point and came to `end` at last, can only end where the first did: each value is what it was
/// at the end, or what it was at this point of the first run.
spec fn retraces<T>(
    once: Map<Seq<char>, T>,
    again: Map<Seq<char>, T>,
    end: Map<Seq<char>, T>,
) -> bool {
    &&& again.dom() == end.dom()
    &&& forall|name: Seq<char>| #[trigger]
        end.contains_key(name) ==> again[name] == end[name] || once.contains_key(name)
            && again[name] == once[name]
}

spec fn follows(once: SettingsView, again: SettingsView, end: SettingsView) -> bool {
    &&& again.credentials == end.credentials
    &&& again.custom_credentials == end.custom_credentials
    &&& again.tool_sandbox_proxy_credentials == end.tool_sandbox_proxy_credentials
    &&& retraces(once.proxy_source_env_vars, again.proxy_source_env_vars, end.proxy_source_env_vars)
    &&& retraces(once.base_url_env_vars, again.base_url_env_vars, end.base_url_env_vars)
}

proof fn lemma_retracing_ends(once: SettingsView, again: SettingsView)
    requires
        follows(once, again, once),
    ensures
        again == once,
{
    assert(again.proxy_source_env_vars =~= once.proxy_source_env_vars);
    assert(again.base_url_env_vars =~= once.base_url_env_vars);
}

proof fn lemma_retraces_insert<T>(
    once: Map<Seq<char>, T>,
    again: Map<Seq<char>, T>,
    end: Map<Seq<char>, T>,
    name: Seq<char>,
    value: T,
)
    requires
        retraces(once, again, end),
        end.contains_key(name),
    ensures
        retraces(once.insert(name, value), again.insert(name, value), end),
{
    assert(again.insert(name, value).dom() =~= end.dom());
}

proof fn lemma_routed_follows(
    config: CommandPoliciesConfig,
    grant: CommandCredentialGrantPolicyConfig,
    credential: CommandCredentialConfig,
    credential_key: Option<Seq<char>>,
    p: Progress,
    again: SettingsView,
    end: SettingsView,
)
    requires
        p.halt is None,
        grants::grant_fault(config, grant, credential) is None,
        grants::routed(config, grant, credential, credential_key, p).halt is None,
        adds_to(grants::routed(config, grant, credential, credential_key, p).settings, end),
        follows(p.settings, again, end),
    ensures
        ({
            let first = grants::routed(config, grant, credential, credential_key, p);
            let second = grants::routed(
                config,
                grant,
                credential,
                credential_key,
                Progress { settings: again, ..p },
            );
            &&& second.halt is None
            &&& second.answers == first.answers
            &&& follows(first.settings, second.settings, end)
        }),
{
    let name = grant.name@;
    let first = grants::routed(config, grant, credential, credential_key, p);
    let second = grants::routed(
        config,
        grant,
        credential,
        credential_key,
        Progress { settings: again, ..p },
    );
    assert(first.settings.custom_credentials.contains_key(name));
    assert(end.custom_credentials.contains_key(name));
    assert(end.custom_credentials[name] == first.settings.custom_credentials[name]);
    assert(end.tool_sandbox_proxy_credentials.contains(name));
    assert(end.credentials.contains(name)) by {
        let known = first.settings.credentials;
        assert(known.contains(name)) by {
            if !p.settings.credentials.contains(name) {
                assert(known.last() == name);
            }
        }
        let i = known.index_of(name);
        assert(end.credentials.subrange(0, known.len() as int)[i] == end.credentials[i]);
    }
    assert(second.halt is None);
    assert(second.settings.custom_credentials =~= end.custom_credentials);
    assert(second.settings.tool_sandbox_proxy_credentials =~= end.tool_sandbox_proxy_credentials);
    if let Some(variable) = credential.base_url_env_var.deep_view() {
        assert(first.settings.base_url_env_vars.contains_key(name));
        assert(end.base_url_env_vars.dom().contains(name));
        lemma_retraces_insert(
            p.settings.base_url_env_vars,
            again.base_url_env_vars,
            end.base_url_env_vars,
            name,
            variable,
        );
    }
}

proof fn lemma_grant_follows(
    config: CommandPoliciesConfig,
    grant: CommandCredentialGrantConfig,
    p: Progress,
    again: SettingsView,
    end: SettingsView,
)
    requires
        p.halt is None,
        grants::granted(config, grant, p).halt is None,
        adds_to(grants::granted(config, grant, p).settings, end),
        follows(p.settings, again, end),
    ensures
        ({
            let first = grants::granted(config, grant, p);
            let second = grants::granted(config, grant, Progress { settings: again, ..p });
            &&& second.halt is None
            &&& second.answers == first.answers
            &&& follows(first.settings, second.settings, end)
        }),
{
    if let CommandCredentialGrantConfig::Policy(g) = grant {
        if grants::is_proxy_credential(config, g.name@) {
            let credential = config.credentials.deep_view()[g.name@];
            let verdict = grants::verdict_on_both(
                g.name@,
                credential.env_var->0@,
                credential.base_url_env_var.deep_view(),
                p.answers,
            );
            if let Reply::Got { value: _, rest } = verdict {
                match credential.source {
                    None => {
                        lemma_routed_follows(
                            config,
                            g,
                            credential,
                            credential.credential_key.deep_view(),
                            Progress { answers: rest, ..p },
                            again,
                            end,
                        );
                    },
                    Some(source) => {
                        let reply = grants::answer_to(grants::source_request(source), rest);
                        if let Reply::Got { value: secret, rest } = reply {
                            let variable = crate::source_env::source_variable(g.name@);
                            let first = grants::granted(config, grant, p);
                            let here = grants::with_secret(p.settings, g.name@, secret);
                            let there = grants::with_secret(again, g.name@, secret);
                            assert(first.settings.proxy_source_env_vars.contains_key(variable));
                            assert(end.proxy_source_env_vars.dom().contains(variable));
                            lemma_retraces_insert(
                                p.settings.proxy_source_env_vars,
                                again.proxy_source_env_vars,
                                end.proxy_source_env_vars,
                                variable,
                                secret,
                            );
                            assert(follows(here, there, end));
                            lemma_routed_follows(
                                config,
                                g,
                                credential,
                                Some("env://"@ + variable),
                                Progress { settings: here, answers: rest, halt: p.halt },
                                there,
                                end,
                            );
                        }
                    },
                }
            }
        }
    }
}

proof fn lemma_grants_follow(
    config: CommandPoliciesConfig,
    row: Seq<CommandCredentialGrantConfig>,
    p: Progress,
    again: SettingsView,
    end: SettingsView,
)
    requires
        p.halt is None,
        grants::all_granted(config, row, p).halt is None,
        adds_to(grants::all_granted(config, row, p).settings, end),
        follows(p.settings, again, end),
    ensures
        ({
            let first = grants::all_granted(config, row, p);
            let second = grants::all_granted(config, row, Progress { settings: again, ..p });
            &&& second.halt is None
            &&& second.answers == first.answers
            &&& follows(first.settings, second.settings, end)
        }),
    decreases row.len(),
{
    if row.len() > 0 {
        let next = grants::granted(config, row[0], p);
        let next_again = grants::granted(config, row[0], Progress { settings: again, ..p });
        reveal_with_fuel(grants::all_granted, 2);
        assert(next.halt is None);
        lemma_grants_add(config, row.drop_first(), next);
        lemma_adds_to_transitive(
            next.settings,
            grants::all_granted(config, row, p).settings,
            end,
        );
        lemma_grant_follows(config, row[0], p, again, end);
        lemma_grants_follow(config, row.drop_first(), next, next_again.settings, end);
        assert(next_again == Progress { settings: next_again.settings, ..next });
    }
}

proof fn lemma_sandboxes_follow(
    config: CommandPoliciesConfig,
    sandboxes: Seq<CommandSandboxConfig>,
    p: Progress,
    again: SettingsView,
    end: SettingsView,
)
    requires
        p.halt is None,
        grants::all_collected(config, sandboxes, p).halt is None,
        adds_to(grants::all_collected(config, sandboxes, p).settings, end),
        follows(p.settings, again, end),
    ensures
        ({
            let first = grants::all_collected(config, sandboxes, p);
            let second = grants::all_collected(
                config,
                sandboxes,
                Progress { settings: again, ..p },
            );
            &&& second.halt is None
            &&& second.answers == first.answers
            &&& follows(first.settings, second.settings, end)
        }),
    decreases sandboxes.len(),
{
    if sandboxes.len() > 0 {
        let next = grants::collected(config, sandboxes[0], p);
        let next_again = grants::collected(config, sandboxes[0], Progress { settings: again, ..p });
        reveal_with_fuel(grants::all_collected, 2);
        assert(next.halt is None);
        lemma_sandboxes_add(config, sandboxes.drop_first(), next);
        lemma_adds_to_transitive(
            next.settings,
            grants::all_collected(config, sandboxes, p).settings,
            end,
        );
        lemma_grants_follow(config, sandboxes[0].credentials@, p, again, end);
        lemma_sandboxes_follow(config, sandboxes.drop_first(), next, next_again.settings, end);
        assert(next_again == Progress { settings: next_again.settings, ..next });
    }
}

/// Granting a sandbox its credentials a second time, with the same answers from the host,
/// succeeds where the first time did and changes nothing.
pub proof fn lemma_granting_again_changes_nothing(
    config: CommandPoliciesConfig,
    sandbox: CommandSandboxConfig,
    settings: SettingsView,
    answers: Seq<Answer>,
)
    requires
        grants::collected(config, sandbox, Progress::start(settings, answers)).halt is None,
    ensures
        ({
            let once = grants::collected(config, sandbox, Progress::start(settings, answers));
            grants::collected(config, sandbox, Progress::start(once.settings, answers)) == once
        }),
{
    let start = Progress::start(settings, answers);
    let once = grants::collected(config, sandbox, start);
    let twice = grants::collected(config, sandbox, Progress::start(once.settings, answers));
    lemma_adds_to_itself(once.settings);
    lemma_grants_follow(config, sandbox.credentials@, start, once.settings, once.settings);
    lemma_retracing_ends(once.settings, twice.settings);
}

/// Granting all that a configuration grants a second time, with the same answers from the host,
/// succeeds where the first time did and changes nothing.
pub proof fn lemma_granting_all_again_changes_nothing(
    config: Option<CommandPoliciesConfig>,
    settings: SettingsView,
    answers: Seq<Answer>,
)
    requires
        grants::extended(config, Progress::start(settings, answers)).halt is None,
    ensures
        ({
            let once = grants::extended(config, Progress::start(settings, answers));
            grants::extended(config, Progress::start(once.settings, answers)) == once
        }),
{
    let start = Progress::start(settings, answers);
    let once = grants::extended(config, start);
    let twice = grants::extended(config, Progress::start(once.settings, answers));
    if let Some(config) = config {
        if config.active {
            let sandboxes = grants::sandboxes_of(config.commands.listed());
            lemma_adds_to_itself(once.settings);
            lemma_sandboxes_follow(config, sandboxes, start, once.settings, once.settings);
            lemma_retracing_ends(once.settings, twice.settings);
        }
    }
}

} // verus!
