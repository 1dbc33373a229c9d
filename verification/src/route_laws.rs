//! What granting makes of a credential: its route, its secret and its variables.
use vstd::prelude::*;

use crate::command_policy::{
    AmbientCredentialSourceConfig, CommandCredentialConfig, CommandCredentialGrantConfig,
    CommandCredentialGrantPolicyConfig, CommandFromConfig, CommandPoliciesConfig,
    CommandPolicyConfig, CommandSandboxConfig,
};
use crate::endpoint_policy;
use crate::error;
use crate::grant_laws;
use crate::grants;
use crate::grants::{Answer, GrantRequestView, Progress, Reply, SettingsView};
use crate::host::HaltView;
use crate::source_env;

verus! {

/// How many answers come before the one that is the secret: one for each variable that the
/// credential names.
pub open spec fn before_secret(credential: CommandCredentialConfig) -> int {
    if credential.base_url_env_var is Some {
        2
    } else {
        1
    }
}

/// How many answers come before the first that is the path of a file.
pub open spec fn before_files(credential: CommandCredentialConfig) -> int {
    before_secret(credential) + if credential.source is Some {
        1int
    } else {
        0
    }
}

/// How many answers come before the path of the client's certificate.
pub open spec fn before_cert(credential: CommandCredentialConfig) -> int {
    before_files(credential) + if credential.tls_ca is Some {
        1int
    } else {
        0
    }
}

/// How many answers come before the path of the client's key.
pub open spec fn before_key(credential: CommandCredentialConfig) -> int {
    before_cert(credential) + if credential.tls_client_cert is Some {
        1int
    } else {
        0
    }
}

/// How many answers a grant of the credential takes.
pub open spec fn answers_needed(credential: CommandCredentialConfig) -> int {
    before_key(credential) + if credential.tls_client_key is Some {
        1int
    } else {
        0
    }
}

/// Whether `text` is what the host answered in the place `at`.
pub open spec fn says(answers: Seq<Answer>, at: int, text: Seq<char>) -> bool {
    0 <= at < answers.len() && (answers[at] matches Ok(answer) && answer@ == text)
}

/// Whether `grant` gives a proxy credential of the configuration under a policy.
pub open spec fn grants_proxy_credential(
    config: CommandPoliciesConfig,
    grant: CommandCredentialGrantConfig,
    name: Seq<char>,
) -> bool {
    &&& grant matches CommandCredentialGrantConfig::Policy(g) && g.name@ == name
    &&& config.credentials.deep_view().contains_key(name)
    &&& config.credentials.deep_view()[name].credential_type is Proxy
}

proof fn lemma_files_in_place(credential: CommandCredentialConfig, answers: Seq<Answer>)
    ensures
        grants::tls_files_of(credential, answers) matches Reply::Got { value, rest } ==> {
            let cert = if credential.tls_ca is Some {
                1int
            } else {
                0
            };
            let key = cert + if credential.tls_client_cert is Some {
                1int
            } else {
                0
            };
            let all = key + if credential.tls_client_key is Some {
                1int
            } else {
                0
            };
            &&& all <= answers.len()
            &&& rest == answers.skip(all)
            &&& credential.tls_ca is None ==> value.0 is None
            &&& credential.tls_ca is Some ==> value.0 is Some && says(answers, 0, value.0->0)
            &&& credential.tls_client_cert is None ==> value.1 is None
            &&& credential.tls_client_cert is Some ==> value.1 is Some && says(
                answers,
                cert,
                value.1->0,
            )
            &&& credential.tls_client_key is None ==> value.2 is None
            &&& credential.tls_client_key is Some ==> value.2 is Some && says(
                answers,
                key,
                value.2->0,
            )
        },
{
    assert(answers.skip(0) =~= answers);
    if answers.len() > 0 {
        let one = answers.drop_first();
        assert(one =~= answers.skip(1));
        if one.len() > 0 {
            let two = one.drop_first();
            assert(two =~= answers.skip(2));
            assert(one[0] == answers[1]);
            if two.len() > 0 {
                assert(two.drop_first() =~= answers.skip(3));
                assert(two[0] == answers[2]);
            }
        }
    }
}

proof fn lemma_verdicts_in_place(
    name: Seq<char>,
    variable: Seq<char>,
    base_url_variable: Option<Seq<char>>,
    answers: Seq<Answer>,
)
    ensures
        grants::verdict_on_both(name, variable, base_url_variable, answers) matches Reply::Got {
            value,
            rest,
        } ==> {
            let used = if base_url_variable is Some {
                2int
            } else {
                1
            };
            &&& used <= answers.len()
            &&& rest == answers.skip(used)
            &&& forall|i: int| 0 <= i < used ==> (#[trigger] answers[i]) is Ok
        },
{
    if answers.len() > 0 {
        let one = answers.drop_first();
        assert(one =~= answers.skip(1));
        if one.len() > 0 {
            assert(one.drop_first() =~= answers.skip(2));
            assert(one[0] == answers[1]);
        }
    }
}

/// Where granting a proxy credential succeeds, its route leads to the credential's upstream,
/// injects into the header that the credential names, or into `Authorization` where it names
/// none, in the credential's own format, and is filtered by the grant's endpoint policy. Its key
/// is the variable that holds the secret, for a credential with a source, and else the
/// credential's own. Its TLS files are those that the credential names, expanded as the host
/// answered. Nothing else is set on it.
pub proof fn lemma_route_is_the_credentials_own(
    config: CommandPoliciesConfig,
    grant: CommandCredentialGrantConfig,
    name: Seq<char>,
    p: Progress,
)
    requires
        p.halt is None,
        grants_proxy_credential(config, grant, name),
        grants::granted(config, grant, p).halt is None,
    ensures
        ({
            let credential = config.credentials.deep_view()[name];
            let routes = grants::granted(config, grant, p).settings.custom_credentials;
            let route = routes[name];
            &&& routes.contains_key(name)
            &&& credential.upstream matches Some(upstream) && route.upstream == upstream@
            &&& credential.env_var matches Some(variable) && route.env_var == Some(variable@)
            &&& credential.inject_header matches Some(header) ==> route.inject_header == header@
            &&& credential.inject_header is None ==> route.inject_header == "Authorization"@
            &&& route.inject_mode is Header
            &&& route.credential_format == credential.credential_format.deep_view()
            &&& credential.source is Some ==> route.credential_key == Some(
                "env://"@ + source_env::source_variable(name),
            )
            &&& credential.source is None ==> route.credential_key
                == credential.credential_key.deep_view()
            &&& route.auth is None
            &&& route.path_pattern is None
            &&& route.path_replacement is None
            &&& route.query_param_name is None
            &&& route.proxy is None
            &&& route.endpoint_rules.len() == 0
            &&& grant->Policy_0.endpoint_policy matches Some(policy) && route.endpoint_policy
                == Some(endpoint_policy::proxy_policy(config, policy))
            &&& route.tls_ca is Some <==> credential.tls_ca is Some
            &&& route.tls_ca is Some ==> says(
                p.answers,
                before_files(credential),
                route.tls_ca->0,
            )
            &&& route.tls_client_cert is Some <==> credential.tls_client_cert is Some
            &&& route.tls_client_cert is Some ==> says(
                p.answers,
                before_cert(credential),
                route.tls_client_cert->0,
            )
            &&& route.tls_client_key is Some <==> credential.tls_client_key is Some
            &&& route.tls_client_key is Some ==> says(
                p.answers,
                before_key(credential),
                route.tls_client_key->0,
            )
        }),
{
    let credential = config.credentials.deep_view()[name];
    let variables = before_secret(credential);
    lemma_verdicts_in_place(
        name,
        credential.env_var->0@,
        credential.base_url_env_var.deep_view(),
        p.answers,
    );
    let rest = p.answers.skip(variables);
    lemma_files_in_place(credential, rest);
    if rest.len() > 0 {
        assert(rest.drop_first() =~= p.answers.skip(variables + 1));
        lemma_files_in_place(credential, rest.drop_first());
    }
}

/// Where granting a proxy credential succeeds, the credential is served, once, and granted to a
/// tool sandbox; the variable for its address is kept where it has one; its secret, where it has
/// a source, is what the host answered, in the variable that its route's key names. All other
/// credentials, routes, variables and grants are as they were, and exactly the answers it needs
/// are used up.
pub proof fn lemma_grant_adds_one_credential(
    config: CommandPoliciesConfig,
    grant: CommandCredentialGrantConfig,
    name: Seq<char>,
    p: Progress,
)
    requires
        p.halt is None,
        grants_proxy_credential(config, grant, name),
        grants::granted(config, grant, p).halt is None,
    ensures
        ({
            let credential = config.credentials.deep_view()[name];
            let before = p.settings;
            let end = grants::granted(config, grant, p);
            let after = end.settings;
            &&& before.credentials.contains(name) ==> after.credentials == before.credentials
            &&& !before.credentials.contains(name) ==> after.credentials
                == before.credentials.push(name)
            &&& after.tool_sandbox_proxy_credentials
                == before.tool_sandbox_proxy_credentials.insert(name)
            &&& after.custom_credentials.remove(name) == before.custom_credentials.remove(name)
            &&& before.custom_credentials.contains_key(name) ==> before.custom_credentials[name]
                == after.custom_credentials[name]
            &&& credential.base_url_env_var matches Some(variable) ==> after.base_url_env_vars
                == before.base_url_env_vars.insert(name, variable@)
            &&& credential.base_url_env_var is None ==> after.base_url_env_vars
                == before.base_url_env_vars
            &&& credential.source is None ==> after.proxy_source_env_vars
                == before.proxy_source_env_vars
            &&& credential.source is Some ==> {
                let variable = source_env::source_variable(name);
                &&& after.proxy_source_env_vars.contains_key(variable)
                &&& says(
                    p.answers,
                    before_secret(credential),
                    after.proxy_source_env_vars[variable],
                )
                &&& after.proxy_source_env_vars.remove(variable)
                    == before.proxy_source_env_vars.remove(variable)
            }
            &&& answers_needed(credential) <= p.answers.len()
            &&& end.answers == p.answers.skip(answers_needed(credential))
        }),
{
    let credential = config.credentials.deep_view()[name];
    let variables = before_secret(credential);
    let before = p.settings;
    let after = grants::granted(config, grant, p).settings;
    lemma_verdicts_in_place(
        name,
        credential.env_var->0@,
        credential.base_url_env_var.deep_view(),
        p.answers,
    );
    let rest = p.answers.skip(variables);
    lemma_files_in_place(credential, rest);
    let files = answers_needed(credential) - before_files(credential);
    assert(credential.source is None ==> rest.skip(files) =~= p.answers.skip(
        answers_needed(credential),
    ));
    if rest.len() > 0 {
        assert(rest.drop_first() =~= p.answers.skip(variables + 1));
        lemma_files_in_place(credential, rest.drop_first());
        assert(credential.source is Some ==> rest.drop_first().skip(files) =~= p.answers.skip(
            answers_needed(credential),
        ));
    }
    assert(after.custom_credentials.remove(name) =~= before.custom_credentials.remove(name));
    let variable = source_env::source_variable(name);
    assert(credential.source is Some ==> after.proxy_source_env_vars.remove(variable)
        =~= before.proxy_source_env_vars.remove(variable));
}

/// A grant of a credential that does not go through the proxy, or that there is none of, changes
/// nothing and asks for nothing; a proxy credential that is granted by its name alone, or without
/// an endpoint policy, is refused.
pub proof fn lemma_only_proxy_credentials_are_granted(
    config: CommandPoliciesConfig,
    grant: CommandCredentialGrantConfig,
    p: Progress,
)
    ensures
        ({
            let name = match grant {
                CommandCredentialGrantConfig::Name(name) => name@,
                CommandCredentialGrantConfig::Policy(g) => g.name@,
            };
            let known = config.credentials.deep_view();
            let through_proxy = known.contains_key(name) && known[name].credential_type is Proxy;
            let end = grants::granted(config, grant, p);
            &&& !through_proxy ==> end == p
            &&& through_proxy && grant is Name ==> end == Progress {
                halt: Some(
                    HaltView::Failed(
                        error::credential_fault(name, " must include endpoint_policy"@),
                    ),
                ),
                ..p
            }
            &&& grant matches CommandCredentialGrantConfig::Policy(g) ==> through_proxy
                && g.endpoint_policy is None ==> end == Progress {
                halt: Some(
                    HaltView::Failed(
                        error::credential_fault(name, " requires endpoint_policy"@),
                    ),
                ),
                ..p
            }
        }),
{
}

/// A credential without an upstream or without a variable for its token, and a policy with an
/// approval that has no backend to go to, are refused before the host is asked for anything, the
/// policy first.
pub proof fn lemma_incomplete_credentials_are_refused(
    config: CommandPoliciesConfig,
    grant: CommandCredentialGrantConfig,
    name: Seq<char>,
    p: Progress,
)
    requires
        p.halt is None,
        grants_proxy_credential(config, grant, name),
    ensures
        grant->Policy_0.endpoint_policy matches Some(policy) ==> {
            let credential = config.credentials.deep_view()[name];
            let end = grants::granted(config, grant, p);
            let fault = endpoint_policy::approval_fault(config, name, policy);
            &&& fault matches Some(fault) ==> end == Progress {
                halt: Some(HaltView::Failed(fault)),
                ..p
            }
            &&& fault is None && credential.upstream is None ==> end == Progress {
                halt: Some(
                    HaltView::Failed(error::credential_fault(name, " missing upstream"@)),
                ),
                ..p
            }
            &&& fault is None && credential.upstream is Some && credential.env_var is None ==> end
                == Progress {
                halt: Some(
                    HaltView::Failed(error::credential_fault(name, " missing env_var"@)),
                ),
                ..p
            }
        },
{
}

/// Whether a grant of the credential gets as far as asking the host.
pub open spec fn can_be_asked_for(
    config: CommandPoliciesConfig,
    grant: CommandCredentialGrantConfig,
    name: Seq<char>,
) -> bool {
    let credential = config.credentials.deep_view()[name];
    &&& grants_proxy_credential(config, grant, name)
    &&& credential.upstream is Some
    &&& credential.env_var is Some
    &&& grant->Policy_0.endpoint_policy matches Some(policy) && endpoint_policy::approval_fault(
        config,
        name,
        policy,
    ) is None
}

/// A grant asks the host for one thing after the other: a verdict on the variable for the token,
/// and on the one for the address where there is one; the secret where there is a source; and
/// then the paths of the authority's certificate, the client's certificate and the client's key,
/// as far as the credential names them.
pub proof fn lemma_grant_asks_in_turn(
    config: CommandPoliciesConfig,
    grant: CommandCredentialGrantConfig,
    name: Seq<char>,
    p: Progress,
)
    requires
        p.halt is None,
        can_be_asked_for(config, grant, name),
        forall|i: int| 0 <= i < p.answers.len() ==> (#[trigger] p.answers[i]) is Ok,
    ensures
        ({
            let credential = config.credentials.deep_view()[name];
            let halt = grants::granted(config, grant, p).halt;
            let n = p.answers.len() as int;
            &&& n == 0 ==> halt == Some(
                HaltView::<GrantRequestView>::Ask(
                    GrantRequestView::CheckEnvVar { name: credential.env_var->0@ },
                ),
            )
            &&& credential.base_url_env_var matches Some(variable) ==> n == 1 ==> halt == Some(
                HaltView::<GrantRequestView>::Ask(
                    GrantRequestView::CheckEnvVar { name: variable@ },
                ),
            )
            &&& credential.source matches Some(source) ==> n == before_secret(credential) ==> {
                &&& source matches AmbientCredentialSourceConfig::Keystore { key } ==> halt == Some(
                    HaltView::<GrantRequestView>::Ask(GrantRequestView::LoadSecret { key: key@ }),
                )
                &&& source matches AmbientCredentialSourceConfig::Command {
                    command,
                    args,
                    timeout_secs,
                } ==> halt == Some(
                    HaltView::<GrantRequestView>::Ask(
                        GrantRequestView::RunCommand {
                            command: command@,
                            args: args.deep_view(),
                            timeout_secs,
                        },
                    ),
                )
            }
            &&& credential.tls_ca matches Some(path) ==> n == before_files(credential) ==> halt
                == Some(
                HaltView::<GrantRequestView>::Ask(GrantRequestView::ExpandPath { path: path@ }),
            )
            &&& credential.tls_client_cert matches Some(path) ==> n == before_cert(credential)
                ==> halt == Some(
                HaltView::<GrantRequestView>::Ask(GrantRequestView::ExpandPath { path: path@ }),
            )
            &&& credential.tls_client_key matches Some(path) ==> n == before_key(credential)
                ==> halt == Some(
                HaltView::<GrantRequestView>::Ask(GrantRequestView::ExpandPath { path: path@ }),
            )
            &&& (halt matches Some(HaltView::Ask(_))) <==> n < answers_needed(credential)
        }),
{
    let a = p.answers;
    if a.len() > 0 {
        let one = a.drop_first();
        assert(one.len() > 0 ==> one[0] == a[1]);
        if one.len() > 0 {
            let two = one.drop_first();
            assert(two.len() > 0 ==> two[0] == a[2]);
            if two.len() > 0 {
                let three = two.drop_first();
                assert(three.len() > 0 ==> three[0] == a[3]);
                if three.len() > 0 {
                    let four = three.drop_first();
                    assert(four.len() > 0 ==> four[0] == a[4]);
                    if four.len() > 0 {
                        let five = four.drop_first();
                        assert(five.len() > 0 ==> five[0] == a[5]);
                    }
                }
            }
        }
    }
}

/// Once the host has answered everything with what can be used, a grant is refused exactly where
/// the credential has another route already, or is served already without a route of its own.
pub proof fn lemma_answered_grants_fail_only_on_conflict(
    config: CommandPoliciesConfig,
    grant: CommandCredentialGrantConfig,
    name: Seq<char>,
    p: Progress,
)
    requires
        p.halt is None,
        can_be_asked_for(config, grant, name),
        forall|i: int| 0 <= i < p.answers.len() ==> (#[trigger] p.answers[i]) is Ok,
        p.answers.len() >= answers_needed(config.credentials.deep_view()[name]),
    ensures
        ({
            let end = grants::granted(config, grant, p);
            let start = p.settings;
            let alone = Progress {
                settings: SettingsView {
                    custom_credentials: Map::empty(),
                    credentials: seq![],
                    ..start
                },
                ..p
            };
            let route = grants::granted(config, grant, alone).settings.custom_credentials[name];
            &&& start.custom_credentials.contains_key(name) && start.custom_credentials[name]
                != route ==> end.halt == Some(
                HaltView::<GrantRequestView>::Failed(
                    error::credential_fault(
                        name,
                        " has conflicting endpoint policies across command grants"@,
                    ),
                ),
            )
            &&& !start.custom_credentials.contains_key(name) && start.credentials.contains(name)
                ==> end.halt == Some(
                HaltView::<GrantRequestView>::Failed(
                    error::credential_fault(
                        name,
                        " collides with an existing proxy credential route"@,
                    ),
                ),
            )
            &&& end.halt is None <==> (start.custom_credentials.contains_key(name)
                && start.custom_credentials[name] == route
                || !start.custom_credentials.contains_key(name) && !start.credentials.contains(
                name,
            ))
        }),
{
    lemma_grant_asks_in_turn(config, grant, name, p);
    let a = p.answers;
    if a.len() > 0 {
        let one = a.drop_first();
        assert(one.len() > 0 ==> one[0] == a[1]);
        if one.len() > 0 {
            let two = one.drop_first();
            assert(two.len() > 0 ==> two[0] == a[2]);
            if two.len() > 0 {
                let three = two.drop_first();
                assert(three.len() > 0 ==> three[0] == a[3]);
                if three.len() > 0 {
                    let four = three.drop_first();
                    assert(four.len() > 0 ==> four[0] == a[4]);
                    if four.len() > 0 {
                        let five = four.drop_first();
                        assert(five.len() > 0 ==> five[0] == a[5]);
                    }
                }
            }
        }
    }
}

/// A refusal by the host ends granting. One of a variable is told as a complaint about the
/// credential, with the host's reason behind it; one of a secret or of a path is told as it is.
pub proof fn lemma_refusals_end_granting(
    config: CommandPoliciesConfig,
    grant: CommandCredentialGrantConfig,
    name: Seq<char>,
    p: Progress,
    at: int,
)
    requires
        p.halt is None,
        can_be_asked_for(config, grant, name),
        0 <= at < p.answers.len(),
        at < answers_needed(config.credentials.deep_view()[name]),
        forall|i: int| 0 <= i < at ==> (#[trigger] p.answers[i]) is Ok,
        p.answers[at] is Err,
    ensures
        ({
            let credential = config.credentials.deep_view()[name];
            let halt = grants::granted(config, grant, p).halt;
            let error = p.answers[at]->Err_0.deep_view();
            &&& at == 0 ==> halt == Some(
                HaltView::<GrantRequestView>::Failed(
                    error::credential_fault(name, " has invalid env_var: "@ + error.text()),
                ),
            )
            &&& at == 1 && credential.base_url_env_var is Some ==> halt == Some(
                HaltView::<GrantRequestView>::Failed(
                    error::credential_fault(
                        name,
                        " has invalid base_url_env_var: "@ + error.text(),
                    ),
                ),
            )
            &&& at >= before_secret(credential) ==> halt == Some(
                HaltView::<GrantRequestView>::Failed(error),
            )
        }),
{
    let a = p.answers;
    let one = a.drop_first();
    assert(one.len() > 0 ==> one[0] == a[1]);
    if one.len() > 0 {
        let two = one.drop_first();
        assert(two.len() > 0 ==> two[0] == a[2]);
        if two.len() > 0 {
            let three = two.drop_first();
            assert(three.len() > 0 ==> three[0] == a[3]);
            if three.len() > 0 {
                let four = three.drop_first();
                assert(four.len() > 0 ==> four[0] == a[4]);
                if four.len() > 0 {
                    let five = four.drop_first();
                    assert(five.len() > 0 ==> five[0] == a[5]);
                }
            }
        }
    }
}

/// `p` with the first `m` of its answers only.
pub open spec fn cut(p: Progress, m: int) -> Progress {
    Progress { answers: p.answers.take(m), ..p }
}

/// Whether `before` and `after` are one run, given all answers and given the first `m` only, that
/// did not need more than those.
spec fn cut_alike<T>(all: Reply<T>, answers: Seq<Answer>, some: Reply<T>, m: int) -> bool {
    all matches Reply::Got { value, rest } ==> {
        let used = answers.len() - rest.len();
        &&& 0 <= used
        &&& rest == answers.skip(used)
        &&& used <= m <= answers.len() ==> some == Reply::Got { value, rest: rest.take(m - used) }
    }
}

proof fn lemma_cut_skipped(answers: Seq<Answer>, used: int, m: int)
    requires
        0 <= used <= m <= answers.len(),
    ensures
        answers.take(m).skip(used) == answers.skip(used).take(m - used),
        used > 0 ==> answers.take(m).drop_first() == answers.drop_first().take(m - 1),
        used > 0 ==> answers.drop_first() == answers.skip(1),
{
    assert(answers.take(m).skip(used) =~= answers.skip(used).take(m - used));
    if used > 0 {
        assert(answers.take(m).drop_first() =~= answers.drop_first().take(m - 1));
        assert(answers.drop_first() =~= answers.skip(1));
    }
}

proof fn lemma_answer_cut(request: GrantRequestView, answers: Seq<Answer>, m: int)
    ensures
        cut_alike(
            grants::answer_to(request, answers),
            answers,
            grants::answer_to(request, answers.take(m)),
            m,
        ),
{
    if answers.len() > 0 && answers[0] is Ok {
        assert(answers.drop_first() =~= answers.skip(1));
        if 1 <= m <= answers.len() {
            lemma_cut_skipped(answers, 1, m);
        }
    }
}

proof fn lemma_verdict_cut(
    name: Seq<char>,
    complaint: Seq<char>,
    variable: Seq<char>,
    answers: Seq<Answer>,
    m: int,
)
    ensures
        cut_alike(
            grants::verdict_on(name, complaint, variable, answers),
            answers,
            grants::verdict_on(name, complaint, variable, answers.take(m)),
            m,
        ),
{
    lemma_answer_cut(GrantRequestView::CheckEnvVar { name: variable }, answers, m);
}

proof fn lemma_verdicts_cut(
    name: Seq<char>,
    variable: Seq<char>,
    other: Option<Seq<char>>,
    answers: Seq<Answer>,
    m: int,
)
    ensures
        cut_alike(
            grants::verdict_on_both(name, variable, other, answers),
            answers,
            grants::verdict_on_both(name, variable, other, answers.take(m)),
            m,
        ),
{
    let complaint = " has invalid env_var: "@;
    lemma_verdict_cut(name, complaint, variable, answers, m);
    if let Reply::Got { value: _, rest } = grants::verdict_on(name, complaint, variable, answers) {
        let used = answers.len() - rest.len();
        if let Some(other) = other {
            lemma_verdict_cut(
                name,
                " has invalid base_url_env_var: "@,
                other,
                rest,
                m - used,
            );
            lemma_skipped_twice(answers, used);
        }
    }
}

proof fn lemma_skipped_twice(answers: Seq<Answer>, used: int)
    requires
        0 <= used <= answers.len(),
    ensures
        forall|more: int|
            0 <= more <= answers.len() - used ==> #[trigger] answers.skip(used).skip(more)
                == answers.skip(used + more),
{
    assert forall|more: int| 0 <= more <= answers.len() - used implies #[trigger] answers.skip(
        used,
    ).skip(more) == answers.skip(used + more) by {
        assert(answers.skip(used).skip(more) =~= answers.skip(used + more));
    }
}

proof fn lemma_expansion_cut(path: Option<Seq<char>>, answers: Seq<Answer>, m: int)
    ensures
        cut_alike(
            grants::expansion_of(path, answers),
            answers,
            grants::expansion_of(path, answers.take(m)),
            m,
        ),
{
    match path {
        Some(path) => lemma_answer_cut(GrantRequestView::ExpandPath { path }, answers, m),
        None => {
            assert(answers.skip(0) =~= answers);
        },
    }
}

proof fn lemma_files_cut(credential: CommandCredentialConfig, answers: Seq<Answer>, m: int)
    ensures
        cut_alike(
            grants::tls_files_of(credential, answers),
            answers,
            grants::tls_files_of(credential, answers.take(m)),
            m,
        ),
{
    let ca = credential.tls_ca.deep_view();
    let cert = credential.tls_client_cert.deep_view();
    let key = credential.tls_client_key.deep_view();
    lemma_expansion_cut(ca, answers, m);
    if let Reply::Got { value: _, rest } = grants::expansion_of(ca, answers) {
        let used = answers.len() - rest.len();
        lemma_skipped_twice(answers, used);
        lemma_expansion_cut(cert, rest, m - used);
        if let Reply::Got { value: _, rest: last } = grants::expansion_of(cert, rest) {
            let more = answers.len() - last.len();
            lemma_skipped_twice(answers, more);
            lemma_expansion_cut(key, last, m - more);
        }
    }
}

/// Whether `some` is where the first `m` answers lead, if all of them lead to `all` and that does
/// not need more.
spec fn run_cut_alike(start: Progress, all: Progress, some: Progress, m: int) -> bool {
    all.halt is None ==> {
        let used = start.answers.len() - all.answers.len();
        &&& 0 <= used
        &&& all.answers == start.answers.skip(used)
        &&& used <= m <= start.answers.len() ==> some == cut(all, m - used)
    }
}

proof fn lemma_routed_cut(
    config: CommandPoliciesConfig,
    grant: CommandCredentialGrantPolicyConfig,
    credential: CommandCredentialConfig,
    key: Option<Seq<char>>,
    p: Progress,
    m: int,
)
    requires
        p.halt is None,
    ensures
        run_cut_alike(
            p,
            grants::routed(config, grant, credential, key, p),
            grants::routed(config, grant, credential, key, cut(p, m)),
            m,
        ),
{
    lemma_files_cut(credential, p.answers, m);
}

proof fn lemma_grant_cut(
    config: CommandPoliciesConfig,
    grant: CommandCredentialGrantConfig,
    p: Progress,
    m: int,
)
    requires
        p.halt is None,
    ensures
        run_cut_alike(
            p,
            grants::granted(config, grant, p),
            grants::granted(config, grant, cut(p, m)),
            m,
        ),
{
    let a = p.answers;
    assert(a.skip(0) =~= a);
    if let CommandCredentialGrantConfig::Policy(g) = grant {
        if grants::is_proxy_credential(config, g.name@) {
            let c = config.credentials.deep_view()[g.name@];
            if grants::grant_fault(config, g, c) is None {
                let variable = c.env_var->0@;
                let other = c.base_url_env_var.deep_view();
                lemma_verdicts_cut(g.name@, variable, other, a, m);
                if let Reply::Got { value: _, rest } = grants::verdict_on_both(
                    g.name@,
                    variable,
                    other,
                    a,
                ) {
                    let used = a.len() - rest.len();
                    lemma_skipped_twice(a, used);
                    match c.source {
                        None => {
                            lemma_routed_cut(
                                config,
                                g,
                                c,
                                c.credential_key.deep_view(),
                                Progress { answers: rest, ..p },
                                m - used,
                            );
                        },
                        Some(source) => {
                            let request = grants::source_request(source);
                            lemma_answer_cut(request, rest, m - used);
                            if let Reply::Got { value: secret, rest: last } = grants::answer_to(
                                request,
                                rest,
                            ) {
                                let more = a.len() - last.len();
                                lemma_skipped_twice(a, more);
                                lemma_routed_cut(
                                    config,
                                    g,
                                    c,
                                    Some("env://"@ + source_env::source_variable(g.name@)),
                                    Progress {
                                        settings: grants::with_secret(
                                            p.settings,
                                            g.name@,
                                            secret,
                                        ),
                                        answers: last,
                                        halt: p.halt,
                                    },
                                    m - more,
                                );
                            }
                        },
                    }
                }
            }
        }
    }
}

proof fn lemma_grants_cut(
    config: CommandPoliciesConfig,
    row: Seq<CommandCredentialGrantConfig>,
    p: Progress,
    m: int,
)
    requires
        p.halt is None,
    ensures
        run_cut_alike(
            p,
            grants::all_granted(config, row, p),
            grants::all_granted(config, row, cut(p, m)),
            m,
        ),
    decreases row.len(),
{
    assert(p.answers.skip(0) =~= p.answers);
    if row.len() > 0 {
        let next = grants::granted(config, row[0], p);
        reveal_with_fuel(grants::all_granted, 2);
        if next.halt is None {
            lemma_grant_cut(config, row[0], p, m);
            let used = p.answers.len() - next.answers.len();
            lemma_skipped_twice(p.answers, used);
            lemma_grants_cut(config, row.drop_first(), next, m - used);
        }
    }
}

proof fn lemma_sandboxes_cut(
    config: CommandPoliciesConfig,
    sandboxes: Seq<CommandSandboxConfig>,
    p: Progress,
    m: int,
)
    requires
        p.halt is None,
    ensures
        run_cut_alike(
            p,
            grants::all_collected(config, sandboxes, p),
            grants::all_collected(config, sandboxes, cut(p, m)),
            m,
        ),
    decreases sandboxes.len(),
{
    assert(p.answers.skip(0) =~= p.answers);
    if sandboxes.len() > 0 {
        let next = grants::collected(config, sandboxes[0], p);
        reveal_with_fuel(grants::all_collected, 2);
        if next.halt is None {
            lemma_grants_cut(config, sandboxes[0].credentials@, p, m);
            let used = p.answers.len() - next.answers.len();
            lemma_skipped_twice(p.answers, used);
            lemma_sandboxes_cut(config, sandboxes.drop_first(), next, m - used);
        }
    }
}

/// Whether granting stops to ask for the secret of a credential that goes into `variable`.
pub open spec fn asks_for_secret(
    config: CommandPoliciesConfig,
    variable: Seq<char>,
    halt: Option<HaltView<GrantRequestView>>,
) -> bool {
    exists|name: Seq<char>|
        {
            &&& #[trigger] config.credentials.deep_view().contains_key(name)
            &&& source_env::source_variable(name) == variable
            &&& config.credentials.deep_view()[name].source matches Some(source) && match source {
                AmbientCredentialSourceConfig::Keystore { key } => halt == Some(
                    HaltView::<GrantRequestView>::Ask(GrantRequestView::LoadSecret { key: key@ }),
                ),
                AmbientCredentialSourceConfig::Command { command, args, timeout_secs } => halt
                    == Some(
                    HaltView::<GrantRequestView>::Ask(
                        GrantRequestView::RunCommand {
                            command: command@,
                            args: args.deep_view(),
                            timeout_secs,
                        },
                    ),
                ),
            }
        }
}

proof fn lemma_grant_secret(
    config: CommandPoliciesConfig,
    grant: CommandCredentialGrantConfig,
    p: Progress,
    variable: Seq<char>,
)
    requires
        p.halt is None,
        grants::granted(config, grant, p).halt is None,
        grants::granted(config, grant, p).settings.proxy_source_env_vars.contains_key(variable),
    ensures
        ({
            let before = p.settings.proxy_source_env_vars;
            let after = grants::granted(config, grant, p).settings.proxy_source_env_vars;
            before.contains_key(variable) && before[variable] == after[variable] || exists|at: int|
                #[trigger] says(p.answers, at, after[variable]) && asks_for_secret(
                    config,
                    variable,
                    grants::granted(config, grant, cut(p, at)).halt,
                )
        }),
{
    if let CommandCredentialGrantConfig::Policy(g) = grant {
        if grants::is_proxy_credential(config, g.name@) {
            lemma_grant_adds_one_credential(config, grant, g.name@, p);
            let credential = config.credentials.deep_view()[g.name@];
            if credential.source is Some && variable == source_env::source_variable(g.name@) {
                let at = before_secret(credential);
                lemma_verdicts_in_place(
                    g.name@,
                    credential.env_var->0@,
                    credential.base_url_env_var.deep_view(),
                    p.answers,
                );
                lemma_verdicts_cut(
                    g.name@,
                    credential.env_var->0@,
                    credential.base_url_env_var.deep_view(),
                    p.answers,
                    at,
                );
                assert(config.credentials.deep_view().contains_key(g.name@));
                assert(asks_for_secret(
                    config,
                    variable,
                    grants::granted(config, grant, cut(p, at)).halt,
                ));
            } else {
                let before = p.settings.proxy_source_env_vars;
                let after = grants::granted(config, grant, p).settings.proxy_source_env_vars;
                let own = source_env::source_variable(g.name@);
                if credential.source is Some {
                    assert(after.remove(own).contains_key(variable));
                    assert(after.remove(own)[variable] == after[variable]);
                    assert(before.remove(own).contains_key(variable));
                }
            }
        }
    }
}

proof fn lemma_grants_secrets(
    config: CommandPoliciesConfig,
    row: Seq<CommandCredentialGrantConfig>,
    p: Progress,
    variable: Seq<char>,
)
    requires
        p.halt is None,
        grants::all_granted(config, row, p).halt is None,
        grants::all_granted(config, row, p).settings.proxy_source_env_vars.contains_key(variable),
    ensures
        ({
            let before = p.settings.proxy_source_env_vars;
            let after = grants::all_granted(config, row, p).settings.proxy_source_env_vars;
            before.contains_key(variable) && before[variable] == after[variable] || exists|at: int|
                #[trigger] says(p.answers, at, after[variable]) && asks_for_secret(
                    config,
                    variable,
                    grants::all_granted(config, row, cut(p, at)).halt,
                )
        }),
    decreases row.len(),
{
    if row.len() > 0 {
        let next = grants::granted(config, row[0], p);
        let rest = row.drop_first();
        let value = grants::all_granted(
            config,
            row,
            p,
        ).settings.proxy_source_env_vars[variable];
        reveal_with_fuel(grants::all_granted, 2);
        assert(next.halt is None);
        lemma_grant_cut(config, row[0], p, 0);
        let used = p.answers.len() - next.answers.len();
        lemma_grants_secrets(config, rest, next, variable);
        let known = next.settings.proxy_source_env_vars;
        if known.contains_key(variable) && known[variable] == value {
            lemma_grant_secret(config, row[0], p, variable);
            let before = p.settings.proxy_source_env_vars;
            if !(before.contains_key(variable) && before[variable] == value) {
                let at = choose|at: int|
                    #[trigger] says(p.answers, at, value) && asks_for_secret(
                        config,
                        variable,
                        grants::granted(config, row[0], cut(p, at)).halt,
                    );
                assert(grants::all_granted(config, row, cut(p, at)).halt == grants::granted(
                    config,
                    row[0],
                    cut(p, at),
                ).halt);
            }
        } else {
            let at = choose|at: int|
                #[trigger] says(next.answers, at, value) && asks_for_secret(
                    config,
                    variable,
                    grants::all_granted(config, rest, cut(next, at)).halt,
                );
            lemma_grant_cut(config, row[0], p, used + at);
            assert(says(p.answers, used + at, value));
            assert(grants::all_granted(config, row, cut(p, used + at)) == grants::all_granted(
                config,
                rest,
                cut(next, at),
            ));
        }
    }
}

proof fn lemma_sandboxes_secrets(
    config: CommandPoliciesConfig,
    sandboxes: Seq<CommandSandboxConfig>,
    p: Progress,
    variable: Seq<char>,
)
    requires
        p.halt is None,
        grants::all_collected(config, sandboxes, p).halt is None,
        grants::all_collected(
            config,
            sandboxes,
            p,
        ).settings.proxy_source_env_vars.contains_key(variable),
    ensures
        ({
            let before = p.settings.proxy_source_env_vars;
            let after = grants::all_collected(config, sandboxes, p).settings.proxy_source_env_vars;
            before.contains_key(variable) && before[variable] == after[variable] || exists|at: int|
                #[trigger] says(p.answers, at, after[variable]) && asks_for_secret(
                    config,
                    variable,
                    grants::all_collected(config, sandboxes, cut(p, at)).halt,
                )
        }),
    decreases sandboxes.len(),
{
    if sandboxes.len() > 0 {
        let next = grants::collected(config, sandboxes[0], p);
        let rest = sandboxes.drop_first();
        let value = grants::all_collected(
            config,
            sandboxes,
            p,
        ).settings.proxy_source_env_vars[variable];
        reveal_with_fuel(grants::all_collected, 2);
        assert(next.halt is None);
        lemma_grants_cut(config, sandboxes[0].credentials@, p, 0);
        let used = p.answers.len() - next.answers.len();
        lemma_sandboxes_secrets(config, rest, next, variable);
        let known = next.settings.proxy_source_env_vars;
        if known.contains_key(variable) && known[variable] == value {
            lemma_grants_secrets(config, sandboxes[0].credentials@, p, variable);
            let before = p.settings.proxy_source_env_vars;
            if !(before.contains_key(variable) && before[variable] == value) {
                let at = choose|at: int|
                    #[trigger] says(p.answers, at, value) && asks_for_secret(
                        config,
                        variable,
                        grants::all_granted(
                            config,
                            sandboxes[0].credentials@,
                            cut(p, at),
                        ).halt,
                    );
                assert(grants::all_collected(config, sandboxes, cut(p, at)).halt
                    == grants::collected(config, sandboxes[0], cut(p, at)).halt);
            }
        } else {
            let at = choose|at: int|
                #[trigger] says(next.answers, at, value) && asks_for_secret(
                    config,
                    variable,
                    grants::all_collected(config, rest, cut(next, at)).halt,
                );
            lemma_grants_cut(config, sandboxes[0].credentials@, p, used + at);
            assert(says(p.answers, used + at, value));
            assert(grants::all_collected(config, sandboxes, cut(p, used + at))
                == grants::all_collected(config, rest, cut(next, at)));
        }
    }
}

/// Where granting succeeds, every secret that was not there before is what the host answered when
/// it was asked for the secret of a credential that goes into that variable.
pub proof fn lemma_secrets_are_what_the_host_answered(
    config: CommandPoliciesConfig,
    settings: SettingsView,
    answers: Seq<Answer>,
    variable: Seq<char>,
)
    requires
        grants::extended(Some(config), Progress::start(settings, answers)).halt is None,
        grants::extended(
            Some(config),
            Progress::start(settings, answers),
        ).settings.proxy_source_env_vars.contains_key(variable),
    ensures
        ({
            let before = settings.proxy_source_env_vars;
            let after = grants::extended(
                Some(config),
                Progress::start(settings, answers),
            ).settings.proxy_source_env_vars;
            before.contains_key(variable) && before[variable] == after[variable] || exists|at: int|
                #[trigger] says(answers, at, after[variable]) && asks_for_secret(
                    config,
                    variable,
                    grants::extended(
                        Some(config),
                        Progress::start(settings, answers.take(at)),
                    ).halt,
                )
        }),
{
    if config.active {
        let p = Progress::start(settings, answers);
        let sandboxes = grants::sandboxes_of(config.commands.listed());
        lemma_sandboxes_secrets(config, sandboxes, p, variable);
        let before = settings.proxy_source_env_vars;
        let after = grants::extended(Some(config), p).settings.proxy_source_env_vars;
        if !(before.contains_key(variable) && before[variable] == after[variable]) {
            let at = choose|at: int|
                #[trigger] says(p.answers, at, after[variable]) && asks_for_secret(
                    config,
                    variable,
                    grants::all_collected(config, sandboxes, cut(p, at)).halt,
                );
            assert(cut(p, at) == Progress::start(settings, answers.take(at)));
        }
    }
}

/// Whether the settings serve the credential `name` as it is configured and as `grant` has it:
/// its route leads to its upstream, injects its key into its header, or into `Authorization`
/// where it names none, in its format, through its TLS files if it has any, and only as far as
/// the grant's endpoint policy lets it; its address goes into its own variable; and where it has
/// a source there is a secret for it, in the variable that the route's key names.
pub open spec fn serves_as_configured(
    config: CommandPoliciesConfig,
    grant: CommandCredentialGrantConfig,
    name: Seq<char>,
    s: SettingsView,
) -> bool {
    let credential = config.credentials.deep_view()[name];
    let route = s.custom_credentials[name];
    &&& s.tool_sandbox_proxy_credentials.contains(name)
    &&& s.credentials.contains(name)
    &&& s.custom_credentials.contains_key(name)
    &&& credential.upstream matches Some(upstream) && route.upstream == upstream@
    &&& credential.env_var matches Some(variable) && route.env_var == Some(variable@)
    &&& credential.inject_header matches Some(header) ==> route.inject_header == header@
    &&& credential.inject_header is None ==> route.inject_header == "Authorization"@
    &&& route.inject_mode is Header
    &&& route.credential_format == credential.credential_format.deep_view()
    &&& credential.source is None ==> route.credential_key == credential.credential_key.deep_view()
    &&& credential.source is Some ==> route.credential_key == Some(
        "env://"@ + source_env::source_variable(name),
    )
    &&& credential.source is Some ==> s.proxy_source_env_vars.contains_key(
        source_env::source_variable(name),
    )
    &&& route.auth is None
    &&& route.path_pattern is None
    &&& route.path_replacement is None
    &&& route.query_param_name is None
    &&& route.proxy is None
    &&& route.endpoint_rules.len() == 0
    &&& grant matches CommandCredentialGrantConfig::Policy(g)
    &&& g.endpoint_policy matches Some(policy)
    &&& route.endpoint_policy == Some(endpoint_policy::proxy_policy(config, policy))
    &&& route.tls_ca is Some <==> credential.tls_ca is Some
    &&& route.tls_client_cert is Some <==> credential.tls_client_cert is Some
    &&& route.tls_client_key is Some <==> credential.tls_client_key is Some
    &&& credential.base_url_env_var matches Some(variable) ==> (
    s.base_url_env_vars.contains_key(name) && s.base_url_env_vars[name] == variable@)
}

proof fn lemma_grant_serves_as_configured(
    config: CommandPoliciesConfig,
    grant: CommandCredentialGrantConfig,
    name: Seq<char>,
    p: Progress,
)
    requires
        p.halt is None,
        grants_proxy_credential(config, grant, name),
        grants::granted(config, grant, p).halt is None,
    ensures
        serves_as_configured(config, grant, name, grants::granted(config, grant, p).settings),
{
    lemma_route_is_the_credentials_own(config, grant, name, p);
    lemma_grant_adds_one_credential(config, grant, name, p);
    let after = grants::granted(config, grant, p).settings;
    if !p.settings.credentials.contains(name) {
        assert(after.credentials.last() == name);
    }
}

proof fn lemma_serving_outlasts_grant(
    config: CommandPoliciesConfig,
    grant: CommandCredentialGrantConfig,
    name: Seq<char>,
    next: CommandCredentialGrantConfig,
    p: Progress,
)
    requires
        p.halt is None,
        serves_as_configured(config, grant, name, p.settings),
        grants::granted(config, next, p).halt is None,
    ensures
        serves_as_configured(config, grant, name, grants::granted(config, next, p).settings),
{
    if let CommandCredentialGrantConfig::Policy(g) = next {
        if grants::is_proxy_credential(config, g.name@) {
            let before = p.settings;
            let after = grants::granted(config, next, p).settings;
            lemma_grant_adds_one_credential(config, next, g.name@, p);
            let i = before.credentials.index_of(name);
            assert(after.credentials[i] == name);
            if name != g.name@ {
                assert(before.custom_credentials.remove(g.name@).contains_key(name));
                assert(after.custom_credentials.remove(g.name@)[name]
                    == after.custom_credentials[name]);
                assert(before.custom_credentials.remove(g.name@)[name]
                    == before.custom_credentials[name]);
            }
            let own = source_env::source_variable(name);
            let other = source_env::source_variable(g.name@);
            if before.proxy_source_env_vars.contains_key(own) && own != other {
                assert(before.proxy_source_env_vars.remove(other).contains_key(own));
                assert(after.proxy_source_env_vars.contains_key(own));
            }
        }
    }
}

proof fn lemma_serving_outlasts_grants(
    config: CommandPoliciesConfig,
    grant: CommandCredentialGrantConfig,
    name: Seq<char>,
    row: Seq<CommandCredentialGrantConfig>,
    p: Progress,
)
    requires
        p.halt is None,
        serves_as_configured(config, grant, name, p.settings),
        grants::all_granted(config, row, p).halt is None,
    ensures
        serves_as_configured(config, grant, name, grants::all_granted(config, row, p).settings),
    decreases row.len(),
{
    if row.len() > 0 {
        let next = grants::granted(config, row[0], p);
        reveal_with_fuel(grants::all_granted, 2);
        assert(next.halt is None);
        lemma_serving_outlasts_grant(config, grant, name, row[0], p);
        lemma_serving_outlasts_grants(config, grant, name, row.drop_first(), next);
    }
}

proof fn lemma_serving_outlasts_sandboxes(
    config: CommandPoliciesConfig,
    grant: CommandCredentialGrantConfig,
    name: Seq<char>,
    sandboxes: Seq<CommandSandboxConfig>,
    p: Progress,
)
    requires
        p.halt is None,
        serves_as_configured(config, grant, name, p.settings),
        grants::all_collected(config, sandboxes, p).halt is None,
    ensures
        serves_as_configured(
            config,
            grant,
            name,
            grants::all_collected(config, sandboxes, p).settings,
        ),
    decreases sandboxes.len(),
{
    if sandboxes.len() > 0 {
        let next = grants::collected(config, sandboxes[0], p);
        reveal_with_fuel(grants::all_collected, 2);
        assert(next.halt is None);
        lemma_serving_outlasts_grants(config, grant, name, sandboxes[0].credentials@, p);
        lemma_serving_outlasts_sandboxes(config, grant, name, sandboxes.drop_first(), next);
    }
}

proof fn lemma_row_serves_as_configured(
    config: CommandPoliciesConfig,
    row: Seq<CommandCredentialGrantConfig>,
    at: int,
    name: Seq<char>,
    p: Progress,
)
    requires
        p.halt is None,
        0 <= at < row.len(),
        grants_proxy_credential(config, row[at], name),
        grants::all_granted(config, row, p).halt is None,
    ensures
        serves_as_configured(
            config,
            row[at],
            name,
            grants::all_granted(config, row, p).settings,
        ),
    decreases row.len(),
{
    let next = grants::granted(config, row[0], p);
    reveal_with_fuel(grants::all_granted, 2);
    assert(next.halt is None);
    if at == 0 {
        lemma_grant_serves_as_configured(config, row[0], name, p);
        lemma_serving_outlasts_grants(config, row[0], name, row.drop_first(), next);
    } else {
        lemma_row_serves_as_configured(config, row.drop_first(), at - 1, name, next);
    }
}

proof fn lemma_sandboxes_serve_as_configured(
    config: CommandPoliciesConfig,
    sandboxes: Seq<CommandSandboxConfig>,
    sandbox: int,
    at: int,
    name: Seq<char>,
    p: Progress,
)
    requires
        p.halt is None,
        0 <= sandbox < sandboxes.len(),
        0 <= at < sandboxes[sandbox].credentials@.len(),
        grants_proxy_credential(config, sandboxes[sandbox].credentials@[at], name),
        grants::all_collected(config, sandboxes, p).halt is None,
    ensures
        serves_as_configured(
            config,
            sandboxes[sandbox].credentials@[at],
            name,
            grants::all_collected(config, sandboxes, p).settings,
        ),
    decreases sandboxes.len(),
{
    let next = grants::collected(config, sandboxes[0], p);
    reveal_with_fuel(grants::all_collected, 2);
    assert(next.halt is None);
    if sandbox == 0 {
        let row = sandboxes[0].credentials@;
        lemma_row_serves_as_configured(config, row, at, name, p);
        lemma_serving_outlasts_sandboxes(config, row[at], name, sandboxes.drop_first(), next);
    } else {
        lemma_sandboxes_serve_as_configured(
            config,
            sandboxes.drop_first(),
            sandbox - 1,
            at,
            name,
            next,
        );
    }
}

/// Where granting a sandbox its credentials succeeds, every proxy credential that it is granted is
/// served as it is configured and as it is granted.
pub proof fn lemma_sandbox_is_served_as_configured(
    config: CommandPoliciesConfig,
    sandbox: CommandSandboxConfig,
    at: int,
    name: Seq<char>,
    settings: SettingsView,
    answers: Seq<Answer>,
)
    requires
        0 <= at < sandbox.credentials@.len(),
        grants_proxy_credential(config, sandbox.credentials@[at], name),
        grants::collected(config, sandbox, Progress::start(settings, answers)).halt is None,
    ensures
        serves_as_configured(
            config,
            sandbox.credentials@[at],
            name,
            grants::collected(config, sandbox, Progress::start(settings, answers)).settings,
        ),
{
    lemma_row_serves_as_configured(
        config,
        sandbox.credentials@,
        at,
        name,
        Progress::start(settings, answers),
    );
}

/// Where granting a whole configuration succeeds, every proxy credential that any sandbox in it is
/// granted is served as it is configured and as it is granted.
pub proof fn lemma_configuration_is_served_as_written(
    config: CommandPoliciesConfig,
    sandbox: int,
    at: int,
    name: Seq<char>,
    settings: SettingsView,
    answers: Seq<Answer>,
)
    requires
        config.active,
        ({
            let sandboxes = grants::sandboxes_of(config.commands.listed());
            &&& 0 <= sandbox < sandboxes.len()
            &&& 0 <= at < sandboxes[sandbox].credentials@.len()
            &&& grants_proxy_credential(config, sandboxes[sandbox].credentials@[at], name)
        }),
        grants::extended(Some(config), Progress::start(settings, answers)).halt is None,
    ensures
        serves_as_configured(
            config,
            grants::sandboxes_of(config.commands.listed())[sandbox].credentials@[at],
            name,
            grants::extended(Some(config), Progress::start(settings, answers)).settings,
        ),
{
    lemma_sandboxes_serve_as_configured(
        config,
        grants::sandboxes_of(config.commands.listed()),
        sandbox,
        at,
        name,
        Progress::start(settings, answers),
    );
}

/// Whether the command has the sandbox `sandbox`: as its own, or where one of its callers gives
/// it one, by an edge or by a policy.
pub open spec fn has_sandbox(command: CommandPolicyConfig, sandbox: CommandSandboxConfig) -> bool {
    ||| command.sandbox == Some(sandbox)
    ||| exists|i: int|
        0 <= i < command.from.listed().len() && match (#[trigger] command.from.listed()[i]).1 {
            CommandFromConfig::Edge(edge) => edge.sandbox == sandbox,
            CommandFromConfig::Policy(own) => own == sandbox,
            CommandFromConfig::Deny => false,
        }
}

proof fn lemma_edges_have_their_sandboxes(
    from: Seq<(Seq<char>, CommandFromConfig)>,
    sandbox: CommandSandboxConfig,
)
    ensures
        grants::sandboxes_on_edges(from).contains(sandbox) <==> exists|i: int|
            0 <= i < from.len() && match (#[trigger] from[i]).1 {
                CommandFromConfig::Edge(edge) => edge.sandbox == sandbox,
                CommandFromConfig::Policy(own) => own == sandbox,
                CommandFromConfig::Deny => false,
            },
    decreases from.len(),
{
    let all = grants::sandboxes_on_edges(from);
    let gives = |f: (Seq<char>, CommandFromConfig)|
        match f.1 {
            CommandFromConfig::Edge(edge) => edge.sandbox == sandbox,
            CommandFromConfig::Policy(own) => own == sandbox,
            CommandFromConfig::Deny => false,
        };
    if from.len() > 0 {
        let rest = from.drop_first();
        let others = grants::sandboxes_on_edges(rest);
        lemma_edges_have_their_sandboxes(rest, sandbox);
        if all.contains(sandbox) && !gives(from[0]) {
            let k = all.index_of(sandbox);
            if grants::sandbox_on_edge(from[0].1) is Some {
                assert(k > 0);
                assert(others[k - 1] == sandbox);
            }
            assert(others.contains(sandbox));
            let i = choose|i: int| 0 <= i < rest.len() && gives(#[trigger] rest[i]);
            assert(from[i + 1] == rest[i]);
        }
        if gives(from[0]) {
            assert(all[0] == sandbox);
        } else if exists|i: int| 0 <= i < from.len() && gives(#[trigger] from[i]) {
            let i = choose|i: int| 0 <= i < from.len() && gives(#[trigger] from[i]);
            assert(rest[i - 1] == from[i]);
            assert(others.contains(sandbox));
            let k = others.index_of(sandbox);
            if grants::sandbox_on_edge(from[0].1) is Some {
                assert(all[k + 1] == sandbox);
            }
        }
    }
}

proof fn lemma_command_has_its_sandboxes(
    command: CommandPolicyConfig,
    sandbox: CommandSandboxConfig,
)
    ensures
        grants::sandboxes_of_command(command).contains(sandbox) <==> has_sandbox(command, sandbox),
{
    let on_edges = grants::sandboxes_on_edges(command.from.listed());
    let all = grants::sandboxes_of_command(command);
    lemma_edges_have_their_sandboxes(command.from.listed(), sandbox);
    if let Some(own) = command.sandbox {
        if all.contains(sandbox) && own != sandbox {
            let k = all.index_of(sandbox);
            assert(on_edges[k - 1] == sandbox);
        }
        assert(all[0] == own);
        if on_edges.contains(sandbox) {
            let k = on_edges.index_of(sandbox);
            assert(all[k + 1] == sandbox);
        }
    }
}

/// Granting goes through the sandboxes of every command, its own and those that its callers give
/// it, and through no others.
pub proof fn lemma_every_sandbox_of_every_command_counts(
    commands: Seq<(Seq<char>, CommandPolicyConfig)>,
    sandbox: CommandSandboxConfig,
)
    ensures
        grants::sandboxes_of(commands).contains(sandbox) <==> exists|i: int|
            0 <= i < commands.len() && has_sandbox((#[trigger] commands[i]).1, sandbox),
    decreases commands.len(),
{
    if commands.len() > 0 {
        let rest = commands.drop_first();
        let first = grants::sandboxes_of_command(commands[0].1);
        let others = grants::sandboxes_of(rest);
        let all = grants::sandboxes_of(commands);
        lemma_command_has_its_sandboxes(commands[0].1, sandbox);
        lemma_every_sandbox_of_every_command_counts(rest, sandbox);
        if all.contains(sandbox) && !first.contains(sandbox) {
            let k = all.index_of(sandbox);
            if k < first.len() {
                assert(first[k] == sandbox);
            }
            assert(others[k - first.len()] == sandbox);
            let i = choose|i: int| 0 <= i < rest.len() && has_sandbox((#[trigger] rest[i]).1, sandbox);
            assert(commands[i + 1] == rest[i]);
        }
        if first.contains(sandbox) {
            let k = first.index_of(sandbox);
            assert(all[k] == sandbox);
        } else if exists|i: int|
            0 <= i < commands.len() && has_sandbox((#[trigger] commands[i]).1, sandbox) {
            let i = choose|i: int|
                0 <= i < commands.len() && has_sandbox((#[trigger] commands[i]).1, sandbox);
            assert(rest[i - 1] == commands[i]);
            let k = others.index_of(sandbox);
            assert(all[first.len() + k] == sandbox);
        }
    }
}

/// Where granting a configuration in force succeeds, every proxy credential that any command is
/// granted, in its own sandbox or in one that a caller gives it, is served as it is configured
/// and as it is granted; and no command uses a proxy credential that it is not granted so.
pub proof fn lemma_every_command_is_served(
    config: CommandPoliciesConfig,
    command: int,
    sandbox: CommandSandboxConfig,
    settings: SettingsView,
    answers: Seq<Answer>,
)
    requires
        config.active,
        0 <= command < config.commands.listed().len(),
        has_sandbox(config.commands.listed()[command].1, sandbox),
        grants::extended(Some(config), Progress::start(settings, answers)).halt is None,
    ensures
        ({
            let end = grants::extended(Some(config), Progress::start(settings, answers)).settings;
            let known = config.credentials.deep_view();
            &&& forall|at: int|
                0 <= at < sandbox.credentials@.len() ==> match #[trigger] sandbox.credentials@[at] {
                    CommandCredentialGrantConfig::Policy(g) => known.contains_key(g.name@)
                        && known[g.name@].credential_type is Proxy ==> serves_as_configured(
                        config,
                        sandbox.credentials@[at],
                        g.name@,
                        end,
                    ),
                    CommandCredentialGrantConfig::Name(name) => !(known.contains_key(name@)
                        && known[name@].credential_type is Proxy),
                }
            &&& forall|i: int|
                0 <= i < sandbox.use_credentials@.len() ==> {
                    let name = (#[trigger] sandbox.use_credentials@[i])@;
                    !(known.contains_key(name) && known[name].credential_type is Proxy)
                }
        }),
{
    let sandboxes = grants::sandboxes_of(config.commands.listed());
    lemma_every_sandbox_of_every_command_counts(config.commands.listed(), sandbox);
    let k = sandboxes.index_of(sandbox);
    let end = grants::extended(Some(config), Progress::start(settings, answers)).settings;
    grant_laws::lemma_success_serves_every_sandbox(config, settings, answers, k);
    assert forall|at: int| 0 <= at < sandbox.credentials@.len() implies match
        #[trigger] sandbox.credentials@[at] {
        CommandCredentialGrantConfig::Policy(g) => grants::is_proxy_credential(config, g.name@)
            ==> serves_as_configured(config, sandbox.credentials@[at], g.name@, end),
        CommandCredentialGrantConfig::Name(name) => !grants::is_proxy_credential(config, name@),
    } by {
        assert(grant_laws::serves_grant(config, sandbox.credentials@[at], end));
        if let CommandCredentialGrantConfig::Policy(g) = sandbox.credentials@[at] {
            if grants::is_proxy_credential(config, g.name@) {
                lemma_configuration_is_served_as_written(
                    config,
                    k,
                    at,
                    g.name@,
                    settings,
                    answers,
                );
            }
        }
    }
    assert forall|i: int| 0 <= i < sandbox.use_credentials@.len() implies {
        !grants::is_proxy_credential(config, (#[trigger] sandbox.use_credentials@[i])@)
    } by {}
}

/// A configuration that is not in force, or none at all, grants nothing and asks for nothing.
pub proof fn lemma_nothing_is_granted_without_a_configuration(
    config: Option<CommandPoliciesConfig>,
    p: Progress,
)
    ensures
        config is None ==> grants::extended(config, p) == p,
        config matches Some(policies) ==> !policies.active ==> grants::extended(config, p) == p,
{
}

/// A sandbox that uses a proxy credential without a grant is refused, before any of its grants is
/// looked at, with the first such credential named.
pub proof fn lemma_use_without_grant_is_refused(
    config: CommandPoliciesConfig,
    sandbox: CommandSandboxConfig,
    at: int,
    p: Progress,
)
    requires
        0 <= at < sandbox.use_credentials@.len(),
        config.credentials.deep_view().contains_key(sandbox.use_credentials@[at]@),
        config.credentials.deep_view()[sandbox.use_credentials@[at]@].credential_type is Proxy,
        forall|i: int|
            0 <= i < at ==> {
                let name = (#[trigger] sandbox.use_credentials@[i])@;
                !(config.credentials.deep_view().contains_key(name)
                    && config.credentials.deep_view()[name].credential_type is Proxy)
            },
    ensures
        grants::collected(config, sandbox, p) == (Progress {
            halt: Some(
                HaltView::Failed(
                    error::credential_fault(
                        sandbox.use_credentials@[at]@,
                        " must be granted with sandbox.credentials and endpoint_policy"@,
                    ),
                ),
            ),
            ..p
        }),
{
    lemma_first_use_is_found(config, sandbox.use_credentials@, at);
}

proof fn lemma_first_use_is_found(config: CommandPoliciesConfig, names: Seq<String>, at: int)
    requires
        0 <= at < names.len(),
        grants::is_proxy_credential(config, names[at]@),
        forall|i: int|
            0 <= i < at ==> {
                let name = (#[trigger] names[i])@;
                !(config.credentials.deep_view().contains_key(name)
                    && config.credentials.deep_view()[name].credential_type is Proxy)
            },
    ensures
        grants::first_proxy_credential(config, names) == Some(names[at]@),
    decreases names.len(),
{
    if at > 0 {
        assert(!grants::is_proxy_credential(config, names[0]@));
        let rest = names.drop_first();
        assert forall|i: int| 0 <= i < at - 1 implies {
            let name = (#[trigger] rest[i])@;
            !(config.credentials.deep_view().contains_key(name)
                && config.credentials.deep_view()[name].credential_type is Proxy)
        } by {
            assert(rest[i] == names[i + 1]);
        }
        lemma_first_use_is_found(config, rest, at - 1);
    }
}

proof fn lemma_row_adds_its_own_only(
    config: CommandPoliciesConfig,
    row: Seq<CommandCredentialGrantConfig>,
    name: Seq<char>,
    p: Progress,
)
    requires
        p.halt is None,
        grants::all_granted(config, row, p).halt is None,
        forall|at: int|
            0 <= at < row.len() ==> !grants_proxy_credential(config, #[trigger] row[at], name),
    ensures
        unchanged_of(p.settings, grants::all_granted(config, row, p).settings, name),
    decreases row.len(),
{
    if row.len() > 0 {
        let next = grants::granted(config, row[0], p);
        let rest = row.drop_first();
        reveal_with_fuel(grants::all_granted, 2);
        assert(next.halt is None);
        assert(!grants_proxy_credential(config, row[0], name));
        if let CommandCredentialGrantConfig::Policy(g) = row[0] {
            if grants::is_proxy_credential(config, g.name@) {
                lemma_grant_adds_one_credential(config, row[0], g.name@, p);
                lemma_other_names_stay(p.settings, next.settings, g.name@, name);
            }
        }
        assert forall|at: int| 0 <= at < rest.len() implies !grants_proxy_credential(
            config,
            #[trigger] rest[at],
            name,
        ) by {
            assert(rest[at] == row[at + 1]);
        }
        lemma_row_adds_its_own_only(config, rest, name, next);
    }
}

proof fn lemma_other_names_stay(
    before: SettingsView,
    after: SettingsView,
    granted: Seq<char>,
    name: Seq<char>,
)
    requires
        granted != name,
        after.credentials == before.credentials || after.credentials == before.credentials.push(
            granted,
        ),
        after.tool_sandbox_proxy_credentials == before.tool_sandbox_proxy_credentials.insert(
            granted,
        ),
        after.custom_credentials.remove(granted) == before.custom_credentials.remove(granted),
        after.base_url_env_vars == before.base_url_env_vars || (exists|variable: Seq<char>|
            after.base_url_env_vars == #[trigger] before.base_url_env_vars.insert(
                granted,
                variable,
            )),
    ensures
        unchanged_of(before, after, name),
{
    if after.credentials.contains(name) {
        let i = after.credentials.index_of(name);
        assert(i < before.credentials.len());
        assert(before.credentials[i] == name);
    }
    if before.credentials.contains(name) {
        let i = before.credentials.index_of(name);
        assert(after.credentials[i] == name);
    }
    let a = after.custom_credentials.remove(granted);
    let b = before.custom_credentials.remove(granted);
    assert(a.contains_key(name) == after.custom_credentials.contains_key(name));
    assert(b.contains_key(name) == before.custom_credentials.contains_key(name));
    if a.contains_key(name) {
        assert(a[name] == after.custom_credentials[name]);
        assert(b[name] == before.custom_credentials[name]);
    }
}

/// Whether nothing is different about the credential `name`.
pub open spec fn unchanged_of(before: SettingsView, after: SettingsView, name: Seq<char>) -> bool {
    &&& after.credentials.contains(name) <==> before.credentials.contains(name)
    &&& after.tool_sandbox_proxy_credentials.contains(name)
        <==> before.tool_sandbox_proxy_credentials.contains(name)
    &&& after.custom_credentials.contains_key(name) <==> before.custom_credentials.contains_key(
        name,
    )
    &&& after.custom_credentials.contains_key(name) ==> after.custom_credentials[name]
        == before.custom_credentials[name]
    &&& after.base_url_env_vars.contains_key(name) <==> before.base_url_env_vars.contains_key(name)
    &&& after.base_url_env_vars.contains_key(name) ==> after.base_url_env_vars[name]
        == before.base_url_env_vars[name]
}

proof fn lemma_sandboxes_add_their_own_only(
    config: CommandPoliciesConfig,
    sandboxes: Seq<CommandSandboxConfig>,
    name: Seq<char>,
    p: Progress,
)
    requires
        p.halt is None,
        grants::all_collected(config, sandboxes, p).halt is None,
        forall|sandbox: CommandSandboxConfig, at: int|
            sandboxes.contains(sandbox) && 0 <= at < sandbox.credentials@.len()
                ==> !grants_proxy_credential(config, #[trigger] sandbox.credentials@[at], name),
    ensures
        unchanged_of(p.settings, grants::all_collected(config, sandboxes, p).settings, name),
    decreases sandboxes.len(),
{
    if sandboxes.len() > 0 {
        let next = grants::collected(config, sandboxes[0], p);
        let rest = sandboxes.drop_first();
        reveal_with_fuel(grants::all_collected, 2);
        assert(next.halt is None);
        assert(sandboxes.contains(sandboxes[0]));
        lemma_row_adds_its_own_only(config, sandboxes[0].credentials@, name, p);
        assert forall|sandbox: CommandSandboxConfig, at: int|
            rest.contains(sandbox) && 0 <= at
                < sandbox.credentials@.len() implies !grants_proxy_credential(
            config,
            #[trigger] sandbox.credentials@[at],
            name,
        ) by {
            let i = rest.index_of(sandbox);
            assert(sandboxes[i + 1] == sandbox);
        }
        lemma_sandboxes_add_their_own_only(config, rest, name, next);
    }
}

/// Granting a configuration changes nothing about a credential that no command is granted through
/// the proxy.
pub proof fn lemma_ungranted_credentials_stay_as_they_are(
    config: CommandPoliciesConfig,
    name: Seq<char>,
    settings: SettingsView,
    answers: Seq<Answer>,
)
    requires
        grants::extended(Some(config), Progress::start(settings, answers)).halt is None,
        forall|command: int, sandbox: CommandSandboxConfig, at: int|
            #![trigger config.commands.listed()[command], sandbox.credentials@[at]]
            0 <= command < config.commands.listed().len() && has_sandbox(
                config.commands.listed()[command].1,
                sandbox,
            ) && 0 <= at < sandbox.credentials@.len() ==> !grants_proxy_credential(
                config,
                sandbox.credentials@[at],
                name,
            ),
    ensures
        unchanged_of(
            settings,
            grants::extended(Some(config), Progress::start(settings, answers)).settings,
            name,
        ),
{
    if config.active {
        let commands = config.commands.listed();
        let sandboxes = grants::sandboxes_of(commands);
        assert forall|sandbox: CommandSandboxConfig, at: int|
            sandboxes.contains(sandbox) && 0 <= at
                < sandbox.credentials@.len() implies !grants_proxy_credential(
            config,
            #[trigger] sandbox.credentials@[at],
            name,
        ) by {
            lemma_every_sandbox_of_every_command_counts(commands, sandbox);
            let command = choose|i: int|
                0 <= i < commands.len() && has_sandbox((#[trigger] commands[i]).1, sandbox);
            assert(has_sandbox(commands[command].1, sandbox));
        }
        lemma_sandboxes_add_their_own_only(
            config,
            sandboxes,
            name,
            Progress::start(settings, answers),
        );
    }
}

} // verus!
