//! The environment variables by which credentials are reached, and who gets to see which.
use vstd::prelude::*;
use vstd::string::StringExecFns;

use crate::error;
use crate::error::{ErrorView, ProxyError};
use crate::names::{NameMap, NameSet};
use crate::numerals;
use crate::proxy_config::{ProxyConfig, RouteConfig};
use crate::sandbox::{LaunchOptionsView, ProxyLaunchOptions};
use crate::text;

verus! {

/// The text `text` in upper case.
pub uninterp spec fn uppercased(text: Seq<char>) -> Seq<char>;

/// `str::to_uppercase`: the result depends on the text alone, and `uppercased` is a name for it.
/// Which characters come out is the Unicode tables' matter and not stated.
#[verifier::external_body]
fn to_uppercase(text: &str) -> (upper: String)
    ensures
        upper@ == uppercased(text@),
{
    text.to_uppercase()
}

/// The variable that holds the address of a credential's route, made of the route's prefix in
/// upper case.
pub open spec fn base_url_variable(upper_prefix: Seq<char>) -> Seq<char> {
    upper_prefix + "_BASE_URL"@
}

/// Names the variable that holds the address of a credential's route.
pub fn base_url_env_var(upper_prefix: String) -> (name: String)
    ensures
        name@ == base_url_variable(upper_prefix@),
{
    let mut name = upper_prefix;
    name.append("_BASE_URL");
    name
}

/// The variable that holds a route's token: the one that the route names; else, where the route
/// has a credential key that is no URI, that key in upper case.
pub open spec fn route_variable(
    env_var: Option<Seq<char>>,
    credential_key: Option<Seq<char>>,
    upper_key: Seq<char>,
) -> Option<Seq<char>> {
    if env_var is Some {
        env_var
    } else if credential_key is Some && !text::occurs_in("://"@, credential_key->0) {
        Some(upper_key)
    } else {
        None
    }
}

/// Names the variable that holds a route's token, given its credential key in upper case.
pub fn route_env_var(route: &RouteConfig, upper_key: String) -> (name: Option<String>)
    ensures
        name.deep_view() == route_variable(
            route.env_var.deep_view(),
            route.credential_key.deep_view(),
            upper_key@,
        ),
{
    if let Some(env_var) = &route.env_var {
        Some(env_var.clone())
    } else if let Some(key) = &route.credential_key {
        if text::has_scheme_separator(key.as_str()) {
            None
        } else {
            Some(upper_key)
        }
    } else {
        None
    }
}

/// Whether `route` is the route of the credential `credential`.
pub open spec fn serves(route: RouteConfig, credential: Seq<char>) -> bool {
    text::without_outer_slashes(route.prefix@) == text::without_outer_slashes(credential)
}

/// The variable that holds a route's token.
pub open spec fn token_variable(route: RouteConfig) -> Option<Seq<char>> {
    route_variable(
        route.env_var.deep_view(),
        route.credential_key.deep_view(),
        match route.credential_key {
            Some(key) => uppercased(key@),
            None => seq![],
        },
    )
}

/// Whether the first `limit` of `routes` hold one of the credential `credential` whose token is
/// in the variable `name`.
pub open spec fn names_token(
    routes: Seq<RouteConfig>,
    limit: int,
    credential: Seq<char>,
    name: Seq<char>,
) -> bool {
    exists|i: int|
        0 <= i < limit && serves(#[trigger] routes[i], credential) && token_variable(routes[i])
            == Some(name)
}

/// Whether the variable `name` belongs to the credential `credential`: it holds its address, under
/// the name that is made of the prefix or under the one that the configuration gives, or the
/// token of one of its routes.
pub open spec fn belongs_to(
    name: Seq<char>,
    credential: Seq<char>,
    base_urls: Map<Seq<char>, Seq<char>>,
    routes: Seq<RouteConfig>,
) -> bool {
    ||| name == base_url_variable(uppercased(text::without_outer_slashes(credential)))
    ||| base_urls.contains_key(credential) && name == base_urls[credential]
    ||| names_token(routes, routes.len() as int, credential, name)
}

/// The variables that belong to credentials of tool sandboxes.
pub open spec fn tool_sandbox_variables(
    proxy: LaunchOptionsView,
    routes: Seq<RouteConfig>,
) -> Set<Seq<char>> {
    Set::new(
        |name: Seq<char>|
            exists|credential: Seq<char>| #[trigger]
                proxy.tool_sandbox_proxy_credentials.contains(credential) && belongs_to(
                    name,
                    credential,
                    proxy.tool_sandbox_base_url_env_vars,
                    routes,
                ),
    )
}

/// Adds the variables that belong to the credential `credential` to `names`.
fn add_credential_names(
    names: &mut NameSet,
    credential: &str,
    base_urls: &NameMap<String>,
    routes: &Vec<RouteConfig>,
)
    ensures
        forall|name: Seq<char>| #[trigger]
            final(names).deep_view().contains(name) <==> old(names).deep_view().contains(name)
                || belongs_to(name, credential@, base_urls.deep_view(), routes@),
{
    let prefix = text::trim_slashes(credential);
    names.insert(base_url_env_var(to_uppercase(prefix.as_str())));
    if let Some(variable) = base_urls.get(credential) {
        names.insert(variable.clone());
    }
    let ghost before = names.deep_view();
    let mut i: usize = 0;
    while i < routes.len()
        invariant
            i <= routes@.len(),
            prefix@ == text::without_outer_slashes(credential@),
            forall|name: Seq<char>| #[trigger]
                names.deep_view().contains(name) <==> before.contains(name) || names_token(
                    routes@,
                    i as int,
                    credential@,
                    name,
                ),
        decreases routes@.len() - i,
    {
        let route = &routes[i];
        let ghost earlier = names.deep_view();
        let ghost mut added: Option<Seq<char>> = None;
        let route_prefix = text::trim_slashes(route.prefix.as_str());
        if text::same_text(route_prefix.as_str(), prefix.as_str()) {
            let upper_key = match &route.credential_key {
                Some(key) => to_uppercase(key.as_str()),
                None => String::new(),
            };
            assert(route.credential_key is None ==> upper_key@ =~= seq![]);
            let variable = route_env_var(route, upper_key);
            if let Some(variable) = variable {
                proof {
                    added = Some(variable@);
                }
                names.insert(variable);
            }
        }
        assert forall|name: Seq<char>| #[trigger]
            names.deep_view().contains(name) <==> before.contains(name) || names_token(
                routes@,
                i + 1,
                credential@,
                name,
            ) by {
            let now = names_token(routes@, i + 1, credential@, name);
            let earlier_token = names_token(routes@, i as int, credential@, name);
            let here = serves(routes@[i as int], credential@) && token_variable(routes@[i as int])
                == Some(name);
            if now && !earlier_token {
                let at = choose|at: int|
                    0 <= at < i + 1 && serves(#[trigger] routes@[at], credential@)
                        && token_variable(routes@[at]) == Some(name);
                assert(at == i);
            }
            if earlier_token {
                let at = choose|at: int|
                    0 <= at < i && serves(#[trigger] routes@[at], credential@) && token_variable(
                        routes@[at],
                    ) == Some(name);
                assert(0 <= at < i + 1);
            }
            assert(now <==> earlier_token || here);
            assert(earlier.contains(name) <==> before.contains(name) || earlier_token);
            assert(names.deep_view().contains(name) <==> earlier.contains(name) || added == Some(
                name,
            ));
            assert(here <==> added == Some(name));
        }
        i = i + 1;
    }
}

/// Collects the variables that belong to credentials of tool sandboxes. They are kept from
/// everyone but the sandbox that the credential is granted to.
pub fn tool_sandbox_proxy_env_var_names(
    proxy: &ProxyLaunchOptions,
    proxy_config: &ProxyConfig,
) -> (names: NameSet)
    ensures
        names.deep_view() == tool_sandbox_variables(proxy.deep_view(), proxy_config.routes@),
{
    let mut names = NameSet::new();
    let routes = &proxy_config.routes;
    let credentials = &proxy.tool_sandbox_proxy_credentials;
    let base_urls = &proxy.tool_sandbox_base_url_env_vars;
    let count = credentials.len();
    let mut i: usize = 0;
    while i < count
        invariant
            i <= count,
            count == credentials.listed().len(),
            forall|name: Seq<char>| #[trigger]
                names.deep_view().contains(name) <==> exists|j: int|
                    0 <= j < i && belongs_to(
                        name,
                        #[trigger] credentials.listed()[j],
                        base_urls.deep_view(),
                        routes@,
                    ),
        decreases count - i,
    {
        let ghost before = names.deep_view();
        let credential = credentials.name_at(i).as_str();
        add_credential_names(&mut names, credential, base_urls, routes);
        assert forall|name: Seq<char>| #[trigger]
            names.deep_view().contains(name) <==> exists|j: int|
                0 <= j < i + 1 && belongs_to(
                    name,
                    #[trigger] credentials.listed()[j],
                    base_urls.deep_view(),
                    routes@,
                ) by {
            let this = credentials.listed()[i as int];
            assert(names.deep_view().contains(name) <==> before.contains(name) || belongs_to(
                name,
                this,
                base_urls.deep_view(),
                routes@,
            ));
        }
        i = i + 1;
    }
    proof {
        let all = tool_sandbox_variables(proxy.deep_view(), routes@);
        let listed = credentials.listed();
        assert forall|name: Seq<char>|
            names.deep_view().contains(name) == all.contains(name) by {
            if names.deep_view().contains(name) {
                let j = choose|j: int|
                    0 <= j < count && belongs_to(
                        name,
                        #[trigger] listed[j],
                        base_urls.deep_view(),
                        routes@,
                    );
                assert(listed.to_set().contains(listed[j]));
            }
            if all.contains(name) {
                let credential = choose|credential: Seq<char>| #[trigger]
                    credentials.deep_view().contains(credential) && belongs_to(
                        name,
                        credential,
                        base_urls.deep_view(),
                        routes@,
                    );
                assert(listed.to_set().contains(credential));
                assert(listed[listed.index_of(credential)] == credential);
            }
        }
        assert(names.deep_view() =~= all);
    }
    names
}

/// The first of `routes` that is the credential's.
pub open spec fn route_of(routes: Seq<RouteConfig>, credential: Seq<char>) -> Option<RouteConfig>
    decreases routes.len(),
{
    if routes.len() == 0 {
        None
    } else if serves(routes[0], credential) {
        Some(routes[0])
    } else {
        route_of(routes.drop_first(), credential)
    }
}

/// Finds the first of `routes` that is the credential's.
fn find_route<'a>(routes: &'a Vec<RouteConfig>, credential: &str) -> (route: Option<
    &'a RouteConfig,
>)
    ensures
        route_of(routes@, credential@) == (match route {
            Some(route) => Some(*route),
            None => None,
        }),
{
    let prefix = text::trim_slashes(credential);
    let mut i: usize = 0;
    assert(routes@.skip(0) =~= routes@);
    while i < routes.len()
        invariant
            i <= routes@.len(),
            prefix@ == text::without_outer_slashes(credential@),
            route_of(routes@, credential@) == route_of(routes@.skip(i as int), credential@),
        decreases routes@.len() - i,
    {
        assert(routes@.skip(i as int)[0] == routes@[i as int]);
        assert(routes@.skip(i as int).drop_first() =~= routes@.skip(i + 1));
        let route_prefix = text::trim_slashes(routes[i].prefix.as_str());
        if text::same_text(route_prefix.as_str(), prefix.as_str()) {
            return Some(&routes[i]);
        }
        i = i + 1;
    }
    None
}

/// The value of the first of `vars` that is called `name`.
pub open spec fn value_of(vars: Seq<(Seq<char>, Seq<char>)>, name: Seq<char>) -> Option<Seq<char>>
    decreases vars.len(),
{
    if vars.len() == 0 {
        None
    } else if vars[0].0 == name {
        Some(vars[0].1)
    } else {
        value_of(vars.drop_first(), name)
    }
}

/// Finds the value of the first of `vars` that is called `name`.
fn find_value<'a>(vars: &'a Vec<(String, String)>, name: &str) -> (value: Option<&'a String>)
    ensures
        value_of(vars.deep_view(), name@) == (match value {
            Some(value) => Some(value@),
            None => None,
        }),
{
    let ghost all = vars.deep_view();
    let mut i: usize = 0;
    assert(all.skip(0) =~= all);
    while i < vars.len()
        invariant
            i <= vars@.len(),
            all == vars.deep_view(),
            value_of(all, name@) == value_of(all.skip(i as int), name@),
        decreases vars@.len() - i,
    {
        assert(all.skip(i as int)[0] == (vars@[i as int].0@, vars@[i as int].1@));
        assert(all.skip(i as int).drop_first() =~= all.skip(i + 1));
        if text::same_text(vars[i].0.as_str(), name) {
            return Some(&vars[i].1);
        }
        i = i + 1;
    }
    None
}

/// Where the proxy on `port` serves what stands under `prefix`.
pub open spec fn proxy_address(port: u16, prefix: Seq<char>) -> Seq<char> {
    "http://127.0.0.1:"@ + numerals::numeral(port as nat, 10) + "/"@ + prefix
}

/// Writes down where the proxy on `port` serves what stands under `prefix`.
fn write_proxy_address(port: u16, prefix: &str) -> (address: String)
    ensures
        address@ == proxy_address(port, prefix@),
{
    let mut address = "http://127.0.0.1:".to_owned();
    let port_text = numerals::decimal(port as u128);
    address.append(port_text.as_str());
    address.append("/");
    address.append(prefix);
    address
}

/// The error about the tool-sandbox proxy credential `name` that ends in `complaint`, where the
/// machine and not the configuration is at fault.
pub open spec fn serving_fault(name: Seq<char>, complaint: Seq<char>) -> ErrorView {
    ErrorView::SandboxInit(error::quoting("tool-sandbox proxy credential "@, name, complaint))
}

fn serving_error(name: &str, complaint: &str) -> (error: ProxyError)
    ensures
        error.deep_view() == serving_fault(name@, complaint@),
{
    ProxyError::SandboxInit(error::quote("tool-sandbox proxy credential ", name, complaint))
}

/// The variables that a sandbox gets for the credential `credential`: the token of its route, and
/// the route's address where the configuration names a variable for it.
pub open spec fn credential_variables(
    credential: Seq<char>,
    base_urls: Map<Seq<char>, Seq<char>>,
    routes: Seq<RouteConfig>,
    proxy_vars: Seq<(Seq<char>, Seq<char>)>,
    port: u16,
) -> Result<Seq<(Seq<char>, Seq<char>)>, ErrorView> {
    match route_of(routes, credential) {
        None => Err(serving_fault(credential, " did not produce a proxy route"@)),
        Some(route) => match route.env_var {
            None => Err(error::credential_fault(credential, " missing env_var"@)),
            Some(env_var) => match value_of(proxy_vars, env_var@) {
                None => Err(serving_fault(credential, " is unavailable to the proxy"@)),
                Some(token) => Ok(
                    if base_urls.contains_key(credential) {
                        seq![
                            (env_var@, token),
                            (
                                base_urls[credential],
                                proxy_address(port, text::without_outer_slashes(credential)),
                            ),
                        ]
                    } else {
                        seq![(env_var@, token)]
                    },
                ),
            },
        },
    }
}

fn credential_vars(
    credential: &str,
    base_urls: &NameMap<String>,
    routes: &Vec<RouteConfig>,
    proxy_vars: &Vec<(String, String)>,
    port: u16,
) -> (vars: Result<Vec<(String, String)>, ProxyError>)
    ensures
        credential_variables(
            credential@,
            base_urls.deep_view(),
            routes@,
            proxy_vars.deep_view(),
            port,
        ) == (match vars {
            Ok(vars) => Ok(vars.deep_view()),
            Err(error) => Err(error.deep_view()),
        }),
{
    let route = match find_route(routes, credential) {
        Some(route) => route,
        None => {
            return Err(serving_error(credential, " did not produce a proxy route"));
        },
    };
    let env_var = match &route.env_var {
        Some(env_var) => env_var,
        None => {
            return Err(error::credential_error(credential, " missing env_var"));
        },
    };
    let token = match find_value(proxy_vars, env_var.as_str()) {
        Some(token) => token,
        None => {
            return Err(serving_error(credential, " is unavailable to the proxy"));
        },
    };
    let mut vars: Vec<(String, String)> = Vec::new();
    vars.push((env_var.clone(), token.clone()));
    if let Some(variable) = base_urls.get(credential) {
        let prefix = text::trim_slashes(credential);
        vars.push((variable.clone(), write_proxy_address(port, prefix.as_str())));
        assert(vars.deep_view() =~= seq![
            (env_var@, token@),
            (variable@, proxy_address(port, text::without_outer_slashes(credential@))),
        ]);
    } else {
        assert(vars.deep_view() =~= seq![(env_var@, token@)]);
    }
    Ok(vars)
}

/// The variables of the credential `credential` of a tool sandbox.
pub open spec fn variables_for(
    proxy: LaunchOptionsView,
    routes: Seq<RouteConfig>,
    proxy_vars: Seq<(Seq<char>, Seq<char>)>,
    port: u16,
    credential: Seq<char>,
) -> Result<Seq<(Seq<char>, Seq<char>)>, ErrorView> {
    credential_variables(
        credential,
        proxy.tool_sandbox_base_url_env_vars,
        routes,
        proxy_vars,
        port,
    )
}

/// Each credential of a tool sandbox with its variables.
pub open spec fn scoped_variables(
    proxy: LaunchOptionsView,
    routes: Seq<RouteConfig>,
    proxy_vars: Seq<(Seq<char>, Seq<char>)>,
    port: u16,
) -> Map<Seq<char>, Seq<(Seq<char>, Seq<char>)>> {
    Map::new(
        |credential: Seq<char>| proxy.tool_sandbox_proxy_credentials.contains(credential),
        |credential: Seq<char>| variables_for(proxy, routes, proxy_vars, port, credential)->Ok_0,
    )
}

/// Whether the credential at `at` is the first of `listed` that cannot be served.
pub open spec fn fails_first(
    proxy: LaunchOptionsView,
    routes: Seq<RouteConfig>,
    proxy_vars: Seq<(Seq<char>, Seq<char>)>,
    port: u16,
    listed: Seq<Seq<char>>,
    at: int,
) -> bool {
    &&& 0 <= at < listed.len()
    &&& variables_for(proxy, routes, proxy_vars, port, listed[at]) is Err
    &&& forall|j: int|
        0 <= j < at ==> variables_for(proxy, routes, proxy_vars, port, #[trigger] listed[j]) is Ok
}

/// What scoping the credentials `listed` comes to: each with its variables, or what keeps the
/// first that cannot be served from being served.
pub open spec fn scoped_result(
    proxy: LaunchOptionsView,
    routes: Seq<RouteConfig>,
    proxy_vars: Seq<(Seq<char>, Seq<char>)>,
    port: u16,
    listed: Seq<Seq<char>>,
) -> Result<Map<Seq<char>, Seq<(Seq<char>, Seq<char>)>>, ErrorView> {
    if exists|at: int| fails_first(proxy, routes, proxy_vars, port, listed, at) {
        let at = choose|at: int| fails_first(proxy, routes, proxy_vars, port, listed, at);
        Err(variables_for(proxy, routes, proxy_vars, port, listed[at])->Err_0)
    } else {
        Ok(scoped_variables(proxy, routes, proxy_vars, port))
    }
}

/// Settles which variables each tool sandbox gets for each of its credentials. `proxy_vars` are
/// the variables that the proxy, which listens on `port`, has for its credentials. The first
/// credential in dictionary order that cannot be served fails them all.
pub fn scoped_tool_sandbox_proxy_credential_env_vars(
    proxy: &ProxyLaunchOptions,
    proxy_config: &ProxyConfig,
    proxy_vars: &Vec<(String, String)>,
    port: u16,
) -> (scoped: Result<NameMap<Vec<(String, String)>>, ProxyError>)
    ensures
        scoped_result(
            proxy.deep_view(),
            proxy_config.routes@,
            proxy_vars.deep_view(),
            port,
            proxy.tool_sandbox_proxy_credentials.listed(),
        ) == (match scoped {
            Ok(scoped) => Ok(scoped.deep_view()),
            Err(error) => Err(error.deep_view()),
        }),
{
    let credentials = &proxy.tool_sandbox_proxy_credentials;
    let base_urls = &proxy.tool_sandbox_base_url_env_vars;
    let ghost view = proxy.deep_view();
    let ghost routes = proxy_config.routes@;
    let ghost vars_view = proxy_vars.deep_view();
    let ghost listed = credentials.listed();
    let mut scoped: NameMap<Vec<(String, String)>> = NameMap::new();
    let count = credentials.len();
    let mut i: usize = 0;
    while i < count
        invariant
            i <= count,
            count == listed.len(),
            listed == credentials.listed(),
            base_urls.deep_view() == view.tool_sandbox_base_url_env_vars,
            routes == proxy_config.routes@,
            vars_view == proxy_vars.deep_view(),
            view == proxy.deep_view(),
            *credentials == proxy.tool_sandbox_proxy_credentials,
            forall|j: int|
                0 <= j < i ==> variables_for(view, routes, vars_view, port, #[trigger] listed[j])
                    is Ok,
            forall|name: Seq<char>| #[trigger]
                scoped.deep_view().contains_key(name) <==> exists|j: int|
                    0 <= j < i && name == #[trigger] listed[j],
            forall|name: Seq<char>| #[trigger]
                scoped.deep_view().contains_key(name) ==> scoped.deep_view()[name]
                    == variables_for(view, routes, vars_view, port, name)->Ok_0,
        decreases count - i,
    {
        let credential = credentials.name_at(i);
        let ghost before = scoped.deep_view();
        match credential_vars(
            credential.as_str(),
            base_urls,
            &proxy_config.routes,
            proxy_vars,
            port,
        ) {
            Ok(vars) => {
                scoped.insert(credential.clone(), vars);
            },
            Err(error) => {
                assert(fails_first(view, routes, vars_view, port, listed, i as int));
                assert forall|at: int|
                    fails_first(view, routes, vars_view, port, listed, at) implies at == i by {
                    if at < i {
                        assert(variables_for(view, routes, vars_view, port, listed[at]) is Ok);
                    }
                    if i < at {
                        assert(variables_for(view, routes, vars_view, port, listed[i as int]) is Ok);
                    }
                }
                return Err(error);
            },
        }
        assert forall|name: Seq<char>| #[trigger]
            scoped.deep_view().contains_key(name) <==> exists|j: int|
                0 <= j < i + 1 && name == #[trigger] listed[j] by {
            assert(scoped.deep_view().contains_key(name) <==> before.contains_key(name) || name
                == listed[i as int]);
        }
        i = i + 1;
    }
    proof {
        assert forall|name: Seq<char>|
            view.tool_sandbox_proxy_credentials.contains(name) <==> #[trigger]
            scoped.deep_view().contains_key(name) by {
            if view.tool_sandbox_proxy_credentials.contains(name) {
                assert(listed.to_set().contains(name));
                assert(listed[listed.index_of(name)] == name);
            }
            if scoped.deep_view().contains_key(name) {
                let j = choose|j: int| 0 <= j < count && name == #[trigger] listed[j];
                assert(listed.to_set().contains(listed[j]));
            }
        }
        assert forall|at: int| !fails_first(view, routes, vars_view, port, listed, at) by {
            if 0 <= at < count {
                assert(variables_for(view, routes, vars_view, port, listed[at]) is Ok);
            }
        }
        assert(scoped.deep_view() =~= scoped_variables(view, routes, vars_view, port));
    }
    Ok(scoped)
}

/// Where scoping succeeds, every one of the credentials `listed` can be served.
pub proof fn lemma_scoping_serves_all(
    proxy: LaunchOptionsView,
    routes: Seq<RouteConfig>,
    proxy_vars: Seq<(Seq<char>, Seq<char>)>,
    port: u16,
    listed: Seq<Seq<char>>,
)
    requires
        scoped_result(proxy, routes, proxy_vars, port, listed) is Ok,
    ensures
        forall|at: int|
            0 <= at < listed.len() ==> variables_for(
                proxy,
                routes,
                proxy_vars,
                port,
                #[trigger] listed[at],
            ) is Ok,
{
    assert forall|at: int| 0 <= at < listed.len() implies variables_for(
        proxy,
        routes,
        proxy_vars,
        port,
        #[trigger] listed[at],
    ) is Ok by {
        lemma_served_up_to(proxy, routes, proxy_vars, port, listed, at);
    }
}

proof fn lemma_served_up_to(
    proxy: LaunchOptionsView,
    routes: Seq<RouteConfig>,
    proxy_vars: Seq<(Seq<char>, Seq<char>)>,
    port: u16,
    listed: Seq<Seq<char>>,
    at: int,
)
    requires
        scoped_result(proxy, routes, proxy_vars, port, listed) is Ok,
        0 <= at < listed.len(),
    ensures
        forall|j: int|
            0 <= j <= at ==> variables_for(proxy, routes, proxy_vars, port, #[trigger] listed[j])
                is Ok,
    decreases at,
{
    if at > 0 {
        lemma_served_up_to(proxy, routes, proxy_vars, port, listed, at - 1);
    }
    assert(!fails_first(proxy, routes, proxy_vars, port, listed, at));
}

proof fn lemma_route_of_serves(routes: Seq<RouteConfig>, credential: Seq<char>)
    ensures
        route_of(routes, credential) matches Some(route) ==> exists|i: int|
            0 <= i < routes.len() && #[trigger] routes[i] == route && serves(route, credential),
    decreases routes.len(),
{
    if routes.len() > 0 && !serves(routes[0], credential) {
        let rest = routes.drop_first();
        lemma_route_of_serves(rest, credential);
        if let Some(route) = route_of(routes, credential) {
            let i = choose|i: int|
                0 <= i < rest.len() && #[trigger] rest[i] == route && serves(route, credential);
            assert(routes[i + 1] == route);
        }
    }
}

/// Every variable that a sandbox gets for one of its credentials is one of those that are kept
/// from everyone else.
pub proof fn lemma_scoped_variables_are_kept_back(
    proxy: LaunchOptionsView,
    routes: Seq<RouteConfig>,
    proxy_vars: Seq<(Seq<char>, Seq<char>)>,
    port: u16,
    credential: Seq<char>,
)
    requires
        proxy.tool_sandbox_proxy_credentials.contains(credential),
    ensures
        variables_for(proxy, routes, proxy_vars, port, credential) matches Ok(vars) ==> forall|
            i: int,
        |
            0 <= i < vars.len() ==> tool_sandbox_variables(proxy, routes).contains(
                (#[trigger] vars[i]).0,
            ),
{
    let result = variables_for(proxy, routes, proxy_vars, port, credential);
    if let Ok(vars) = result {
        lemma_route_of_serves(routes, credential);
        let route = route_of(routes, credential)->0;
        let base_urls = proxy.tool_sandbox_base_url_env_vars;
        assert(token_variable(route) == Some(vars[0].0));
        let at = choose|i: int|
            0 <= i < routes.len() && #[trigger] routes[i] == route && serves(route, credential);
        assert(serves(routes[at], credential));
        assert(names_token(routes, routes.len() as int, credential, vars[0].0));
        assert forall|i: int| 0 <= i < vars.len() implies tool_sandbox_variables(
            proxy,
            routes,
        ).contains((#[trigger] vars[i]).0) by {
            assert(belongs_to(vars[i].0, credential, base_urls, routes));
        }
    }
}

/// Whether `route` and the credential are called the same, but for slashes around.
pub open spec fn called_alike(route: RouteConfig, credential: Seq<char>) -> bool {
    text::without_outer_slashes(route.prefix@) == text::without_outer_slashes(credential)
}

/// A variable belongs to the tool sandboxes exactly where it is, for a credential that one of them
/// is granted: the credential's name in upper case and without slashes around, with `_BASE_URL`
/// behind it; or the variable that the launch options have for its address; or the variable of a
/// route that is called like it, or that route's key in upper case where the route has no
/// variable and the key is no URI.
pub proof fn lemma_variables_that_belong_to_tool_sandboxes(
    proxy: LaunchOptionsView,
    routes: Seq<RouteConfig>,
    name: Seq<char>,
)
    ensures
        tool_sandbox_variables(proxy, routes).contains(name) <==> exists|credential: Seq<char>|
            #[trigger] proxy.tool_sandbox_proxy_credentials.contains(credential) && {
                ||| name == uppercased(text::without_outer_slashes(credential)) + "_BASE_URL"@
                ||| proxy.tool_sandbox_base_url_env_vars.contains_key(credential) && name
                    == proxy.tool_sandbox_base_url_env_vars[credential]
                ||| exists|i: int|
                    {
                        &&& 0 <= i < routes.len()
                        &&& called_alike(#[trigger] routes[i], credential)
                        &&& match routes[i].env_var {
                            Some(variable) => name == variable@,
                            None => routes[i].credential_key matches Some(key)
                                && !text::occurs_in("://"@, key@) && name == uppercased(key@),
                        }
                    }
            },
{
    let base_urls = proxy.tool_sandbox_base_url_env_vars;
    assert forall|credential: Seq<char>| #[trigger]
        proxy.tool_sandbox_proxy_credentials.contains(credential) implies belongs_to(
        name,
        credential,
        base_urls,
        routes,
    ) == {
        ||| name == uppercased(text::without_outer_slashes(credential)) + "_BASE_URL"@
        ||| base_urls.contains_key(credential) && name == base_urls[credential]
        ||| exists|i: int|
            {
                &&& 0 <= i < routes.len()
                &&& called_alike(#[trigger] routes[i], credential)
                &&& match routes[i].env_var {
                    Some(variable) => name == variable@,
                    None => routes[i].credential_key matches Some(key) && !text::occurs_in(
                        "://"@,
                        key@,
                    ) && name == uppercased(key@),
                }
            }
    } by {
        let token = names_token(routes, routes.len() as int, credential, name);
        if token {
            let i = choose|i: int|
                0 <= i < routes.len() && serves(#[trigger] routes[i], credential)
                    && token_variable(routes[i]) == Some(name);
            assert(called_alike(routes[i], credential));
        }
        if exists|i: int|
            {
                &&& 0 <= i < routes.len()
                &&& called_alike(#[trigger] routes[i], credential)
                &&& match routes[i].env_var {
                    Some(variable) => name == variable@,
                    None => routes[i].credential_key matches Some(key) && !text::occurs_in(
                        "://"@,
                        key@,
                    ) && name == uppercased(key@),
                }
            } {
            let i = choose|i: int|
                {
                    &&& 0 <= i < routes.len()
                    &&& called_alike(#[trigger] routes[i], credential)
                    &&& match routes[i].env_var {
                        Some(variable) => name == variable@,
                        None => routes[i].credential_key matches Some(key) && !text::occurs_in(
                            "://"@,
                            key@,
                        ) && name == uppercased(key@),
                    }
                };
            assert(serves(routes[i], credential) && token_variable(routes[i]) == Some(name));
        }
    }
}

/// The route of a credential is the first that is called like it.
pub proof fn lemma_first_route_of_the_name_counts(
    routes: Seq<RouteConfig>,
    credential: Seq<char>,
    at: int,
)
    ensures
        0 <= at < routes.len() && called_alike(routes[at], credential) && (forall|i: int|
            0 <= i < at ==> !called_alike(#[trigger] routes[i], credential)) ==> route_of(
            routes,
            credential,
        ) == Some(routes[at]),
        (forall|i: int|
            0 <= i < routes.len() ==> !called_alike(#[trigger] routes[i], credential)) ==> route_of(
            routes,
            credential,
        ) is None,
    decreases routes.len(),
{
    if routes.len() > 0 {
        let rest = routes.drop_first();
        lemma_first_route_of_the_name_counts(rest, credential, at - 1);
        assert forall|i: int| 0 <= i < rest.len() implies #[trigger] rest[i] == routes[i + 1] by {}
    }
}

/// The value of a variable is that of the first entry of its name.
pub proof fn lemma_first_value_of_the_name_counts(
    vars: Seq<(Seq<char>, Seq<char>)>,
    name: Seq<char>,
    at: int,
)
    ensures
        0 <= at < vars.len() && vars[at].0 == name && (forall|i: int|
            0 <= i < at ==> (#[trigger] vars[i]).0 != name) ==> value_of(vars, name) == Some(
            vars[at].1,
        ),
        (forall|i: int| 0 <= i < vars.len() ==> (#[trigger] vars[i]).0 != name) ==> value_of(
            vars,
            name,
        ) is None,
    decreases vars.len(),
{
    if vars.len() > 0 {
        let rest = vars.drop_first();
        lemma_first_value_of_the_name_counts(rest, name, at - 1);
        assert forall|i: int| 0 <= i < rest.len() implies #[trigger] rest[i] == vars[i + 1] by {}
    }
}

/// A sandbox gets, for a credential, the variable of the credential's route with the token that
/// the proxy has for it; and behind it, where the launch options name a variable for the address,
/// that one with the proxy's own address at the credential's name without slashes around. It
/// fails where there is no route, where the route has no variable, and where the proxy has no
/// token for it, and in no other case.
pub proof fn lemma_sandbox_gets_token_and_address(
    proxy: LaunchOptionsView,
    routes: Seq<RouteConfig>,
    proxy_vars: Seq<(Seq<char>, Seq<char>)>,
    port: u16,
    credential: Seq<char>,
)
    ensures
        ({
            let outcome = variables_for(proxy, routes, proxy_vars, port, credential);
            let base_urls = proxy.tool_sandbox_base_url_env_vars;
            let about = "tool-sandbox proxy credential "@ + "'"@ + credential + "'"@;
            &&& route_of(routes, credential) is None ==> outcome == Err::<
                Seq<(Seq<char>, Seq<char>)>,
                ErrorView,
            >(ErrorView::SandboxInit(about + " did not produce a proxy route"@))
            &&& route_of(routes, credential) matches Some(route) ==> {
                &&& route.env_var is None ==> outcome == Err::<
                    Seq<(Seq<char>, Seq<char>)>,
                    ErrorView,
                >(ErrorView::ConfigParse(about + " missing env_var"@))
                &&& route.env_var matches Some(variable) ==> {
                    &&& value_of(proxy_vars, variable@) is None ==> outcome == Err::<
                        Seq<(Seq<char>, Seq<char>)>,
                        ErrorView,
                    >(ErrorView::SandboxInit(about + " is unavailable to the proxy"@))
                    &&& value_of(proxy_vars, variable@) matches Some(token) ==> (
                    outcome matches Ok(vars) && {
                        &&& vars[0] == (variable@, token)
                        &&& !base_urls.contains_key(credential) ==> vars.len() == 1
                        &&& base_urls.contains_key(credential) ==> {
                            &&& vars.len() == 2
                            &&& vars[1].0 == base_urls[credential]
                            &&& vars[1].1 == "http://127.0.0.1:"@ + numerals::numeral(
                                port as nat,
                                10,
                            ) + "/"@ + text::without_outer_slashes(credential)
                        }
                    })
                }
            }
        }),
{
}

/// Scoping succeeds exactly where every one of the credentials `listed` can be served, and then
/// has each credential of a tool sandbox with the variables it gets, and no other. Else it fails
/// for the reason of the first that cannot be served.
pub proof fn lemma_scoping_is_all_or_the_first_failure(
    proxy: LaunchOptionsView,
    routes: Seq<RouteConfig>,
    proxy_vars: Seq<(Seq<char>, Seq<char>)>,
    port: u16,
    listed: Seq<Seq<char>>,
    at: int,
)
    ensures
        ({
            let outcome = scoped_result(proxy, routes, proxy_vars, port, listed);
            &&& outcome is Ok <==> forall|i: int|
                0 <= i < listed.len() ==> variables_for(
                    proxy,
                    routes,
                    proxy_vars,
                    port,
                    #[trigger] listed[i],
                ) is Ok
            &&& outcome matches Ok(scoped) ==> forall|credential: Seq<char>|
                {
                    &&& #[trigger] scoped.contains_key(credential)
                        <==> proxy.tool_sandbox_proxy_credentials.contains(credential)
                    &&& scoped.contains_key(credential) ==> scoped[credential] == variables_for(
                        proxy,
                        routes,
                        proxy_vars,
                        port,
                        credential,
                    )->Ok_0
                }
            &&& 0 <= at < listed.len() && variables_for(
                proxy,
                routes,
                proxy_vars,
                port,
                listed[at],
            ) is Err && (forall|i: int|
                0 <= i < at ==> variables_for(
                    proxy,
                    routes,
                    proxy_vars,
                    port,
                    #[trigger] listed[i],
                ) is Ok) ==> outcome == Err::<
                Map<Seq<char>, Seq<(Seq<char>, Seq<char>)>>,
                ErrorView,
            >(variables_for(proxy, routes, proxy_vars, port, listed[at])->Err_0)
        }),
{
    let outcome = scoped_result(proxy, routes, proxy_vars, port, listed);
    if outcome is Ok {
        lemma_scoping_serves_all(proxy, routes, proxy_vars, port, listed);
    }
    if forall|i: int|
        0 <= i < listed.len() ==> variables_for(
            proxy,
            routes,
            proxy_vars,
            port,
            #[trigger] listed[i],
        ) is Ok {
        assert forall|i: int| !fails_first(proxy, routes, proxy_vars, port, listed, i) by {
            if 0 <= i < listed.len() {
                assert(variables_for(proxy, routes, proxy_vars, port, listed[i]) is Ok);
            }
        }
    }
    if 0 <= at < listed.len() && variables_for(proxy, routes, proxy_vars, port, listed[at]) is Err
        && (forall|i: int|
        0 <= i < at ==> variables_for(proxy, routes, proxy_vars, port, #[trigger] listed[i])
            is Ok) {
        assert(fails_first(proxy, routes, proxy_vars, port, listed, at));
        let found = choose|i: int| fails_first(proxy, routes, proxy_vars, port, listed, i);
        if found < at {
            assert(variables_for(proxy, routes, proxy_vars, port, listed[found]) is Ok);
        }
        if at < found {
            assert(variables_for(proxy, routes, proxy_vars, port, listed[at]) is Ok);
        }
    }
}

/// The variable for an address is the prefix in upper case with `_BASE_URL` behind it. The
/// variable for a token is the route's own; without one it is the key in upper case, where there
/// is a key that is no URI; and else there is none.
pub proof fn lemma_variables_are_named_after_prefix_and_key(
    upper_prefix: Seq<char>,
    env_var: Option<Seq<char>>,
    credential_key: Option<Seq<char>>,
    upper_key: Seq<char>,
)
    ensures
        base_url_variable(upper_prefix) == upper_prefix + "_BASE_URL"@,
        env_var matches Some(variable) ==> route_variable(env_var, credential_key, upper_key)
            == Some(variable),
        env_var is None ==> (credential_key matches Some(key) ==> route_variable(
            env_var,
            credential_key,
            upper_key,
        ) == if exists|before: Seq<char>, after: Seq<char>|
            #[trigger] (before + "://"@ + after) == key {
            None
        } else {
            Some(upper_key)
        }),
        env_var is None && credential_key is None ==> route_variable(
            env_var,
            credential_key,
            upper_key,
        ) is None,
{
    if let Some(key) = credential_key {
        text::lemma_occurring_is_standing_between("://"@, key);
    }
}

} // verus!
