//! The domains, the profile and the credentials that the command line and the profile settle on.
use vstd::prelude::*;

use crate::profile::{AllowDomainEntry, AllowDomainEntryView};
use crate::proxy_config::{EndpointRule, EndpointRuleView};
use crate::sandbox::{PreparedSandbox, SandboxArgs};
use crate::text;
use crate::values;
use crate::values::DeepClone;

verus! {

/// The host, where there is one, and the path of the absolute URL that `input` is; `None` where
/// it is none. This names what `url::Url::parse` makes of `input`.
pub uninterp spec fn url_parts(input: Seq<char>) -> Option<(Option<Seq<char>>, Seq<char>)>;

/// Parses `input` with `url::Url::parse` and hands out what `Url::host_str` and `Url::path` say
/// of the result. What they say depends on `input` alone, and a text without a colon has no
/// scheme and so is no absolute URL.
#[verifier::external_body]
fn parse_url(input: &str) -> (parts: Option<(Option<String>, String)>)
    ensures
        parts.deep_view() == url_parts(input@),
        !input@.contains(':') ==> parts is None,
{
    match url::Url::parse(input) {
        Ok(parsed) => Some(
            (parsed.host_str().map(|host| host.to_string()), parsed.path().to_string()),
        ),
        Err(_) => None,
    }
}

/// The entry for the argument `input`, which has the URL parts `parts`: the bare domain where
/// there is no path to speak of, else the domain at that path alone, with any method.
pub open spec fn entry_of(
    input: Seq<char>,
    parts: Option<(Option<Seq<char>>, Seq<char>)>,
) -> AllowDomainEntryView {
    match parts {
        None => AllowDomainEntryView::Plain(input),
        Some((host, path)) => {
            let domain = match host {
                Some(host) => host,
                None => input,
            };
            if path == ""@ || path == "/"@ {
                AllowDomainEntryView::Plain(domain)
            } else {
                AllowDomainEntryView::WithEndpoints {
                    domain,
                    endpoints: seq![EndpointRuleView { method: "*"@, path }],
                }
            }
        },
    }
}

/// The entry for the argument `input`, given its URL parts.
pub fn allow_domain_from_parts(
    input: &str,
    parts: Option<(Option<String>, String)>,
) -> (entry: AllowDomainEntry)
    ensures
        entry.deep_view() == entry_of(input@, parts.deep_view()),
{
    match parts {
        None => AllowDomainEntry::Plain(input.to_owned()),
        Some((host, path)) => {
            let domain = match host {
                Some(host) => host,
                None => input.to_owned(),
            };
            if text::same_text(path.as_str(), "") || text::same_text(path.as_str(), "/") {
                AllowDomainEntry::Plain(domain)
            } else {
                let mut endpoints: Vec<EndpointRule> = Vec::new();
                let ghost rule = EndpointRuleView { method: "*"@, path: path@ };
                endpoints.push(EndpointRule { method: "*".to_owned(), path });
                assert(endpoints.deep_view() =~= seq![rule]);
                AllowDomainEntry::WithEndpoints { domain, endpoints }
            }
        },
    }
}

/// Reads a `--allow-domain` argument: a plain host name stands for itself, a URL for its host,
/// at its path where it has one.
pub fn parse_allow_domain_arg(input: &str) -> (entry: AllowDomainEntry)
    ensures
        entry.deep_view() == entry_of(input@, url_parts(input@)),
        !input@.contains(':') ==> entry.deep_view() == AllowDomainEntryView::Plain(input@),
{
    let parts = parse_url(input);
    allow_domain_from_parts(input, parts)
}

/// The network settings that are in force.
#[derive(Debug, PartialEq, Eq)]
pub struct EffectiveProxySettings {
    pub network_profile: Option<String>,
    pub allow_domain: Vec<AllowDomainEntry>,
    pub credentials: Vec<String>,
}

/// What an `EffectiveProxySettings` holds.
#[verifier::ext_equal]
pub struct EffectiveProxySettingsView {
    pub network_profile: Option<Seq<char>>,
    pub allow_domain: Seq<AllowDomainEntryView>,
    pub credentials: Seq<Seq<char>>,
}

impl DeepView for EffectiveProxySettings {
    type V = EffectiveProxySettingsView;

    open spec fn deep_view(&self) -> EffectiveProxySettingsView {
        EffectiveProxySettingsView {
            network_profile: self.network_profile.deep_view(),
            allow_domain: self.allow_domain.deep_view(),
            credentials: self.credentials.deep_view(),
        }
    }
}

/// The first of two options that holds something.
pub open spec fn first_of<T>(first: Option<T>, second: Option<T>) -> Option<T> {
    if first is Some {
        first
    } else {
        second
    }
}

/// The entries for the arguments `inputs`.
pub open spec fn entries_of(inputs: Seq<String>) -> Seq<AllowDomainEntryView> {
    Seq::new(inputs.len(), |i: int| entry_of(inputs[i]@, url_parts(inputs[i]@)))
}

/// The settings in force: none where the whole network is allowed; else the command line's
/// network profile before the profile's, and the profile's domains and credentials followed by
/// the command line's.
pub open spec fn effective_settings(
    args: SandboxArgs,
    prepared: PreparedSandbox,
) -> EffectiveProxySettingsView {
    if args.allow_net {
        EffectiveProxySettingsView {
            network_profile: None,
            allow_domain: seq![],
            credentials: seq![],
        }
    } else {
        EffectiveProxySettingsView {
            network_profile: first_of(
                args.network_profile.deep_view(),
                prepared.network_profile.deep_view(),
            ),
            allow_domain: prepared.allow_domain.deep_view() + entries_of(args.allow_proxy@),
            credentials: prepared.credentials.deep_view() + args.proxy_credential.deep_view(),
        }
    }
}

/// Settles which network settings are in force.
pub fn resolve_effective_proxy_settings(
    args: &SandboxArgs,
    prepared: &PreparedSandbox,
) -> (settings: EffectiveProxySettings)
    ensures
        settings.deep_view() == effective_settings(*args, *prepared),
{
    if args.allow_net {
        return EffectiveProxySettings {
            network_profile: None,
            allow_domain: Vec::new(),
            credentials: Vec::new(),
        };
    }
    let network_profile = if args.network_profile.is_some() {
        args.network_profile.deep_clone()
    } else {
        prepared.network_profile.deep_clone()
    };
    let mut allow_domain = prepared.allow_domain.deep_clone();
    let inputs = &args.allow_proxy;
    let ghost whole = entries_of(inputs@);
    let mut i: usize = 0;
    assert(whole.take(0) =~= seq![]);
    assert(allow_domain.deep_view() =~= prepared.allow_domain.deep_view() + whole.take(0));
    while i < inputs.len()
        invariant
            i <= inputs@.len(),
            whole == entries_of(inputs@),
            allow_domain.deep_view() == prepared.allow_domain.deep_view() + whole.take(i as int),
        decreases inputs@.len() - i,
    {
        let ghost before = allow_domain.deep_view();
        let entry = parse_allow_domain_arg(inputs[i].as_str());
        let ghost entry_view = entry.deep_view();
        allow_domain.push(entry);
        assert(allow_domain.deep_view() =~= before.push(entry_view));
        assert(whole.take(i + 1) =~= whole.take(i as int).push(entry_view));
        i = i + 1;
        assert(allow_domain.deep_view() =~= prepared.allow_domain.deep_view() + whole.take(
            i as int,
        ));
    }
    assert(whole.take(i as int) =~= whole);
    let mut credentials = prepared.credentials.deep_clone();
    values::extend_with(&mut credentials, &args.proxy_credential);
    EffectiveProxySettings { network_profile, allow_domain, credentials }
}

/// An argument that is no URL stands for itself. One that is stands for its host, or for itself
/// where it has none: as a whole exactly where its path is empty or a lone slash, and for every
/// other path at that very path alone, with any method.
pub proof fn lemma_entry_is_host_and_path(
    input: Seq<char>,
    parts: Option<(Option<Seq<char>>, Seq<char>)>,
)
    ensures
        parts is None ==> entry_of(input, parts) == AllowDomainEntryView::Plain(input),
        parts matches Some((host, path)) ==> {
            let whole = path.len() == 0 || path.len() == 1 && path[0] == '/';
            let named = if host is Some {
                host->0
            } else {
                input
            };
            &&& entry_of(input, parts) is Plain <==> whole
            &&& entry_of(input, parts) matches AllowDomainEntryView::Plain(domain) ==> domain
                == named
            &&& entry_of(input, parts) matches AllowDomainEntryView::WithEndpoints {
                domain,
                endpoints,
            } ==> {
                &&& domain == named
                &&& endpoints.len() == 1
                &&& endpoints[0].method.len() == 1
                &&& endpoints[0].method[0] == '*'
                &&& endpoints[0].path == path
            }
        },
{
    reveal_strlit("");
    reveal_strlit("/");
    reveal_strlit("*");
    if let Some((host, path)) = parts {
        if path.len() == 0 {
            assert(path =~= ""@);
        }
        if path.len() == 1 && path[0] == '/' {
            assert(path =~= "/"@);
        }
    }
}

/// Where the whole network is allowed nothing is in force. Else the command line's network
/// profile goes before the profile's, and the profile's domains and credentials come first and
/// as they are, followed by the command line's in order: each domain as its argument stands for,
/// each credential as it is.
pub proof fn lemma_command_line_comes_behind_the_profile(
    args: SandboxArgs,
    prepared: PreparedSandbox,
)
    ensures
        ({
            let s = effective_settings(args, prepared);
            let domains = prepared.allow_domain@;
            let credentials = prepared.credentials@;
            &&& args.allow_net ==> s.network_profile is None && s.allow_domain.len() == 0
                && s.credentials.len() == 0
            &&& !args.allow_net ==> {
                &&& args.network_profile matches Some(name) ==> s.network_profile == Some(name@)
                &&& args.network_profile is None ==> match prepared.network_profile {
                    Some(name) => s.network_profile == Some(name@),
                    None => s.network_profile is None,
                }
                &&& s.allow_domain.len() == domains.len() + args.allow_proxy@.len()
                &&& forall|i: int|
                    0 <= i < domains.len() ==> #[trigger] s.allow_domain[i]
                        == domains[i].deep_view()
                &&& forall|i: int|
                    0 <= i < args.allow_proxy@.len() ==> s.allow_domain[domains.len() + i]
                        == entry_of(
                        (#[trigger] args.allow_proxy@[i])@,
                        url_parts(args.allow_proxy@[i]@),
                    )
                &&& s.credentials.len() == credentials.len() + args.proxy_credential@.len()
                &&& forall|i: int|
                    0 <= i < credentials.len() ==> #[trigger] s.credentials[i] == credentials[i]@
                &&& forall|i: int|
                    0 <= i < args.proxy_credential@.len() ==> s.credentials[credentials.len() + i]
                        == (#[trigger] args.proxy_credential@[i])@
            }
        }),
{
}

} // verus!
