//! How TLS is intercepted: whose certificates, and for how long.
use vstd::prelude::*;

use crate::error::{ErrorView, ProxyError};
use crate::host;
use crate::host::{Halt, HaltView};
use crate::profile::{TlsCaLifecycle, TlsInterceptConfig};
use crate::proxy_config::TimeSpan;
use crate::sandbox::{Platform, PreparedSandbox, SandboxArgs};

verus! {

/// Whose certificates a length of time is for.
#[derive(Debug, Clone, Copy, PartialEq, Eq, Structural)]
pub enum CertificateKind {
    Authority,
    Leaf,
}

/// The work of reading a length of time that the profile has in `field`.
#[derive(Debug, PartialEq, Eq)]
pub struct DurationRequest {
    pub kind: CertificateKind,
    pub field: String,
    pub value: String,
}

/// What a `DurationRequest` asks for.
#[verifier::ext_equal]
pub struct DurationRequestView {
    pub kind: CertificateKind,
    pub field: Seq<char>,
    pub value: Seq<char>,
}

impl DeepView for DurationRequest {
    type V = DurationRequestView;

    open spec fn deep_view(&self) -> DurationRequestView {
        DurationRequestView { kind: self.kind, field: self.field@, value: self.value@ }
    }
}

/// The lengths of time that the host has read so far.
#[derive(Debug, Clone, Default, PartialEq, Eq)]
pub struct TlsAnswers {
    pub ca_validity: Option<Result<TimeSpan, ProxyError>>,
    pub leaf_validity: Option<Result<TimeSpan, ProxyError>>,
}

/// How TLS is intercepted.
#[derive(Debug, Clone, Copy, PartialEq, Eq, Structural)]
pub struct ResolvedTlsInterceptOptions {
    /// Whether the system is to trust the proxy's authority. Only macOS can.
    pub trust_proxy_ca: bool,
    pub ca_validity: Option<TimeSpan>,
    pub leaf_validity: Option<TimeSpan>,
}

/// Whether the profile wants the authority to live on in the way `lifecycle` says.
pub open spec fn wants(profile: Option<TlsInterceptConfig>, lifecycle: TlsCaLifecycle) -> bool {
    profile is Some && profile->0.ca_lifecycle == lifecycle
}

/// What is wrong with what the profile and the command line want of the authority, if anything.
pub open spec fn lifecycle_fault(
    platform: Platform,
    trust_proxy_ca: bool,
    profile: Option<TlsInterceptConfig>,
) -> Option<ErrorView> {
    match platform {
        Platform::MacOs => if trust_proxy_ca && wants(profile, TlsCaLifecycle::Session) {
            Some(
                ErrorView::ConfigParse(
                    "profile requests network.tls_intercept.ca_lifecycle=session but --trust-proxy-ca requests trusted"@,
                ),
            )
        } else {
            None
        },
        Platform::Other => if wants(profile, TlsCaLifecycle::Trusted) {
            Some(
                ErrorView::ConfigParse(
                    "network.tls_intercept.ca_lifecycle=trusted is currently only supported on macOS"@,
                ),
            )
        } else {
            None
        },
    }
}

/// What a length of time in the profile comes to, given the host's answer if there is one.
pub open spec fn duration_of(
    kind: CertificateKind,
    field: Seq<char>,
    value: Option<Seq<char>>,
    answer: Option<Result<TimeSpan, ProxyError>>,
) -> Result<Option<TimeSpan>, HaltView<DurationRequestView>> {
    match value {
        None => Ok(None),
        Some(value) => match answer {
            None => Err(HaltView::Ask(DurationRequestView { kind, field, value })),
            Some(Ok(span)) => Ok(Some(span)),
            Some(Err(error)) => Err(HaltView::Failed(error.deep_view())),
        },
    }
}

fn read_duration(
    kind: CertificateKind,
    field: &str,
    value: Option<&String>,
    answer: Option<Result<TimeSpan, ProxyError>>,
) -> (span: Result<Option<TimeSpan>, Halt<DurationRequest>>)
    ensures
        host::told(span) == duration_of(kind, field@, value.deep_view(), answer),
{
    match value {
        None => Ok(None),
        Some(value) => match answer {
            None => Err(
                Halt::Ask(
                    DurationRequest { kind, field: field.to_owned(), value: value.clone() },
                ),
            ),
            Some(Ok(span)) => Ok(Some(span)),
            Some(Err(error)) => Err(Halt::Failed(error)),
        },
    }
}

/// `days` as a length of time.
pub open spec fn days_span(days: u32) -> TimeSpan {
    TimeSpan { secs: (days * 24 * 60 * 60) as u64, nanos: 0 }
}

/// How long the profile has the authority's certificate last, as it writes it.
pub open spec fn profile_ca_validity(profile: Option<TlsInterceptConfig>) -> Option<Seq<char>> {
    match profile {
        Some(tls) => tls.ca_validity.deep_view(),
        None => None,
    }
}

/// How long the profile has the other certificates last, as it writes it.
pub open spec fn profile_leaf_validity(profile: Option<TlsInterceptConfig>) -> Option<Seq<char>> {
    match profile {
        Some(tls) => tls.leaf_validity.deep_view(),
        None => None,
    }
}

/// How TLS is intercepted: the profile's lengths of time are read first, the authority's before
/// the other, and the command line's goes before the profile's.
pub open spec fn tls_options(
    platform: Platform,
    trust_proxy_ca: bool,
    days: Option<u32>,
    profile: Option<TlsInterceptConfig>,
    answers: TlsAnswers,
) -> Result<ResolvedTlsInterceptOptions, HaltView<DurationRequestView>> {
    match lifecycle_fault(platform, trust_proxy_ca, profile) {
        Some(fault) => Err(HaltView::Failed(fault)),
        None => match duration_of(
            CertificateKind::Authority,
            "network.tls_intercept.ca_validity"@,
            profile_ca_validity(profile),
            answers.ca_validity,
        ) {
            Err(halt) => Err(halt),
            Ok(of_profile) => match duration_of(
                CertificateKind::Leaf,
                "network.tls_intercept.leaf_validity"@,
                profile_leaf_validity(profile),
                answers.leaf_validity,
            ) {
                Err(halt) => Err(halt),
                Ok(leaf_validity) => Ok(
                    ResolvedTlsInterceptOptions {
                        trust_proxy_ca: platform == Platform::MacOs && (trust_proxy_ca || wants(
                            profile,
                            TlsCaLifecycle::Trusted,
                        )),
                        ca_validity: match days {
                            Some(days) => Some(days_span(days)),
                            None => of_profile,
                        },
                        leaf_validity,
                    },
                ),
            },
        },
    }
}

/// Settles how TLS is intercepted.
pub fn resolve_tls_intercept_options(
    args: &SandboxArgs,
    prepared: &PreparedSandbox,
    platform: Platform,
    answers: TlsAnswers,
) -> (options: Result<ResolvedTlsInterceptOptions, Halt<DurationRequest>>)
    ensures
        host::told(options) == tls_options(
            platform,
            args.trust_proxy_ca,
            args.proxy_ca_validity,
            prepared.tls_intercept,
            answers,
        ),
{
    let profile_tls = prepared.tls_intercept.as_ref();
    let (session, trusted) = match profile_tls {
        Some(tls) => (
            tls.ca_lifecycle == TlsCaLifecycle::Session,
            tls.ca_lifecycle == TlsCaLifecycle::Trusted,
        ),
        None => (false, false),
    };
    match platform {
        Platform::MacOs => {
            if args.trust_proxy_ca && session {
                return Err(
                    Halt::Failed(
                        ProxyError::ConfigParse(
                            "profile requests network.tls_intercept.ca_lifecycle=session but --trust-proxy-ca requests trusted".to_owned(),
                        ),
                    ),
                );
            }
        },
        Platform::Other => {
            if trusted {
                return Err(
                    Halt::Failed(
                        ProxyError::ConfigParse(
                            "network.tls_intercept.ca_lifecycle=trusted is currently only supported on macOS".to_owned(),
                        ),
                    ),
                );
            }
        },
    }
    let (ca_text, leaf_text) = match profile_tls {
        Some(tls) => (tls.ca_validity.as_ref(), tls.leaf_validity.as_ref()),
        None => (None, None),
    };
    let of_profile = read_duration(
        CertificateKind::Authority,
        "network.tls_intercept.ca_validity",
        ca_text,
        answers.ca_validity,
    )?;
    let leaf_validity = read_duration(
        CertificateKind::Leaf,
        "network.tls_intercept.leaf_validity",
        leaf_text,
        answers.leaf_validity,
    )?;
    let ca_validity = match args.proxy_ca_validity {
        Some(days) => Some(TimeSpan { secs: days as u64 * 24 * 60 * 60, nanos: 0 }),
        None => of_profile,
    };
    let mac = match platform {
        Platform::MacOs => true,
        Platform::Other => false,
    };
    Ok(
        ResolvedTlsInterceptOptions {
            trust_proxy_ca: mac && (args.trust_proxy_ca || trusted),
            ca_validity,
            leaf_validity,
        },
    )
}

/// The command line's length of time for the authority stands whenever the options are settled,
/// and the authority is trusted beyond a session only on macOS.
pub proof fn lemma_command_line_validity_stands(
    platform: Platform,
    trust_proxy_ca: bool,
    days: u32,
    profile: Option<TlsInterceptConfig>,
    answers: TlsAnswers,
)
    ensures
        tls_options(platform, trust_proxy_ca, Some(days), profile, answers) matches Ok(options)
            ==> {
            &&& options.ca_validity == Some(days_span(days))
            &&& options.ca_validity->0.secs == days * 86400
            &&& options.trust_proxy_ca ==> platform == Platform::MacOs
        },
{
}

/// Where the options are settled, the authority is trusted exactly on macOS, and there where the
/// command line or the profile asks for it; the command line's days, in seconds, go before what
/// the host read of the profile's text; and a length of time that nobody set stays open.
pub proof fn lemma_settled_interception_is_what_was_asked(
    platform: Platform,
    trust_proxy_ca: bool,
    days: Option<u32>,
    profile: Option<TlsInterceptConfig>,
    answers: TlsAnswers,
)
    ensures
        tls_options(platform, trust_proxy_ca, days, profile, answers) matches Ok(options) ==> {
            &&& options.trust_proxy_ca <==> platform is MacOs && (trust_proxy_ca || (
            profile matches Some(tls) && tls.ca_lifecycle is Trusted))
            &&& days matches Some(n) ==> options.ca_validity matches Some(span) && span.secs == n
                * 86400 && span.nanos == 0
            &&& days is None ==> match profile {
                Some(tls) => match tls.ca_validity {
                    Some(_) => answers.ca_validity matches Some(Ok(span)) && options.ca_validity
                        == Some(span),
                    None => options.ca_validity is None,
                },
                None => options.ca_validity is None,
            }
            &&& match profile {
                Some(tls) => match tls.leaf_validity {
                    Some(_) => answers.leaf_validity matches Some(Ok(span))
                        && options.leaf_validity == Some(span),
                    None => options.leaf_validity is None,
                },
                None => options.leaf_validity is None,
            }
        },
{
}

/// A profile and a command line that contradict each other are refused, on macOS; a profile that
/// wants the authority trusted is refused elsewhere; and nothing else is refused before the host
/// has read the lengths of time.
pub proof fn lemma_contradictions_are_refused_first(
    platform: Platform,
    trust_proxy_ca: bool,
    days: Option<u32>,
    profile: Option<TlsInterceptConfig>,
    answers: TlsAnswers,
)
    ensures
        ({
            let outcome = tls_options(platform, trust_proxy_ca, days, profile, answers);
            let session = profile matches Some(tls) && tls.ca_lifecycle is Session;
            let trusted = profile matches Some(tls) && tls.ca_lifecycle is Trusted;
            &&& platform is MacOs && trust_proxy_ca && session ==> outcome == Err::<
                ResolvedTlsInterceptOptions,
                HaltView<DurationRequestView>,
            >(
                HaltView::Failed(
                    ErrorView::ConfigParse(
                        "profile requests network.tls_intercept.ca_lifecycle=session but --trust-proxy-ca requests trusted"@,
                    ),
                ),
            )
            &&& !(platform is MacOs) && trusted ==> outcome == Err::<
                ResolvedTlsInterceptOptions,
                HaltView<DurationRequestView>,
            >(
                HaltView::Failed(
                    ErrorView::ConfigParse(
                        "network.tls_intercept.ca_lifecycle=trusted is currently only supported on macOS"@,
                    ),
                ),
            )
            &&& !(platform is MacOs && trust_proxy_ca && session) && !(!(platform is MacOs)
                && trusted) ==> {
                let ca = match profile {
                    Some(tls) => tls.ca_validity,
                    None => None,
                };
                let leaf = match profile {
                    Some(tls) => tls.leaf_validity,
                    None => None,
                };
                &&& ca matches Some(value) ==> answers.ca_validity is None ==> outcome == Err::<
                    ResolvedTlsInterceptOptions,
                    HaltView<DurationRequestView>,
                >(
                    HaltView::Ask(
                        DurationRequestView {
                            kind: CertificateKind::Authority,
                            field: "network.tls_intercept.ca_validity"@,
                            value: value@,
                        },
                    ),
                )
                &&& answers.ca_validity matches Some(Err(error)) ==> ca is Some ==> outcome == Err::<
                    ResolvedTlsInterceptOptions,
                    HaltView<DurationRequestView>,
                >(HaltView::Failed(error.deep_view()))
                &&& (ca is None || answers.ca_validity matches Some(Ok(_))) ==> {
                    &&& leaf matches Some(value) ==> answers.leaf_validity is None ==> outcome
                        == Err::<ResolvedTlsInterceptOptions, HaltView<DurationRequestView>>(
                        HaltView::Ask(
                            DurationRequestView {
                                kind: CertificateKind::Leaf,
                                field: "network.tls_intercept.leaf_validity"@,
                                value: value@,
                            },
                        ),
                    )
                    &&& answers.leaf_validity matches Some(Err(error)) ==> leaf is Some ==> outcome
                        == Err::<ResolvedTlsInterceptOptions, HaltView<DurationRequestView>>(
                        HaltView::Failed(error.deep_view()),
                    )
                    &&& (leaf is None || answers.leaf_validity matches Some(Ok(_))) ==> outcome
                        is Ok
                }
            }
        }),
{
}

} // verus!
