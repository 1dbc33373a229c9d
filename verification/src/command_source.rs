//! Credentials that a command prints.
use vstd::prelude::*;
use vstd::string::StringExecFns;
use vstd::utf8;

use crate::error;
use crate::error::{ErrorView, ProxyError};
use crate::numerals;
use crate::proxy_config::TimeSpan;
use crate::text;

verus! {

/// What `String::from_utf8` has to say against bytes that are no UTF-8.
pub uninterp spec fn utf8_complaint(bytes: Seq<u8>) -> Seq<char>;

/// `String::from_utf8`: the bytes are a text exactly where they are UTF-8, and it is then the
/// text that they encode. Of its error only the words are kept; they depend on the bytes alone,
/// and `utf8_complaint` is a name for them.
#[verifier::external_body]
fn text_of_bytes(bytes: Vec<u8>) -> (decoded: Result<String, String>)
    ensures
        match decoded {
            Ok(decoded) => utf8::valid_utf8(bytes@) && decoded@ == utf8::decode_utf8(bytes@),
            Err(complaint) => !utf8::valid_utf8(bytes@) && complaint@ == utf8_complaint(bytes@),
        },
{
    match String::from_utf8(bytes) {
        Ok(decoded) => Ok(decoded),
        Err(err) => Err(err.to_string()),
    }
}

/// How a command ended and what it printed.
#[derive(Debug, PartialEq, Eq)]
pub struct SourceOutput {
    pub success: bool,
    /// Missing where a signal ended the command.
    pub code: Option<i32>,
    pub stdout: Vec<u8>,
}

/// What has just happened to a command that prints a credential. A text in place of a result is
/// the host's, and says what went wrong.
#[derive(Debug, PartialEq, Eq)]
pub enum SourceEvent {
    /// It was started.
    Started(Result<(), String>),
    /// It was looked at `elapsed` after the start, and had ended or not.
    Polled { finished: Result<bool, String>, elapsed: TimeSpan },
    /// There was a pause.
    Slept,
    /// It has ended, and its output was collected.
    Collected(Result<SourceOutput, String>),
}

/// What is to be done next about a command that prints a credential.
#[derive(Debug, PartialEq, Eq)]
pub enum SourceAction {
    /// See whether it has ended.
    Poll,
    /// Pause for so many milliseconds.
    Sleep { millis: u64 },
    /// Collect its output.
    Collect,
    /// End it, and then fail.
    Kill { error: ProxyError },
    /// It is over.
    Finish { result: Result<String, ProxyError> },
}

/// What a `SourceAction` says.
#[verifier::ext_equal]
pub enum SourceActionView {
    Poll,
    Sleep { millis: u64 },
    Collect,
    Kill { error: ErrorView },
    Finish { result: Result<Seq<char>, ErrorView> },
}

impl DeepView for SourceAction {
    type V = SourceActionView;

    open spec fn deep_view(&self) -> SourceActionView {
        match self {
            SourceAction::Poll => SourceActionView::Poll,
            SourceAction::Sleep { millis } => SourceActionView::Sleep { millis: *millis },
            SourceAction::Collect => SourceActionView::Collect,
            SourceAction::Kill { error } => SourceActionView::Kill { error: error.deep_view() },
            SourceAction::Finish { result } => SourceActionView::Finish {
                result: told_value(*result),
            },
        }
    }
}

/// What a result says.
pub open spec fn told_value(result: Result<String, ProxyError>) -> Result<Seq<char>, ErrorView> {
    match result {
        Ok(value) => Ok(value@),
        Err(error) => Err(error.deep_view()),
    }
}

/// How many seconds a command has: thirty, where the configuration does not say.
pub open spec fn seconds_allowed(timeout_secs: Option<u64>) -> u64 {
    match timeout_secs {
        Some(secs) => secs,
        None => 30,
    }
}

/// The numeral of a number with a sign.
pub open spec fn signed_numeral(n: int) -> Seq<char> {
    if n < 0 {
        "-"@ + numerals::numeral((-n) as nat, 10)
    } else {
        numerals::numeral(n as nat, 10)
    }
}

fn signed_decimal(n: i32) -> (out: String)
    ensures
        out@ == signed_numeral(n as int),
{
    if n < 0 {
        let mut out = "-".to_owned();
        let digits = numerals::decimal((-(n as i64)) as u128);
        out.append(digits.as_str());
        out
    } else {
        numerals::decimal(n as u128)
    }
}

/// An error about the credential source `command`.
pub open spec fn source_fault(
    before: Seq<char>,
    command: Seq<char>,
    after: Seq<char>,
    detail: Seq<char>,
) -> ErrorView {
    ErrorView::SandboxInit(error::quoting(before, command, after) + detail)
}

fn source_error(before: &str, command: &str, after: &str, detail: &str) -> (error: ProxyError)
    ensures
        error.deep_view() == source_fault(before@, command@, after@, detail@),
{
    let mut message = error::quote(before, command, after);
    message.append(detail);
    ProxyError::SandboxInit(message)
}

/// How a command's exit code is told.
pub open spec fn code_text(code: Option<i32>) -> Seq<char> {
    match code {
        Some(code) => signed_numeral(code as int),
        None => "unknown"@,
    }
}

/// The credential in what a command printed, given its decoding or the complaint about it: the
/// text without the line ends behind it.
pub open spec fn credential_in(
    command: Seq<char>,
    decoded: Result<Seq<char>, Seq<char>>,
) -> Result<Seq<char>, ErrorView> {
    match decoded {
        Ok(printed) => Ok(text::without_line_end(printed)),
        Err(complaint) => Err(
            source_fault(
                "supervisor credential source "@,
                command,
                " produced non-UTF-8 stdout: "@,
                complaint,
            ),
        ),
    }
}

/// Takes the credential out of what a command printed.
pub fn credential_from(command: &str, decoded: Result<String, String>) -> (value: Result<
    String,
    ProxyError,
>)
    ensures
        told_value(value) == credential_in(
            command@,
            match decoded {
                Ok(printed) => Ok(printed@),
                Err(complaint) => Err(complaint@),
            },
        ),
{
    match decoded {
        Ok(printed) => Ok(text::trim_line_end(printed.as_str())),
        Err(complaint) => Err(
            source_error(
                "supervisor credential source ",
                command,
                " produced non-UTF-8 stdout: ",
                complaint.as_str(),
            ),
        ),
    }
}

/// The text that `bytes` encode, or the complaint about them.
pub open spec fn decoding(bytes: Seq<u8>) -> Result<Seq<char>, Seq<char>> {
    if utf8::valid_utf8(bytes) {
        Ok(utf8::decode_utf8(bytes))
    } else {
        Err(utf8_complaint(bytes))
    }
}

/// What the output of a command comes to.
pub open spec fn output_value(command: Seq<char>, output: SourceOutput) -> Result<
    Seq<char>,
    ErrorView,
> {
    if !output.success {
        Err(
            source_fault(
                "supervisor credential source "@,
                command,
                " failed with exit code "@,
                code_text(output.code),
            ),
        )
    } else {
        credential_in(command, decoding(output.stdout@))
    }
}

fn value_of_output(command: &str, output: SourceOutput) -> (value: Result<String, ProxyError>)
    ensures
        told_value(value) == output_value(command@, output),
{
    if !output.success {
        let code = match output.code {
            Some(code) => signed_decimal(code),
            None => "unknown".to_owned(),
        };
        return Err(
            source_error(
                "supervisor credential source ",
                command,
                " failed with exit code ",
                code.as_str(),
            ),
        );
    }
    credential_from(command, text_of_bytes(output.stdout))
}

/// Whether as many seconds as `allowed` have passed.
pub open spec fn is_over(allowed: u64, elapsed: TimeSpan) -> bool {
    elapsed.secs >= allowed
}

/// What is done about the command `command` after `event`. It is looked at, with pauses between,
/// until it has ended or its time is over.
pub open spec fn action_after(
    command: Seq<char>,
    timeout_secs: Option<u64>,
    event: SourceEvent,
) -> SourceActionView {
    let allowed = seconds_allowed(timeout_secs);
    match event {
        SourceEvent::Started(Ok(_)) => SourceActionView::Poll,
        SourceEvent::Started(Err(cause)) => SourceActionView::Finish {
            result: Err(
                source_fault(
                    "failed to start supervisor credential source "@,
                    command,
                    ": "@,
                    cause@,
                ),
            ),
        },
        SourceEvent::Polled { finished: Err(cause), .. } => SourceActionView::Finish {
            result: Err(
                source_fault(
                    "failed to wait for supervisor credential source "@,
                    command,
                    ": "@,
                    cause@,
                ),
            ),
        },
        SourceEvent::Polled { finished: Ok(finished), elapsed } => if finished {
            SourceActionView::Collect
        } else if is_over(allowed, elapsed) {
            SourceActionView::Kill {
                error: source_fault(
                    "supervisor credential source "@,
                    command,
                    " timed out after "@,
                    numerals::numeral(allowed as nat, 10) + "s"@,
                ),
            }
        } else {
            SourceActionView::Sleep { millis: 25 }
        },
        SourceEvent::Slept => SourceActionView::Poll,
        SourceEvent::Collected(Err(cause)) => SourceActionView::Finish {
            result: Err(
                source_fault(
                    "failed to collect supervisor credential source "@,
                    command,
                    ": "@,
                    cause@,
                ),
            ),
        },
        SourceEvent::Collected(Ok(output)) => SourceActionView::Finish {
            result: output_value(command, output),
        },
    }
}

/// Loads a credential from the command `command`, one step at a time.
pub fn load_command_credential_source(
    command: &str,
    timeout_secs: Option<u64>,
    event: SourceEvent,
) -> (action: SourceAction)
    ensures
        action.deep_view() == action_after(command@, timeout_secs, event),
{
    let allowed: u64 = match timeout_secs {
        Some(secs) => secs,
        None => 30,
    };
    match event {
        SourceEvent::Started(Ok(_)) => SourceAction::Poll,
        SourceEvent::Started(Err(cause)) => SourceAction::Finish {
            result: Err(
                source_error(
                    "failed to start supervisor credential source ",
                    command,
                    ": ",
                    cause.as_str(),
                ),
            ),
        },
        SourceEvent::Polled { finished: Err(cause), .. } => SourceAction::Finish {
            result: Err(
                source_error(
                    "failed to wait for supervisor credential source ",
                    command,
                    ": ",
                    cause.as_str(),
                ),
            ),
        },
        SourceEvent::Polled { finished: Ok(finished), elapsed } => if finished {
            SourceAction::Collect
        } else if elapsed.secs >= allowed {
            let mut seconds = numerals::decimal(allowed as u128);
            seconds.append("s");
            SourceAction::Kill {
                error: source_error(
                    "supervisor credential source ",
                    command,
                    " timed out after ",
                    seconds.as_str(),
                ),
            }
        } else {
            SourceAction::Sleep { millis: 25 }
        },
        SourceEvent::Slept => SourceAction::Poll,
        SourceEvent::Collected(Err(cause)) => SourceAction::Finish {
            result: Err(
                source_error(
                    "failed to collect supervisor credential source ",
                    command,
                    ": ",
                    cause.as_str(),
                ),
            ),
        },
        SourceEvent::Collected(Ok(output)) => SourceAction::Finish {
            result: value_of_output(command, output),
        },
    }
}

/// A credential that a command prints never ends in a line end.
pub proof fn lemma_credentials_end_in_no_line_end(command: Seq<char>, output: SourceOutput)
    ensures
        output_value(command, output) matches Ok(value) ==> value.len() > 0 ==> value.last()
            != '\r' && value.last() != '\n',
{
    if output_value(command, output) is Ok {
        lemma_no_line_end(utf8::decode_utf8(output.stdout@));
    }
}

proof fn lemma_no_line_end(s: Seq<char>)
    ensures
        ({
            let trimmed = text::without_line_end(s);
            trimmed.len() > 0 ==> trimmed.last() != '\r' && trimmed.last() != '\n'
        }),
    decreases s.len(),
{
    if s.len() > 0 && (s.last() == '\r' || s.last() == '\n') {
        lemma_no_line_end(s.drop_last());
    }
}

/// What a command prints becomes a credential only where the command succeeded and printed UTF-8;
/// it is then all of that but line ends.
pub proof fn lemma_only_success_gives_a_credential(command: Seq<char>, output: SourceOutput)
    ensures
        output_value(command, output) is Ok <==> output.success && utf8::valid_utf8(output.stdout@),
        output_value(command, output) matches Ok(value) ==> value.is_prefix_of(
            utf8::decode_utf8(output.stdout@),
        ),
{
    lemma_trimming_keeps_a_prefix(utf8::decode_utf8(output.stdout@));
}

proof fn lemma_trimming_keeps_a_prefix(s: Seq<char>)
    ensures
        text::without_line_end(s).is_prefix_of(s),
    decreases s.len(),
{
    if s.len() > 0 && (s.last() == '\r' || s.last() == '\n') {
        lemma_trimming_keeps_a_prefix(s.drop_last());
        let trimmed = text::without_line_end(s);
        assert(trimmed =~= s.subrange(0, trimmed.len() as int));
    } else {
        assert(s =~= s.subrange(0, s.len() as int));
    }
}

/// A command is looked at once it has started, and again after each pause. As long as it has not
/// ended there is a pause of 25 milliseconds, until the seconds that it is allowed have passed,
/// thirty where the configuration does not say; then it is ended, and told to have timed out after
/// so many seconds. Its output is collected exactly once it has ended, whatever the time.
pub proof fn lemma_commands_are_waited_for_in_time(
    command: Seq<char>,
    timeout_secs: Option<u64>,
    elapsed: TimeSpan,
)
    ensures
        ({
            let allowed: u64 = match timeout_secs {
                Some(secs) => secs,
                None => 30,
            };
            let waiting = action_after(
                command,
                timeout_secs,
                SourceEvent::Polled { finished: Ok(false), elapsed },
            );
            &&& action_after(command, timeout_secs, SourceEvent::Started(Ok(()))) is Poll
            &&& action_after(command, timeout_secs, SourceEvent::Slept) is Poll
            &&& action_after(
                command,
                timeout_secs,
                SourceEvent::Polled { finished: Ok(true), elapsed },
            ) is Collect
            &&& elapsed.secs < allowed ==> waiting == (SourceActionView::Sleep { millis: 25 })
            &&& elapsed.secs >= allowed ==> waiting == (SourceActionView::Kill {
                error: ErrorView::SandboxInit(
                    "supervisor credential source "@ + "'"@ + command + "'"@ + " timed out after "@
                        + (numerals::numeral(allowed as nat, 10) + "s"@),
                ),
            })
        }),
{
}

/// A command that cannot be started, waited for or collected from ends with an error that names it
/// and gives the host's reason.
pub proof fn lemma_trouble_with_a_command_is_told(
    command: Seq<char>,
    timeout_secs: Option<u64>,
    cause: String,
    elapsed: TimeSpan,
)
    ensures
        action_after(command, timeout_secs, SourceEvent::Started(Err(cause))) == (
        SourceActionView::Finish {
            result: Err(
                ErrorView::SandboxInit(
                    "failed to start supervisor credential source "@ + "'"@ + command + "'"@ + ": "@
                        + cause@,
                ),
            ),
        }),
        action_after(
            command,
            timeout_secs,
            SourceEvent::Polled { finished: Err(cause), elapsed },
        ) == (SourceActionView::Finish {
            result: Err(
                ErrorView::SandboxInit(
                    "failed to wait for supervisor credential source "@ + "'"@ + command + "'"@
                        + ": "@ + cause@,
                ),
            ),
        }),
        action_after(command, timeout_secs, SourceEvent::Collected(Err(cause))) == (
        SourceActionView::Finish {
            result: Err(
                ErrorView::SandboxInit(
                    "failed to collect supervisor credential source "@ + "'"@ + command + "'"@
                        + ": "@ + cause@,
                ),
            ),
        }),
{
}

/// What a command that succeeded printed, read as UTF-8, is the credential and line ends behind
/// it; the credential itself ends in none. A command that failed is told with its exit code, in
/// decimal and with a sign where it is negative, or `unknown` where it has none; and output that
/// is no UTF-8 with the complaint about it.
pub proof fn lemma_output_is_the_credential_and_line_ends(
    command: Seq<char>,
    timeout_secs: Option<u64>,
    output: SourceOutput,
)
    ensures
        action_after(
            command,
            timeout_secs,
            SourceEvent::Collected(Ok(output)),
        ) matches SourceActionView::Finish { result } && {
            let printed = utf8::decode_utf8(output.stdout@);
            let readable = utf8::valid_utf8(output.stdout@);
            let about = "supervisor credential source "@ + "'"@ + command + "'"@;
            &&& result is Ok <==> output.success && readable
            &&& result matches Ok(value) ==> {
                &&& value.len() <= printed.len()
                &&& forall|i: int| 0 <= i < value.len() ==> #[trigger] value[i] == printed[i]
                &&& forall|i: int|
                    value.len() <= i < printed.len() ==> #[trigger] printed[i] == '\r'
                        || printed[i] == '\n'
                &&& value.len() > 0 ==> value.last() != '\r' && value.last() != '\n'
            }
            &&& !output.success ==> (output.code matches Some(code) ==> result == Err::<
                Seq<char>,
                ErrorView,
            >(
                ErrorView::SandboxInit(
                    about + " failed with exit code "@ + if code < 0 {
                        "-"@ + numerals::numeral((-code) as nat, 10)
                    } else {
                        numerals::numeral(code as nat, 10)
                    },
                ),
            ))
            &&& !output.success && output.code is None ==> result == Err::<Seq<char>, ErrorView>(
                ErrorView::SandboxInit(about + " failed with exit code "@ + "unknown"@),
            )
            &&& output.success && !readable ==> result == Err::<Seq<char>, ErrorView>(
                ErrorView::SandboxInit(
                    about + " produced non-UTF-8 stdout: "@ + utf8_complaint(output.stdout@),
                ),
            )
        },
{
    text::lemma_trimming_takes_line_ends_only(utf8::decode_utf8(output.stdout@));
}

/// A text that a command printed is a credential and line ends behind it, and a complaint about
/// what it printed is told with the command named.
pub proof fn lemma_printed_text_is_trimmed_at_its_end(
    command: Seq<char>,
    printed: Seq<char>,
    complaint: Seq<char>,
)
    ensures
        credential_in(command, Ok(printed)) matches Ok(value) && {
            &&& value.len() <= printed.len()
            &&& forall|i: int| 0 <= i < value.len() ==> #[trigger] value[i] == printed[i]
            &&& forall|i: int|
                value.len() <= i < printed.len() ==> #[trigger] printed[i] == '\r' || printed[i]
                    == '\n'
            &&& value.len() > 0 ==> value.last() != '\r' && value.last() != '\n'
        },
        credential_in(command, Err(complaint)) == Err::<Seq<char>, ErrorView>(
            ErrorView::SandboxInit(
                "supervisor credential source "@ + "'"@ + command + "'"@
                    + " produced non-UTF-8 stdout: "@ + complaint,
            ),
        ),
{
    text::lemma_trimming_takes_line_ends_only(printed);
}

/// Telling a result keeps its text or its error.
pub proof fn lemma_telling_keeps_the_value(result: Result<String, ProxyError>)
    ensures
        result matches Ok(value) ==> told_value(result) == Ok::<Seq<char>, ErrorView>(value@),
        result matches Err(error) ==> told_value(result) == Err::<Seq<char>, ErrorView>(
            error.deep_view(),
        ),
{
}

} // verus!
