//! Names of the files and directories of a session, and how its launcher is called.
use vstd::prelude::*;
use vstd::string::StringExecFns;

use crate::error;
use crate::error::{ErrorView, ProxyError};
use crate::numerals;

verus! {

/// `rand::random`, for a `u64`: any number may come back, so nothing is stated of it. The call
/// does not return where the system has no randomness to give.
#[verifier::external_body]
fn random_nonce() -> (nonce: u64)
{
    rand::random::<u64>()
}

/// How a file name goes on after its stem.
pub open spec fn extension(suffix: Seq<char>) -> Seq<char> {
    if suffix.len() == 0 {
        seq![]
    } else {
        "."@ + suffix
    }
}

/// The name of a file that the process `pid` makes at the time `now`, counted in nanoseconds.
pub open spec fn runtime_name(
    prefix: Seq<char>,
    pid: u32,
    now: u128,
    nonce: u64,
    suffix: Seq<char>,
) -> Seq<char> {
    prefix + ("-"@ + (numerals::numeral(pid as nat, 10) + ("-"@ + (numerals::numeral(
        now as nat,
        10,
    ) + ("-"@ + (numerals::numeral(nonce as nat, 16) + extension(suffix)))))))
}

/// Names a file that the process `pid` makes at the time `now`.
pub fn name_runtime_file(prefix: &str, pid: u32, now: u128, nonce: u64, suffix: &str) -> (name:
    String)
    ensures
        name@ == runtime_name(prefix@, pid, now, nonce, suffix@),
{
    let mut name = prefix.to_owned();
    let pid_text = numerals::decimal(pid as u128);
    let now_text = numerals::decimal(now);
    let nonce_text = numerals::lower_hex(nonce);
    name.append("-");
    name.append(pid_text.as_str());
    name.append("-");
    name.append(now_text.as_str());
    name.append("-");
    name.append(nonce_text.as_str());
    if suffix.unicode_len() > 0 {
        name.append(".");
        name.append(suffix);
    }
    assert(name@ =~= runtime_name(prefix@, pid, now, nonce, suffix@));
    name
}

/// Names a file as no other is named: the process and the time are in the name, and a random
/// number.
pub fn unique_runtime_name(prefix: &str, pid: u32, now: u128, suffix: &str) -> (name: String)
    ensures
        exists|nonce: u64| name@ == #[trigger] runtime_name(prefix@, pid, now, nonce, suffix@),
{
    let nonce = random_nonce();
    name_runtime_file(prefix, pid, now, nonce, suffix)
}

/// The name of the directory for the certificates that the process `pid` intercepts TLS with,
/// made so many nanoseconds after the full second.
pub open spec fn intercept_dir_name(pid: u32, nanos: u32) -> Seq<char> {
    "intercept-"@ + (numerals::numeral(pid as nat, 10) + ("-"@ + numerals::zero_padded(
        numerals::numeral(nanos as nat, 10),
        9,
    )))
}

/// Names the directory for the certificates that the process `pid` intercepts TLS with, below the
/// home directory and part by part.
pub fn intercept_dir_parts(pid: u32, nanos: u32) -> (parts: Vec<String>)
    ensures
        parts.deep_view() == seq![".nono"@, "sessions"@, intercept_dir_name(pid, nanos)],
{
    let mut name = "intercept-".to_owned();
    let pid_text = numerals::decimal(pid as u128);
    let nanos_text = numerals::padded_decimal(nanos as u128, 9);
    name.append(pid_text.as_str());
    name.append("-");
    name.append(nanos_text.as_str());
    assert(name@ =~= intercept_dir_name(pid, nanos));
    let mut parts: Vec<String> = Vec::new();
    parts.push(".nono".to_owned());
    parts.push("sessions".to_owned());
    parts.push(name);
    assert(parts.deep_view() =~= seq![".nono"@, "sessions"@, intercept_dir_name(pid, nanos)]);
    parts
}

/// What became of the directory for the certificates.
#[derive(Debug, PartialEq, Eq)]
pub enum InterceptDirOutcome {
    /// There is no home directory to put it in.
    NoHome,
    /// It could not be made.
    NotCreated,
    /// It is there, but could not be closed to others.
    NotSecured { cause: String },
    /// It is there, for its owner alone.
    Ready,
}

/// The directory that TLS is intercepted with: none where there is no directory, and never one
/// that others might read.
pub open spec fn usable_dir(dir: Seq<char>, outcome: InterceptDirOutcome) -> Result<
    Option<Seq<char>>,
    ErrorView,
> {
    match outcome {
        InterceptDirOutcome::NoHome => Ok(None),
        InterceptDirOutcome::NotCreated => Ok(None),
        InterceptDirOutcome::NotSecured { cause } => Err(
            error::start_fault(
                error::quoting(
                    "failed to set owner-only permissions on TLS-intercept dir "@,
                    dir,
                    ": "@,
                ),
                cause@,
            ),
        ),
        InterceptDirOutcome::Ready => Ok(Some(dir)),
    }
}

/// Settles whether TLS is intercepted with the directory `dir`.
pub fn settle_intercept_dir(dir: String, outcome: InterceptDirOutcome) -> (usable: Result<
    Option<String>,
    ProxyError,
>)
    ensures
        usable_dir(dir@, outcome) == (match usable {
            Ok(dir) => Ok(dir.deep_view()),
            Err(error) => Err(error.deep_view()),
        }),
{
    match outcome {
        InterceptDirOutcome::NoHome => Ok(None),
        InterceptDirOutcome::NotCreated => Ok(None),
        InterceptDirOutcome::NotSecured { cause } => {
            let before = error::quote(
                "failed to set owner-only permissions on TLS-intercept dir ",
                dir.as_str(),
                ": ",
            );
            Err(error::start_error(before.as_str(), cause.as_str()))
        },
        InterceptDirOutcome::Ready => Ok(Some(dir)),
    }
}

/// The exit status that stands for how a process ended: its own code; else, where a signal ended
/// it, 128 and the signal; else 126.
pub open spec fn status_code(code: Option<i32>, signal: Option<i32>) -> int {
    match (code, signal) {
        (Some(code), _) => code as int,
        (None, Some(signal)) => 128 + signal,
        (None, None) => 126,
    }
}

/// Tells how a process ended in one number.
pub fn exit_status_code(code: Option<i32>, signal: Option<i32>) -> (status: i32)
    requires
        status_code(code, signal) <= i32::MAX,
    ensures
        status == status_code(code, signal),
{
    match code {
        Some(code) => code,
        None => match signal {
            Some(signal) => 128 + signal,
            None => 126,
        },
    }
}

/// The whole environment of the launcher: where its instructions lie, under the name `spec_env`,
/// and the switch for measurements, where it is set.
pub open spec fn launcher_variables<V>(
    spec_env: Seq<char>,
    spec_path: V,
    hotpath: Option<V>,
) -> Seq<(Seq<char>, V)> {
    match hotpath {
        Some(value) => seq![(spec_env, spec_path), ("TOOL_SANDBOX_PROFILE_HOTPATH"@, value)],
        None => seq![(spec_env, spec_path)],
    }
}

/// Puts the environment of the launcher together. Nothing else of the surrounding environment
/// reaches it.
pub fn launcher_env<V>(spec_env: &str, spec_path: V, hotpath: Option<V>) -> (vars: Vec<(String, V)>)
    ensures
        Seq::new(vars@.len(), |i: int| (vars@[i].0@, vars@[i].1)) == launcher_variables(
            spec_env@,
            spec_path,
            hotpath,
        ),
{
    let mut vars: Vec<(String, V)> = Vec::new();
    vars.push((spec_env.to_owned(), spec_path));
    if let Some(value) = hotpath {
        vars.push(("TOOL_SANDBOX_PROFILE_HOTPATH".to_owned(), value));
    }
    assert(Seq::new(vars@.len(), |i: int| (vars@[i].0@, vars@[i].1)) =~= launcher_variables(
        spec_env@,
        spec_path,
        hotpath,
    ));
    vars
}

/// Whether `s` can stand before `stop` without being taken for part of what follows.
spec fn lacks(s: Seq<char>, stop: char) -> bool {
    forall|i: int| 0 <= i < s.len() ==> #[trigger] s[i] != stop
}

spec fn begins_with(s: Seq<char>, stop: char) -> bool {
    s.len() == 0 || s[0] == stop
}

proof fn lemma_split(x: Seq<char>, t: Seq<char>, y: Seq<char>, u: Seq<char>, stop: char)
    requires
        x + t == y + u,
        lacks(x, stop),
        lacks(y, stop),
        begins_with(t, stop),
        begins_with(u, stop),
    ensures
        x == y,
        t == u,
{
    let whole = x + t;
    if x.len() < y.len() {
        assert(whole[x.len() as int] == t[0]);
        assert(whole[x.len() as int] == y[x.len() as int]);
    }
    if y.len() < x.len() {
        assert(whole[y.len() as int] == u[0]);
        assert(whole[y.len() as int] == x[y.len() as int]);
    }
    assert(x =~= whole.take(x.len() as int));
    assert(y =~= whole.take(x.len() as int));
    assert(t =~= whole.skip(x.len() as int));
    assert(u =~= whole.skip(x.len() as int));
}

proof fn lemma_same_start(start: Seq<char>, t: Seq<char>, u: Seq<char>)
    requires
        start + t == start + u,
    ensures
        t == u,
{
    assert(t =~= (start + t).skip(start.len() as int));
    assert(u =~= (start + u).skip(start.len() as int));
}

proof fn lemma_numeral_lacks(n: nat, base: nat)
    requires
        2 <= base <= 16,
    ensures
        lacks(numerals::numeral(n, base), '-'),
        lacks(numerals::numeral(n, base), '.'),
{
    numerals::lemma_numeral_value(n, base);
    let s = numerals::numeral(n, base);
    assert forall|i: int| 0 <= i < s.len() implies #[trigger] s[i] != '-' && s[i] != '.' by {
        assert(('0' <= s[i] <= '9') || ('a' <= s[i] <= 'f'));
    }
}

/// Two files of one kind have the same name only where the process, the time, the random number
/// and the extension are the same.
pub proof fn lemma_runtime_names_differ(
    prefix: Seq<char>,
    a: (u32, u128, u64, Seq<char>),
    b: (u32, u128, u64, Seq<char>),
)
    ensures
        runtime_name(prefix, a.0, a.1, a.2, a.3) == runtime_name(prefix, b.0, b.1, b.2, b.3) <==> a
            == b,
{
    if runtime_name(prefix, a.0, a.1, a.2, a.3) == runtime_name(prefix, b.0, b.1, b.2, b.3) {
        reveal_strlit("-");
        reveal_strlit(".");
        let a_pid = numerals::numeral(a.0 as nat, 10);
        let b_pid = numerals::numeral(b.0 as nat, 10);
        let a_now = numerals::numeral(a.1 as nat, 10);
        let b_now = numerals::numeral(b.1 as nat, 10);
        let a_nonce = numerals::numeral(a.2 as nat, 16);
        let b_nonce = numerals::numeral(b.2 as nat, 16);
        lemma_numeral_lacks(a.0 as nat, 10);
        lemma_numeral_lacks(b.0 as nat, 10);
        lemma_numeral_lacks(a.1 as nat, 10);
        lemma_numeral_lacks(b.1 as nat, 10);
        lemma_numeral_lacks(a.2 as nat, 16);
        lemma_numeral_lacks(b.2 as nat, 16);
        let a_last = a_nonce + extension(a.3);
        let b_last = b_nonce + extension(b.3);
        let a_rest = a_now + ("-"@ + a_last);
        let b_rest = b_now + ("-"@ + b_last);
        let a_tail = a_pid + ("-"@ + a_rest);
        let b_tail = b_pid + ("-"@ + b_rest);
        lemma_same_start(prefix, "-"@ + a_tail, "-"@ + b_tail);
        lemma_same_start("-"@, a_tail, b_tail);
        lemma_split(a_pid, "-"@ + a_rest, b_pid, "-"@ + b_rest, '-');
        lemma_same_start("-"@, a_rest, b_rest);
        lemma_split(a_now, "-"@ + a_last, b_now, "-"@ + b_last, '-');
        lemma_same_start("-"@, a_last, b_last);
        lemma_split(a_nonce, extension(a.3), b_nonce, extension(b.3), '.');
        numerals::lemma_numeral_injective(a.0 as nat, b.0 as nat, 10);
        numerals::lemma_numeral_injective(a.1 as nat, b.1 as nat, 10);
        numerals::lemma_numeral_injective(a.2 as nat, b.2 as nat, 16);
        assert(a.3 == b.3) by {
            if a.3.len() == 0 {
                assert(b.3.len() == 0) by {
                    assert(extension(a.3).len() == 0);
                }
                assert(a.3 =~= b.3);
            } else {
                assert(extension(a.3).len() > 0);
                lemma_same_start("."@, a.3, b.3);
            }
        }
    }
}

/// Two processes do not share a directory for certificates, nor does one process use the same
/// twice, unless it asks at the same nanosecond of a second.
pub proof fn lemma_intercept_dirs_differ(a: (u32, u32), b: (u32, u32))
    ensures
        intercept_dir_name(a.0, a.1) == intercept_dir_name(b.0, b.1) <==> a == b,
{
    if intercept_dir_name(a.0, a.1) == intercept_dir_name(b.0, b.1) {
        reveal_strlit("-");
        let a_pid = numerals::numeral(a.0 as nat, 10);
        let b_pid = numerals::numeral(b.0 as nat, 10);
        let a_nanos = numerals::zero_padded(numerals::numeral(a.1 as nat, 10), 9);
        let b_nanos = numerals::zero_padded(numerals::numeral(b.1 as nat, 10), 9);
        lemma_numeral_lacks(a.0 as nat, 10);
        lemma_numeral_lacks(b.0 as nat, 10);
        lemma_same_start("intercept-"@, a_pid + ("-"@ + a_nanos), b_pid + ("-"@ + b_nanos));
        lemma_split(a_pid, "-"@ + a_nanos, b_pid, "-"@ + b_nanos, '-');
        lemma_same_start("-"@, a_nanos, b_nanos);
        numerals::lemma_numeral_injective(a.0 as nat, b.0 as nat, 10);
        numerals::lemma_padded_injective(a.1 as nat, b.1 as nat, 10, 9);
    }
}

/// TLS is never intercepted with a directory that could not be closed to others.
pub proof fn lemma_unsecured_dirs_are_not_used(dir: Seq<char>, outcome: InterceptDirOutcome)
    ensures
        usable_dir(dir, outcome) matches Ok(Some(used)) ==> outcome is Ready && used == dir,
        outcome is NotSecured ==> usable_dir(dir, outcome) is Err,
{
}

/// A file's name is its kind, the process, the time and the random number, in decimal and the last
/// in hexadecimal, with a dash before each, and an extension behind a dot where there is one.
pub proof fn lemma_runtime_name_is_spelled_out(
    prefix: Seq<char>,
    pid: u32,
    now: u128,
    nonce: u64,
    suffix: Seq<char>,
)
    ensures
        suffix.len() == 0 ==> runtime_name(prefix, pid, now, nonce, suffix) == prefix + seq!['-']
            + numerals::numeral(pid as nat, 10) + seq!['-'] + numerals::numeral(now as nat, 10)
            + seq!['-'] + numerals::numeral(nonce as nat, 16),
        suffix.len() > 0 ==> runtime_name(prefix, pid, now, nonce, suffix) == prefix + seq!['-']
            + numerals::numeral(pid as nat, 10) + seq!['-'] + numerals::numeral(now as nat, 10)
            + seq!['-'] + numerals::numeral(nonce as nat, 16) + seq!['.'] + suffix,
{
    reveal_strlit("-");
    reveal_strlit(".");
    assert("-"@ =~= seq!['-']);
    assert("."@ =~= seq!['.']);
    let short = prefix + seq!['-'] + numerals::numeral(pid as nat, 10) + seq!['-']
        + numerals::numeral(now as nat, 10) + seq!['-'] + numerals::numeral(nonce as nat, 16);
    if suffix.len() == 0 {
        assert(runtime_name(prefix, pid, now, nonce, suffix) =~= short);
    } else {
        assert(runtime_name(prefix, pid, now, nonce, suffix) =~= short + seq!['.'] + suffix);
    }
}

/// A directory for certificates is named after the process and the nanoseconds, the latter in as
/// many digits as nanoseconds of a second can have.
pub proof fn lemma_intercept_dir_name_is_spelled_out(pid: u32, nanos: u32)
    ensures
        ({
            let name = intercept_dir_name(pid, nanos);
            let start = "intercept-"@ + numerals::numeral(pid as nat, 10) + seq!['-'];
            let digits = numerals::numeral(nanos as nat, 10);
            &&& name.take(start.len() as int) == start
            &&& name.len() == start.len() + if digits.len() < 9 {
                9
            } else {
                digits.len()
            }
            &&& name.skip(name.len() - digits.len()) == digits
            &&& forall|i: int|
                start.len() <= i < name.len() - digits.len() ==> #[trigger] name[i] == '0'
        }),
{
    reveal_strlit("-");
    assert("-"@ =~= seq!['-']);
    let name = intercept_dir_name(pid, nanos);
    let start = "intercept-"@ + numerals::numeral(pid as nat, 10) + seq!['-'];
    let digits = numerals::numeral(nanos as nat, 10);
    let padded = numerals::zero_padded(digits, 9);
    numerals::lemma_padding_only_adds_zeros(digits, 9);
    assert(name =~= start + padded);
    assert(name.take(start.len() as int) =~= start);
    assert(name.skip(name.len() - digits.len()) =~= padded.skip(padded.len() - digits.len()));
}

/// Without a home directory, and where the directory cannot be made, TLS is not intercepted and
/// nothing fails; one that cannot be closed to others fails everything, with the reason; and one
/// that is ready is used.
pub proof fn lemma_directories_are_used_as_they_came_out(
    dir: Seq<char>,
    outcome: InterceptDirOutcome,
)
    ensures
        outcome is NoHome || outcome is NotCreated ==> usable_dir(dir, outcome) == Ok::<
            Option<Seq<char>>,
            ErrorView,
        >(None),
        outcome is Ready ==> usable_dir(dir, outcome) == Ok::<Option<Seq<char>>, ErrorView>(
            Some(dir),
        ),
        outcome matches InterceptDirOutcome::NotSecured { cause } ==> usable_dir(dir, outcome)
            == Err::<Option<Seq<char>>, ErrorView>(
            ErrorView::SandboxInit(
                "failed to set owner-only permissions on TLS-intercept dir "@ + "'"@ + dir + "'"@
                    + ": "@ + cause@,
            ),
        ),
{
}

/// A process that exited stands for its own code, whatever signal there is beside it; one that a
/// signal ended for 128 and the signal; and one of which neither is known for 126.
pub proof fn lemma_exit_status_is_code_then_signal(code: i32, signal: Option<i32>, ended_by: i32)
    ensures
        status_code(Some(code), signal) == code,
        status_code(None, Some(ended_by)) == 128 + ended_by,
        status_code(None, None) == 126,
{
}

/// The launcher finds its instructions under the name it is given, and the switch for measurements
/// behind that where it is set; it gets nothing else.
pub proof fn lemma_launcher_gets_nothing_else<V>(
    spec_env: Seq<char>,
    spec_path: V,
    hotpath: Option<V>,
)
    ensures
        ({
            let vars = launcher_variables(spec_env, spec_path, hotpath);
            &&& vars.len() == if hotpath is Some {
                2int
            } else {
                1
            }
            &&& vars[0] == (spec_env, spec_path)
            &&& hotpath matches Some(value) ==> vars[1] == (
                "TOOL_SANDBOX_PROFILE_HOTPATH"@,
                value,
            )
        }),
{
}

} // verus!
