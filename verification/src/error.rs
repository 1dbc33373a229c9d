//! What can go wrong, in words.
use vstd::prelude::*;
use vstd::string::StringExecFns;

verus! {

/// Why a proxy could not be set up.
#[derive(Debug, Clone, PartialEq, Eq)]
pub enum ProxyError {
    /// The configuration contradicts itself or lacks something.
    ConfigParse(String),
    /// The machine did not do what starting the sandbox needs.
    SandboxInit(String),
    /// A service of the host refused; the text is its own.
    Host(String),
}

/// What a `ProxyError` says.
#[verifier::ext_equal]
pub enum ErrorView {
    ConfigParse(Seq<char>),
    SandboxInit(Seq<char>),
    Host(Seq<char>),
}

impl ErrorView {
    /// The text, whichever kind of error it belongs to.
    pub open spec fn text(self) -> Seq<char> {
        match self {
            ErrorView::ConfigParse(text) => text,
            ErrorView::SandboxInit(text) => text,
            ErrorView::Host(text) => text,
        }
    }
}

impl DeepView for ProxyError {
    type V = ErrorView;

    open spec fn deep_view(&self) -> ErrorView {
        match self {
            ProxyError::ConfigParse(text) => ErrorView::ConfigParse(text@),
            ProxyError::SandboxInit(text) => ErrorView::SandboxInit(text@),
            ProxyError::Host(text) => ErrorView::Host(text@),
        }
    }
}

impl ProxyError {
    /// The text of the error.
    pub fn message(&self) -> (text: &String)
        ensures
            text@ == self.deep_view().text(),
    {
        match self {
            ProxyError::ConfigParse(text) => text,
            ProxyError::SandboxInit(text) => text,
            ProxyError::Host(text) => text,
        }
    }
}

/// `before`, then `name` between single quotes, then `after`.
pub open spec fn quoting(before: Seq<char>, name: Seq<char>, after: Seq<char>) -> Seq<char> {
    before + "'"@ + name + "'"@ + after
}

/// Writes `name` between single quotes into the middle of a sentence.
pub fn quote(before: &str, name: &str, after: &str) -> (text: String)
    ensures
        text@ == quoting(before@, name@, after@),
{
    let mut text = before.to_owned();
    text.append("'");
    text.append(name);
    text.append("'");
    text.append(after);
    text
}

/// The configuration error about the tool-sandbox proxy credential `name` that ends in `complaint`.
pub open spec fn credential_fault(name: Seq<char>, complaint: Seq<char>) -> ErrorView {
    ErrorView::ConfigParse(quoting("tool-sandbox proxy credential "@, name, complaint))
}

/// Reports a configuration error about the tool-sandbox proxy credential `name`.
pub fn credential_error(name: &str, complaint: &str) -> (error: ProxyError)
    ensures
        error.deep_view() == credential_fault(name@, complaint@),
{
    ProxyError::ConfigParse(quote("tool-sandbox proxy credential ", name, complaint))
}

/// The error that something did not start, told by `before` and then by the cause.
pub open spec fn start_fault(before: Seq<char>, cause: Seq<char>) -> ErrorView {
    ErrorView::SandboxInit(before + cause)
}

/// Reports that something did not start.
pub fn start_error(before: &str, cause: &str) -> (error: ProxyError)
    ensures
        error.deep_view() == start_fault(before@, cause@),
{
    let mut text = before.to_owned();
    text.append(cause);
    ProxyError::SandboxInit(text)
}

/// A quoting sentence is its beginning, a quote, the name, a quote, and its end; an error about a
/// credential names it so after the fixed words; and an error's text is the text it was made of.
pub proof fn lemma_errors_say_what_they_quote(before: Seq<char>, name: Seq<char>, after: Seq<char>)
    ensures
        quoting(before, name, after) == before + seq!['\''] + name + seq!['\''] + after,
        credential_fault(name, after) == ErrorView::ConfigParse(
            "tool-sandbox proxy credential "@ + seq!['\''] + name + seq!['\''] + after,
        ),
        start_fault(before, after) == ErrorView::SandboxInit(before + after),
        ErrorView::ConfigParse(name).text() == name,
        ErrorView::SandboxInit(name).text() == name,
        ErrorView::Host(name).text() == name,
{
    reveal_strlit("'");
    assert("'"@ =~= seq!['\'']);
}

} // verus!
