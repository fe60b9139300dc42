use vstd::prelude::*;
use vstd::string::*;

verus! {

/// Why a provider refused a request.
#[derive(Debug, Clone, PartialEq)]
pub enum ProviderError {
    /// No response is queued for the program a command request names.
    NoResponse { program: String },
    /// A read asked for a path that holds no file.
    FileNotFound { path: String },
    /// The language model mock has no queued response left.
    LlmExhausted,
    /// A provider that must never be called was called.
    NeverInvoked { message: String },
}

/// A `ProviderError` with its text fields seen as character sequences.
pub enum ErrorView {
    NoResponse(Seq<char>),
    FileNotFound(Seq<char>),
    LlmExhausted,
    NeverInvoked(Seq<char>),
}

impl View for ProviderError {
    type V = ErrorView;

    open spec fn view(&self) -> ErrorView {
        match self {
            ProviderError::NoResponse { program } => ErrorView::NoResponse(program@),
            ProviderError::FileNotFound { path } => ErrorView::FileNotFound(path@),
            ProviderError::LlmExhausted => ErrorView::LlmExhausted,
            ProviderError::NeverInvoked { message } => ErrorView::NeverInvoked(message@),
        }
    }
}

/// The text of an error, as users of the providers see it.
pub open spec fn error_text(e: ErrorView) -> Seq<char> {
    match e {
        ErrorView::NoResponse(program) => "MockCommand: no response configured for '"@ + program
            + "'"@,
        ErrorView::FileNotFound(path) => "file not found: "@ + path,
        ErrorView::LlmExhausted => "MockLlm exhausted"@,
        ErrorView::NeverInvoked(message) => "NeverMock invoked: "@ + message,
    }
}

impl ProviderError {
    /// The human-readable message of this error.
    pub fn message(&self) -> (text: String)
        ensures
            text@ == error_text(self@),
    {
        match self {
            ProviderError::NoResponse { program } => {
                let mut text = String::from_str("MockCommand: no response configured for '");
                text.append(program.as_str());
                text.append("'");
                text
            },
            ProviderError::FileNotFound { path } => {
                let mut text = String::from_str("file not found: ");
                text.append(path.as_str());
                text
            },
            ProviderError::LlmExhausted => String::from_str("MockLlm exhausted"),
            ProviderError::NeverInvoked { message } => {
                let mut text = String::from_str("NeverMock invoked: ");
                text.append(message.as_str());
                text
            },
        }
    }
}

/// The view of a provider's answer: the value's view on success, the error's view on failure.
pub open spec fn answer_view<T: View>(r: Result<T, ProviderError>) -> Result<T::V, ErrorView> {
    match r {
        Ok(v) => Ok(v@),
        Err(e) => Err(e@),
    }
}

/// Each message ends with what it is about: the program, in quotes, of a missing response,
/// the path of a missing file, the message of a provider that must not be called.
pub proof fn law_messages_name_their_subject(subject: Seq<char>)
    ensures
        ({
            let t = error_text(ErrorView::NoResponse(subject));
            t.subrange(t.len() - subject.len() - 1, t.len() - 1) == subject
        }),
        ({
            let t = error_text(ErrorView::FileNotFound(subject));
            t.subrange(t.len() - subject.len(), t.len() as int) == subject
        }),
        ({
            let t = error_text(ErrorView::NeverInvoked(subject));
            t.subrange(t.len() - subject.len(), t.len() as int) == subject
        }),
{
    reveal_strlit("'");
    let a = error_text(ErrorView::NoResponse(subject));
    assert(a.subrange(a.len() - subject.len() - 1, a.len() - 1) =~= subject);
    let b = error_text(ErrorView::FileNotFound(subject));
    assert(b.subrange(b.len() - subject.len(), b.len() as int) =~= subject);
    let c = error_text(ErrorView::NeverInvoked(subject));
    assert(c.subrange(c.len() - subject.len(), c.len() as int) =~= subject);
}

} // verus!
