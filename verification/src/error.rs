//! Errors of the dictation pipeline.

use vstd::prelude::*;

verus! {

/// What went wrong, as the application state reports it to the user.
#[derive(Debug, PartialEq, Eq)]
pub enum ErrorKind {
    /// The audio device could not be opened.
    NoMicrophone,
    /// The whisper model file was not found.
    ModelMissing,
    /// Loading the model or running it failed.
    WhisperFailed(String),
    /// The global-shortcut session was dismissed or revoked.
    PortalRevoked,
    /// The keystroke injector or its daemon is unavailable.
    YdotoolMissing,
    /// The refiner could not be reached.
    NetworkError(String),
}

impl Clone for ErrorKind {
    fn clone(&self) -> (copy: Self)
        ensures
            copy == *self,
    {
        match self {
            ErrorKind::NoMicrophone => ErrorKind::NoMicrophone,
            ErrorKind::ModelMissing => ErrorKind::ModelMissing,
            ErrorKind::WhisperFailed(text) => ErrorKind::WhisperFailed(text.clone()),
            ErrorKind::PortalRevoked => ErrorKind::PortalRevoked,
            ErrorKind::YdotoolMissing => ErrorKind::YdotoolMissing,
            ErrorKind::NetworkError(text) => ErrorKind::NetworkError(text.clone()),
        }
    }
}

/// An error returned by the pipeline, with its message.
#[derive(Debug, PartialEq, Eq)]
pub enum AppError {
    NoMicrophone(String),
    Config(String),
    WhisperFailed(String),
    ModelMissing { path: String },
}

/// The content of an [`AppError`], with strings as character sequences.
pub enum AppErrorView {
    NoMicrophone(Seq<char>),
    Config(Seq<char>),
    WhisperFailed(Seq<char>),
    ModelMissing { path: Seq<char> },
}

impl View for AppError {
    type V = AppErrorView;

    open spec fn view(&self) -> AppErrorView {
        match self {
            AppError::NoMicrophone(message) => AppErrorView::NoMicrophone(message@),
            AppError::Config(message) => AppErrorView::Config(message@),
            AppError::WhisperFailed(message) => AppErrorView::WhisperFailed(message@),
            AppError::ModelMissing { path } => AppErrorView::ModelMissing { path: path@ },
        }
    }
}

/// Result of a fallible pipeline operation.
pub type AppResult<T> = Result<T, AppError>;

/// A message made of a fixed `context` followed by the cause.
pub fn message(context: &str, cause: &str) -> (text: String)
    ensures
        text@ == context@ + cause@,
{
    let mut text = context.to_owned();
    text.append(cause);
    text
}

/// The content of an error is its kind and its text as they are.
pub proof fn law_error_content(error: AppError)
    ensures
        error matches AppError::NoMicrophone(text) ==> error@ == AppErrorView::NoMicrophone(text@),
        error matches AppError::Config(text) ==> error@ == AppErrorView::Config(text@),
        error matches AppError::WhisperFailed(text) ==> error@ == AppErrorView::WhisperFailed(
            text@,
        ),
        error matches AppError::ModelMissing { path } ==> error@ == (AppErrorView::ModelMissing {
            path: path@,
        }),
{
}

} // verus!
