//! What can go wrong when a message is read, and why a broadcast step failed.

use b64::FromBase64Error;
use backtrace::Backtrace;
use vstd::prelude::*;

verus! {

/// A captured call stack. Nothing is known of its contents.
#[verifier::external_type_specification]
#[verifier::external_body]
pub struct ExBacktrace(backtrace::Backtrace);

/// The error that `b64` reports for a text that is not base64. Nothing is known of its
/// contents.
#[verifier::external_type_specification]
#[verifier::external_body]
pub struct ExFromBase64Error(b64::FromBase64Error);

/// Captures the current call stack with `backtrace::Backtrace::new`. The stack depends on
/// where and when the call is made, so nothing is claimed of the result.
#[verifier::external_body]
fn capture_stack() -> Backtrace {
    Backtrace::new()
}

/// Why bytes are not a message in the binary layout.
#[derive(Debug, Clone, Copy, PartialEq, Eq, Structural)]
pub enum LayoutError {
    /// The bytes end before the message does.
    UnexpectedEnd,
    /// The tag names none of the message kinds.
    UnknownVariant(u32),
}

/// Why a text is not a message, without the diagnostics.
pub enum TextFault {
    /// The text is not base64.
    NotBase64,
    /// The text is base64, but the bytes it stands for are not a message.
    Layout(LayoutError),
}

/// Why a message could not be read.
#[derive(Debug)]
pub enum EncodingErrorKind {
    /// The bytes do not follow the binary layout.
    Bincode(LayoutError),
    /// The text is not base64.
    Base64(FromBase64Error),
}

impl EncodingErrorKind {
    /// The fault that this kind reports.
    pub open spec fn fault(&self) -> TextFault {
        match self {
            EncodingErrorKind::Bincode(e) => TextFault::Layout(*e),
            EncodingErrorKind::Base64(_) => TextFault::NotBase64,
        }
    }
}

/// A failure to read a message, with the call stack at the point of failure.
#[derive(Debug)]
pub struct EncodingError {
    kind: EncodingErrorKind,
    stack: Backtrace,
}

impl EncodingError {
    /// The fault that this error reports.
    pub closed spec fn fault(&self) -> TextFault {
        self.kind.fault()
    }

    /// The call stack that this error holds.
    pub closed spec fn captured(&self) -> Backtrace {
        self.stack
    }

    fn new(kind: EncodingErrorKind) -> (error: EncodingError)
        ensures
            error.fault() == kind.fault(),
    {
        EncodingError { kind, stack: capture_stack() }
    }

    /// What went wrong.
    pub fn kind(&self) -> (kind: &EncodingErrorKind)
        ensures
            kind.fault() == self.fault(),
    {
        &self.kind
    }

    /// The call stack at the point of failure.
    pub fn stack(&self) -> (stack: &Backtrace)
        ensures
            *stack == self.captured(),
    {
        &self.stack
    }
}

/// Why a message did not reach a connection, without the diagnostics.
pub enum BroadcastFault {
    /// The message could not be put into the binary layout.
    Layout(LayoutError),
    /// The transport did not take the frame, and gave this account of it.
    Transport(Seq<char>),
}

/// Why a message did not reach a connection.
#[derive(Debug)]
pub enum BroadcastErrorKind {
    /// The message could not be put into the binary layout.
    Bincode(LayoutError),
    /// The transport did not take the frame. The text is the transport's own account.
    Warp(String),
}

impl BroadcastErrorKind {
    /// The fault that this kind reports.
    pub open spec fn fault(&self) -> BroadcastFault {
        match self {
            BroadcastErrorKind::Bincode(e) => BroadcastFault::Layout(*e),
            BroadcastErrorKind::Warp(account) => BroadcastFault::Transport(account@),
        }
    }
}

/// A failure to pass a message on, with the call stack at the point of failure.
#[derive(Debug)]
pub struct BroadcastError {
    kind: BroadcastErrorKind,
    stack: Backtrace,
}

impl BroadcastError {
    /// The fault that this error reports.
    pub closed spec fn fault(&self) -> BroadcastFault {
        self.kind.fault()
    }

    /// The call stack that this error holds.
    pub closed spec fn captured(&self) -> Backtrace {
        self.stack
    }

    fn new(kind: BroadcastErrorKind) -> (error: BroadcastError)
        ensures
            error.fault() == kind.fault(),
    {
        BroadcastError { kind, stack: capture_stack() }
    }

    /// An error for a frame that the transport did not take.
    pub fn from_transport(account: String) -> (wrapped: BroadcastError)
        ensures
            wrapped.fault() == BroadcastFault::Transport(account@),
    {
        BroadcastError::new(BroadcastErrorKind::Warp(account))
    }

    /// What went wrong.
    pub fn kind(&self) -> (kind: &BroadcastErrorKind)
        ensures
            kind.fault() == self.fault(),
    {
        &self.kind
    }

    /// The call stack at the point of failure.
    pub fn stack(&self) -> (stack: &Backtrace)
        ensures
            *stack == self.captured(),
    {
        &self.stack
    }
}

impl From<LayoutError> for EncodingError {
    /// An error for bytes that do not follow the binary layout.
    fn from(error: LayoutError) -> (wrapped: EncodingError)
        ensures
            wrapped.fault() == TextFault::Layout(error),
    {
        EncodingError::new(EncodingErrorKind::Bincode(error))
    }
}

impl vstd::std_specs::convert::FromSpecImpl<LayoutError> for EncodingError {
    open spec fn obeys_from_spec() -> bool {
        false
    }

    open spec fn from_spec(error: LayoutError) -> EncodingError {
        arbitrary()
    }
}

impl From<FromBase64Error> for EncodingError {
    /// An error for a text that is not base64.
    fn from(error: FromBase64Error) -> (wrapped: EncodingError)
        ensures
            wrapped.fault() == TextFault::NotBase64,
    {
        EncodingError::new(EncodingErrorKind::Base64(error))
    }
}

impl vstd::std_specs::convert::FromSpecImpl<FromBase64Error> for EncodingError {
    open spec fn obeys_from_spec() -> bool {
        false
    }

    open spec fn from_spec(error: FromBase64Error) -> EncodingError {
        arbitrary()
    }
}

impl From<LayoutError> for BroadcastError {
    /// An error for a message that could not be put into the binary layout.
    fn from(error: LayoutError) -> (wrapped: BroadcastError)
        ensures
            wrapped.fault() == BroadcastFault::Layout(error),
    {
        BroadcastError::new(BroadcastErrorKind::Bincode(error))
    }
}

impl vstd::std_specs::convert::FromSpecImpl<LayoutError> for BroadcastError {
    open spec fn obeys_from_spec() -> bool {
        false
    }

    open spec fn from_spec(error: LayoutError) -> BroadcastError {
        arbitrary()
    }
}

} // verus!
