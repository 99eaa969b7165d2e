//! Errors, each tagged with its kind and with the node it arose on.

use vstd::prelude::*;

verus! {

/// The four ways a request can fail.
#[derive(Clone, Copy, Debug, PartialEq, Eq, Structural)]
pub enum ErrorKind {
    /// A node was unreachable, reset the connection or timed out.
    Transport,
    /// A document was malformed or did not follow the schema.
    Serialization,
    /// A driver could not act on the hardware.
    Driver,
    /// The node's own identity could not be established.
    Identity,
}

/// A failure, with the node (and, where one is involved, the device) that it
/// arose on.
#[derive(Debug, PartialEq, Eq)]
pub struct Error {
    pub kind: ErrorKind,
    pub node: String,
    pub device: Option<String>,
    pub detail: String,
}

/// The mathematical content of an [`Error`].
pub struct ErrorView {
    pub kind: ErrorKind,
    pub node: Seq<char>,
    pub device: Option<Seq<char>>,
    pub detail: Seq<char>,
}

impl View for Error {
    type V = ErrorView;

    open spec fn view(&self) -> ErrorView {
        ErrorView {
            kind: self.kind,
            node: self.node@,
            device: match self.device {
                Some(id) => Some(id@),
                None => None,
            },
            detail: self.detail@,
        }
    }
}

/// What went wrong on one hop of a propagation, as the transport reports it.
#[derive(Debug, PartialEq, Eq)]
pub struct Fault {
    pub kind: ErrorKind,
    pub detail: String,
}

/// The mathematical content of a [`Fault`].
pub struct FaultView {
    pub kind: ErrorKind,
    pub detail: Seq<char>,
}

impl View for Fault {
    type V = FaultView;

    open spec fn view(&self) -> FaultView {
        FaultView { kind: self.kind, detail: self.detail@ }
    }
}

} // verus!
