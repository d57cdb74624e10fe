//! How the Python and Node.js bindings report each `KrenError` to their
//! callers: which exception class, and which status.
use vstd::prelude::*;

use crate::error::KrenError;

verus! {

/// The Python exception class that an error is raised as.
#[derive(Debug, Clone, Copy, PartialEq, Eq, Structural)]
pub enum PyErrorKind {
    /// `IOError`: the channel could not take or give a message now.
    IoError,
    /// `ValueError`: the caller passed an argument the channel refuses.
    ValueError,
    /// `RuntimeError`: the segment or the platform failed.
    RuntimeError,
}

/// The Node.js status that an error is thrown with.
#[derive(Debug, Clone, Copy, PartialEq, Eq, Structural)]
pub enum NodeErrorStatus {
    GenericFailure,
    InvalidArg,
}

/// Whether an error comes from an argument the caller chose: a message too
/// large for the ring, or a capacity the channel refuses.
pub open spec fn is_argument_error(err: KrenError) -> bool {
    err is DataTooLarge || err is InvalidCapacity
}

/// The Python exception class of an error.
pub open spec fn python_kind(err: KrenError) -> PyErrorKind {
    match err {
        KrenError::BufferFull { .. } | KrenError::BufferEmpty | KrenError::ChannelClosed => {
            PyErrorKind::IoError
        },
        KrenError::DataTooLarge { .. } | KrenError::InvalidCapacity(_) => PyErrorKind::ValueError,
        _ => PyErrorKind::RuntimeError,
    }
}

/// The Node.js status of an error.
pub open spec fn node_status(err: KrenError) -> NodeErrorStatus {
    if is_argument_error(err) {
        NodeErrorStatus::InvalidArg
    } else {
        NodeErrorStatus::GenericFailure
    }
}

/// The Python exception class an error is raised as.
pub fn python_error_kind(err: &KrenError) -> (k: PyErrorKind)
    ensures
        k == python_kind(*err),
{
    match err {
        KrenError::BufferFull { .. } => PyErrorKind::IoError,
        KrenError::BufferEmpty => PyErrorKind::IoError,
        KrenError::DataTooLarge { .. } => PyErrorKind::ValueError,
        KrenError::InvalidCapacity(_) => PyErrorKind::ValueError,
        KrenError::InvalidMagic => PyErrorKind::RuntimeError,
        KrenError::VersionMismatch { .. } => PyErrorKind::RuntimeError,
        KrenError::ChannelClosed => PyErrorKind::IoError,
        _ => PyErrorKind::RuntimeError,
    }
}

/// The Node.js status an error is thrown with.
pub fn node_error_status(err: &KrenError) -> (s: NodeErrorStatus)
    ensures
        s == node_status(*err),
{
    match err {
        KrenError::BufferFull { .. } => NodeErrorStatus::GenericFailure,
        KrenError::BufferEmpty => NodeErrorStatus::GenericFailure,
        KrenError::DataTooLarge { .. } => NodeErrorStatus::InvalidArg,
        KrenError::InvalidCapacity(_) => NodeErrorStatus::InvalidArg,
        KrenError::InvalidMagic => NodeErrorStatus::GenericFailure,
        KrenError::VersionMismatch { .. } => NodeErrorStatus::GenericFailure,
        KrenError::ChannelClosed => NodeErrorStatus::GenericFailure,
        _ => NodeErrorStatus::GenericFailure,
    }
}

/// Both bindings single out the same errors as the caller's: Python raises
/// exactly those as `ValueError`, Node.js throws exactly those as `InvalidArg`.
pub proof fn lemma_bindings_agree_on_argument_errors(err: KrenError)
    ensures
        (python_kind(err) == PyErrorKind::ValueError) == is_argument_error(err),
        (node_status(err) == NodeErrorStatus::InvalidArg) == is_argument_error(err),
{
}


/// Python raises `IOError` for a full or empty buffer and a closed channel,
/// `ValueError` for a message too large or a refused capacity, and
/// `RuntimeError` for everything else; Node.js throws `InvalidArg` for the
/// same two caller errors and `GenericFailure` for everything else.
pub proof fn lemma_binding_classes(err: KrenError)
    ensures
        (python_kind(err) == PyErrorKind::IoError) <==> (err is BufferFull || err is BufferEmpty
            || err is ChannelClosed),
        (python_kind(err) == PyErrorKind::ValueError) <==> (err is DataTooLarge
            || err is InvalidCapacity),
        (python_kind(err) == PyErrorKind::RuntimeError) <==> (err is CreateFailed
            || err is OpenFailed || err is MapFailed || err is InvalidMagic || err is VersionMismatch
            || err is Platform),
        (node_status(err) == NodeErrorStatus::InvalidArg) <==> (err is DataTooLarge
            || err is InvalidCapacity),
{
}

} // verus!
