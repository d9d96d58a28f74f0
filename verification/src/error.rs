//! The errors of the coordinator.

use vstd::prelude::*;
use vstd::string::*;

verus! {

/// What a coordinator operation fails with.
#[derive(Clone, Debug)]
pub enum ClusterError {
    /// Consul could not be reached, or refused the request.
    BackendUnavailable { reason: String },
    /// Consul answered with something that the coordinator cannot use.
    Internal { reason: String },
    /// The lease is gone.
    LeaseExpired,
    /// The caller named something that cannot be named so.
    InvalidReference { message: String },
}

/// A [`ClusterError`] in the model: its kind and the characters of its text.
pub enum Fault {
    BackendUnavailable(Seq<char>),
    Internal(Seq<char>),
    LeaseExpired,
    InvalidReference(Seq<char>),
}

impl View for ClusterError {
    type V = Fault;

    open spec fn view(&self) -> Fault {
        match self {
            ClusterError::BackendUnavailable { reason } => Fault::BackendUnavailable(reason@),
            ClusterError::Internal { reason } => Fault::Internal(reason@),
            ClusterError::LeaseExpired => Fault::LeaseExpired,
            ClusterError::InvalidReference { message } => Fault::InvalidReference(message@),
        }
    }
}

/// A result with its error taken to the model.
pub open spec fn outcome<T>(r: Result<T, ClusterError>) -> Result<T, Fault> {
    match r {
        Ok(v) => Ok(v),
        Err(e) => Err(e@),
    }
}

/// The text `label` followed by `detail`.
pub(crate) fn labelled(label: &str, detail: &str) -> (r: String)
    ensures
        r@ == label@ + detail@,
{
    let mut text = label.to_owned();
    text.append(detail);
    text
}

pub(crate) fn unavailable(label: &str, detail: &str) -> (e: ClusterError)
    ensures
        e@ == Fault::BackendUnavailable(label@ + detail@),
{
    ClusterError::BackendUnavailable { reason: labelled(label, detail) }
}

pub(crate) fn internal(label: &str, detail: &str) -> (e: ClusterError)
    ensures
        e@ == Fault::Internal(label@ + detail@),
{
    ClusterError::Internal { reason: labelled(label, detail) }
}

/// The model of an error keeps its kind and its text.
pub proof fn faults_keep_kind_and_text(text: String)
    ensures
        (ClusterError::BackendUnavailable { reason: text })@ == Fault::BackendUnavailable(text@),
        (ClusterError::Internal { reason: text })@ == Fault::Internal(text@),
        ClusterError::LeaseExpired@ == Fault::LeaseExpired,
        (ClusterError::InvalidReference { message: text })@ == Fault::InvalidReference(text@),
{
}

/// Taking a result to the model keeps whether it succeeded, and with what.
pub proof fn outcomes_keep_the_result<T>(value: T, error: ClusterError)
    ensures
        outcome(Ok::<T, ClusterError>(value)) == Ok::<T, Fault>(value),
        outcome(Err::<T, ClusterError>(error)) == Err::<T, Fault>(error@),
{
}

} // verus!
