//! What a client on the bus is told when a call fails.

use vstd::prelude::*;
use crate::sensor::SensorError;
use crate::storage::StorageError;

verus! {

/// A failed call. The variants are the names under
/// `net.reactivated.Fprint.Error`.
#[derive(Debug)]
pub enum FprintError {
    /// Something inside went wrong.
    Internal(String),
    /// The caller has not claimed the device.
    ClaimDevice(String),
    /// Another claimer or operation has the device.
    AlreadyInUse(String),
    /// No print is enrolled for the user or the finger.
    NoEnrolledPrints(String),
    /// There is no such operation to stop.
    NoActionInProgress(String),
    /// No finger has this name.
    InvalidFingername(String),
    /// Some prints are still there.
    PrintsNotDeleted(String),
    /// The caller may not act as this user.
    PermissionDenied(String),
}

/// A [`FprintError`] as mathematics.
pub enum FprintErrorView {
    Internal(Seq<char>),
    ClaimDevice(Seq<char>),
    AlreadyInUse(Seq<char>),
    NoEnrolledPrints(Seq<char>),
    NoActionInProgress(Seq<char>),
    InvalidFingername(Seq<char>),
    PrintsNotDeleted(Seq<char>),
    PermissionDenied(Seq<char>),
}

impl View for FprintError {
    type V = FprintErrorView;

    open spec fn view(&self) -> FprintErrorView {
        match *self {
            FprintError::Internal(s) => FprintErrorView::Internal(s@),
            FprintError::ClaimDevice(s) => FprintErrorView::ClaimDevice(s@),
            FprintError::AlreadyInUse(s) => FprintErrorView::AlreadyInUse(s@),
            FprintError::NoEnrolledPrints(s) => FprintErrorView::NoEnrolledPrints(s@),
            FprintError::NoActionInProgress(s) => FprintErrorView::NoActionInProgress(s@),
            FprintError::InvalidFingername(s) => FprintErrorView::InvalidFingername(s@),
            FprintError::PrintsNotDeleted(s) => FprintErrorView::PrintsNotDeleted(s@),
            FprintError::PermissionDenied(s) => FprintErrorView::PermissionDenied(s@),
        }
    }
}

impl FprintError {
    /// A sensor failure, as a client is told of it.
    pub fn from_sensor(e: &SensorError) -> (r: FprintError)
        ensures
            r@ == FprintErrorView::Internal(crate::sensor::sensor_error_text(e@)),
    {
        FprintError::Internal(e.message())
    }

    /// A registry failure, as a client is told of it.
    pub fn from_storage(e: &StorageError) -> (r: FprintError)
        ensures
            r@ == FprintErrorView::Internal(crate::storage::storage_error_text(e@)),
    {
        FprintError::Internal(e.message())
    }
}

} // verus!
