//! What can go wrong.
use crate::model::UnavailableReason;
use crate::text::{extend_text, owned, string_of};
use vstd::prelude::*;

verus! {

#[derive(Debug)]
pub enum GpuError {
    InvalidArgument(String),
    MonitorClosed,
    DeviceNotFound(String),
    StreamClosed,
    /// A bounded queue or table is full.
    Backpressure(String),
    Provider { provider: String, reason: UnavailableReason, message: String },
    Internal(String),
}

/// An error with its texts as sequences of characters.
pub enum ErrorModel {
    InvalidArgument(Seq<char>),
    MonitorClosed,
    DeviceNotFound(Seq<char>),
    StreamClosed,
    Backpressure(Seq<char>),
    Provider { provider: Seq<char>, reason: UnavailableReason, message: Seq<char> },
    Internal(Seq<char>),
}

impl View for GpuError {
    type V = ErrorModel;

    open spec fn view(&self) -> ErrorModel {
        match self {
            GpuError::InvalidArgument(text) => ErrorModel::InvalidArgument(text@),
            GpuError::MonitorClosed => ErrorModel::MonitorClosed,
            GpuError::DeviceNotFound(id) => ErrorModel::DeviceNotFound(id@),
            GpuError::StreamClosed => ErrorModel::StreamClosed,
            GpuError::Backpressure(text) => ErrorModel::Backpressure(text@),
            GpuError::Provider { provider, reason, message } => ErrorModel::Provider {
                provider: provider@,
                reason: *reason,
                message: message@,
            },
            GpuError::Internal(text) => ErrorModel::Internal(text@),
        }
    }
}

/// The text of an error for a reader.
pub open spec fn error_text(error: ErrorModel) -> Seq<char> {
    match error {
        ErrorModel::InvalidArgument(text) => "invalid argument: "@ + text,
        ErrorModel::MonitorClosed => "monitor is closed"@,
        ErrorModel::DeviceNotFound(id) => "GPU `"@ + id + "` was not found"@,
        ErrorModel::StreamClosed => "sample stream is closed"@,
        ErrorModel::Backpressure(text) => "backpressure: "@ + text,
        ErrorModel::Provider { provider, reason, message } => "provider `"@ + provider
            + "` failed ("@ + reason.name() + "): "@ + message,
        ErrorModel::Internal(text) => "internal invariant failed: "@ + text,
    }
}

impl GpuError {
    pub fn provider(provider: &str, reason: UnavailableReason, message: &str) -> (error: Self)
        ensures
            error@ == (ErrorModel::Provider { provider: provider@, reason, message: message@ }),
    {
        GpuError::Provider { provider: owned(provider), reason, message: owned(message) }
    }

    /// The error as a reader sees it.
    pub fn message(&self) -> (text: String)
        ensures
            text@ == error_text(self@),
    {
        let mut out: Vec<char> = Vec::new();
        match self {
            GpuError::InvalidArgument(text) => {
                extend_text(&mut out, "invalid argument: ");
                extend_text(&mut out, text.as_str());
            },
            GpuError::MonitorClosed => {
                extend_text(&mut out, "monitor is closed");
            },
            GpuError::DeviceNotFound(id) => {
                extend_text(&mut out, "GPU `");
                extend_text(&mut out, id.as_str());
                extend_text(&mut out, "` was not found");
            },
            GpuError::StreamClosed => {
                extend_text(&mut out, "sample stream is closed");
            },
            GpuError::Backpressure(text) => {
                extend_text(&mut out, "backpressure: ");
                extend_text(&mut out, text.as_str());
            },
            GpuError::Provider { provider, reason, message } => {
                extend_text(&mut out, "provider `");
                extend_text(&mut out, provider.as_str());
                extend_text(&mut out, "` failed (");
                extend_text(&mut out, reason.text());
                extend_text(&mut out, "): ");
                extend_text(&mut out, message.as_str());
            },
            GpuError::Internal(text) => {
                extend_text(&mut out, "internal invariant failed: ");
                extend_text(&mut out, text.as_str());
            },
        }
        assert(out@ == error_text(self@));
        string_of(&out)
    }
}

impl Clone for GpuError {
    fn clone(&self) -> (copy: Self)
        ensures
            copy == *self,
    {
        match self {
            GpuError::InvalidArgument(text) => GpuError::InvalidArgument(text.clone()),
            GpuError::MonitorClosed => GpuError::MonitorClosed,
            GpuError::DeviceNotFound(id) => GpuError::DeviceNotFound(id.clone()),
            GpuError::StreamClosed => GpuError::StreamClosed,
            GpuError::Backpressure(text) => GpuError::Backpressure(text.clone()),
            GpuError::Provider { provider, reason, message } => GpuError::Provider {
                provider: provider.clone(),
                reason: *reason,
                message: message.clone(),
            },
            GpuError::Internal(text) => GpuError::Internal(text.clone()),
        }
    }
}

/// What a caller from JavaScript is told of the kind of an error.
#[derive(Clone, Copy, Debug, PartialEq, Eq, Structural)]
pub enum ErrorStatus {
    InvalidArgument,
    Cancelled,
    GenericFailure,
}

pub open spec fn status_of(error: ErrorModel) -> ErrorStatus {
    match error {
        ErrorModel::InvalidArgument(_) => ErrorStatus::InvalidArgument,
        ErrorModel::DeviceNotFound(_) => ErrorStatus::InvalidArgument,
        ErrorModel::MonitorClosed => ErrorStatus::Cancelled,
        ErrorModel::StreamClosed => ErrorStatus::Cancelled,
        ErrorModel::Backpressure(_) => ErrorStatus::GenericFailure,
        ErrorModel::Provider { .. } => ErrorStatus::GenericFailure,
        ErrorModel::Internal(_) => ErrorStatus::GenericFailure,
    }
}

impl GpuError {
    pub fn status(&self) -> (status: ErrorStatus)
        ensures
            status == status_of(self@),
    {
        match self {
            GpuError::InvalidArgument(_) | GpuError::DeviceNotFound(_) => {
                ErrorStatus::InvalidArgument
            },
            GpuError::MonitorClosed | GpuError::StreamClosed => ErrorStatus::Cancelled,
            GpuError::Backpressure(_)
            | GpuError::Provider { .. }
            | GpuError::Internal(_) => ErrorStatus::GenericFailure,
        }
    }
}

} // verus!
