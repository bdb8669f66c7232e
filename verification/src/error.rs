//! The error taxonomy of the backend. Each error knows whether it reflects
//! an invalid request or an internal failure, and renders its own message.

use vstd::prelude::*;
use vstd::string::StringExecFns;

verus! {

/// An error surfaced by the backend.
#[derive(Debug, Clone, PartialEq, Eq)]
pub enum BackendError {
    /// The target identifier is ill-formed.
    InvalidTarget(String),
    /// A registry lookup for the latest version of the named package failed.
    VersionResolutionFailed(String),
    /// A requested feature is not in the package's declared feature set.
    UnknownFeature(String),
    /// The collection exists with different features.
    Conflict(String),
    /// A query was made against a collection that does not exist.
    NoEmbeddedDocs { crate_name: String, version: String },
    /// A search returned no content-bearing payloads.
    NoQueryResults(String),
    /// A status lookup used an unknown operation id.
    OperationNotFound(String),
    /// A service could not be initialized.
    ServiceInitialization(String),
    /// Any other internal failure.
    Internal(String),
}

/// Whether the error reflects an invalid request rather than an internal
/// failure.
pub open spec fn spec_is_invalid_request(e: BackendError) -> bool {
    match e {
        BackendError::InvalidTarget(_) => true,
        BackendError::VersionResolutionFailed(_) => true,
        BackendError::UnknownFeature(_) => true,
        BackendError::Conflict(_) => true,
        BackendError::NoEmbeddedDocs { .. } => true,
        BackendError::NoQueryResults(_) => true,
        BackendError::OperationNotFound(_) => true,
        BackendError::ServiceInitialization(_) => false,
        BackendError::Internal(_) => false,
    }
}

/// The message text of an error.
pub open spec fn spec_message(e: BackendError) -> Seq<char> {
    match e {
        BackendError::InvalidTarget(s) => "invalid target: "@ + s@,
        BackendError::VersionResolutionFailed(s) => "could not resolve latest crate version for '"@
            + s@ + "'"@,
        BackendError::UnknownFeature(s) => "unknown feature: "@ + s@,
        BackendError::Conflict(s) => "collection already exists with different features: "@ + s@,
        BackendError::NoEmbeddedDocs { crate_name, version } => "no embedded documentation found for "@
            + crate_name@ + " v"@ + version@
            + ". Please run embed_docs first to generate and embed the documentation."@,
        BackendError::NoQueryResults(s) => "no results found for query: "@ + s@,
        BackendError::OperationNotFound(s) => "no embedding operation found with ID: "@ + s@,
        BackendError::ServiceInitialization(s) => "failed to initialize service: "@ + s@,
        BackendError::Internal(s) => "internal error: "@ + s@,
    }
}

impl BackendError {
    /// Classifies the error: invalid request or internal error.
    pub fn is_invalid_request(&self) -> (r: bool)
        ensures
            r == spec_is_invalid_request(*self),
    {
        match self {
            BackendError::InvalidTarget(_) => true,
            BackendError::VersionResolutionFailed(_) => true,
            BackendError::UnknownFeature(_) => true,
            BackendError::Conflict(_) => true,
            BackendError::NoEmbeddedDocs { .. } => true,
            BackendError::NoQueryResults(_) => true,
            BackendError::OperationNotFound(_) => true,
            BackendError::ServiceInitialization(_) => false,
            BackendError::Internal(_) => false,
        }
    }

    /// Renders the error message.
    pub fn message(&self) -> (r: String)
        ensures
            r@ == spec_message(*self),
    {
        match self {
            BackendError::InvalidTarget(s) => {
                let mut m = String::from_str("invalid target: ");
                m.append(s.as_str());
                m
            },
            BackendError::VersionResolutionFailed(s) => {
                let mut m = String::from_str("could not resolve latest crate version for '");
                m.append(s.as_str());
                m.append("'");
                m
            },
            BackendError::UnknownFeature(s) => {
                let mut m = String::from_str("unknown feature: ");
                m.append(s.as_str());
                m
            },
            BackendError::Conflict(s) => {
                let mut m = String::from_str(
                    "collection already exists with different features: ",
                );
                m.append(s.as_str());
                m
            },
            BackendError::NoEmbeddedDocs { crate_name, version } => {
                let mut m = String::from_str("no embedded documentation found for ");
                m.append(crate_name.as_str());
                m.append(" v");
                m.append(version.as_str());
                m.append(
                    ". Please run embed_docs first to generate and embed the documentation.",
                );
                m
            },
            BackendError::NoQueryResults(s) => {
                let mut m = String::from_str("no results found for query: ");
                m.append(s.as_str());
                m
            },
            BackendError::OperationNotFound(s) => {
                let mut m = String::from_str("no embedding operation found with ID: ");
                m.append(s.as_str());
                m
            },
            BackendError::ServiceInitialization(s) => {
                let mut m = String::from_str("failed to initialize service: ");
                m.append(s.as_str());
                m
            },
            BackendError::Internal(s) => {
                let mut m = String::from_str("internal error: ");
                m.append(s.as_str());
                m
            },
        }
    }
}

} // verus!
