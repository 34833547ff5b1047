//! What the HTTP interface takes and gives.

use vstd::prelude::*;
use vstd::string::StringExecFns;
use crate::config::DmConfig;


verus! {

/// The body of a failed request.
#[derive(Debug, Clone)]
pub struct ErrorResponse {
    pub error: String,
    pub details: String,
}

/// A failed request: the HTTP status to answer with, and what went wrong.
#[derive(Debug, Clone)]
pub struct ApiError {
    pub status: u16,
    pub error: String,
    pub details: String,
}

impl ApiError {
    /// A failure with the given status.
    pub fn new(status: u16, error: String, details: String) -> (e: ApiError)
        ensures
            e.status == status,
            e.error == error,
            e.details == details,
    {
        ApiError { status, error, details }
    }

    /// A failure that the caller is to blame for: status 400.
    pub fn bad_request(error: String, details: String) -> (e: ApiError)
        ensures
            e.status == 400,
            e.error == error,
            e.details == details,
    {
        ApiError::new(400, error, details)
    }

    /// A failure to find what was asked for: status 404.
    pub fn not_found(error: String, details: String) -> (e: ApiError)
        ensures
            e.status == 404,
            e.error == error,
            e.details == details,
    {
        ApiError::new(404, error, details)
    }

    /// A failure of the manager itself: status 500.
    pub fn internal(error: String, details: String) -> (e: ApiError)
        ensures
            e.status == 500,
            e.error == error,
            e.details == details,
    {
        ApiError::new(500, error, details)
    }

    /// The status and the body to answer with.
    pub fn into_parts(self) -> (parts: (u16, ErrorResponse))
        ensures
            parts.0 == self.status,
            parts.1.error == self.error,
            parts.1.details == self.details,
    {
        (self.status, ErrorResponse { error: self.error, details: self.details })
    }
}

/// A request to change the configuration.
#[derive(Debug, Clone)]
pub struct ConfigUpdate {
    pub active_version: Option<String>,
}

/// An answer that is a message.
#[derive(Debug, Clone)]
pub struct MessageResponse {
    pub message: String,
}

/// The configuration after an update: what the update names replaces what was there.
pub fn apply_update(config: DmConfig, update: ConfigUpdate) -> (merged: DmConfig)
    ensures
        merged.active_version == if update.active_version.is_some() {
            update.active_version
        } else {
            config.active_version
        },
{
    match update.active_version {
        Some(version) => DmConfig { active_version: Some(version) },
        None => config,
    }
}

/// The answer to the removal of a node.
pub fn node_uninstalled(id: &str) -> (answer: MessageResponse)
    ensures
        answer.message@ == "Uninstalled node '"@ + id@ + "'"@,
{
    let mut message = String::from_str("Uninstalled node '");
    message.append(id);
    message.append("'");
    MessageResponse { message }
}

/// The failure to find a node in the registry.
pub fn node_not_in_registry(error: &str, id: &str) -> (e: ApiError)
    ensures
        e.status == 404,
        e.error@ == error@,
        e.details@ == "Node '"@ + id@ + "' not found in registry"@,
{
    let mut details = String::from_str("Node '");
    details.append(id);
    details.append("' not found in registry");
    ApiError::not_found(String::from_str(error), details)
}

} // verus!
