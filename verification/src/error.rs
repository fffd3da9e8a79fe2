//! Error types for the engine.

use vstd::prelude::*;

verus! {

/// The error taxonomy of the library.
///
/// Backend failures (`ProviderError`, `NetworkError`) are retried with
/// backoff; validation failures are retried with feedback injection;
/// `MaxRetriesExceeded` is the terminal form of both, carrying the slot
/// name, the number of retries, and the last diagnostic.  `SlotNotFound`
/// is an immediate terminal error.
#[derive(Debug, Clone, PartialEq, Eq)]
pub enum AetherError {
    /// Template parsing failed.
    TemplateParse(String),
    /// Slot not found in template, or a required slot was left unfilled.
    SlotNotFound(String),
    /// The generation backend returned an error.
    ProviderError(String),
    /// A network request failed.
    NetworkError(String),
    /// Code injection failed.
    InjectionError(String),
    /// Invalid configuration.
    ConfigError(String),
    /// Template rendering failed.
    RenderError(String),
    /// Generated code failed validation.
    ValidationFailed { slot: String, error: String },
    /// The retry budget was exhausted, or the backend got stuck.
    MaxRetriesExceeded { slot: String, retries: u32, last_error: String },
    /// The structured context could not be serialized.
    ContextSerializationError(String),
}

/// Result type alias for engine operations.
pub type Result<T> = core::result::Result<T, AetherError>;

/// The text of an error.
pub open spec fn sp_error_message(e: AetherError) -> Seq<char> {
    match e {
        AetherError::TemplateParse(m) => "Template parse error: "@ + m@,
        AetherError::SlotNotFound(m) => "Slot '"@ + m@ + "' not found in template"@,
        AetherError::ProviderError(m) => "AI provider error: "@ + m@,
        AetherError::NetworkError(m) => "Network error: "@ + m@,
        AetherError::InjectionError(m) => "Injection error: "@ + m@,
        AetherError::ConfigError(m) => "Configuration error: "@ + m@,
        AetherError::RenderError(m) => "Render error: "@ + m@,
        AetherError::ValidationFailed { slot, error } => "Validation failed for slot '"@ + slot@
            + "': "@ + error@,
        AetherError::MaxRetriesExceeded { slot, retries, last_error } => "Max retries exceeded for slot '"@
            + slot@ + "': "@ + last_error@,
        AetherError::ContextSerializationError(m) => "Context serialization error: "@ + m@,
    }
}

impl AetherError {
    /// A readable description of the error.
    pub fn message(&self) -> (r: String)
        ensures
            r@ == sp_error_message(*self),
    {
        let mut s = String::new();
        match self {
            AetherError::TemplateParse(m) => {
                s.append("Template parse error: ");
                s.append(m.as_str());
            },
            AetherError::SlotNotFound(m) => {
                s.append("Slot '");
                s.append(m.as_str());
                s.append("' not found in template");
            },
            AetherError::ProviderError(m) => {
                s.append("AI provider error: ");
                s.append(m.as_str());
            },
            AetherError::NetworkError(m) => {
                s.append("Network error: ");
                s.append(m.as_str());
            },
            AetherError::InjectionError(m) => {
                s.append("Injection error: ");
                s.append(m.as_str());
            },
            AetherError::ConfigError(m) => {
                s.append("Configuration error: ");
                s.append(m.as_str());
            },
            AetherError::RenderError(m) => {
                s.append("Render error: ");
                s.append(m.as_str());
            },
            AetherError::ValidationFailed { slot, error } => {
                s.append("Validation failed for slot '");
                s.append(slot.as_str());
                s.append("': ");
                s.append(error.as_str());
            },
            AetherError::MaxRetriesExceeded { slot, retries, last_error } => {
                s.append("Max retries exceeded for slot '");
                s.append(slot.as_str());
                s.append("': ");
                s.append(last_error.as_str());
            },
            AetherError::ContextSerializationError(m) => {
                s.append("Context serialization error: ");
                s.append(m.as_str());
            },
        }
        proof {
            assert(s@ =~= sp_error_message(*self));
        }
        s
    }
}

} // verus!
