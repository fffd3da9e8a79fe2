//! A template-driven code-generation orchestrator: templates hold named
//! slots, a generation backend fills each slot, and the engine assembles the
//! final document with validation-driven retries, tiered caching, and a
//! compact context notation.

pub mod error;
pub mod text;
pub mod toon;
pub mod toon_laws;
pub mod slot;
pub mod template;
pub mod hashing;
pub mod provider;
pub mod observer;
pub mod config;
pub mod cache;
pub mod context;
pub mod validation;
pub mod engine;
pub mod shield;
pub mod script;

pub use cache::{Cache, ExactCache, TieredCache};
pub use config::AetherConfig;
pub use context::{InjectionContext, StyleGuide, IndentStyle, QuoteStyle, NamingConvention};
pub use engine::{InjectionEngine, RenderSession, FailingProvider};
pub use error::{AetherError, Result};
pub use observer::{Observer, ObsEvent, RecordingObserver};
pub use provider::{Provider, ProviderConfig, GenerationRequest, GenerationResponse, MockProvider,
    ScriptedProvider, strip_code_blocks};
pub use script::AetherScript;
pub use shield::Shield;
pub use slot::{Slot, SlotKind, SlotConstraints};
pub use template::{Template, TemplateMetadata, SlotLocation};
pub use toon::{Toon, ToonValue};
pub use validation::{ValidationResult, Validator, ConstraintValidator, RejectingValidator,
    ScriptedValidator, CheckTool, looks_like_python, looks_like_js, detect_suffix, fill_harness,
    choose_tool, wrap_rust_module, fill_file_placeholder, default_test_command};

use vstd::prelude::*;

verus! {

} // verus!
