//! Process-wide generation policy, passed by value into the engine at
//! construction; the engine never reads ambient state.

use vstd::prelude::*;

verus! {

/// Generation policy: compression, healing, caching, scheduling,
/// retries, and the literal prompt fragments the engine splices in.
#[derive(Debug)]
pub struct AetherConfig {
    /// Compress structured context through the compact notation.
    pub toon_enabled: bool,
    /// Validate generated text and retry with feedback on failure.
    pub healing_enabled: bool,
    /// Consult and fill the cache around generation.
    pub cache_enabled: bool,
    /// Generate slots in parallel rather than in definition order.
    pub parallel: bool,
    /// Serve the inspector interface.
    pub inspector_enabled: bool,
    /// Port for the inspector interface.
    pub inspector_port: u16,
    /// Maximum retries for failed generations.
    pub max_retries: u32,
    /// Compress automatically when the context reaches this many
    /// characters.
    pub auto_toon_threshold: Option<usize>,
    /// Cache similarity threshold, in thousandths (0 to 1000).
    pub cache_threshold: u32,
    /// Header placed above a compressed context block.
    pub prompt_toon_header: String,
    /// Note telling the backend how to read the compact notation.
    pub prompt_toon_note: String,
    /// Feedback prefix spliced into the prompt on a healing retry.
    pub prompt_healing_feedback: String,
    /// Notice appended when validation is active.
    pub prompt_tdd_notice: String,
    /// Base delay for retry backoff, in milliseconds.
    pub retry_backoff_ms: u64,
}

impl Default for AetherConfig {
    /// The default policy: no compression (auto at 2000 characters),
    /// no healing, no cache, parallel on, two retries.
    fn default() -> (r: AetherConfig)
        ensures
            !r.toon_enabled,
            !r.healing_enabled,
            !r.cache_enabled,
            r.parallel,
            !r.inspector_enabled,
            r.inspector_port == 3000,
            r.max_retries == 2,
            r.auto_toon_threshold == Option::Some(2000usize),
            r.cache_threshold == 900,
            r.prompt_toon_header@ == "[CONTEXT:TOON]"@,
            r.prompt_toon_note@
                == "[TOON Protocol Note]\nTOON is a compact key:value mapping protocol. Each line represents 'key: value'. Use this context to inform your code generation, respecting the framework, language, and architectural constraints defined within."@,
            r.prompt_healing_feedback@
                == "[SELF-HEALING FEEDBACK]\nYour previous output had validation errors. Please fix them and output ONLY the corrected code.\nERROR:\n"@,
            r.prompt_tdd_notice@
                == "\n\nIMPORTANT: The system is running in TDD (Test-Driven Development) mode. Your code will be validated against compiler checks and functional tests. If possible, include unit tests in your response to help self-verify. If validation fails, you will receive feedback to fix the code."@,
            r.retry_backoff_ms == 100,
    {
        let mut header = String::new();
        header.append("[CONTEXT:TOON]");
        let mut note = String::new();
        note.append(
            "[TOON Protocol Note]\nTOON is a compact key:value mapping protocol. Each line represents 'key: value'. Use this context to inform your code generation, respecting the framework, language, and architectural constraints defined within.",
        );
        let mut feedback = String::new();
        feedback.append(
            "[SELF-HEALING FEEDBACK]\nYour previous output had validation errors. Please fix them and output ONLY the corrected code.\nERROR:\n",
        );
        let mut notice = String::new();
        notice.append(
            "\n\nIMPORTANT: The system is running in TDD (Test-Driven Development) mode. Your code will be validated against compiler checks and functional tests. If possible, include unit tests in your response to help self-verify. If validation fails, you will receive feedback to fix the code.",
        );
        AetherConfig {
            toon_enabled: false,
            healing_enabled: false,
            cache_enabled: false,
            parallel: true,
            inspector_enabled: false,
            inspector_port: 3000,
            max_retries: 2,
            auto_toon_threshold: Some(2000),
            cache_threshold: 900,
            prompt_toon_header: header,
            prompt_toon_note: note,
            prompt_healing_feedback: feedback,
            prompt_tdd_notice: notice,
            retry_backoff_ms: 100,
        }
    }
}

impl AetherConfig {
    /// Enable or disable context compression.
    pub fn with_toon(self, enabled: bool) -> (r: AetherConfig)
        ensures
            r == (AetherConfig { toon_enabled: enabled, ..self }),
    {
        let mut c = self;
        c.toon_enabled = enabled;
        c
    }

    /// Enable or disable self-healing.
    pub fn with_healing(self, enabled: bool) -> (r: AetherConfig)
        ensures
            r == (AetherConfig { healing_enabled: enabled, ..self }),
    {
        let mut c = self;
        c.healing_enabled = enabled;
        c
    }

    /// Enable or disable the cache.
    pub fn with_cache(self, enabled: bool) -> (r: AetherConfig)
        ensures
            r == (AetherConfig { cache_enabled: enabled, ..self }),
    {
        let mut c = self;
        c.cache_enabled = enabled;
        c
    }

    /// Enable or disable parallel generation.
    pub fn with_parallel(self, enabled: bool) -> (r: AetherConfig)
        ensures
            r == (AetherConfig { parallel: enabled, ..self }),
    {
        let mut c = self;
        c.parallel = enabled;
        c
    }

    /// Enable or disable the inspector.
    pub fn with_inspector(self, enabled: bool) -> (r: AetherConfig)
        ensures
            r == (AetherConfig { inspector_enabled: enabled, ..self }),
    {
        let mut c = self;
        c.inspector_enabled = enabled;
        c
    }

    /// Set the inspector port.
    pub fn with_inspector_port(self, port: u16) -> (r: AetherConfig)
        ensures
            r == (AetherConfig { inspector_port: port, ..self }),
    {
        let mut c = self;
        c.inspector_port = port;
        c
    }

    /// Set the retry budget.
    pub fn with_max_retries(self, retries: u32) -> (r: AetherConfig)
        ensures
            r == (AetherConfig { max_retries: retries, ..self }),
    {
        let mut c = self;
        c.max_retries = retries;
        c
    }

    /// Set or clear the automatic-compression character threshold.
    pub fn with_auto_toon_threshold(self, threshold: Option<usize>) -> (r: AetherConfig)
        ensures
            r == (AetherConfig { auto_toon_threshold: threshold, ..self }),
    {
        let mut c = self;
        c.auto_toon_threshold = threshold;
        c
    }

    /// Whether a context of `context_length` characters is compressed:
    /// always when compression is on, else at the automatic threshold.
    pub fn should_use_toon(&self, context_length: usize) -> (r: bool)
        ensures
            r == sp_should_use_toon(
                self.toon_enabled,
                self.auto_toon_threshold,
                context_length as nat,
            ),
    {
        if self.toon_enabled {
            return true;
        }
        if let Some(threshold) = self.auto_toon_threshold {
            return context_length >= threshold;
        }
        false
    }
}

/// When the context is compressed.
pub open spec fn sp_should_use_toon(
    enabled: bool,
    auto_threshold: Option<usize>,
    context_length: nat,
) -> bool {
    enabled || (auto_threshold is Some && context_length >= auto_threshold->0)
}

} // verus!
