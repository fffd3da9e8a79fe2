use aether_core::engine::{InjectionEngine, RenderSession, FailingProvider};
use aether_core::provider::{MockProvider, ScriptedProvider, GenerationRequest, Provider};
use aether_core::template::Template;
use aether_core::slot::{Slot, SlotConstraints};
use aether_core::context::InjectionContext;
use aether_core::config::AetherConfig;
use aether_core::cache::ExactCache;
use aether_core::observer::{RecordingObserver, ObsEvent};
use aether_core::validation::{RejectingValidator, ScriptedValidator, ValidationResult};
use aether_core::error::AetherError;
use aether_core::cache::{Cache, TieredCache};

#[test]
fn test_mock_provider() {
    let mut provider = MockProvider::new()
        .with_response("button".to_string(), "<button>Click me</button>".to_string());
    let request = GenerationRequest {
        slot: Slot::new("button".to_string(), "Create a button".to_string()),
        context: None,
        system_prompt: None,
        model: None,
        max_tokens: None,
    };
    let response = provider.generate(&request).unwrap();
    assert_eq!(response.code, "<button>Click me</button>");
    assert_eq!(provider.count, 1);
}

#[test]
fn test_engine_render() {
    let provider = MockProvider::new()
        .with_response("content".to_string(), "<p>Hello World</p>".to_string());
    let mut engine = InjectionEngine::new(provider);
    let template = Template::new("<div>{{AI:content}}</div>".to_string())
        .with_slot("content".to_string(), "Generate a paragraph".to_string());
    let result = engine.render(&template).unwrap();
    assert_eq!(result, "<div><p>Hello World</p></div>");
}

#[test]
fn test_engine_with_context() {
    let provider = MockProvider::new()
        .with_response("button".to_string(), "<button class='btn'>Click</button>".to_string());
    let mut engine = InjectionEngine::new(provider)
        .with_context(InjectionContext::new().with_framework("react".to_string()));
    let template = Template::new("{{AI:button}}".to_string())
        .with_slot("button".to_string(), "Create a button".to_string());
    let result = engine.render(&template).unwrap();
    assert!(result.contains("button"));
}

#[test]
fn test_parallel_generation() {
    let provider = MockProvider::new()
        .with_response("slot1".to_string(), "code1".to_string())
        .with_response("slot2".to_string(), "code2".to_string());
    let mut engine = InjectionEngine::new(provider).parallel(true);
    let template = Template::new("{{AI:slot1}} | {{AI:slot2}}".to_string());
    let result = engine.render(&template).unwrap();
    assert!(result.contains("code1"));
    assert!(result.contains("code2"));
}

#[test]
fn test_max_retries_exceeded() {
    let provider = MockProvider::new()
        .with_response("fail".to_string(), "invalid code".to_string());
    // A validator that always fails; the second identical answer stops
    // the loop as stuck.
    let mut engine = InjectionEngine::new(provider)
        .with_validator(RejectingValidator::new("Always fails".to_string()))
        .max_retries(1);
    let template = Template::new("{{AI:fail}}".to_string());
    let result = engine.render(&template);
    match result {
        Err(AetherError::MaxRetriesExceeded { slot, retries, .. }) => {
            assert_eq!(slot, "fail");
            assert_eq!(retries, 1);
        },
        _ => panic!("Expected MaxRetriesExceeded error, got {:?}", result),
    }
}

#[test]
fn test_auto_toon_activation() {
    let provider = MockProvider::new().with_response("slot".to_string(), "code".to_string());
    let config = AetherConfig::default().with_auto_toon_threshold(Some(5));
    let mut engine = InjectionEngine::with_config(provider, config)
        .with_context(InjectionContext::new().with_framework("very_long_framework_name".to_string()));
    let template = Template::new("{{AI:slot}}".to_string());
    let _ = engine.render(&template).unwrap();
}

#[test]
fn test_retry_bound_exact_calls() {
    let provider = FailingProvider::new("backend down".to_string());
    let mut engine = InjectionEngine::new(provider).max_retries(2);
    let template = Template::new("{{AI:x}}".to_string());
    let result = engine.render(&template);
    match result {
        Err(AetherError::ProviderError(m)) => assert_eq!(m, "backend down"),
        other => panic!("expected a provider error, got {:?}", other),
    }
    // maxRetries + 1 = 3 invocations, exactly.
    assert_eq!(engine.provider.count, 3);
}

#[test]
fn test_stuck_generation_detection() {
    let provider = MockProvider::new().with_response("s".to_string(), "same text".to_string());
    let mut engine = InjectionEngine::new(provider)
        .with_validator(RejectingValidator::new("not good enough".to_string()))
        .max_retries(5);
    let template = Template::new("{{AI:s}}".to_string());
    let result = engine.render(&template);
    match result {
        Err(AetherError::MaxRetriesExceeded { retries, last_error, .. }) => {
            assert_eq!(retries, 1);
            assert_eq!(last_error, "AI stuck in loop (generated identical code)");
        },
        other => panic!("expected the stuck error, got {:?}", other),
    }
    // Two calls: the original attempt and the repeated one.
    assert_eq!(engine.provider.count, 2);
}

#[test]
fn test_cache_short_circuit() {
    let provider = MockProvider::new().with_response("c".to_string(), "cached body".to_string());
    let mut engine = InjectionEngine::new(provider).with_cache(ExactCache::new());
    let template = Template::new("{{AI:c}}".to_string());
    let first = engine.render(&template).unwrap();
    assert_eq!(first, "cached body");
    assert_eq!(engine.provider.count, 1);
    // The same (prompt, context) pair derives the same key: the backend
    // is never invoked again.
    let second = engine.render(&template).unwrap();
    assert_eq!(second, "cached body");
    assert_eq!(engine.provider.count, 1);
}

#[test]
fn test_incremental_session() {
    let provider = MockProvider::new()
        .with_response("a".to_string(), "A".to_string())
        .with_response("b".to_string(), "B".to_string());
    let mut engine = InjectionEngine::new(provider);
    let mut session = RenderSession::new();
    let template = Template::new("{{AI:a}}-{{AI:b}}".to_string());
    let first = engine.render_incremental(&template, &mut session).unwrap();
    assert_eq!(first, "A-B");
    assert_eq!(engine.provider.count, 2);
    // Unchanged template: everything is reused from the session.
    let again = engine.render_incremental(&template, &mut session).unwrap();
    assert_eq!(again, "A-B");
    assert_eq!(engine.provider.count, 2);
    // Changing exactly one slot's prompt invokes the backend for that
    // slot alone.
    let changed = template.with_slot("a".to_string(), "a different prompt".to_string());
    let third = engine.render_incremental(&changed, &mut session).unwrap();
    assert_eq!(third, "A-B");
    assert_eq!(engine.provider.count, 3);
}

#[test]
fn test_concrete_sequential_scenario() {
    let provider = MockProvider::new()
        .with_response("content".to_string(), "<p>Hello</p>".to_string());
    let mut engine = InjectionEngine::new(provider).parallel(false);
    let template = Template::new("<div>{{AI:content}}</div>".to_string());
    let result = engine.render(&template).unwrap();
    assert_eq!(result, "<div><p>Hello</p></div>");
}

#[test]
fn test_healing_second_attempt_succeeds() {
    // First generated attempt fails its harness check; the second
    // passes and is the final text; exactly one healing step fires.
    let provider = ScriptedProvider::new(vec![
        "first attempt".to_string(),
        "second attempt".to_string(),
    ]);
    let validator = ScriptedValidator::new(vec![
        ValidationResult::Invalid("harness test failed".to_string()),
        ValidationResult::Valid,
    ]);
    let mut engine = InjectionEngine::new(provider)
        .with_validator(validator)
        .with_observer(RecordingObserver::new())
        .max_retries(2);
    let template = Template::new("{{AI:code}}".to_string());
    let result = engine.render(&template).unwrap();
    assert_eq!(result, "second attempt");
    let healing: Vec<(u32, String)> = engine
        .observer
        .as_ref()
        .unwrap()
        .log
        .iter()
        .filter_map(|ev| match ev {
            ObsEvent::HealingStep { attempt, error, .. } => Some((*attempt, error.clone())),
            _ => None,
        })
        .collect();
    assert_eq!(healing.len(), 1);
    assert_eq!(healing[0].0, 1);
    assert_eq!(healing[0].1, "harness test failed");
}

#[test]
fn test_generate_slot_unknown_name() {
    let provider = MockProvider::new();
    let mut engine = InjectionEngine::new(provider);
    let template = Template::new("{{AI:known}}".to_string());
    match engine.generate_slot(&template, "unknown") {
        Err(AetherError::SlotNotFound(n)) => assert_eq!(n, "unknown"),
        other => panic!("expected a missing-slot error, got {:?}", other),
    }
}

#[test]
fn test_inject_raw() {
    let provider = MockProvider::new().with_response("gen".to_string(), "raw output".to_string());
    let mut engine = InjectionEngine::new(provider);
    assert_eq!(engine.inject_raw("write something").unwrap(), "raw output");
}

#[test]
fn test_cache_get_set() {
    let mut c = ExactCache::new();
    assert!(c.get("k").is_none());
    c.set("k", "v1");
    assert_eq!(c.get("k").unwrap(), "v1");
    c.set("k", "v2");
    assert_eq!(c.get("k").unwrap(), "v2");
    assert_eq!(c.entries.len(), 1);
}

#[test]
fn test_tiered_cache_reads_both_tiers() {
    let mut primary = ExactCache::new();
    let mut fallback = ExactCache::new();
    fallback.set("only-fallback", "from fallback");
    primary.set("shared", "from primary");
    let mut tiered = TieredCache::new(primary, fallback);
    assert_eq!(tiered.get("shared").unwrap(), "from primary");
    assert_eq!(tiered.get("only-fallback").unwrap(), "from fallback");
    tiered.set("new-key", "both");
    assert_eq!(tiered.primary.get("new-key").unwrap(), "both");
    assert_eq!(tiered.fallback.get("new-key").unwrap(), "both");
}

#[test]
fn test_with_response_overwrites() {
    let mut provider = MockProvider::new()
        .with_response("x".to_string(), "first".to_string())
        .with_response("x".to_string(), "second".to_string());
    let request = GenerationRequest {
        slot: Slot::new("x".to_string(), "".to_string()),
        context: None,
        system_prompt: None,
        model: None,
        max_tokens: None,
    };
    assert_eq!(provider.generate(&request).unwrap().code, "second");
    assert_eq!(provider.responses.len(), 1);
}

#[test]
fn test_with_config_wires_healing() {
    let provider = MockProvider::new()
        .with_response("s".to_string(), "a text too long for the limit".to_string());
    let config = AetherConfig::default().with_healing(true).with_max_retries(4);
    let mut engine = InjectionEngine::with_config(provider, config);
    let template = Template::new("{{AI:s}}".to_string()).configure_slot(
        Slot::new("s".to_string(), "p".to_string())
            .with_constraints(SlotConstraints::new().max_chars(5)),
    );
    // The installed constraint validator rejects the oversized answer;
    // the identical second answer stops the loop as stuck.
    let result = engine.render(&template);
    match result {
        Err(AetherError::MaxRetriesExceeded { retries, .. }) => assert_eq!(retries, 1),
        other => panic!("expected the stuck error, got {:?}", other),
    }
    assert_eq!(engine.provider.count, 2);
}

#[test]
fn test_with_config_wires_cache() {
    let provider = MockProvider::new().with_response("c".to_string(), "body".to_string());
    let config = AetherConfig::default().with_cache(true);
    let mut engine = InjectionEngine::with_config(provider, config);
    let template = Template::new("{{AI:c}}".to_string());
    assert_eq!(engine.render(&template).unwrap(), "body");
    assert_eq!(engine.render(&template).unwrap(), "body");
    assert_eq!(engine.provider.count, 1);
}
