use aether_core::template::Template;
use aether_core::slot::{Slot, SlotKind, SlotConstraints};
use aether_core::config::AetherConfig;
use aether_core::context::InjectionContext;
use aether_core::error::AetherError;
use aether_core::provider::strip_code_blocks;
use aether_core::validation::{looks_like_python, looks_like_js, detect_suffix, fill_harness};
use aether_core::script::AetherScript;
use aether_core::shield::Shield;

fn slot_of<'a>(t: &'a Template, name: &str) -> Option<&'a Slot> {
    t.slots.iter().find(|(n, _)| n == name).map(|(_, s)| s)
}

#[test]
fn test_parse_slots() {
    let template = Template::new("Hello {{AI:greeting}} World {{AI:content:html}}".to_string());
    assert_eq!(template.slots.len(), 2);
    assert!(slot_of(&template, "greeting").is_some());
    assert!(slot_of(&template, "content").is_some());
}

#[test]
fn test_render_template() {
    let template = Template::new("<div>{{AI:content}}</div>".to_string());
    let injections = vec![("content".to_string(), "<p>Hello</p>".to_string())];
    let result = template.render(&injections).unwrap();
    assert_eq!(result, "<div><p>Hello</p></div>");
}

#[test]
fn test_slot_kind_parsing() {
    let template = Template::new("{{AI:func:function}} {{AI:style:css}}".to_string());
    assert_eq!(slot_of(&template, "func").unwrap().kind, SlotKind::Function);
    assert_eq!(slot_of(&template, "style").unwrap().kind, SlotKind::Css);
}

#[test]
fn test_render_idempotent() {
    let template = Template::new("a {{AI:x}} b {{AI:y}} c".to_string());
    let injections = vec![("x".to_string(), "1".to_string()), ("y".to_string(), "2".to_string())];
    let first = template.render(&injections).unwrap();
    let second = template.render(&injections).unwrap();
    assert_eq!(first, second);
    assert_eq!(first, "a 1 b 2 c");
}

#[test]
fn test_render_missing_required_slot() {
    let template = Template::new("<div>{{AI:content}}</div>".to_string());
    let result = template.render(&Vec::new());
    match result {
        Err(AetherError::SlotNotFound(name)) => assert_eq!(name, "content"),
        other => panic!("expected a missing-slot error, got {:?}", other),
    }
}

#[test]
fn test_render_optional_default() {
    let template = Template::new("<div>{{AI:content}}</div>".to_string())
        .configure_slot(
            Slot::new("content".to_string(), "p".to_string()).optional("<p>none</p>".to_string()),
        );
    let result = template.render(&Vec::new()).unwrap();
    assert_eq!(result, "<div><p>none</p></div>");
}

#[test]
fn test_template_duplicate_marker_shares_slot() {
    let template = Template::new("{{AI:x}} and {{AI:x}}".to_string());
    assert_eq!(template.slots.len(), 1);
    let injections = vec![("x".to_string(), "Z".to_string())];
    assert_eq!(template.render(&injections).unwrap(), "Z and Z");
}

#[test]
fn test_template_validate() {
    let template = Template::new("{{AI:a}}".to_string());
    assert!(template.validate(&Vec::new()).is_err());
    let injections = vec![("a".to_string(), "v".to_string())];
    assert!(template.validate(&injections).is_ok());
}

#[test]
fn test_slot_creation() {
    let slot = Slot::new("test".to_string(), "Generate a test".to_string());
    assert_eq!(slot.name, "test");
    assert_eq!(slot.prompt, "Generate a test");
    assert!(slot.required);
}

#[test]
fn test_slot_validation() {
    let slot = Slot::new("test".to_string(), "".to_string())
        .with_constraints(SlotConstraints::new().max_lines(5));
    assert!(slot.validate("line1\nline2\nline3").is_ok());
    assert!(slot.validate("1\n2\n3\n4\n5\n6").is_err());
}

#[test]
fn test_slot_forbidden_pattern() {
    let slot = Slot::new("test".to_string(), "".to_string()).with_constraints(
        SlotConstraints::new().forbid_pattern("unsafe".to_string()),
    );
    assert!(slot.validate("let x = 1;").is_ok());
    let errs = slot.validate("unsafe { }").unwrap_err();
    assert_eq!(errs.len(), 1);
    assert!(errs[0].contains("forbidden pattern"));
}

#[test]
fn test_slot_max_chars_message() {
    let slot = Slot::new("test".to_string(), "".to_string())
        .with_constraints(SlotConstraints::new().max_chars(3));
    let errs = slot.validate("abcdef").unwrap_err();
    assert_eq!(errs[0], "Code exceeds max chars: 6 > 3");
}

#[test]
fn test_default_config() {
    let config = AetherConfig::default();
    assert!(!config.toon_enabled);
    assert!(!config.healing_enabled);
    assert!(config.parallel);
    assert_eq!(config.max_retries, 2);
}

#[test]
fn test_builder_pattern() {
    let config = AetherConfig::default().with_toon(true).with_healing(true).with_max_retries(5);
    assert!(config.toon_enabled);
    assert!(config.healing_enabled);
    assert_eq!(config.max_retries, 5);
}

#[test]
fn test_auto_toon() {
    let config = AetherConfig::default();
    assert!(!config.should_use_toon(1000));
    assert!(config.should_use_toon(3000));
}

#[test]
fn test_context_builder() {
    let ctx = InjectionContext::new()
        .with_project("my-app".to_string())
        .with_language("typescript".to_string())
        .with_framework("react".to_string());
    assert_eq!(ctx.project, Some("my-app".to_string()));
    assert_eq!(ctx.language, Some("typescript".to_string()));
    assert_eq!(ctx.framework, Some("react".to_string()));
}

#[test]
fn test_context_to_prompt() {
    let ctx = InjectionContext::new()
        .with_project("test".to_string())
        .with_language("rust".to_string());
    let prompt = ctx.to_prompt();
    assert!(prompt.contains("Project: test"));
    assert!(prompt.contains("Language: rust"));
}

#[test]
fn test_strip_code_blocks() {
    let input = "```html\n<div>Hello</div>\n```";
    assert_eq!(strip_code_blocks(input), "<div>Hello</div>");
    let input = "<div>Already clean</div>";
    assert_eq!(strip_code_blocks(input), "<div>Already clean</div>");
}

#[test]
fn test_multi_validator_detects_python() {
    let code = "def hello():\n    return 42";
    assert!(looks_like_python(code));
    assert_eq!(detect_suffix(&SlotKind::Function, code), ".py");
}

#[test]
fn test_multi_validator_detects_js() {
    let code = "const hello = () => 42;";
    assert!(looks_like_js(code));
    assert!(!looks_like_python(code));
}

#[test]
fn test_fill_harness() {
    let harness = "fn main() { {{CODE}} }";
    assert_eq!(fill_harness(harness, "run();"), "fn main() { run(); }");
}

#[test]
fn test_script_preprocess() {
    let script = "let x = @ai(\"make a button\");";
    assert_eq!(AetherScript::preprocess(script), "let x = __aether_ask(\"make a button\");");
}

#[test]
fn test_shield_roundtrip() {
    let sealed = Shield::encrypt("a secret prompt", "pass phrase");
    let opened = Shield::decrypt(&sealed, "pass phrase").unwrap();
    assert_eq!(opened, "a secret prompt");
    assert!(Shield::decrypt(&sealed, "other phrase").is_err());
}

#[test]
fn test_shield_derive_key_padding() {
    let key = Shield::derive_key("ab");
    assert_eq!(key.len(), 32);
    assert_eq!(key[0], b'a');
    assert_eq!(key[1], b'b');
    assert_eq!(key[2], ((2u8).wrapping_mul(0xaf)));
}

#[test]
fn test_error_message_text() {
    let e = AetherError::SlotNotFound("content".to_string());
    assert_eq!(e.message(), "Slot 'content' not found in template");
    let e = AetherError::MaxRetriesExceeded {
        slot: "x".to_string(),
        retries: 2,
        last_error: "boom".to_string(),
    };
    assert_eq!(e.message(), "Max retries exceeded for slot 'x': boom");
}
