use open_agent::budget::compatibility::{CompatibilityRegistry, ModelCompatibility, ToolCallFormat};
use open_agent::budget::PricingInfo;

#[test]
fn test_known_incompatible() {
    let registry = CompatibilityRegistry::new();
    assert!(registry.is_incompatible("deepseek/deepseek-r1-distill-llama-70b"));
    assert!(registry.is_incompatible("deepseek/deepseek-r1-distill-qwen-32b"));
    assert!(!registry.is_incompatible("deepseek/deepseek-v3"));
    assert!(!registry.is_incompatible("openai/gpt-4o"));
}

#[test]
fn test_runtime_marking() {
    let mut registry = CompatibilityRegistry::new();
    assert!(!registry.is_incompatible("some-new/model"));

    registry.mark_incompatible("some-new/model", "Uses weird format");

    assert!(registry.is_incompatible("some-new/model"));
}

#[test]
fn test_compatibility_info() {
    let registry = CompatibilityRegistry::new();

    let compat = registry.get("openai/gpt-4o");
    assert!(compat.can_use_functions());

    let incompat = registry.get("deepseek/deepseek-r1-distill-llama-70b");
    assert!(!incompat.can_use_functions());
}

#[test]
fn records_hold_what_is_known() {
    let good = ModelCompatibility::compatible();
    assert!(good.tested && good.supports_function_calling);
    assert_eq!(good.tool_call_format, ToolCallFormat::OpenAI);
    let bad = ModelCompatibility::incompatible("odd format");
    assert_eq!(bad.known_issues, vec!["odd format".to_string()]);
    assert_eq!(bad.tool_call_format, ToolCallFormat::Incompatible);
    let unknown = ModelCompatibility::default();
    assert!(!unknown.tested && unknown.can_use_functions());
}

#[test]
fn filter_keeps_usable_models_in_order() {
    let mut registry = CompatibilityRegistry::new();
    registry.mark_incompatible("b", "failed");
    registry.mark_incompatible("b", "failed again");
    let models = vec![
        PricingInfo { model_id: "a".to_string() },
        PricingInfo { model_id: "b".to_string() },
        PricingInfo { model_id: "deepseek/deepseek-r1-distill-x".to_string() },
        PricingInfo { model_id: "c".to_string() },
    ];
    let kept: Vec<String> =
        registry.filter_compatible(&models).iter().map(|m| m.model_id.clone()).collect();
    assert_eq!(kept, vec!["a".to_string(), "c".to_string()]);
}
