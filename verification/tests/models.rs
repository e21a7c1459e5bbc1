use rubber_duck::models::{model_or_default, models, DEFAULT_MODEL};

#[test]
fn models_are_listed_in_order() {
    let ms = models();
    assert_eq!(ms.len(), 6);
    assert_eq!(ms[0].id, "deepseek/deepseek-chat-v4-0324:free");
    assert_eq!(ms[0].name, "DeepSeek v4 Flash");
    assert_eq!(ms[0].context_window, 131072);
    assert_eq!(ms[4].id, "meta-llama/llama-4-scout");
    assert_eq!(ms[4].context_window, 512000);
    assert_eq!(ms[5].name, "Qwen 3 235B");
}

#[test]
fn default_model_is_first_listed() {
    assert_eq!(models()[0].id, DEFAULT_MODEL);
}

#[test]
fn setting_overrides_default_model() {
    assert_eq!(model_or_default(None), DEFAULT_MODEL);
    assert_eq!(model_or_default(Some("openai/gpt-4o".to_string())), "openai/gpt-4o");
}
