//! The chat models that can be picked, and the one used when none was picked.
use vstd::prelude::*;

verus! {

/// A chat model offered by the completion service.
pub struct ModelInfo {
    pub id: &'static str,
    pub name: &'static str,
    pub context_window: u32,
}

/// The model used when the settings name none.
pub const DEFAULT_MODEL: &'static str = "deepseek/deepseek-chat-v4-0324:free";

/// The identifiers of the offered models, in the order they are listed.
pub open spec fn model_ids() -> Seq<Seq<char>> {
    seq![
        "deepseek/deepseek-chat-v4-0324:free"@,
        "deepseek/deepseek-chat"@,
        "openai/gpt-4o"@,
        "openai/gpt-4o-mini"@,
        "meta-llama/llama-4-scout"@,
        "qwen/qwen3-235b"@,
    ]
}

/// The display names of the offered models, in the same order.
pub open spec fn model_names() -> Seq<Seq<char>> {
    seq![
        "DeepSeek v4 Flash"@,
        "DeepSeek v4"@,
        "GPT-4o"@,
        "GPT-4o Mini"@,
        "Llama 4 Scout"@,
        "Qwen 3 235B"@,
    ]
}

/// The context windows of the offered models, in the same order.
pub open spec fn model_windows() -> Seq<u32> {
    seq![131072u32, 131072, 128000, 128000, 512000, 131072]
}

fn model(id: &'static str, name: &'static str, context_window: u32) -> (m: ModelInfo)
    ensures
        m.id@ == id@,
        m.name@ == name@,
        m.context_window == context_window,
{
    ModelInfo { id, name, context_window }
}

/// The offered models, in the order the picker lists them.
pub fn models() -> (r: Vec<ModelInfo>)
    ensures
        r.len() == 6,
        forall|i: int|
            0 <= i < 6 ==> {
                &&& (#[trigger] r@[i]).id@ == model_ids()[i]
                &&& r@[i].name@ == model_names()[i]
                &&& r@[i].context_window == model_windows()[i]
            },
{
    let mut r: Vec<ModelInfo> = Vec::new();
    r.push(model("deepseek/deepseek-chat-v4-0324:free", "DeepSeek v4 Flash", 131072));
    r.push(model("deepseek/deepseek-chat", "DeepSeek v4", 131072));
    r.push(model("openai/gpt-4o", "GPT-4o", 128000));
    r.push(model("openai/gpt-4o-mini", "GPT-4o Mini", 128000));
    r.push(model("meta-llama/llama-4-scout", "Llama 4 Scout", 512000));
    r.push(model("qwen/qwen3-235b", "Qwen 3 235B", 131072));
    r
}

/// The model named by the settings, or the default model when they name none.
pub fn model_or_default(setting: Option<String>) -> (r: String)
    ensures
        r@ == (match setting {
            Some(s) => s@,
            None => DEFAULT_MODEL@,
        }),
{
    match setting {
        Some(s) => s,
        None => DEFAULT_MODEL.to_string(),
    }
}

} // verus!
