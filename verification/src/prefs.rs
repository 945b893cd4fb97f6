//! The static ranked list of preferred free models, best first.  It is a
//! tie-break ranking and a fallback catalog, not the source of truth for
//! what exists.

use vstd::prelude::*;

verus! {

/// The ranked preference list, best model first.
pub open spec fn spec_preferred_models() -> Seq<Seq<char>> {
    seq![
        "meta-llama/llama-4-maverick:free"@,
        "meta-llama/llama-4-scout:free"@,
        "nvidia/llama-3.1-nemotron-ultra-253b-v1:free"@,
        "qwen/qwen3-235b-a22b:free"@,
        "meta-llama/llama-3.1-405b:free"@,
        "nvidia/llama-3.3-nemotron-super-49b-v1:free"@,
        "meta-llama/llama-3.3-70b-instruct:free"@,
        "deepseek/deepseek-r1-distill-llama-70b:free"@,
        "shisa-ai/shisa-v2-llama3.3-70b:free"@,
        "qwen/qwen-2.5-72b-instruct:free"@,
        "qwen/qwen2.5-vl-72b-instruct:free"@,
        "bytedance-research/ui-tars-72b:free"@,
        "featherless/qwerky-72b:free"@,
        "thudm/glm-4-32b:free"@,
        "thudm/glm-z1-32b:free"@,
        "qwen/qwen3-32b:free"@,
        "qwen/qwen3-30b-a3b:free"@,
        "qwen/qwq-32b:free"@,
        "qwen/qwq-32b-preview:free"@,
        "deepseek/deepseek-r1-distill-qwen-32b:free"@,
        "arliai/qwq-32b-arliai-rpr-v1:free"@,
        "qwen/qwen2.5-vl-32b-instruct:free"@,
        "open-r1/olympiccoder-32b:free"@,
        "qwen/qwen-2.5-coder-32b-instruct:free"@,
        "mistralai/mistral-small-3.1-24b-instruct:free"@,
        "mistralai/mistral-small-24b-instruct-2501:free"@,
        "cognitivecomputations/dolphin3.0-r1-mistral-24b:free"@,
        "cognitivecomputations/dolphin3.0-mistral-24b:free"@,
        "google/gemma-3-27b-it:free"@,
        "google/gemini-2.0-flash-exp:free"@,
        "rekaai/reka-flash-3:free"@,
        "qwen/qwen3-14b:free"@,
        "deepseek/deepseek-r1-distill-qwen-14b:free"@,
        "agentica-org/deepcoder-14b-preview:free"@,
        "moonshotai/moonlight-16b-a3b-instruct:free"@,
        "opengvlab/internvl3-14b:free"@,
        "google/gemma-3-12b-it:free"@,
        "meta-llama/llama-3.2-11b-vision-instruct:free"@,
        "thudm/glm-4-9b:free"@,
        "thudm/glm-z1-9b:free"@,
        "google/gemma-2-9b-it:free"@,
        "qwen/qwen3-8b:free"@,
        "meta-llama/llama-3.1-8b-instruct:free"@,
        "nousresearch/deephermes-3-llama-3-8b-preview:free"@,
        "deepseek/deepseek-r1:free"@,
        "microsoft/phi-4-reasoning-plus:free"@,
        "microsoft/phi-4-reasoning:free"@,
        "deepseek/deepseek-v3-base:free"@,
        "deepseek/deepseek-r1-zero:free"@,
        "deepseek/deepseek-prover-v2:free"@,
        "deepseek/deepseek-chat-v3-0324:free"@,
        "deepseek/deepseek-chat:free"@,
        "microsoft/mai-ds-r1:free"@,
        "tngtech/deepseek-r1t-chimera:free"@,
        "mistralai/mistral-nemo:free"@,
        "qwen/qwen3-4b:free"@,
        "google/gemma-3-4b-it:free"@,
        "qwen/qwen-2.5-7b-instruct:free"@,
        "mistralai/mistral-7b-instruct:free"@,
        "qwen/qwen-2.5-vl-7b-instruct:free"@,
        "opengvlab/internvl3-2b:free"@,
        "google/gemma-3-1b-it:free"@,
        "meta-llama/llama-3.2-3b-instruct:free"@,
        "allenai/molmo-7b-d:free"@,
        "qwen/qwen3-1.7b:free"@,
        "qwen/qwen2.5-vl-3b-instruct:free"@,
        "meta-llama/llama-3.2-1b-instruct:free"@,
        "qwen/qwen3-0.6b-04-28:free"@,
        "google/learnlm-1.5-pro-experimental:free"@,
        "moonshotai/kimi-vl-a3b-thinking:free"@,
    ]
}

/// Builds the ranked preference list, best model first.
#[verifier::rlimit(60)]
pub fn preferred_free_models() -> (r: Vec<String>)
    ensures
        r.deep_view() == spec_preferred_models(),
{
    let mut v: Vec<String> = Vec::new();
    v.push("meta-llama/llama-4-maverick:free".to_owned());
    v.push("meta-llama/llama-4-scout:free".to_owned());
    v.push("nvidia/llama-3.1-nemotron-ultra-253b-v1:free".to_owned());
    v.push("qwen/qwen3-235b-a22b:free".to_owned());
    v.push("meta-llama/llama-3.1-405b:free".to_owned());
    v.push("nvidia/llama-3.3-nemotron-super-49b-v1:free".to_owned());
    v.push("meta-llama/llama-3.3-70b-instruct:free".to_owned());
    v.push("deepseek/deepseek-r1-distill-llama-70b:free".to_owned());
    v.push("shisa-ai/shisa-v2-llama3.3-70b:free".to_owned());
    v.push("qwen/qwen-2.5-72b-instruct:free".to_owned());
    v.push("qwen/qwen2.5-vl-72b-instruct:free".to_owned());
    v.push("bytedance-research/ui-tars-72b:free".to_owned());
    v.push("featherless/qwerky-72b:free".to_owned());
    v.push("thudm/glm-4-32b:free".to_owned());
    v.push("thudm/glm-z1-32b:free".to_owned());
    v.push("qwen/qwen3-32b:free".to_owned());
    v.push("qwen/qwen3-30b-a3b:free".to_owned());
    v.push("qwen/qwq-32b:free".to_owned());
    v.push("qwen/qwq-32b-preview:free".to_owned());
    v.push("deepseek/deepseek-r1-distill-qwen-32b:free".to_owned());
    v.push("arliai/qwq-32b-arliai-rpr-v1:free".to_owned());
    v.push("qwen/qwen2.5-vl-32b-instruct:free".to_owned());
    v.push("open-r1/olympiccoder-32b:free".to_owned());
    v.push("qwen/qwen-2.5-coder-32b-instruct:free".to_owned());
    v.push("mistralai/mistral-small-3.1-24b-instruct:free".to_owned());
    v.push("mistralai/mistral-small-24b-instruct-2501:free".to_owned());
    v.push("cognitivecomputations/dolphin3.0-r1-mistral-24b:free".to_owned());
    v.push("cognitivecomputations/dolphin3.0-mistral-24b:free".to_owned());
    v.push("google/gemma-3-27b-it:free".to_owned());
    v.push("google/gemini-2.0-flash-exp:free".to_owned());
    v.push("rekaai/reka-flash-3:free".to_owned());
    v.push("qwen/qwen3-14b:free".to_owned());
    v.push("deepseek/deepseek-r1-distill-qwen-14b:free".to_owned());
    v.push("agentica-org/deepcoder-14b-preview:free".to_owned());
    v.push("moonshotai/moonlight-16b-a3b-instruct:free".to_owned());
    v.push("opengvlab/internvl3-14b:free".to_owned());
    v.push("google/gemma-3-12b-it:free".to_owned());
    v.push("meta-llama/llama-3.2-11b-vision-instruct:free".to_owned());
    v.push("thudm/glm-4-9b:free".to_owned());
    v.push("thudm/glm-z1-9b:free".to_owned());
    v.push("google/gemma-2-9b-it:free".to_owned());
    v.push("qwen/qwen3-8b:free".to_owned());
    v.push("meta-llama/llama-3.1-8b-instruct:free".to_owned());
    v.push("nousresearch/deephermes-3-llama-3-8b-preview:free".to_owned());
    v.push("deepseek/deepseek-r1:free".to_owned());
    v.push("microsoft/phi-4-reasoning-plus:free".to_owned());
    v.push("microsoft/phi-4-reasoning:free".to_owned());
    v.push("deepseek/deepseek-v3-base:free".to_owned());
    v.push("deepseek/deepseek-r1-zero:free".to_owned());
    v.push("deepseek/deepseek-prover-v2:free".to_owned());
    v.push("deepseek/deepseek-chat-v3-0324:free".to_owned());
    v.push("deepseek/deepseek-chat:free".to_owned());
    v.push("microsoft/mai-ds-r1:free".to_owned());
    v.push("tngtech/deepseek-r1t-chimera:free".to_owned());
    v.push("mistralai/mistral-nemo:free".to_owned());
    v.push("qwen/qwen3-4b:free".to_owned());
    v.push("google/gemma-3-4b-it:free".to_owned());
    v.push("qwen/qwen-2.5-7b-instruct:free".to_owned());
    v.push("mistralai/mistral-7b-instruct:free".to_owned());
    v.push("qwen/qwen-2.5-vl-7b-instruct:free".to_owned());
    v.push("opengvlab/internvl3-2b:free".to_owned());
    v.push("google/gemma-3-1b-it:free".to_owned());
    v.push("meta-llama/llama-3.2-3b-instruct:free".to_owned());
    v.push("allenai/molmo-7b-d:free".to_owned());
    v.push("qwen/qwen3-1.7b:free".to_owned());
    v.push("qwen/qwen2.5-vl-3b-instruct:free".to_owned());
    v.push("meta-llama/llama-3.2-1b-instruct:free".to_owned());
    v.push("qwen/qwen3-0.6b-04-28:free".to_owned());
    v.push("google/learnlm-1.5-pro-experimental:free".to_owned());
    v.push("moonshotai/kimi-vl-a3b-thinking:free".to_owned());
    proof {
        assert(v.deep_view() =~= spec_preferred_models());
    }
    v
}

/// The fallback catalog used whenever the remote directory cannot be
/// consulted: the whole preference list.  The error case would only arise
/// from an empty fallback list and so never does.
pub fn fallback_to_preferred_models() -> (r: Result<Vec<String>, String>)
    ensures
        r is Ok,
        match r {
            Ok(v) => v.deep_view() == spec_preferred_models(),
            Err(_) => false,
        },
{
    Ok(preferred_free_models())
}

} // verus!
