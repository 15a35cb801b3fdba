//! Registry of architectures and tensor formats: what can be executed and what
//! can only be inspected and planned.

use vstd::prelude::*;

use crate::gguf::GgmlType;
use crate::text;

verus! {

#[derive(Debug, Clone, Copy, PartialEq, Eq, Structural)]
pub enum RunSupport {
    Supported,
    InspectPlanOnly,
}

#[derive(Debug, Clone, Copy, PartialEq, Eq, Structural)]
pub struct ArchitectureCapability {
    pub run: RunSupport,
}

/// The registry: `llama` and `qwen2` run; `qwen3`, `qwen35`, `gemma` and `phi`
/// are known for inspection and planning only.
pub open spec fn capability_of(architecture: Seq<char>) -> Option<ArchitectureCapability> {
    if architecture == "llama"@ || architecture == "qwen2"@ {
        Some(ArchitectureCapability { run: RunSupport::Supported })
    } else if architecture == "qwen3"@ || architecture == "qwen35"@ || architecture == "gemma"@
        || architecture == "phi"@ {
        Some(ArchitectureCapability { run: RunSupport::InspectPlanOnly })
    } else {
        None
    }
}

pub fn architecture_capability(architecture: &str) -> (capability: Option<ArchitectureCapability>)
    ensures
        capability == capability_of(architecture@),
{
    if text::str_equal(architecture, "llama") || text::str_equal(architecture, "qwen2") {
        Some(ArchitectureCapability { run: RunSupport::Supported })
    } else if text::str_equal(architecture, "qwen3") || text::str_equal(architecture, "qwen35")
        || text::str_equal(architecture, "gemma") || text::str_equal(architecture, "phi") {
        Some(ArchitectureCapability { run: RunSupport::InspectPlanOnly })
    } else {
        None
    }
}

/// The tensor formats that inference computes with.
pub open spec fn inference_format(ggml_type: GgmlType) -> bool {
    match ggml_type {
        GgmlType::F32 | GgmlType::F16 | GgmlType::BF16 | GgmlType::Q4_0 | GgmlType::Q8_0
        | GgmlType::Q2_K | GgmlType::Q3_K | GgmlType::Q4_K | GgmlType::Q5_K | GgmlType::Q6_K
        | GgmlType::Q8_K => true,
        _ => false,
    }
}

pub fn ggml_type_supported_for_inference(ggml_type: GgmlType) -> (supported: bool)
    ensures
        supported == inference_format(ggml_type),
{
    match ggml_type {
        GgmlType::F32 | GgmlType::F16 | GgmlType::BF16 | GgmlType::Q4_0 | GgmlType::Q8_0
        | GgmlType::Q2_K | GgmlType::Q3_K | GgmlType::Q4_K | GgmlType::Q5_K | GgmlType::Q6_K
        | GgmlType::Q8_K => true,
        _ => false,
    }
}

/// Which architectures run, which can be inspected and planned only, and that no
/// other is known.
pub proof fn lemma_architectures(architecture: Seq<char>)
    ensures
        ({
            let runs = architecture == "llama"@ || architecture == "qwen2"@;
            let shown = architecture == "qwen3"@ || architecture == "qwen35"@ || architecture
                == "gemma"@ || architecture == "phi"@;
            &&& capability_of(architecture) is Some <==> runs || shown
            &&& runs ==> capability_of(architecture)->0.run == RunSupport::Supported
            &&& shown ==> capability_of(architecture)->0.run == RunSupport::InspectPlanOnly
        }),
{
    reveal_strlit("llama");
    reveal_strlit("qwen2");
    reveal_strlit("qwen3");
    reveal_strlit("qwen35");
    reveal_strlit("gemma");
    reveal_strlit("phi");
    assert("llama"@[0] == 'l' && "gemma"@[0] == 'g' && "phi"@[0] == 'p');
    assert("qwen2"@[0] == 'q' && "qwen2"@[4] == '2' && "qwen3"@[4] == '3' && "qwen35"@[4] == '3');
}

/// The formats that can be run are those that have a resident form.
pub proof fn lemma_formats(ggml_type: GgmlType, file_bytes: u64)
    ensures
        inference_format(ggml_type) <==> crate::gguf::resident_bytes_spec(ggml_type, 0, file_bytes)
            is Ok,
        inference_format(ggml_type) <==> !(ggml_type == GgmlType::Q4_1 || ggml_type
            == GgmlType::Q5_0 || ggml_type == GgmlType::Q5_1 || ggml_type == GgmlType::Q8_1
            || ggml_type is Other),
{
}

} // verus!
