//! The fixed set of prediction targets a model can be trained against.

use vstd::prelude::*;

verus! {

/// One of the five optional numeric label fields a record may carry.
#[derive(Debug, Clone, PartialEq, Eq, Hash, Structural)]
pub enum TargetField {
    Clinician,
    GPT4_0,
    LLAMA,
    GEMINI,
    DDXSNOMED,
}

impl TargetField {
    /// Every target, in the fixed order models are trained and reported in.
    pub fn all() -> (v: Vec<TargetField>)
        ensures
            v@.len() == 5,
            v@[0] == TargetField::Clinician,
            v@[1] == TargetField::GPT4_0,
            v@[2] == TargetField::LLAMA,
            v@[3] == TargetField::GEMINI,
            v@[4] == TargetField::DDXSNOMED,
    {
        let mut v: Vec<TargetField> = Vec::new();
        v.push(TargetField::Clinician);
        v.push(TargetField::GPT4_0);
        v.push(TargetField::LLAMA);
        v.push(TargetField::GEMINI);
        v.push(TargetField::DDXSNOMED);
        v
    }

    /// The display name of the target, as it appears in report headers.
    pub fn name(&self) -> (r: &'static str)
        ensures
            r@ == match self {
                TargetField::Clinician => "Clinician"@,
                TargetField::GPT4_0 => "GPT4.0"@,
                TargetField::LLAMA => "LLAMA"@,
                TargetField::GEMINI => "GEMINI"@,
                TargetField::DDXSNOMED => "DDX SNOMED"@,
            },
    {
        match self {
            TargetField::Clinician => "Clinician",
            TargetField::GPT4_0 => "GPT4.0",
            TargetField::LLAMA => "LLAMA",
            TargetField::GEMINI => "GEMINI",
            TargetField::DDXSNOMED => "DDX SNOMED",
        }
    }
}

} // verus!
