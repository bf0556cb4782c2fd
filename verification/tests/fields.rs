use gbtree::fields::TargetField;

#[test]
fn all_targets_in_fixed_order() {
    let all = TargetField::all();
    assert_eq!(all.len(), 5);
    assert_eq!(all[0], TargetField::Clinician);
    assert_eq!(all[1], TargetField::GPT4_0);
    assert_eq!(all[2], TargetField::LLAMA);
    assert_eq!(all[3], TargetField::GEMINI);
    assert_eq!(all[4], TargetField::DDXSNOMED);
}

#[test]
fn display_names() {
    assert_eq!(TargetField::Clinician.name(), "Clinician");
    assert_eq!(TargetField::GPT4_0.name(), "GPT4.0");
    assert_eq!(TargetField::LLAMA.name(), "LLAMA");
    assert_eq!(TargetField::GEMINI.name(), "GEMINI");
    assert_eq!(TargetField::DDXSNOMED.name(), "DDX SNOMED");
}
