use decon::pipeline::identify::IdentifyError;

#[test]
fn identify_error_display_is_sensible() {
    let e = IdentifyError::NoAbstractions;
    assert_eq!(e.to_string(), "no abstractions found in LLM output");
    let e = IdentifyError::Parse("bad yaml".to_string());
    assert!(e.to_string().contains("bad yaml"));
    let e = IdentifyError::FileIndexOutOfRange { index: 5, total: 3 };
    assert!(e.to_string().contains("5"));
    assert!(e.to_string().contains("3"));
}
