use decon::VERSION;

#[test]
fn lib_version_is_not_empty() {
    assert!(!VERSION.is_empty());
}
