use decon::abstraction::Tier;

#[test]
fn tier_display_and_from_str() {
    for tier in [Tier::S, Tier::M, Tier::L] {
        assert_eq!(tier.to_string(), tier.as_str());
        assert_eq!(tier.as_str().parse::<Tier>().unwrap(), tier);
    }
    assert!("nope".parse::<Tier>().is_err());
}

