use decon::diagrams::{
    learning_path_flowchart, module_inventory_flowchart, module_inventory_from_counts,
    system_map_flowchart, DiagramEdge,
};
use decon::mermaid::validate_mermaid;
use decon::module::{ModuleCount, ModuleKey};

#[test]
fn module_inventory_is_valid_and_deterministic() {
    let keys = [
        ModuleKey::new("apps/alpha"),
        ModuleKey::new("apps/beta"),
        ModuleKey::new("_root"),
    ];
    let a = module_inventory_flowchart(&keys);
    let b = module_inventory_flowchart(&keys);
    assert_eq!(a, b);
    assert!(a.starts_with("flowchart"));
    assert!(validate_mermaid(&a).valid, "{a}");
    assert!(a.contains("M0"));
    assert!(a.contains("ROOT"));
    // No forbidden chars
    assert!(!a.contains('"'));
    assert!(!a.contains('#'));
}

#[test]
fn empty_inventory_still_valid() {
    let m = module_inventory_flowchart(&[]);
    assert!(validate_mermaid(&m).valid, "{m}");
    assert!(m.contains("ROOT"));
}

#[test]
fn system_map_with_edges() {
    let modules = [ModuleKey::new("apps/api"), ModuleKey::new("apps/web")];
    let edges = [DiagramEdge {
        from: "apps/web".into(),
        to: "apps/api".into(),
        label: Some(r#"HTTP "call""#.into()),
    }];
    let m = system_map_flowchart(&modules, &edges);
    assert!(validate_mermaid(&m).valid, "{m}");
    assert!(!m.contains('"'), "{m}");
    assert!(m.contains("N0") || m.contains("N1"), "{m}");
}

#[test]
fn learning_path_links_in_order() {
    let m = learning_path_flowchart(&["Setup", "Overview", "Deep dive"]);
    assert!(validate_mermaid(&m).valid, "{m}");
    assert!(m.contains("S0"));
    assert!(m.contains("S1"));
    assert!(m.contains("S0 --> S1"), "{m}");
    assert!(m.contains("Setup"));
}

#[test]
fn learning_path_empty() {
    let m = learning_path_flowchart(&[]);
    assert!(validate_mermaid(&m).valid, "{m}");
}

#[test]
fn inventory_from_counts_matches_keys() {
    let counts = vec![
        ModuleCount {
            key: ModuleKey::new("apps/a"),
            count: 2,
        },
        ModuleCount {
            key: ModuleKey::new("_root"),
            count: 1,
        },
    ];
    let from_counts = module_inventory_from_counts(&counts);
    let from_keys =
        module_inventory_flowchart(&[ModuleKey::new("apps/a"), ModuleKey::new("_root")]);
    assert_eq!(from_counts, from_keys);
}

