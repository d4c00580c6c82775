use decon::mermaid::{
    participant_line, sanitize_label, sanitize_markdown_mermaid_blocks, sanitize_mermaid,
    sequence_participant_lines, stable_node_id, validate_mermaid, MAX_LABEL_CHARS,
    MAX_SEQUENCE_PARTICIPANTS,
};

#[test]
fn sanitize_label_strips_forbidden_and_truncates() {
    assert_eq!(sanitize_label(r#"Foo "bar"; #baz"#), "Foo bar baz");
    let long = "a".repeat(100);
    assert_eq!(sanitize_label(&long).chars().count(), MAX_LABEL_CHARS);
}

#[test]
fn sanitize_label_drops_brackets_and_collapses_space() {
    assert_eq!(sanitize_label("  Hello   [world]  (x)  "), "Hello world x");
}

#[test]
fn sanitize_label_drops_non_ascii_punctuation() {
    let s = sanitize_label("café—naïve");
    assert!(!s.contains('—'));
    assert!(!s.contains('"'));
}

#[test]
fn stable_node_id_formats() {
    assert_eq!(stable_node_id("A", 0), "A0");
    assert_eq!(stable_node_id("App", 3), "APP3");
    assert_eq!(stable_node_id("", 1), "N1");
    assert_eq!(stable_node_id("12", 0), "N0");
}

#[test]
fn participant_line_with_and_without_alias() {
    assert_eq!(
        participant_line("A0", "Auth Service"),
        "participant A0 as Auth Service"
    );
    assert_eq!(participant_line("A0", "A0"), "participant A0");
}

#[test]
fn sequence_participant_lines_caps_at_max() {
    let owned: Vec<(String, String)> = (0..10)
        .map(|i| (format!("P{i}"), format!("Service {i}")))
        .collect();
    let refs: Vec<(&str, &str)> = owned
        .iter()
        .map(|(a, b)| (a.as_str(), b.as_str()))
        .collect();
    let lines = sequence_participant_lines(&refs);
    assert_eq!(lines.len(), MAX_SEQUENCE_PARTICIPANTS);
}

#[test]
fn validate_accepts_simple_flowchart() {
    let r = validate_mermaid("flowchart LR\n  A0[Start] --> A1[End]");
    assert!(r.valid, "{:?}", r.issues);
}

#[test]
fn validate_rejects_quotes_and_unknown_kind() {
    let r = validate_mermaid("flowchart LR\n  A0[\"x\"]");
    assert!(!r.valid);
    assert!(r.issues.iter().any(|i| i.contains("quote")));

    let r2 = validate_mermaid("notADiagram\n  A --> B");
    assert!(!r2.valid);
}

#[test]
fn validate_rejects_too_many_sequence_participants() {
    let mut body = String::from("sequenceDiagram\n");
    for i in 0..8 {
        body.push_str(&format!("  participant P{i}\n"));
    }
    body.push_str("  P0->>P1: hi\n");
    let r = validate_mermaid(&body);
    assert!(!r.valid);
    assert!(r.issues.iter().any(|i| i.contains("participants")));
}

#[test]
fn sanitize_mermaid_removes_quotes_and_hash() {
    let raw = "flowchart LR\n  A0[Hello \"world\"; #x] --> A1[End]";
    let clean = sanitize_mermaid(raw);
    assert!(!clean.contains('"'), "{clean}");
    assert!(!clean.contains('#'), "{clean}");
    assert!(!clean.contains(';'), "{clean}");
    let v = validate_mermaid(&clean);
    assert!(v.valid, "{:?}", v.issues);
}

#[test]
fn sanitize_mermaid_drops_extra_participants() {
    let mut raw = String::from("sequenceDiagram\n");
    for i in 0..8 {
        raw.push_str(&format!("  participant P{i} as Service {i}\n"));
    }
    raw.push_str("  P0->>P1: hi\n");
    raw.push_str("  P7->>P0: dangling should go\n");
    let clean = sanitize_mermaid(&raw);
    let count = clean
        .lines()
        .filter(|l| l.trim_start().starts_with("participant "))
        .count();
    assert_eq!(count, MAX_SEQUENCE_PARTICIPANTS);
    assert!(
        !clean.contains("P7"),
        "dangling participant refs must be dropped: {clean}"
    );
    assert!(clean.contains("P0->>P1"), "{clean}");
    assert!(validate_mermaid(&clean).valid, "{clean}");
}

#[test]
fn sanitize_mermaid_empty_input() {
    assert_eq!(sanitize_mermaid(""), "");
    assert_eq!(sanitize_mermaid("   \n  "), "");
}

#[test]
fn sanitize_markdown_fenced_blocks_table() {
    let cases = [
        ("no fences", "Just text", "Just text"),
        (
            "valid flowchart",
            "```mermaid\nflowchart LR\n  A0[Start]\n```",
            "```mermaid\nflowchart LR\n  A0[Start]\n```",
        ),
        (
            "quotes scrubbed",
            "```mermaid\nflowchart LR\n  A0[Say \"hi\"]\n```",
            "```mermaid\nflowchart LR\n  A0[Say hi]\n```",
        ),
    ];
    for (name, input, expected) in cases {
        let out = sanitize_markdown_mermaid_blocks(input);
        assert_eq!(out, expected, "case {name}");
    }
}

#[test]
fn sanitize_markdown_replaces_irrecoverable_block() {
    let md = "```mermaid\nnotAKind\n  A --> B\n```";
    let out = sanitize_markdown_mermaid_blocks(md);
    assert!(out.contains("Invalid diagram dropped"), "{out}");
    assert!(out.contains("flowchart LR"), "{out}");
}

#[test]
fn sequence_notes_and_actors_are_handled() {
    let raw = "sequenceDiagram\n\
  actor A0 as User\n\
  participant B0 as API\n\
  A0->>B0: call\n\
  note over A0,B0: handshake\n\
  note left of A0: client\n";
    let clean = sanitize_mermaid(raw);
    assert!(clean.contains("actor A0"), "{clean}");
    assert!(clean.contains("participant B0"), "{clean}");
    assert!(clean.contains("note over A0,B0"), "{clean}");
    assert!(validate_mermaid(&clean).valid, "{clean}");

    let mut big = String::from("sequenceDiagram\n");
    for i in 0..8 {
        big.push_str(&format!("  participant P{i}\n"));
    }
    big.push_str("  note over P0,P7: too many\n");
    big.push_str("  note left of P0: ok\n");
    let clean2 = sanitize_mermaid(&big);
    assert!(!clean2.contains("P7"), "{clean2}");
    assert!(clean2.contains("note left of P0"), "{clean2}");
}

#[test]
fn sanitize_label_only_non_ascii_punctuation() {
    assert_eq!(sanitize_label("——…"), "");
}


#[test]
fn sanitize_label_drops_characters_outside_safe_set() {
    assert_eq!(sanitize_label("café—naïve"), "cafnave");
    assert_eq!(sanitize_label("a\tb<c>d"), "a bcd");
}
