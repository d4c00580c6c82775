use decon::extract::{extract_json_block, extract_yaml_block, ExtractError};


#[test]
fn clean_fenced_yaml() {
    let input = "```yaml\nname: foo\ntier: S\n```";
    assert_eq!(extract_yaml_block(input).unwrap(), "name: foo\ntier: S");
}

#[test]
fn fenced_yaml_with_language_tag() {
    let input = "```yaml\nname: foo\ntier: S\n```";
    assert_eq!(extract_yaml_block(input).unwrap(), "name: foo\ntier: S");
}

#[test]
fn fenced_yaml_with_bare_fence() {
    let input = "```\nname: foo\n```";
    assert_eq!(extract_yaml_block(input).unwrap(), "name: foo");
}

#[test]
fn yaml_with_leading_prose() {
    let input = "Here are the abstractions:\n```yaml\nname: foo\n```";
    assert_eq!(extract_yaml_block(input).unwrap(), "name: foo");
}

#[test]
fn yaml_with_trailing_prose() {
    let input = "```yaml\nname: foo\n```\nThat's all.";
    assert_eq!(extract_yaml_block(input).unwrap(), "name: foo");
}

#[test]
fn clean_bare_yaml() {
    let input = "name: foo\ntier: S";
    assert_eq!(extract_yaml_block(input).unwrap(), "name: foo\ntier: S");
}

#[test]
fn unbalanced_yaml_fence() {
    let input = "```yaml\nname: foo";
    assert_eq!(
        extract_yaml_block(input),
        Err(ExtractError::UnbalancedFence)
    );
}

#[test]
fn no_yaml_block_at_all() {
    let input = "Just some prose with no structure";
    assert_eq!(extract_yaml_block(input), Err(ExtractError::NoBlockFound));
}

#[test]
fn empty_text_yaml() {
    assert_eq!(extract_yaml_block(""), Err(ExtractError::NoBlockFound));
}

#[test]
fn yaml_extra_whitespace_inside_fence() {
    let input = "```yaml\n\n  name: foo\n  tier: S\n\n```";
    assert_eq!(extract_yaml_block(input).unwrap(), "name: foo\ntier: S");
}

#[test]
fn yaml_multiple_fences_extracts_first() {
    let input = "```yaml\nname: foo\n```\n```yaml\nname: bar\n```";
    assert_eq!(extract_yaml_block(input).unwrap(), "name: foo");
}

#[test]
fn yaml_prefers_yaml_tag_over_bare_fence() {
    let input = "```\nignored\n```\n```yaml\nname: foo\n```";
    assert_eq!(extract_yaml_block(input).unwrap(), "name: foo");
}

#[test]
fn clean_fenced_json() {
    let input = "```json\n{\"name\": \"foo\"}\n```";
    assert_eq!(extract_json_block(input).unwrap(), "{\"name\": \"foo\"}");
}

#[test]
fn fenced_json_with_bare_fence() {
    let input = "```\n{\"name\": \"foo\"}\n```";
    assert_eq!(extract_json_block(input).unwrap(), "{\"name\": \"foo\"}");
}

#[test]
fn json_with_leading_prose() {
    let input = "Here is the JSON:\n```json\n{\"name\": \"foo\"}\n```";
    assert_eq!(extract_json_block(input).unwrap(), "{\"name\": \"foo\"}");
}

#[test]
fn json_with_trailing_prose() {
    let input = "```json\n{\"name\": \"foo\"}\n```\nThat's all.";
    assert_eq!(extract_json_block(input).unwrap(), "{\"name\": \"foo\"}");
}

#[test]
fn json_with_nested_objects() {
    let input = "```json\n{\"a\": {\"b\": 1}}\n```";
    assert_eq!(extract_json_block(input).unwrap(), "{\"a\": {\"b\": 1}}");
}

#[test]
fn bare_json_object() {
    let input = "{\"name\": \"foo\"}";
    assert_eq!(extract_json_block(input).unwrap(), "{\"name\": \"foo\"}");
}

#[test]
fn bare_json_array() {
    let input = "[1, 2, 3]";
    assert_eq!(extract_json_block(input).unwrap(), "[1, 2, 3]");
}

#[test]
fn bare_json_with_leading_prose() {
    let input = "Here is the data: {\"a\": 1} done";
    assert_eq!(extract_json_block(input).unwrap(), "{\"a\": 1}");
}

#[test]
fn bare_json_nested_array_in_object() {
    let input = "{\"a\": [1, 2]}";
    assert_eq!(extract_json_block(input).unwrap(), "{\"a\": [1, 2]}");
}

#[test]
fn bare_json_with_string_containing_brace() {
    let input = "{\"a\": \"}\"}";
    assert_eq!(extract_json_block(input).unwrap(), "{\"a\": \"}\"}");
}

#[test]
fn unbalanced_json_fence() {
    let input = "```json\n{\"name\": \"foo\"}";
    assert_eq!(
        extract_json_block(input),
        Err(ExtractError::UnbalancedFence)
    );
}

#[test]
fn no_json_block_at_all() {
    let input = "Just some prose with no structure";
    assert_eq!(extract_json_block(input), Err(ExtractError::NoBlockFound));
}

#[test]
fn empty_text_json() {
    assert_eq!(extract_json_block(""), Err(ExtractError::NoBlockFound));
}

#[test]
fn json_multiple_fences_extracts_first() {
    let input = "```json\n{\"a\": 1}\n```\n```json\n{\"b\": 2}\n```";
    assert_eq!(extract_json_block(input).unwrap(), "{\"a\": 1}");
}

#[test]
fn json_prefers_json_tag_over_bare_fence() {
    let input = "```\nignored\n```\n```json\n{\"a\": 1}\n```";
    assert_eq!(extract_json_block(input).unwrap(), "{\"a\": 1}");
}

#[test]
fn json_extra_whitespace_inside_fence() {
    let input = "```json\n\n  {\"a\": 1}\n\n```";
    assert_eq!(extract_json_block(input).unwrap(), "{\"a\": 1}");
}

#[test]
fn whitespace_only_text_yaml() {
    assert_eq!(
        extract_yaml_block("   \n  \n"),
        Err(ExtractError::NoBlockFound)
    );
}

#[test]
fn whitespace_only_text_json() {
    assert_eq!(
        extract_json_block("   \n  \n"),
        Err(ExtractError::NoBlockFound)
    );
}

#[test]
fn bare_json_unbalanced_returns_no_block() {
    let input = "{\"a\": 1";
    assert_eq!(extract_json_block(input), Err(ExtractError::NoBlockFound));
}

#[test]
fn fence_with_trailing_whitespace_on_tag_line() {
    let input = "```yaml   \nname: foo\n```";
    assert_eq!(extract_yaml_block(input).unwrap(), "name: foo");
}
