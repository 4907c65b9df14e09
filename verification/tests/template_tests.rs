//! The `${NAME}` substitution engine.

use mcpeek::template::TemplateProcessor;

fn pairs(list: Vec<(&str, &str)>) -> Vec<(String, String)> {
    list.into_iter().map(|(k, v)| (k.to_string(), v.to_string())).collect()
}

#[test]
fn test_substitute_simple() {
    let processor = TemplateProcessor::new(pairs(vec![("API_KEY", "secret123")]));

    let result = processor.substitute("Bearer ${API_KEY}").unwrap();
    assert_eq!(result, "Bearer secret123");
}

#[test]
fn test_substitute_multiple() {
    let processor = TemplateProcessor::new(pairs(vec![("HOST", "localhost"), ("PORT", "8080")]));

    let result = processor.substitute("http://${HOST}:${PORT}/api").unwrap();
    assert_eq!(result, "http://localhost:8080/api");
}

#[test]
fn test_substitute_missing_var() {
    let processor = TemplateProcessor::new(Vec::new());
    let result = processor.substitute("${MISSING}");
    assert!(result.is_err());
}

#[test]
fn test_missing_var_is_named() {
    let processor = TemplateProcessor::new(pairs(vec![("PRESENT", "x")]));
    let err = processor.substitute("${PRESENT} and ${ABSENT}").unwrap_err();
    assert_eq!(err.missing, "ABSENT");
}

#[test]
fn test_substitute_env_var() {
    let processor =
        TemplateProcessor::with_env(Vec::new(), pairs(vec![("TEST_ENV_VAR", "from_env")]));

    let result = processor.substitute("Value: ${TEST_ENV_VAR}").unwrap();
    assert_eq!(result, "Value: from_env");
}

#[test]
fn test_manual_overrides_env() {
    let processor = TemplateProcessor::with_env(
        pairs(vec![("TEST_VAR", "from_manual")]),
        pairs(vec![("TEST_VAR", "from_env")]),
    );

    let result = processor.substitute("${TEST_VAR}").unwrap();
    assert_eq!(result, "from_manual");
}

#[test]
fn test_bearer_token_precedence() {
    // Manifest value alone.
    let manifest_only = TemplateProcessor::new(pairs(vec![("TOKEN", "abc")]));
    assert_eq!(manifest_only.substitute("Bearer ${TOKEN}").unwrap(), "Bearer abc");

    // Environment value alone.
    let env_only = TemplateProcessor::with_env(Vec::new(), pairs(vec![("TOKEN", "xyz")]));
    assert_eq!(env_only.substitute("Bearer ${TOKEN}").unwrap(), "Bearer xyz");

    // Both set: the manifest wins.
    let both = TemplateProcessor::with_env(
        pairs(vec![("TOKEN", "abc")]),
        pairs(vec![("TOKEN", "xyz")]),
    );
    assert_eq!(both.substitute("Bearer ${TOKEN}").unwrap(), "Bearer abc");
}

#[test]
fn test_malformed_placeholders_stand_as_written() {
    let processor = TemplateProcessor::new(pairs(vec![("A", "1")]));
    assert_eq!(processor.substitute("${").unwrap(), "${");
    assert_eq!(processor.substitute("${}").unwrap(), "${}");
    assert_eq!(processor.substitute("${1BAD}").unwrap(), "${1BAD}");
    assert_eq!(processor.substitute("$A ${A}").unwrap(), "$A 1");
}

#[test]
fn test_values_are_not_rescanned() {
    let processor = TemplateProcessor::new(pairs(vec![("A", "${B}"), ("B", "never")]));
    assert_eq!(processor.substitute("${A}").unwrap(), "${B}");
}

#[test]
fn test_substitute_map() {
    let processor = TemplateProcessor::new(pairs(vec![("V", "x")]));
    let out = processor
        .substitute_map(&pairs(vec![("first", "${V}1"), ("second", "2${V}")]))
        .unwrap();
    assert_eq!(out.len(), 2);
    assert_eq!(out[0].0, "first");
    assert_eq!(out[0].1, "x1");
    assert_eq!(out[1].0, "second");
    assert_eq!(out[1].1, "2x");
}
