use codex_mcp::expand::expand_vars;
use codex_mcp::expand::is_alnum_or_underscore;
use codex_mcp::expand::is_alpha_or_underscore;
use codex_mcp::expand::is_valid_var_name;
use codex_mcp::expand::ExpandError;

fn table(pairs: &[(&str, &str)]) -> Vec<(String, String)> {
    pairs.iter().map(|(k, v)| (k.to_string(), v.to_string())).collect()
}

#[test]
fn test_expand_vars_simple() {
    let lookup = table(&[("USER", "alice")]);
    let res = expand_vars("/home/${USER}/bin", &lookup, "test");
    match res {
        Ok(s) => assert_eq!(s, "/home/alice/bin"),
        Err(e) => panic!("unexpected error: {}", e.message()),
    }
}

#[test]
fn test_expand_vars_with_default() {
    let lookup = table(&[]);
    let res = expand_vars("${REGION:-us-east}", &lookup, "test");
    match res {
        Ok(s) => assert_eq!(s, "us-east"),
        Err(e) => panic!("unexpected error: {}", e.message()),
    }
}

#[test]
fn test_expand_vars_missing_errors() {
    let lookup = table(&[]);
    let res = expand_vars("x${REQUIRED}y", &lookup, "test");
    let msg = match res {
        Ok(v) => panic!("expected error, got {v}"),
        Err(e) => e.message(),
    };
    assert!(msg.contains("environment variable `REQUIRED` not set"));
}

#[test]
fn test_expand_vars_multiple() {
    let lookup = table(&[("A", "1"), ("B", "2")]);
    let res = expand_vars("${A}-${B}-${C:-x}", &lookup, "test");
    match res {
        Ok(s) => assert_eq!(s, "1-2-x"),
        Err(e) => panic!("unexpected error: {}", e.message()),
    }
}

#[test]
fn test_expand_vars_invalid_name() {
    let lookup = table(&[]);
    let res = expand_vars("${1BAD}", &lookup, "test");
    let msg = match res {
        Ok(v) => panic!("expected error, got {v}"),
        Err(e) => e.message(),
    };
    assert!(msg.contains("invalid variable name"));
}

#[test]
fn test_expand_vars_unterminated() {
    let lookup = table(&[]);
    let res = expand_vars("abc ${FOO", &lookup, "test-file");
    let msg = match res {
        Ok(v) => panic!("expected error, got {v}"),
        Err(e) => e.message(),
    };
    assert!(msg.contains("unterminated variable expansion"));
    assert!(msg.contains("test-file"));
}

#[test]
fn expand_plain_text_is_unchanged() {
    let lookup = table(&[("A", "1")]);
    for s in ["", "plain", "$A and {B}", "cost: $5 {x}", "$", "end$"] {
        assert_eq!(expand_vars(s, &lookup, "t").unwrap(), s);
    }
}

#[test]
fn expand_keeps_non_ascii_text() {
    let lookup = table(&[("A", "ü")]);
    assert_eq!(expand_vars("é-${A}-日本", &lookup, "t").unwrap(), "é-ü-日本");
}

#[test]
fn expand_value_wins_over_default() {
    let lookup = table(&[("REGION", "eu")]);
    assert_eq!(expand_vars("${REGION:-us-east}", &lookup, "t").unwrap(), "eu");
}

#[test]
fn expand_default_is_literal() {
    let lookup = table(&[("A", "1")]);
    assert_eq!(expand_vars("${X:-${A:-y}", &lookup, "t").unwrap(), "${A:-y");
    assert_eq!(expand_vars("${X:-a:-b}", &lookup, "t").unwrap(), "a:-b");
    assert_eq!(expand_vars("${X:-}", &lookup, "t").unwrap(), "");
}

#[test]
fn expand_first_pair_of_a_name_wins() {
    let lookup = table(&[("A", "first"), ("A", "second")]);
    assert_eq!(expand_vars("${A}", &lookup, "t").unwrap(), "first");
}

#[test]
fn expand_unterminated_reports_byte_offset() {
    let lookup = table(&[]);
    match expand_vars("é ${FOO", &lookup, "src") {
        Err(ExpandError::Unterminated { byte_pos, source }) => {
            assert_eq!(byte_pos, 3);
            assert_eq!(source, "src");
        }
        other => panic!("unexpected {other:?}"),
    }
    let msg = expand_vars("abc ${FOO", &lookup, "f").unwrap_err().message();
    assert_eq!(msg, "unterminated variable expansion starting at byte 4 in f");
}

#[test]
fn expand_error_messages() {
    let lookup = table(&[]);
    assert_eq!(
        expand_vars("${1BAD}", &lookup, "src").unwrap_err().message(),
        "invalid variable name `1BAD` in src (must match ^[A-Za-z_][A-Za-z0-9_]*$)"
    );
    assert_eq!(
        expand_vars("${}", &lookup, "src").unwrap_err().message(),
        "invalid variable name `` in src (must match ^[A-Za-z_][A-Za-z0-9_]*$)"
    );
    assert_eq!(
        expand_vars("${NOPE}", &lookup, "src").unwrap_err().message(),
        "environment variable `NOPE` not set and no default provided in src"
    );
}

#[test]
fn expand_first_error_wins() {
    let lookup = table(&[]);
    match expand_vars("${1X} ${Y}", &lookup, "s") {
        Err(ExpandError::InvalidName { name, .. }) => assert_eq!(name, "1X"),
        other => panic!("unexpected {other:?}"),
    }
}

#[test]
fn var_name_rules() {
    assert!(is_valid_var_name("_a1"));
    assert!(is_valid_var_name("Z"));
    assert!(!is_valid_var_name(""));
    assert!(!is_valid_var_name("1a"));
    assert!(!is_valid_var_name("a-b"));
    assert!(!is_valid_var_name("a b"));
    assert!(is_alpha_or_underscore('_'));
    assert!(!is_alpha_or_underscore('1'));
    assert!(is_alnum_or_underscore('9'));
    assert!(!is_alnum_or_underscore('-'));
}
