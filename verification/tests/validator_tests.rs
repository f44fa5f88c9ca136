use json_validator::validator::is_string_a_valid_json;
use json_validator::validator::JsonValidator;

fn check(input: &str, want: bool) {
    let result = is_string_a_valid_json(input.to_string());
    assert_eq!(want, result);
}

#[test]
fn validator_step_1_valid_test() {
    check("{}", true);
}

#[test]
fn validator_step_1_invalid_test() {
    check("", false);
}

#[test]
fn validator_step_2_valid_test() {
    check(r#"{"key": "value"}"#, true);
}

#[test]
fn step_2_invalid_test() {
    check(r#"{"key": "value",}"#, false);
}

#[test]
fn steps_2_valid2_test() {
    check(
        r#"{
  "key": "value",
  "key2": "value"
}"#,
        true,
    );
}

#[test]
fn step_2_invalid2_test() {
    check(
        r#"{
  "key": "value",
  key2: "value"
}"#,
        false,
    );
}

#[test]
fn step_3_valid_test() {
    check(
        r#"{
  "key1": true,
  "key2": false,
  "key3": null,
  "key4": "value",
  "key5": 101
}"#,
        true,
    );
}

#[test]
fn step_3_invalid_test() {
    check(
        r#"{
  "key1": true,
  "key2": False,
  "key3": null,
  "key4": "value"
}"#,
        false,
    );
}

#[test]
fn step_4_invalid_test() {
    check(
        r#"{
  "key": "value",
  "key-n": 101,
  "key-o": {
    "inner key": "inner value"
  },
  "key-l": ['list value']
}"#,
        false,
    );
}

#[test]
fn step_4_valid_test() {
    check(
        r#"{
  "key": "value",
  "key-n": 101,
  "key-o": {},
  "key-l": []
}"#,
        true,
    );
}

#[test]
fn steps_4_valid2_test() {
    check(
        r#"{
  "key": "value",
  "key-n": 101,
  "key-o": {
    "inner key": "inner value"
  },
  "key-l": ["list value"]
}"#,
        true,
    );
}

#[test]
fn full_test_fail() {
    let cases: Vec<&str> = vec![
        r#""A payload that is a bare string.""#,
        r#"["unclosed array""#,
        r#"{unquoted_key: "keys must be quoted"}"#,
        r#"["extra comma",]"#,
        r#"["double extra comma",,]"#,
        r#"[,]"#,
        r#"{]"#,
        r#"[}"#,
        r#"{{}"#,
        r#"{}}"#,
        r#"{"a": 0123}"#,
        r#"{"a": 00}"#,
        r#"[01]"#,
        r#"{"a": truth}"#,
        r#"{"a": TRUE}"#,
        r#"{"a": nulll}"#,
        r#"{'a': 1}"#,
        r#"{"a"; 1}"#,
        r#"[1, 2"#,
        r#"]"#,
        r#"[[]"#,
        r#"[]]"#,
        r#"{"a": [1, }"#,
        r#"42"#,
        r#"true"#,
        r#""lonely""#,
        r#"{"a": 1,}"#,
        r#"[{}, {}],"#,
        r#"{"a" @ 1}"#,
        r#"{"a": 1} extra"#,
        r#"["never closed"#,
        r#"{"#,
        r#"}"#,
    ];
    for i in 1..34 {
        println!("testing fail{}.json", i);
        check(cases[i - 1], false);
    }
}

#[test]
fn main_step_1_valid_test() {
    check("{}", true);
}

#[test]
fn main_step_1_invalid_test() {
    check("", false);
}

#[test]
fn main_step_2_valid_test() {
    check(r#"{"key": "value"}"#, true);
}

#[test]
fn matched_array_pair_with_whitespace_is_valid() {
    check("[]", true);
    check("[ \t\r\n ]", true);
    check("{   }", true);
}

#[test]
fn outer_whitespace_is_skipped() {
    check("  { } ", true);
    check("\n[]\n", true);
}

#[test]
fn whitespace_only_input_is_invalid() {
    check("   ", false);
    check("\t\n\r ", false);
}

#[test]
fn unbalanced_brackets_are_invalid() {
    check("{]", false);
    check("[}", false);
    check("[{]}", false);
    check("{{}", false);
    check("{}}", false);
}

#[test]
fn trailing_comma_at_depth_is_invalid() {
    check(r#"{"a": {"b": [1, 2,]}}"#, false);
}

#[test]
fn single_zero_is_a_valid_integer() {
    check(r#"{"key": 0}"#, true);
}

#[test]
fn leading_zero_is_invalid() {
    check(r#"{"key": 0123}"#, false);
}

#[test]
fn bare_scalar_is_invalid() {
    check("true", false);
    check("42", false);
    check(r#""word""#, false);
}

#[test]
fn bare_colon_is_not_rejected_by_the_flat_rules() {
    check("{:}", true);
}

#[test]
fn verdict_is_stable_across_calls() {
    let validator = JsonValidator::new(r#"{"key": "value"}"#.to_string());
    let first = validator.is_valid();
    let second = validator.is_valid();
    assert_eq!(first, second);
    assert!(first);

    let invalid = JsonValidator::new("{]".to_string());
    assert_eq!(invalid.is_valid(), invalid.is_valid());
    assert!(!invalid.is_valid());
}

#[test]
fn lex_error_means_not_valid() {
    check("{\u{1F600}}", false);
    check("{;}", false);
}
