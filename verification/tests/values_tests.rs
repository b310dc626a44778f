use nest::ast::{ArgMap, ParamKind, Parameter, Value};
use nest::env::EnvironmentManager;
use nest::type_validator::{format_array_for_display, parse_array, validate_all_arguments, validate_argument_type};

fn param(name: &str, ty: &str) -> Parameter {
    Parameter {
        name: name.to_string(),
        alias: None,
        param_type: ty.to_string(),
        default: None,
        is_named: false,
        kind: ParamKind::Normal,
    }
}

#[test]
fn str_values_are_taken_as_they_are() {
    assert_eq!(validate_argument_type("anything at all", &param("x", "str")), Ok("anything at all".to_string()));
}

#[test]
fn bool_values_accept_common_spellings() {
    let p = param("force", "bool");
    for v in ["true", "FALSE", "1", "0", "--force"] {
        assert_eq!(validate_argument_type(v, &p), Ok(v.to_string()));
    }
    assert_eq!(
        validate_argument_type("yes", &p),
        Err("Invalid boolean value 'yes' for parameter 'force'. Expected 'true' or 'false'.".to_string())
    );
}

#[test]
fn num_values_must_parse_as_numbers() {
    let p = param("n", "num");
    for v in ["42", "3.14", "-10", "1e3", ".5", "inf"] {
        assert_eq!(validate_argument_type(v, &p), Ok(v.to_string()));
    }
    assert_eq!(
        validate_argument_type("12abc", &p),
        Err("Invalid number '12abc' for parameter 'n'. Expected a numeric value (e.g., 42, 3.14, -10).".to_string())
    );
}

#[test]
fn arr_values_lose_their_quotes() {
    let p = param("items", "arr");
    assert_eq!(validate_argument_type("\"a,b\"", &p), Ok("a,b".to_string()));
    assert_eq!(validate_argument_type("a, b", &p), Ok("a, b".to_string()));
    assert_eq!(
        validate_argument_type("  ", &p),
        Err("Empty array value for parameter 'items'. Provide comma-separated values (e.g., 'a,b,c').".to_string())
    );
    let mut with_default = param("items", "arr");
    with_default.default = Some(Value::Array(vec![]));
    assert_eq!(validate_argument_type("", &with_default), Ok(String::new()));
}

#[test]
fn unknown_types_are_rejected() {
    assert_eq!(
        validate_argument_type("x", &param("p", "weird")),
        Err("Unknown parameter type 'weird' for parameter 'p'".to_string())
    );
}

#[test]
fn arrays_split_on_commas() {
    assert_eq!(parse_array("a, b ,,c"), vec!["a".to_string(), "b".to_string(), "c".to_string()]);
    assert!(parse_array("   ").is_empty());
}

#[test]
fn arrays_display_in_brackets() {
    assert_eq!(format_array_for_display(&[]), "[]");
    assert_eq!(format_array_for_display(&["a".to_string(), "b".to_string()]), "[a, b]");
}

#[test]
fn all_arguments_are_validated_together() {
    let params = vec![param("n", "num"), param("flag", "bool")];
    let mut args = ArgMap::new();
    args.insert("n".to_string(), "7".to_string());
    args.insert("flag".to_string(), "maybe".to_string());
    let r = validate_all_arguments(&args, &params, &["cmd".to_string()]);
    match r {
        Err(errors) => {
            assert_eq!(errors.len(), 1);
            assert!(errors[0].contains("maybe"));
        }
        Ok(_) => panic!("expected an error"),
    }
    let mut ok_args = ArgMap::new();
    ok_args.insert("n".to_string(), "7".to_string());
    ok_args.insert("flag".to_string(), "true".to_string());
    let validated = validate_all_arguments(&ok_args, &params, &["cmd".to_string()]).expect("valid");
    assert_eq!(validated.get("n").map(|s| s.as_str()), Some("7"));
    let mut missing = ArgMap::new();
    missing.insert("n".to_string(), "7".to_string());
    let errors = validate_all_arguments(&missing, &params, &["cmd".to_string()]).expect_err("missing flag");
    assert_eq!(errors, vec!["❌ Missing required parameter 'flag' for command 'nest cmd'".to_string()]);
}

#[test]
fn env_lines_are_parsed() {
    assert_eq!(
        EnvironmentManager::parse_env_line("KEY=value"),
        Some(("KEY".to_string(), "value".to_string()))
    );
    assert_eq!(
        EnvironmentManager::parse_env_line("  QUOTED = \"hello world\" "),
        Some(("QUOTED".to_string(), "hello world".to_string()))
    );
    assert_eq!(EnvironmentManager::parse_env_line("# comment"), None);
    assert_eq!(EnvironmentManager::parse_env_line(""), None);
    assert_eq!(EnvironmentManager::parse_env_line("novalue"), None);
}

#[test]
fn env_files_load_into_the_map() {
    let mut m = ArgMap::new();
    EnvironmentManager::load_from_content(&"A=1\n# x\nB='two'\nA=3\n".to_string(), &mut m);
    assert_eq!(m.get("A").map(|s| s.as_str()), Some("3"));
    assert_eq!(m.get("B").map(|s| s.as_str()), Some("two"));
    assert_eq!(m.len(), 2);
}

#[test]
fn env_values_resolve_with_fallbacks() {
    let mut env_vars = ArgMap::new();
    env_vars.insert("NODE_ENV".to_string(), "production".to_string());
    let system = ArgMap::new();
    assert_eq!(
        EnvironmentManager::resolve_env_value("${NODE_ENV:-development}", &env_vars, &system),
        "production"
    );
    assert_eq!(
        EnvironmentManager::resolve_env_value("${OTHER_VAR:-defaultValue}", &env_vars, &system),
        "defaultValue"
    );
}

#[test]
fn loaded_variables_come_before_system_ones() {
    let mut env_vars = ArgMap::new();
    env_vars.insert("PORT".to_string(), "3000".to_string());
    let mut system = ArgMap::new();
    system.insert("PORT".to_string(), "8080".to_string());
    system.insert("HOME".to_string(), "/home/me".to_string());
    assert_eq!(EnvironmentManager::resolve_env_value("port=${PORT}", &env_vars, &system), "port=3000");
    assert_eq!(EnvironmentManager::resolve_env_value("$HOME/x", &env_vars, &system), "/home/me/x");
    assert_eq!(EnvironmentManager::resolve_env_value("cost $ 5 ${}", &env_vars, &system), "cost $ 5 ${}");
    assert_eq!(EnvironmentManager::resolve_env_value("plain text", &env_vars, &system), "plain text");
}

#[test]
fn arg_map_keeps_first_position_and_last_value() {
    let mut m = ArgMap::new();
    assert!(m.is_empty());
    m.insert("a".to_string(), "1".to_string());
    m.insert("b".to_string(), "2".to_string());
    m.insert("a".to_string(), "3".to_string());
    assert_eq!(m.len(), 2);
    assert_eq!(m.key_at(0), "a");
    assert_eq!(m.value_at(0), "3");
    assert!(m.contains_key("b"));
    assert!(!m.contains_key("c"));
}

#[test]
fn a_lone_quote_array_argument_is_kept_as_written() {
    assert_eq!(validate_argument_type("\"", &param("xs", "arr")), Ok("\"".to_string()));
    assert_eq!(validate_argument_type(" ' ", &param("xs", "arr")), Ok("'".to_string()));
}

#[test]
fn arguments_naming_no_parameter_are_dropped() {
    let params = vec![param("n", "num")];
    let mut args = ArgMap::new();
    args.insert("n".to_string(), "3".to_string());
    args.insert("extra".to_string(), "x".to_string());
    let m = validate_all_arguments(&args, &params, &["cmd".to_string()]).expect("valid");
    assert_eq!(m.len(), 1);
    assert_eq!(m.get("n").map(|s| s.as_str()), Some("3"));
    assert!(m.get("extra").is_none());
}
