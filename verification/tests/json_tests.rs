use nest::ast::{ArgMap, Command, Dependency, Directive, ParamKind, Parameter, Value};
use nest::json::commands_json_text;

fn command(name: &str, parameters: Vec<Parameter>, directives: Vec<Directive>, children: Vec<Command>) -> Command {
    Command {
        name: name.to_string(),
        parameters,
        directives,
        children,
        has_wildcard: false,
        local_variables: vec![],
        local_constants: vec![],
        source_file: None,
    }
}

#[test]
fn a_command_is_shown_as_pretty_json() {
    let c = command("build", vec![], vec![Directive::Desc("Build it".to_string())], vec![]);
    let expected = "[\n  {\n    \"children\": [],\n    \"directives\": [\n      {\n        \"desc\": \"Build it\"\n      }\n    ],\n    \"name\": \"build\",\n    \"parameters\": []\n  }\n]";
    assert_eq!(commands_json_text(&[c]), expected);
}

#[test]
fn no_commands_give_an_empty_array() {
    assert_eq!(commands_json_text(&[]), "[]");
}

#[test]
fn parameters_directives_and_children_are_laid_out() {
    let p = Parameter {
        name: "files".to_string(),
        alias: Some("f".to_string()),
        param_type: "str".to_string(),
        default: Some(Value::Number("3".to_string())),
        is_named: true,
        kind: ParamKind::Wildcard { name: None, count: Some(2) },
    };
    let child = command(
        "dev",
        vec![],
        vec![
            Directive::Env("MODE".to_string(), "dev".to_string(), true),
            Directive::Logs("out.log".to_string(), "json".to_string()),
            Directive::Validate("name".to_string(), "^a".to_string()),
            Directive::Depends(vec![Dependency { command_path: "clean".to_string(), args: ArgMap::new() }], false),
        ],
        vec![],
    );
    let c = command(
        "run",
        vec![p],
        vec![Directive::Script("echo hi".to_string(), None, false)],
        vec![child],
    );
    let text = commands_json_text(&[c]);
    let v: serde_json::Value = serde_json::from_str(&text).unwrap();
    let run = &v[0];
    assert_eq!(run["name"], "run");
    let p = &run["parameters"][0];
    assert_eq!(p["name"], "files");
    assert_eq!(p["type"], "str");
    assert_eq!(p["named"], true);
    assert_eq!(p["alias"], "f");
    assert_eq!(p["default"], "3");
    assert_eq!(p["wildcard"], true);
    assert_eq!(p["count"], 2);
    let s = &run["directives"][0]["script"];
    assert_eq!(s["script"], "echo hi");
    assert!(s["os"].is_null());
    assert_eq!(s["hide"], false);
    let dev = &run["children"][0];
    assert_eq!(dev["name"], "dev");
    assert_eq!(dev["directives"][0]["env"], "MODE=dev (hidden)");
    assert_eq!(dev["directives"][1]["logs"], "out.log (json)");
    assert_eq!(dev["directives"][2]["validate"], "name: ^a");
    assert_eq!(dev["directives"][3]["depends"]["commands"][0], "clean");
    assert_eq!(dev["directives"][3]["depends"]["parallel"], false);
}
