use nest::ast::{ArgMap, Command, Dependency, Directive, ParamKind, Parameter, Value, Variable};
use nest::codegen::{to_nestfile_string, value_to_string};
use nest::merge::merge_commands;
use nest::parser::Parser;

fn command(name: &str, directives: Vec<Directive>, children: Vec<Command>) -> Command {
    Command {
        name: name.to_string(),
        parameters: vec![],
        directives,
        children,
        has_wildcard: false,
        local_variables: vec![],
        local_constants: vec![],
        source_file: None,
    }
}

#[test]
fn values_are_written_as_literals() {
    assert_eq!(value_to_string(&Value::String("x".to_string())), "\"x\"");
    assert_eq!(value_to_string(&Value::Bool(true)), "true");
    assert_eq!(value_to_string(&Value::Number("3.5".to_string())), "3.5");
    assert_eq!(value_to_string(&Value::Array(vec!["a".to_string(), "b".to_string()])), "[\"a\", \"b\"]");
}

#[test]
fn commands_are_written_as_nestfile_text() {
    let mut args = ArgMap::new();
    args.insert("x".to_string(), "1".to_string());
    let mut c = command(
        "build",
        vec![
            Directive::Desc("Build it".to_string()),
            Directive::Script("echo a\necho b".to_string(), None, false),
            Directive::Env("K".to_string(), "V".to_string(), true),
            Directive::Depends(vec![Dependency { command_path: "clean".to_string(), args }], false),
        ],
        vec![command("sub", vec![Directive::Script("echo s".to_string(), None, false)], vec![])],
    );
    c.parameters.push(Parameter {
        name: "target".to_string(),
        alias: Some("t".to_string()),
        param_type: "str".to_string(),
        default: Some(Value::String("x86".to_string())),
        is_named: true,
        kind: ParamKind::Normal,
    });
    c.local_variables.push(Variable { name: "V".to_string(), value: "1".to_string() });
    let text = to_nestfile_string(&c, 0);
    assert_eq!(
        text,
        "var V = 1\nbuild(!target|t: str = \"x86\"):\n    desc: Build it\n    script: |\n        echo a\n        echo b\n    env.hide: K=V\n    depends: clean(x=\"1\")\n    sub:\n        script: echo s\n"
    );
}

#[test]
fn written_commands_parse_back() {
    let c = command(
        "build",
        vec![Directive::Desc("Build it".to_string()), Directive::Script("cargo build".to_string(), None, false)],
        vec![command("sub", vec![Directive::Script("echo s".to_string(), None, false)], vec![])],
    );
    let text = to_nestfile_string(&c, 0);
    let r = Parser::new(&text).parse().expect("parse");
    assert_eq!(r.commands.len(), 1);
    assert_eq!(r.commands[0].name, "build");
    assert_eq!(r.commands[0].children.len(), 1);
    assert_eq!(r.commands[0].children[0].name, "sub");
}

#[test]
fn merging_keeps_one_command_per_name() {
    let a1 = command("a", vec![Directive::Desc("first".to_string())], vec![command("x", vec![], vec![])]);
    let b = command("b", vec![], vec![]);
    let a2 = command("a", vec![Directive::Desc("second".to_string())], vec![command("y", vec![], vec![])]);
    let merged = merge_commands(vec![a1, b, a2]);
    assert_eq!(merged.len(), 2);
    assert_eq!(merged[0].name, "a");
    assert_eq!(merged[1].name, "b");
    let descs: Vec<&Directive> = merged[0].directives.iter().filter(|d| matches!(d, Directive::Desc(_))).collect();
    assert_eq!(descs.len(), 1);
    assert!(matches!(descs[0], Directive::Desc(s) if s == "second"));
    let kids: Vec<&str> = merged[0].children.iter().map(|c| c.name.as_str()).collect();
    assert_eq!(kids, vec!["x", "y"]);
}

#[test]
fn merging_different_names_changes_nothing() {
    let merged = merge_commands(vec![command("a", vec![], vec![]), command("b", vec![], vec![])]);
    let names: Vec<&str> = merged.iter().map(|c| c.name.as_str()).collect();
    assert_eq!(names, vec!["a", "b"]);
}

#[test]
fn merge_resolves_relative_paths_against_the_source_file() {
    let mut c = command(
        "build",
        vec![
            Directive::Cwd("out".to_string()),
            Directive::EnvFile("/abs/.env".to_string(), false),
            Directive::Logs("logs/run.log".to_string(), "txt".to_string()),
        ],
        vec![],
    );
    c.source_file = Some("/proj/sub/nestfile".to_string());
    let merged = merge_commands(vec![c]);
    assert!(matches!(&merged[0].directives[0], Directive::Cwd(p) if p == "/proj/sub/out"));
    assert!(matches!(&merged[0].directives[1], Directive::EnvFile(p, false) if p == "/abs/.env"));
    assert!(matches!(&merged[0].directives[2], Directive::Logs(p, f) if p == "/proj/sub/logs/run.log" && f == "txt"));
}

#[test]
fn written_script_lines_read_back() {
    let c = command(
        "build",
        vec![
            Directive::Desc("Build the app".to_string()),
            Directive::Script("npm run build".to_string(), None, false),
            Directive::Before("echo start".to_string(), None, true),
        ],
        vec![],
    );
    let text = to_nestfile_string(&c, 0);
    let r = Parser::new(&text).parse().expect("reparse");
    assert_eq!(r.commands.len(), 1);
    let d = &r.commands[0].directives;
    assert!(d.iter().any(|x| matches!(x, Directive::Script(s, None, false) if s == "npm run build")));
    assert!(d.iter().any(|x| matches!(x, Directive::Before(s, None, true) if s == "echo start")));
    assert!(d.iter().any(|x| matches!(x, Directive::Desc(s) if s == "Build the app")));
}

#[test]
fn a_written_command_with_dependencies_reads_back_as_it_was() {
    let c = command(
        "build",
        vec![
            Directive::Desc("Build the project".to_string()),
            Directive::Depends(
                vec![
                    Dependency { command_path: "clean".to_string(), args: ArgMap::new() },
                    Dependency { command_path: "db:migrate".to_string(), args: ArgMap::new() },
                ],
                true,
            ),
            Directive::Script("npm run build".to_string(), None, false),
        ],
        vec![],
    );
    let text = to_nestfile_string(&c, 0);
    let r = Parser::new(&text).parse().expect("reparse");
    assert_eq!(r.commands.len(), 1);
    let back = &r.commands[0];
    assert_eq!(back.name, "build");
    assert_eq!(back.directives.len(), 3);
    assert!(matches!(&back.directives[0], Directive::Desc(s) if s == "Build the project"));
    match &back.directives[1] {
        Directive::Depends(ds, parallel) => {
            assert!(*parallel);
            let paths: Vec<&str> = ds.iter().map(|d| d.command_path.as_str()).collect();
            assert_eq!(paths, vec!["clean", "db:migrate"]);
            assert!(ds.iter().all(|d| d.args.len() == 0));
        }
        other => panic!("expected dependencies, got {:?}", other),
    }
    assert!(matches!(&back.directives[2], Directive::Script(s, None, false) if s == "npm run build"));
}
