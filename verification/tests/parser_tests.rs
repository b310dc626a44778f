use nest::ast::{Directive, ParamKind, Value};
use nest::parser::{ParseError, Parser, SubstitutionOutcome};

fn parse(content: &str) -> Result<nest::parser::ParseResult, ParseError> {
    Parser::new(content).parse()
}

#[test]
fn parses_command_with_directives() {
    let src = "build():\n    desc: Build the project\n    env: MODE=release\n    script: cargo build\n";
    let r = parse(src).expect("parse failed");
    assert_eq!(r.commands.len(), 1);
    let c = &r.commands[0];
    assert_eq!(c.name, "build");
    assert!(c.parameters.is_empty());
    assert!(c.directives.iter().any(|d| matches!(d, Directive::Desc(s) if s == "Build the project")));
    assert!(c
        .directives
        .iter()
        .any(|d| matches!(d, Directive::Env(k, v, false) if k == "MODE" && v == "release")));
    assert!(c
        .directives
        .iter()
        .any(|d| matches!(d, Directive::Script(s, None, false) if s == "cargo build")));
}

#[test]
fn parses_parameters_with_defaults_and_aliases() {
    let src = "deploy(version: str, !env|e: str = \"production\", !force|f: bool = false):\n    script: echo {{version}}\n";
    let r = parse(src).expect("parse failed");
    let ps = &r.commands[0].parameters;
    assert_eq!(ps.len(), 3);
    assert_eq!(ps[0].name, "version");
    assert!(!ps[0].is_named);
    assert!(ps[0].default.is_none());
    assert_eq!(ps[1].name, "env");
    assert_eq!(ps[1].alias.as_deref(), Some("e"));
    assert!(ps[1].is_named);
    assert!(matches!(&ps[1].default, Some(Value::String(s)) if s == "production"));
    assert_eq!(ps[2].param_type, "bool");
    assert!(matches!(ps[2].default, Some(Value::Bool(false))));
    assert!(matches!(ps[0].kind, ParamKind::Normal));
}

#[test]
fn parses_multiline_script() {
    let src = "run():\n    script: |\n        echo one\n        echo two\n";
    let r = parse(src).expect("parse failed");
    let c = &r.commands[0];
    let script = c
        .directives
        .iter()
        .find_map(|d| match d {
            Directive::Script(s, _, _) => Some(s.clone()),
            _ => None,
        })
        .expect("no script");
    assert!(script.contains("echo one"));
    assert!(script.contains("echo two"));
}

#[test]
fn parses_nested_commands() {
    let src = "dev:\n    desc: Development tools\n\n    lint():\n        script: eslint src/\n    test():\n        script: npm test\n";
    let r = parse(src).expect("parse failed");
    assert_eq!(r.commands.len(), 1);
    let dev = &r.commands[0];
    assert_eq!(dev.name, "dev");
    assert_eq!(dev.children.len(), 2);
    assert_eq!(dev.children[0].name, "lint");
    assert_eq!(dev.children[1].name, "test");
}

#[test]
fn variables_redefined_last_wins() {
    let src = "var APP = \"one\"\nvar APP = \"two\"\nconst COMPANY = \"Acme\"\n";
    let r = parse(src).expect("parse failed");
    assert_eq!(r.variables.len(), 1);
    assert_eq!(r.variables[0].name, "APP");
    assert_eq!(r.variables[0].value, "two");
    assert_eq!(r.constants.len(), 1);
    assert_eq!(r.constants[0].value, "Acme");
}

#[test]
fn constant_redefinition_is_an_error() {
    let src = "const A = \"1\"\nconst A = \"2\"\n";
    match parse(src) {
        Err(ParseError::InvalidSyntax(msg, _)) => assert!(msg.contains("A")),
        other => panic!("unexpected: {:?}", other),
    }
}

#[test]
fn legacy_at_syntax_is_deprecated() {
    let src = "@var A = \"1\"\n";
    assert!(matches!(parse(src), Err(ParseError::DeprecatedSyntax(_, 1))));
}

#[test]
fn directive_prefix_lines_parse_as_directives() {
    let src = "build():\n    > desc: Build the project\n    > depends: clean\n    > script: npm run build\n";
    let r = parse(src).expect("parse failed");
    assert_eq!(r.commands.len(), 1);
    let c = &r.commands[0];
    assert_eq!(c.name, "build");
    assert!(c.parameters.is_empty());
    assert!(c.directives.iter().any(|d| matches!(d, Directive::Desc(t) if t == "Build the project")));
    assert!(c.directives.iter().any(|d| matches!(d, Directive::Depends(v, false) if v.len() == 1 && v[0].command_path == "clean")));
    assert!(c.directives.iter().any(|d| matches!(d, Directive::Script(t, None, false) if t == "npm run build")));
}

#[test]
fn multiline_blocks_lose_the_directive_indent_and_one_level() {
    let src = "build:\n    script: |\n        echo a\n          echo b\n";
    let r = parse(src).expect("parse failed");
    let script = r.commands[0]
        .directives
        .iter()
        .find_map(|d| match d {
            Directive::Script(s, _, _) => Some(s.clone()),
            _ => None,
        })
        .expect("no script");
    assert_eq!(script, "echo a\n  echo b");
}

#[test]
fn commands_with_the_same_name_are_merged() {
    let src = "build():\n    desc: first\n\nbuild():\n    desc: second\n";
    let r = parse(src).expect("parse failed");
    assert_eq!(r.commands.len(), 1);
    let descs: Vec<&Directive> =
        r.commands[0].directives.iter().filter(|d| matches!(d, Directive::Desc(_))).collect();
    assert_eq!(descs.len(), 1);
    assert!(matches!(descs[0], Directive::Desc(s) if s == "second"));
}

#[test]
fn command_substitution_needs_its_outcome() {
    let src = "var X = $(echo hi)\n";
    match parse(src) {
        Err(ParseError::CommandRequired(cmd)) => assert_eq!(cmd, "echo hi"),
        other => panic!("unexpected: {:?}", other),
    }
    let outcomes = vec![SubstitutionOutcome::Output("hi\n".to_string())];
    let r = Parser::with_substitutions(src, outcomes).parse().expect("parse failed");
    assert_eq!(r.variables[0].value, "hi");
}

#[test]
fn failed_substitution_is_a_syntax_error() {
    let src = "var X = $(false)\n";
    let outcomes = vec![SubstitutionOutcome::Failed(1, "boom\n".to_string())];
    match Parser::with_substitutions(src, outcomes).parse() {
        Err(ParseError::InvalidSyntax(msg, 1)) => {
            assert_eq!(msg, "Command 'false' failed with exit code 1: boom")
        }
        other => panic!("unexpected: {:?}", other),
    }
}

#[test]
fn unclosed_substitution_is_reported() {
    let src = "var X = $(echo hi\n";
    assert!(matches!(parse(src), Err(ParseError::InvalidSyntax(_, 1))));
}

#[test]
fn functions_are_parsed() {
    let src = "function greet(name: str):\n    echo Hello {{name}}\n";
    let r = parse(src).expect("parse failed");
    assert_eq!(r.functions.len(), 1);
    assert_eq!(r.functions[0].name, "greet");
    assert_eq!(r.functions[0].parameters.len(), 1);
    assert!(r.functions[0].body.contains("echo Hello {{name}}"));
}

#[test]
fn wildcard_parameter_marks_command() {
    let src = "run(*):\n    script: echo $*\n";
    let r = parse(src).expect("parse failed");
    assert!(r.commands[0].has_wildcard);
    assert!(matches!(r.commands[0].parameters[0].kind, ParamKind::Wildcard { .. }));
}

#[test]
fn depends_directive_is_parsed() {
    let src = "a():\n    script: echo a\nb():\n    depends: a, c(x=\"1\")\n    script: echo b\n";
    let r = parse(src).expect("parse failed");
    let b = r.commands.iter().find(|c| c.name == "b").expect("b");
    let deps = b
        .directives
        .iter()
        .find_map(|d| match d {
            Directive::Depends(ds, _) => Some(ds),
            _ => None,
        })
        .expect("no depends");
    assert_eq!(deps.len(), 2);
    assert_eq!(deps[0].command_path, "a");
    assert_eq!(deps[1].command_path, "c");
    assert_eq!(deps[1].args.get("x").map(|s| s.as_str()), Some("1"));
}

#[test]
fn unknown_directive_keys_are_errors() {
    let src = "build():\n    cwd: ./app\n";
    match parse(src) {
        Err(ParseError::InvalidSyntax(msg, 2)) => assert_eq!(msg, "Unknown directive property: cwd"),
        other => panic!("unexpected: {:?}", other),
    }
}

#[test]
fn directive_prefix_blocks_and_env_parse() {
    let src = "run():\n    > env: MODE=dev\n    > script: |\n        echo one\n        > out.txt\n";
    let r = parse(src).expect("parse failed");
    let c = &r.commands[0];
    assert!(c.directives.iter().any(|d| matches!(d, Directive::Env(k, v, false) if k == "MODE" && v == "dev")));
    assert!(c.directives.iter().any(|d| matches!(d, Directive::Script(s, None, false) if s == "echo one\n> out.txt")));
}

#[test]
fn a_doubled_directive_prefix_is_refused() {
    let src = "run():\n    >> desc: x\n";
    assert!(matches!(parse(src), Err(ParseError::DeprecatedSyntax(_, _))));
}
