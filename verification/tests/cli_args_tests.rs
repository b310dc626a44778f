use nest::cli::CliGenerator;
use nest::cli_args::{ArgShape, ArgSpec};
use nest::parser::Parser;

fn generator(src: &str) -> CliGenerator {
    let r = Parser::new(src).parse().expect("parse");
    CliGenerator::new(r.commands, r.variables, r.constants, r.functions)
}

fn path(parts: &[&str]) -> Vec<String> {
    parts.iter().map(|s| s.to_string()).collect()
}

fn summary(a: &ArgSpec) -> (String, Option<char>, Option<usize>, bool) {
    (a.id.clone(), a.short, a.index, a.required)
}

#[test]
fn named_and_positional_parameters_become_arguments() {
    let g = generator(
        "deploy(version: str, !env|e: str = \"production\", !force|f: bool = false, count: num = 1):\n    script: echo\n",
    );
    let cmd = g.find_command(&path(&["deploy"])).expect("deploy");
    let args = g.command_args(cmd);
    assert_eq!(args.len(), 4);
    assert_eq!(summary(&args[0]), ("env".to_string(), Some('e'), None, false));
    assert!(matches!(args[0].shape, ArgShape::Value));
    assert_eq!(args[0].help, "Parameter: env (str)");
    assert_eq!(summary(&args[1]), ("force".to_string(), Some('f'), None, false));
    assert!(matches!(args[1].shape, ArgShape::BoolFlag));
    assert_eq!(args[1].help, "Flag: force (true/false, or use without value for true)");
    assert_eq!(summary(&args[2]), ("version".to_string(), None, Some(1), true));
    assert_eq!(args[2].help, "Required positional argument: version (str)");
    assert_eq!(summary(&args[3]), ("count".to_string(), None, Some(2), false));
    assert_eq!(args[3].help, "Positional argument: count (num)");
}

#[test]
fn required_named_values_and_wildcards() {
    let g = generator("run(!target|t: str, *):\n    script: echo $*\n");
    let cmd = g.find_command(&path(&["run"])).expect("run");
    let args = g.command_args(cmd);
    assert_eq!(args.len(), 2);
    assert!(args[0].required);
    assert_eq!(args[0].help, "Required parameter: target (str)");
    assert!(matches!(args[1].shape, ArgShape::WildcardRest(true)));
    assert_eq!(args[1].index, Some(1));

    let g2 = generator("pick(*[2], rest: str):\n    script: echo\n");
    let cmd2 = g2.find_command(&path(&["pick"])).expect("pick");
    let args2 = g2.command_args(cmd2);
    assert!(matches!(args2[0].shape, ArgShape::WildcardExact(2)));
    assert!(args2[0].help.ends_with("capturing exactly 2 argument(s)"));
    assert_eq!(args2[1].index, Some(2));
}

#[test]
fn groups_take_their_default_subcommand_arguments() {
    let g = generator("dev:\n    default(!hot|h: bool = false, port: num = 3000):\n        script: echo\n    lint():\n        script: echo\n");
    let dev = g.find_command(&path(&["dev"])).expect("dev");
    let args = g.command_args(dev);
    assert_eq!(args.len(), 2);
    assert_eq!(summary(&args[0]), ("hot".to_string(), Some('h'), None, false));
    assert_eq!(summary(&args[1]), ("port".to_string(), None, Some(1), false));
    assert!(matches!(args[1].shape, ArgShape::Positional));
}

#[test]
fn a_call_takes_given_values_wildcards_and_defaults() {
    let g = generator("run(!target|t: str = \"all\", *):\n    script: echo $*\n");
    let cmd = g.find_command(&path(&["run"])).expect("run");
    let specs = g.command_args(cmd);
    let given: Vec<Option<Vec<String>>> = specs
        .iter()
        .map(|s| match s.shape {
            ArgShape::WildcardExact(_) | ArgShape::WildcardRest(_) => Some(vec!["a".to_string(), "b".to_string()]),
            _ => None,
        })
        .collect();
    let (p, args) = g.chosen_call(&path(&["run"]), &specs, &given).expect("call");
    assert_eq!(p, path(&["run"]));
    assert_eq!(args.get("*").map(|s| s.as_str()), Some("a b"));
    assert_eq!(args.get("target").map(|s| s.as_str()), Some("all"));
}

#[test]
fn a_call_of_a_group_runs_its_default_child() {
    let g = generator("db:\n    default(name: str = \"x\"):\n        script: echo {{name}}\n    other():\n        script: echo\n");
    let cmd = g.find_command(&path(&["db"])).expect("db");
    let specs = g.command_args(cmd);
    let given: Vec<Option<Vec<String>>> = specs.iter().map(|_| None).collect();
    let (p, args) = g.chosen_call(&path(&["db"]), &specs, &given).expect("call");
    assert_eq!(p, path(&["db", "default"]));
    assert_eq!(args.get("name").map(|s| s.as_str()), Some("x"));
    assert!(g.chosen_call(&path(&["nothing"]), &vec![], &vec![]).is_none());
}
