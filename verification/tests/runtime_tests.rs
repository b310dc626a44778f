use nest::ast::{ArgMap, Command, Constant, Dependency, Directive, Variable};
use nest::cli::CliGenerator;
use nest::completion::{CompletionManager, Shell};
use nest::directives::{DirectiveResolver, HostOs};
use nest::env::EnvironmentManager;
use nest::executor::{extract_missing_command, CommandExecutor};
use nest::parser::Parser;
use nest::runtime::{
    check_call_stack, dependency_failure, dependency_not_found_message, parallel_result, plan_dependencies,
    resolve_dependency_path, running_with, DepOutcome, DepReport, Runtime,
};
use nest::template::{TemplateContext, TemplateProcessor};

fn linux() -> HostOs {
    HostOs { os: "linux".to_string(), unix: true }
}

fn command(name: &str, directives: Vec<Directive>, children: Vec<Command>) -> Command {
    Command {
        name: name.to_string(),
        parameters: vec![],
        directives,
        children,
        has_wildcard: false,
        local_variables: vec![],
        local_constants: vec![],
        source_file: None,
    }
}

fn path(parts: &[&str]) -> Vec<String> {
    parts.iter().map(|s| s.to_string()).collect()
}

#[test]
fn template_replaces_parameters() {
    let mut args = ArgMap::new();
    args.insert("name".to_string(), "world".to_string());
    let ctx = TemplateContext {
        global_variables: &[],
        global_constants: &[],
        local_variables: &[],
        local_constants: &[],
        parent_variables: &[],
        parent_constants: &[],
    };
    let out = TemplateProcessor::process("echo Hello {{name}}!", &args, &ctx, &ArgMap::new(), "T", "me");
    assert_eq!(out, "echo Hello world!");
}

#[test]
fn template_priorities_and_special_variables() {
    let globals = vec![Variable { name: "APP".to_string(), value: "global-app".to_string() }];
    let locals = vec![Variable { name: "APP".to_string(), value: "local-app".to_string() }];
    let consts = vec![Constant { name: "COMPANY".to_string(), value: "Acme".to_string() }];
    let ctx = TemplateContext {
        global_variables: &globals,
        global_constants: &consts,
        local_variables: &locals,
        local_constants: &[],
        parent_variables: &[],
        parent_constants: &[],
    };
    let out = TemplateProcessor::process(
        "{{APP}} {{COMPANY}} {{user}} {{now}} {{missing}}",
        &ArgMap::new(),
        &ctx,
        &ArgMap::new(),
        "2024-01-01T00:00:00+00:00",
        "alice",
    );
    assert_eq!(out, "local-app Acme alice 2024-01-01T00:00:00+00:00 {{missing}}");

    let mut args = ArgMap::new();
    args.insert("APP".to_string(), "from-arg".to_string());
    let out2 = TemplateProcessor::process("{{APP}}", &args, &ctx, &ArgMap::new(), "t", "u");
    assert_eq!(out2, "from-arg");
}

#[test]
fn template_modifiers() {
    assert_eq!(TemplateProcessor::parse_modifier_value("  \"x\" "), "x");
    assert_eq!(
        TemplateProcessor::parse_rep_modifier("\"a\" => \"b\""),
        Some(("a".to_string(), "b".to_string()))
    );
}

#[test]
fn shebang_selects_the_shell() {
    let (shell, script) = CommandExecutor::detect_shell_and_remove_shebang("#!/bin/bash\necho hi");
    assert_eq!(shell, "bash");
    assert_eq!(script, "echo hi");
    let (shell2, script2) = CommandExecutor::detect_shell_and_remove_shebang("echo plain");
    assert_eq!(shell2, "sh");
    assert_eq!(script2, "echo plain");
}

#[test]
fn script_lines_that_call_commands() {
    let (p, args) = CommandExecutor::parse_command_call("build(target=\"x86\")").expect("a call");
    assert_eq!(p, "build");
    assert_eq!(args.get("target").map(|s| s.as_str()), Some("x86"));
    let (p2, args2) = CommandExecutor::parse_command_call("dev:lint").expect("a call");
    assert_eq!(p2, "dev:lint");
    assert!(args2.is_empty());
    assert!(CommandExecutor::parse_command_call("echo hello | grep h").is_none());
    assert!(CommandExecutor::parse_command_call("if true").is_none());
}

#[test]
fn missing_commands_are_found_in_stderr() {
    assert_eq!(extract_missing_command("sh: line 1: foo: command not found"), Some("foo".to_string()));
    assert_eq!(extract_missing_command(": bar: command not found"), Some("bar".to_string()));
    assert_eq!(extract_missing_command("bar: command not found"), Some("bar".to_string()));
    assert_eq!(extract_missing_command("bash: baz: command not found"), Some("baz".to_string()));
    assert_eq!(extract_missing_command(": command not found"), None);
    assert_eq!(extract_missing_command("all good"), None);
}

#[test]
fn directives_are_resolved_for_the_host() {
    let ds = vec![
        Directive::Desc("d".to_string()),
        Directive::Script("echo win".to_string(), Some("windows".to_string()), false),
        Directive::Script("echo any".to_string(), None, false),
        Directive::Script("echo linux".to_string(), Some("linux".to_string()), true),
        Directive::Privileged(true),
        Directive::Logs("out.log".to_string(), "json".to_string()),
    ];
    let host = linux();
    assert_eq!(DirectiveResolver::get_directive_value(&ds, "script", &host), Some("echo linux".to_string()));
    assert_eq!(
        DirectiveResolver::get_directive_value_with_hide(&ds, "script", &host),
        Some(("echo linux".to_string(), true))
    );
    assert_eq!(DirectiveResolver::get_directive_value(&ds, "desc", &host), Some("d".to_string()));
    assert!(DirectiveResolver::get_privileged_directive(&ds));
    assert_eq!(DirectiveResolver::get_logs_directive(&ds), Some(("out.log".to_string(), "json".to_string())));
    assert!(DirectiveResolver::check_os_match(&Some("unix".to_string()), &host));
    assert!(!DirectiveResolver::check_os_match(&Some("macos".to_string()), &host));
    assert!(DirectiveResolver::check_os_match(&None, &host));
}

#[test]
fn dependency_paths() {
    assert_eq!(resolve_dependency_path("dev:lint", &path(&["build"])), path(&["dev", "lint"]));
    assert_eq!(resolve_dependency_path("lint", &path(&["dev", "test"])), path(&["dev", "lint"]));
    assert_eq!(resolve_dependency_path("clean", &[]), path(&["clean"]));
    assert_eq!(
        dependency_not_found_message(&path(&["dev", "x"]), &path(&["dev", "test"])),
        "Dependency not found: dev x (required by dev test)"
    );
}

#[test]
fn dependency_cycles_are_refused() {
    let deps = vec![
        Dependency { command_path: "a".to_string(), args: ArgMap::new() },
        Dependency { command_path: "b".to_string(), args: ArgMap::new() },
    ];
    let plan = plan_dependencies(&deps, &path(&["c"]), &[]).expect("no cycle");
    assert_eq!(plan, vec![path(&["a"]), path(&["b"])]);
    assert!(plan_dependencies(&deps, &path(&["c"]), &[path(&["b"])]).is_err());
}

#[test]
fn call_stack_detects_recursion() {
    assert!(check_call_stack("build", "deploy,test").is_none());
    let msg = check_call_stack("build", "deploy,build").expect("cycle");
    assert_eq!(
        msg,
        "Circular dependency detected: Command 'build' is already in the call stack.\nCall stack: deploy,build"
    );
}

#[test]
fn runtime_finds_commands_and_functions() {
    let src = "var V = \"1\"\ndev:\n    default():\n        script: echo d\n    lint():\n        script: echo l\nfunction f():\n    echo f\n";
    let r = Parser::new(src).parse().expect("parse");
    let rt = Runtime::new(r.commands, r.variables, r.constants, r.functions);
    let lint = rt.find_command(&path(&["dev", "lint"])).expect("lint");
    assert_eq!(lint.name, "lint");
    assert!(rt.find_command(&path(&["dev", "nope"])).is_none());
    let dev = rt.find_command(&path(&["dev"])).expect("dev");
    assert!(rt.has_default_command(dev));
    assert!(rt.find_function("f").is_some());
    assert!(rt.find_function("g").is_none());
    assert_eq!(rt.variables().len(), 1);
}

#[test]
fn parent_directives_are_collected() {
    let child = command("child", vec![Directive::Script("echo c".to_string(), None, false)], vec![]);
    let parent = command(
        "parent",
        vec![Directive::Env("A".to_string(), "1".to_string(), false), Directive::Desc("p".to_string())],
        vec![child],
    );
    let rt = Runtime::new(vec![parent], vec![], vec![], vec![]);
    let envs = rt.collect_parent_env_directives(&path(&["parent", "child"]));
    assert_eq!(envs.len(), 1);
    assert!(matches!(&envs[0], Directive::Env(n, v, false) if n == "A" && v == "1"));
}

#[test]
fn cli_reserves_ids_for_default_parameters() {
    let src = "dev:\n    default(!hot|h: bool = false):\n        script: echo {{hot}}\n";
    let r = Parser::new(src).parse().expect("parse");
    let cli = CliGenerator::new(r.commands, r.variables, r.constants, r.functions);
    assert_eq!(cli.get_param_id("hot"), "hot");
    assert_eq!(cli.get_param_id("other"), "other");
}

#[test]
fn shells_by_name() {
    assert!(matches!(Shell::from_str("ZSH"), Some(Shell::Zsh)));
    assert!(matches!(Shell::from_str("ps1"), Some(Shell::PowerShell)));
    assert!(Shell::from_str("tcsh").is_none());
    assert_eq!(Shell::Fish.as_str(), "fish");
}

#[test]
fn completion_hashes_and_instructions() {
    let h = CompletionManager::calculate_content_hash("abc");
    assert_eq!(h, "ba7816bf8f01cfea414140de5dae2223b00361a396177a9cb410ff61f20015ad");
    assert_ne!(h, "abc");
    assert!(!CompletionManager::needs_regeneration_for(&h, Some(" ba7816bf8f01cfea414140de5dae2223b00361a396177a9cb410ff61f20015ad\n")));
    assert!(CompletionManager::needs_regeneration_for(&h, None));
    assert!(CompletionManager::needs_regeneration_for(&h, Some("00")));
    assert_eq!(
        CompletionManager::get_setup_instructions(Shell::Bash, "/x/nest.bash"),
        "Add to your ~/.bashrc:\n  source /x/nest.bash\nThen reload: source ~/.bashrc"
    );
}

#[test]
fn a_later_directive_replaces_an_earlier_one() {
    let ds = vec![
        Directive::Before("old".to_string(), None, false),
        Directive::Before("new".to_string(), None, true),
    ];
    assert_eq!(
        DirectiveResolver::get_directive_value_with_hide(&ds, "before", &linux()),
        Some(("new".to_string(), true))
    );
}

#[test]
fn env_directive_values_are_resolved() {
    let ds = vec![Directive::Env("NODE_ENV".to_string(), "${NEST_TEST_UNSET:-development}".to_string(), false)];
    let m = EnvironmentManager::extract_env_vars(&ds, &ArgMap::new(), &ArgMap::new());
    assert_eq!(m.get("NODE_ENV").map(|s| s.as_str()), Some("development"));
    let mut sys = ArgMap::new();
    sys.insert("NEST_TEST_UNSET".to_string(), "prod".to_string());
    let m = EnvironmentManager::extract_env_vars(&ds, &ArgMap::new(), &sys);
    assert_eq!(m.get("NODE_ENV").map(|s| s.as_str()), Some("prod"));
}

#[test]
fn a_variable_wins_over_a_constant_of_the_same_name() {
    let mut env = ArgMap::new();
    env.insert("K".to_string(), "k0".to_string());
    let vars = vec![Variable { name: "X".to_string(), value: "v".to_string() }];
    let consts = vec![Constant { name: "X".to_string(), value: "c".to_string() }];
    EnvironmentManager::export_all_vars(&mut env, &vars, &consts);
    assert_eq!(env.len(), 2);
    assert_eq!(env.get("K").map(|s| s.as_str()), Some("k0"));
    assert_eq!(env.get("X").map(|s| s.as_str()), Some("v"));
}

#[test]
fn eight_sources_are_looked_up_in_order() {
    let v = |n: &str, x: &str| Variable { name: n.to_string(), value: x.to_string() };
    let c = |n: &str, x: &str| Constant { name: n.to_string(), value: x.to_string() };
    let gv = vec![v("A", "gv"), v("B", "gv"), v("C", "gv")];
    let gc = vec![c("A", "gc"), c("B", "gc"), c("C", "gc"), c("D", "gc")];
    let pv = vec![v("A", "pv"), v("B", "pv")];
    let pc = vec![c("A", "pc"), c("B", "pc"), c("C", "pc")];
    let lv = vec![v("A", "lv1"), v("A", "lv2")];
    let lc = vec![c("A", "lc"), c("B", "lc")];
    let ctx = TemplateContext {
        global_variables: &gv,
        global_constants: &gc,
        local_variables: &lv,
        local_constants: &lc,
        parent_variables: &pv,
        parent_constants: &pc,
    };
    let out = TemplateProcessor::process("{{A}} {{B}} {{C}} {{D}}", &ArgMap::new(), &ctx, &ArgMap::new(), "t", "u");
    assert_eq!(out, "lv2 lc pc gc");
    let mut parent = ArgMap::new();
    parent.insert("B".to_string(), "parent-arg".to_string());
    let mut args = ArgMap::new();
    args.insert("A".to_string(), "arg".to_string());
    let out = TemplateProcessor::process("{{A}} {{B}}", &args, &ctx, &parent, "t", "u");
    assert_eq!(out, "arg parent-arg");
}

fn strs(v: &[&str]) -> Vec<String> {
    v.iter().map(|s| s.to_string()).collect()
}

#[test]
fn dependency_outcomes_are_reported() {
    let cur = strs(&["deploy"]);
    let dep = strs(&["build"]);
    assert_eq!(dependency_failure(&dep, &cur, &DepOutcome::Ran(Ok(()))), None);
    assert_eq!(dependency_failure(&dep, &cur, &DepOutcome::Ran(Err("boom".to_string()))), Some("boom".to_string()));
    assert_eq!(
        dependency_failure(&dep, &cur, &DepOutcome::Missing),
        Some("Dependency not found: build (required by deploy)".to_string())
    );
    let reports = vec![
        DepReport { name: "a".to_string(), path: strs(&["a"]), outcome: DepOutcome::Ran(Ok(())) },
        DepReport { name: "b".to_string(), path: strs(&["b"]), outcome: DepOutcome::Ran(Err("x".to_string())) },
        DepReport { name: "c".to_string(), path: strs(&["c"]), outcome: DepOutcome::Missing },
    ];
    assert_eq!(
        parallel_result(&reports, &cur),
        Err("Dependency 'b' failed: x\nDependency not found: c (required by deploy)".to_string())
    );
    assert_eq!(parallel_result(&reports[..1], &cur), Ok(()));
}

#[test]
fn running_commands_refuse_a_cycle() {
    let running = running_with(&[strs(&["a"])], &strs(&["b"]));
    assert_eq!(running, vec![strs(&["a"]), strs(&["b"])]);
    let deps = vec![Dependency { command_path: "a".to_string(), args: ArgMap::new() }];
    assert!(plan_dependencies(&deps, &strs(&["b"]), &running).is_err());
}

#[test]
fn call_paths_use_path_characters_only() {
    let (p, _) = CommandExecutor::parse_command_call("dev:build-all_2(x=\"1\")").expect("call");
    assert_eq!(p, "dev:build-all_2");
    assert!(CommandExecutor::parse_command_call(":dev").is_none());
    assert!(CommandExecutor::parse_command_call("dev:").is_none());
    assert!(CommandExecutor::parse_command_call("a.b").is_none());
}
