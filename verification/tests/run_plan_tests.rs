use nest::ast::{ArgMap, Variable};
use nest::directives::HostOs;
use nest::parser::Parser;
use nest::runner::{CommandRun, RunAction, RunEvent, RunPlan};
use nest::runtime::Runtime;
use nest::runtime_validator::RuntimeValidator;
use nest::scripts::ScriptStep;
use nest::template::TemplateContext;

fn linux() -> HostOs {
    HostOs { os: "linux".to_string(), unix: true }
}

fn path(parts: &[&str]) -> Vec<String> {
    parts.iter().map(|s| s.to_string()).collect()
}

fn runtime(src: &str) -> Runtime {
    let r = Parser::new(src).parse().expect("parse");
    Runtime::new(r.commands, r.variables, r.constants, r.functions)
}

fn empty_ctx<'a>(globals: &'a [Variable]) -> TemplateContext<'a> {
    TemplateContext {
        global_variables: globals,
        global_constants: &[],
        local_variables: &[],
        local_constants: &[],
        parent_variables: &[],
        parent_constants: &[],
    }
}

fn plan(script: Option<&str>) -> RunPlan {
    RunPlan {
        has_dependencies: false,
        confirm: None,
        before: None,
        script: script.map(|s| (s.to_string(), false)),
        after: None,
        fallback: None,
        finally: None,
        privileged: false,
        dry_run: false,
        logs: None,
        env: ArgMap::new(),
        cwd: None,
        args: ArgMap::new(),
        parent_args: ArgMap::new(),
        vars: ArgMap::new(),
        now: "T".to_string(),
        user: "u".to_string(),
    }
}

fn ok() -> RunEvent {
    RunEvent::Outcome(Ok(()))
}

fn fail(m: &str) -> RunEvent {
    RunEvent::Outcome(Err(m.to_string()))
}

#[test]
fn validation_by_regex_and_membership() {
    let mut args = ArgMap::new();
    args.insert("version".to_string(), "v1.2.3".to_string());
    args.insert("env".to_string(), "prod".to_string());
    let rules = vec![
        ("version".to_string(), "/^v?\\d+\\.\\d+\\.\\d+$/".to_string()),
        ("env".to_string(), "in [\"dev\", \"prod\"]".to_string()),
    ];
    let ctx = empty_ctx(&[]);
    let r = RuntimeValidator::validate(&rules, &args, &ArgMap::new(), &ArgMap::new(), &ctx, &path(&["deploy"]), &ArgMap::new(), "t", "u");
    assert_eq!(r, Ok(()));

    let mut bad = ArgMap::new();
    bad.insert("version".to_string(), "1.2".to_string());
    bad.insert("env".to_string(), "prod".to_string());
    let r = RuntimeValidator::validate(&rules, &bad, &ArgMap::new(), &ArgMap::new(), &ctx, &path(&["deploy"]), &ArgMap::new(), "t", "u");
    assert_eq!(
        r,
        Err("❌ Validation error in command 'nest deploy':\n   Parameter 'version' with value '1.2' does not match pattern '/^v?\\d+\\.\\d+\\.\\d+$/'".to_string())
    );

    let mut other = ArgMap::new();
    other.insert("version".to_string(), "v1.0.0".to_string());
    other.insert("env".to_string(), "qa".to_string());
    let r = RuntimeValidator::validate(&rules, &other, &ArgMap::new(), &ArgMap::new(), &ctx, &path(&["deploy"]), &ArgMap::new(), "t", "u");
    assert_eq!(
        r,
        Err("❌ Validation error in command 'nest deploy':\n   Target 'env' with value 'qa' is not in allowed list: [dev, prod]".to_string())
    );
}

#[test]
fn validation_flags_targets_and_bad_patterns() {
    let mut args = ArgMap::new();
    args.insert("name".to_string(), "ABC".to_string());
    let ctx = empty_ctx(&[]);
    let ci = vec![("name".to_string(), "/^abc$/i".to_string())];
    assert_eq!(RuntimeValidator::validate(&ci, &args, &ArgMap::new(), &ArgMap::new(), &ctx, &[], &ArgMap::new(), "t", "u"), Ok(()));

    let missing = vec![("other".to_string(), "/x/".to_string())];
    assert_eq!(
        RuntimeValidator::validate(&missing, &args, &ArgMap::new(), &ArgMap::new(), &ctx, &[], &ArgMap::new(), "t", "u"),
        Err("Validation error: target 'other' not found in arguments or environment".to_string())
    );

    let mut system = ArgMap::new();
    system.insert("STAGE".to_string(), "beta".to_string());
    let env_rule = vec![("$STAGE".to_string(), "in (alpha, beta)".to_string())];
    assert_eq!(RuntimeValidator::validate(&env_rule, &args, &ArgMap::new(), &system, &ctx, &[], &ArgMap::new(), "t", "u"), Ok(()));

    let broken = vec![("name".to_string(), "/(/".to_string())];
    let r = RuntimeValidator::validate(&broken, &args, &ArgMap::new(), &ArgMap::new(), &ctx, &[], &ArgMap::new(), "t", "u");
    assert!(r.unwrap_err().starts_with("Invalid regex pattern in validation rule for 'name': '/(/'. Error: "));
}

#[test]
fn run_of_a_plain_script() {
    let mut run = CommandRun::new(plan(Some("echo hi")));
    match run.start() {
        RunAction::RunScript(s, false, _) => assert_eq!(s, "echo hi"),
        other => panic!("unexpected {:?}", other),
    }
    assert!(matches!(run.resume(ok()), RunAction::Finish(Ok(()))));
}

#[test]
fn run_without_script_fails() {
    let mut run = CommandRun::new(plan(None));
    match run.start() {
        RunAction::Finish(Err(m)) => assert_eq!(m, "Command has no script directive"),
        other => panic!("unexpected {:?}", other),
    }
}

#[test]
fn fallback_receives_the_error_and_recovers() {
    let mut p = plan(Some("false"));
    p.fallback = Some(("echo failed: {{error}} / {{SYSTEM_ERROR_MESSAGE}}".to_string(), true));
    p.finally = Some(("echo done".to_string(), false));
    let mut run = CommandRun::new(p);
    assert!(matches!(run.start(), RunAction::RunScript(..)));
    match run.resume(fail("boom")) {
        RunAction::RunScript(s, true, args) => {
            assert_eq!(s, "echo failed: boom / boom");
            assert_eq!(args.get("error").map(|s| s.as_str()), Some("boom"));
        }
        other => panic!("unexpected {:?}", other),
    }
    match run.resume(ok()) {
        RunAction::RunScript(s, false, _) => assert_eq!(s, "echo done"),
        other => panic!("unexpected {:?}", other),
    }
    assert!(matches!(run.resume(fail("finally broke")), RunAction::Finish(Ok(()))));
}

#[test]
fn failure_without_fallback_is_logged_and_kept() {
    let mut p = plan(Some("false"));
    p.logs = Some(("run.log".to_string(), "json".to_string()));
    let mut run = CommandRun::new(p);
    run.start();
    match run.resume(fail("exit 1")) {
        RunAction::WriteLog(path, fmt, Err(e)) => {
            assert_eq!((path.as_str(), fmt.as_str(), e.as_str()), ("run.log", "json", "exit 1"));
        }
        other => panic!("unexpected {:?}", other),
    }
    match run.resume(ok()) {
        RunAction::Finish(Err(e)) => assert_eq!(e, "exit 1"),
        other => panic!("unexpected {:?}", other),
    }
}

#[test]
fn before_and_after_failures_are_reported() {
    let mut p = plan(Some("main"));
    p.before = Some(("pre".to_string(), false));
    p.after = Some(("post".to_string(), false));
    let mut run = CommandRun::new(p);
    assert!(matches!(run.start(), RunAction::RunScript(s, _, _) if s == "pre"));
    match run.resume(fail("x")) {
        RunAction::Finish(Err(e)) => assert_eq!(e, "Before script failed: x"),
        other => panic!("unexpected {:?}", other),
    }

    let mut p = plan(Some("main"));
    p.after = Some(("post".to_string(), false));
    let mut run = CommandRun::new(p);
    run.start();
    assert!(matches!(run.resume(ok()), RunAction::RunScript(s, _, _) if s == "post"));
    match run.resume(fail("y")) {
        RunAction::Finish(Err(e)) => assert_eq!(e, "After script failed: y"),
        other => panic!("unexpected {:?}", other),
    }
}

#[test]
fn confirmation_dependencies_privileges_and_dry_run() {
    let mut p = plan(Some("main"));
    p.has_dependencies = true;
    p.confirm = Some("Sure?".to_string());
    p.privileged = true;
    let mut run = CommandRun::new(p);
    assert!(matches!(run.start(), RunAction::RunDependencies));
    assert!(matches!(run.resume(ok()), RunAction::Confirm(m) if m == "Sure?"));
    assert!(matches!(run.resume(RunEvent::Answer(true)), RunAction::CheckPrivileges));
    match run.resume(fail("need root")) {
        RunAction::Finish(Err(e)) => assert_eq!(e, "need root"),
        other => panic!("unexpected {:?}", other),
    }

    let mut p = plan(Some("main"));
    p.confirm = Some("Sure?".to_string());
    let mut run = CommandRun::new(p);
    run.start();
    assert!(matches!(run.resume(RunEvent::Answer(false)), RunAction::Finish(Ok(()))));

    let mut p = plan(Some("main"));
    p.dry_run = true;
    p.privileged = true;
    let mut run = CommandRun::new(p);
    assert!(matches!(run.start(), RunAction::ShowDryRun(s) if s == "main"));
    assert!(matches!(run.resume(ok()), RunAction::Finish(Ok(()))));
}

#[test]
fn prepared_plan_collects_scripts_and_environment() {
    let src = "var APP = \"demo\"\ngroup:\n    before: echo parent-before\n    child():\n        env: MODE={{APP}}-x\n        script: echo {{APP}} {{name}}\n";
    let rt = runtime(src);
    let p = path(&["group", "child"]);
    let cmd = rt.find_command(&p).expect("child");
    let mut args = ArgMap::new();
    args.insert("name".to_string(), "n1".to_string());
    let plan = rt
        .prepare_run(cmd, &args, &p, &ArgMap::new(), false, &linux(), &ArgMap::new(), &ArgMap::new(), Some("outer"), "T", "u")
        .expect("plan");
    assert_eq!(plan.before.as_ref().map(|b| b.0.as_str()), Some("echo parent-before"));
    assert_eq!(plan.script.as_ref().map(|b| b.0.as_str()), Some("echo demo n1"));
    assert_eq!(plan.env.get("MODE").map(|s| s.as_str()), Some("demo-x"));
    assert_eq!(plan.env.get("APP").map(|s| s.as_str()), Some("demo"));
    assert_eq!(plan.env.get("NEST_CALL_STACK").map(|s| s.as_str()), Some("outer,group:child"));
    assert!(!plan.has_dependencies);

    let err = rt
        .prepare_run(cmd, &args, &p, &ArgMap::new(), false, &linux(), &ArgMap::new(), &ArgMap::new(), Some("a,group:child"), "T", "u")
        .err()
        .expect("cycle");
    assert!(err.starts_with("Circular dependency detected: Command 'group:child'"));
}

#[test]
fn scripts_split_into_steps() {
    let src = "build():\n    script: echo b\ntest():\n    script: echo t\nfunction greet(name: str):\n    echo hi {{name}}\n";
    let rt = runtime(src);
    let steps = rt.plan_script(
        "echo one\necho two\ngreet(name=\"x\")\nbuild\nshell: ls -la\ntest\necho end",
        &ArgMap::new(),
        &ArgMap::new(),
        &path(&["test"]),
        "T",
        "u",
    );
    assert_eq!(steps.len(), 5);
    assert!(matches!(&steps[0], ScriptStep::Shell(s) if s == "echo one\necho two"));
    assert!(matches!(&steps[1], ScriptStep::Function(n, a) if n == "greet" && a.get("name").map(|s| s.as_str()) == Some("x")));
    assert!(matches!(&steps[2], ScriptStep::Command(p, _) if p == &path(&["build"])));
    assert!(matches!(&steps[3], ScriptStep::External(s) if s == "ls -la"));
    // `test` calls the running command itself: it stays a shell line.
    assert!(matches!(&steps[4], ScriptStep::Shell(s) if s == "test\necho end"));
}

#[test]
fn function_bodies_and_return() {
    let src = "var WHO = \"world\"\nfunction greet(name: str):\n    echo {{name}} {{WHO}}\n    @return done\n    echo never\n";
    let rt = runtime(src);
    let f = rt.find_function("greet").expect("greet");
    let mut args = ArgMap::new();
    args.insert("name".to_string(), "hi".to_string());
    let steps = rt.plan_function(f, &args, &ArgMap::new(), &[], "T", "u");
    assert_eq!(steps.len(), 2);
    assert!(matches!(&steps[0], ScriptStep::Shell(s) if s.trim() == "echo hi world"));
    assert!(matches!(&steps[1], ScriptStep::Return(v) if v == "done"));
}

#[test]
fn function_return_values_are_processed_and_unquoted() {
    let src = "var WHO = \"world\"\nfunction f():\n    @return \"hi\"\nfunction g(name: str):\n    @return   '{{name}} {{WHO}}'  \nfunction h():\n    @return\nfunction k():\n    @return \"\n";
    let rt = runtime(src);
    let mut args = ArgMap::new();
    args.insert("name".to_string(), "bob".to_string());
    let f = rt.find_function("f").expect("f");
    let steps = rt.plan_function(f, &ArgMap::new(), &ArgMap::new(), &[], "T", "u");
    assert_eq!(steps.len(), 1);
    assert!(matches!(&steps[0], ScriptStep::Return(v) if v == "hi"));
    let g = rt.find_function("g").expect("g");
    let steps = rt.plan_function(g, &args, &ArgMap::new(), &[], "T", "u");
    assert!(matches!(&steps[0], ScriptStep::Return(v) if v == "bob world"));
    let h = rt.find_function("h").expect("h");
    let steps = rt.plan_function(h, &ArgMap::new(), &ArgMap::new(), &[], "T", "u");
    assert!(matches!(&steps[0], ScriptStep::Return(v) if v.is_empty()));
    let k = rt.find_function("k").expect("k");
    let steps = rt.plan_function(k, &ArgMap::new(), &ArgMap::new(), &[], "T", "u");
    assert!(matches!(&steps[0], ScriptStep::Return(v) if v == "\""));
}

#[test]
fn a_dry_run_shows_before_and_script_and_runs_nothing() {
    let mut p = plan(Some("main"));
    p.dry_run = true;
    p.before = Some(("prep".to_string(), false));
    p.after = Some(("post".to_string(), false));
    p.finally = Some(("end".to_string(), false));
    p.logs = Some(("out.log".to_string(), "json".to_string()));
    let mut run = CommandRun::new(p);
    assert!(matches!(run.start(), RunAction::ShowDryRun(s) if s == "prep"));
    assert!(matches!(run.resume(ok()), RunAction::ShowDryRun(s) if s == "main"));
    assert!(matches!(run.resume(ok()), RunAction::Finish(Ok(()))));
}

#[test]
fn a_path_is_found_through_its_parent() {
    let rt = runtime("group:\n    child():\n        script: echo c\nother():\n    script: echo o\n");
    let parent = rt.find_command(&path(&["group"])).expect("group");
    let direct = rt.find_command(&path(&["group", "child"])).expect("child");
    let via = parent.children.iter().find(|c| c.name == "child").expect("child of group");
    assert_eq!(direct.name, via.name);
    assert!(rt.find_command(&path(&["other", "child"])).is_none());
}
