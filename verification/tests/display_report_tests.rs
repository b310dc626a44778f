use nest::ast::ArgMap;
use nest::display::command_tree;
use nest::executor::process_env;
use nest::input::{confirmation_answer, confirmation_prompt};
use nest::parser::Parser;
use nest::ast::Command;
use nest::executor::CommandExecutor;
use nest::report::{format_error_message, ExecutionContext};

fn parse(src: &str) -> Vec<nest::ast::Command> {
    Parser::new(src).parse().expect("parse").commands
}

fn map(pairs: &[(&str, &str)]) -> ArgMap {
    let mut m = ArgMap::new();
    for (k, v) in pairs {
        m.insert(k.to_string(), v.to_string());
    }
    m
}

fn named(name: &str) -> Command {
    let mut c = Command::default();
    c.name = name.to_string();
    c
}

fn preview(
    script: &str,
    command: &Command,
    path: Option<&[String]>,
    args: &ArgMap,
    cwd: Option<&str>,
    privileged: bool,
    verbose: bool,
    env: &ArgMap,
    windows: bool,
) -> String {
    let ctx = ExecutionContext {
        command,
        args,
        env_vars: env,
        cwd,
        command_path: path,
        dry_run: true,
        verbose,
        privileged,
        hide_output: false,
    };
    CommandExecutor::show_dry_run_preview(script, &ctx, windows)
}

fn entries(m: &ArgMap) -> Vec<(String, String)> {
    (0..m.len()).map(|i| (m.key_at(i).clone(), m.value_at(i).clone())).collect()
}

#[test]
fn tree_shows_directives_and_children() {
    let cs = parse("build(!release|r: bool = false):\n    desc: Build it\n    script: cargo build\n    sub():\n        script: make\n");
    assert_eq!(
        command_tree(&cs[0], 0),
        "└─ build(!release|r: bool = false)\n    > desc: Build it\n    > script: cargo build\n  └─ sub\n      > script: make\n"
    );
}

#[test]
fn tree_shows_multiline_scripts_and_suffixes() {
    let cs = parse("run():\n    script.hide: |\n        echo one\n        echo two\n    depends.parallel: a, b\n");
    let t = command_tree(&cs[0], 1);
    assert!(t.starts_with("  └─ run\n"));
    assert!(t.contains("      > script.hide: |\n          echo one\n          echo two\n"), "{:?}", t);
    assert!(t.contains("      > depends.parallel: a, b\n"));
}

#[test]
fn dry_run_preview_lists_context_and_numbered_script() {
    let t = preview(
        "echo hi\necho there",
        &named("build"),
        Some(&["build".to_string()]),
        &map(&[("target", "x86")]),
        Some("/tmp"),
        true,
        true,
        &map(&[("MODE", "release")]),
        false,
    );
    assert!(t.starts_with("\n╔"));
    assert!(t.contains("║  🔍 Dry Run Preview\n"));
    assert!(t.contains(
        "📋 Command: nest build\n🔧 Arguments: target=x86\n📁 Working directory: /tmp\n🔐 Privileged access: Required (sudo)\n\n🌍 Environment variables:\n  MODE=release\n\n📜 Script to execute:\n"
    ));
    assert!(t.contains("│  1 echo hi│\n│  2 echo there│\n"));
    assert!(t.ends_with("\nℹ This is a dry run. The script was not executed.\n"));
}

#[test]
fn dry_run_preview_hides_environment_unless_verbose() {
    let t = preview("x", &named("c"), None, &ArgMap::new(), None, false, false, &map(&[("K", "V")]), false);
    assert!(t.contains("📋 Command: c\n\n📜 Script to execute:\n"));
    assert!(!t.contains("Environment"));
}

#[test]
fn verbose_info_shows_environment() {
    let c = named("c");
    let path = ["a".to_string(), "b".to_string()];
    let env = map(&[("K", "V")]);
    let args = ArgMap::new();
    let ctx = ExecutionContext {
        command: &c,
        args: &args,
        env_vars: &env,
        cwd: None,
        command_path: Some(&path),
        dry_run: false,
        verbose: true,
        privileged: false,
        hide_output: false,
    };
    let t = CommandExecutor::show_verbose_info("ls", &ctx, true);
    assert!(t.contains("║  ℹ Verbose Mode\n"));
    assert!(t.contains("📋 Command: nest a b\n\n🌍 Environment variables:\n  K=V\n\n📜 Script:\n"));
    assert!(t.ends_with("┘\n\n"));
}

#[test]
fn privileged_error_names_the_command() {
    let t = CommandExecutor::format_privileged_error(&named("deploy"), Some(&["deploy".to_string()]), false);
    assert!(t.contains("║  ❌ Privileged Access Required\n"));
    assert!(t.contains("📋 Command: nest deploy\n"));
    assert!(t.contains("   You MUST use sudo or an alternative"));
    assert!(t.contains("   Example: sudo nest <command>\n"));
    let w = CommandExecutor::format_privileged_error(&named("deploy"), None, true);
    assert!(w.contains("📋 Command: deploy\n"));
    assert!(w.contains("Run PowerShell/CMD as Administrator, then: nest <command>"));
}

#[test]
fn failure_report_previews_five_lines() {
    let script = "l1\nl2\nl3\nl4\nl5\nl6\nl7";
    let t = format_error_message(&named("x"), Some(&["x".to_string()]), &ArgMap::new(), None, script, 2, "(See output above)");
    assert!(t.contains("\n📜 Script preview:\n   1 l1\n   2 l2\n   3 l3\n   4 l4\n   5 l5\n  ... (2 more lines)\n"));
    assert!(t.contains("\n⚠️  Exit code: 2\n"));
    assert!(t.ends_with("\n📝 Error details:\n  (See output above)\n"));
}

#[test]
fn failure_report_suggests_missing_program() {
    let t = format_error_message(&named("x"), None, &ArgMap::new(), None, "foo", -1, "sh: line 1: foo: command not found");
    assert!(t.contains("⚠️  Exit code: -1\n"));
    assert!(t.contains("💡 Suggestion: Command foo not found.\n   Please install it or check your PATH environment variable.\n"));
}

#[test]
fn process_env_adds_arguments_twice() {
    let env = process_env(&map(&[("A", "1")]), &map(&[("name", "x"), ("ID", "5")]));
    assert_eq!(
        entries(&env),
        vec![
            ("A".to_string(), "1".to_string()),
            ("NAME".to_string(), "x".to_string()),
            ("name".to_string(), "x".to_string()),
            ("ID".to_string(), "5".to_string()),
        ]
    );
}

#[test]
fn confirmation_prompts() {
    assert_eq!(confirmation_prompt(Some("  Really?  "), None), "Really? [y/n]: ");
    assert_eq!(
        confirmation_prompt(Some("  "), Some(&["a".to_string(), "b".to_string()])),
        "Are you sure you want to execute 'a b'? [y/n]: "
    );
    assert_eq!(confirmation_prompt(None, None), "Are you sure you want to execute 'this command'? [y/n]: ");
}

#[test]
fn confirmation_answers() {
    assert_eq!(confirmation_answer(" YES \n"), Some(true));
    assert_eq!(confirmation_answer("y"), Some(true));
    assert_eq!(confirmation_answer("No"), Some(false));
    assert_eq!(confirmation_answer("n"), Some(false));
    assert_eq!(confirmation_answer("maybe"), None);
    assert_eq!(confirmation_answer(""), None);
}
