use nest::includes::{
    config_file_names, directive_line, directory_picks, enter_file, import_target, is_config_file, leave_file,
    not_visited, parse_import, sourced_text, spliced_text, ImportSyntaxError, ImportTarget, IncludeError, PathFacts,
    SpliceAction, SpliceRun,
};

#[test]
fn import_path_alone() {
    let r = parse_import(" app1/nestfile ").expect("parse");
    assert_eq!(r.path, "app1/nestfile");
    assert!(r.into.is_none());
    assert!(r.from.is_none());
}

#[test]
fn import_into_group_from_commands() {
    let r = parse_import("lib/tasks into tools from build, dev.lint, ,test").expect("parse");
    assert_eq!(r.path, "lib/tasks");
    assert_eq!(r.into.as_deref(), Some("tools"));
    assert_eq!(r.from, Some(vec!["build".to_string(), "dev.lint".to_string(), "test".to_string()]));
}

#[test]
fn import_from_splits_at_the_last_from() {
    let r = parse_import("dir from x from a,b").expect("parse");
    assert_eq!(r.path, "dir from x");
    assert_eq!(r.from, Some(vec!["a".to_string(), "b".to_string()]));
}

#[test]
fn import_without_path_is_an_error() {
    assert!(matches!(parse_import("   "), Err(ImportSyntaxError::EmptyPath)));
    assert_eq!(parse_import(" into g").expect("parse").path, "into g");
}

#[test]
fn spliced_plain_text_gets_a_line_break() {
    assert_eq!(spliced_text("@x a", None, "b():\n    script: echo").unwrap(), "b():\n    script: echo\n");
}

#[test]
fn spliced_into_group_indents_the_lines() {
    let t = spliced_text("  @x a into g", Some("grp"), "b():\n    script: echo\n").unwrap();
    assert_eq!(t, "  grp:\n      b():\n          script: echo\n");
}

#[test]
fn spliced_into_empty_group_is_an_error() {
    assert!(matches!(spliced_text("@x a into", Some(""), "b()"), Err(ImportSyntaxError::EmptyGroup)));
}

const KW: &str = "@include ";

fn facts(exists: bool, is_file: bool, is_dir: bool, name: Option<&str>, ext: bool, found: [bool; 4]) -> PathFacts {
    PathFacts {
        exists,
        is_file,
        is_dir,
        file_name: name.map(|n| n.to_string()),
        has_extension: ext,
        config_files: found.to_vec(),
    }
}

#[test]
fn directive_lines_are_recognised() {
    assert!(matches!(directive_line("# @include x", KW), Ok(None)));
    assert!(matches!(directive_line("   ", KW), Ok(None)));
    assert!(matches!(directive_line("build:", KW), Ok(None)));
    let r = directive_line("    @include mods/db.nest into db from a, b", KW).expect("ok").expect("request");
    assert_eq!(r.path, "mods/db.nest");
    assert_eq!(r.into.as_deref(), Some("db"));
    assert_eq!(r.from, Some(vec!["a".to_string(), "b".to_string()]));
    assert!(matches!(directive_line("@include    ", KW), Ok(None)));
    let r = directive_line("@include  into g", KW).expect("ok").expect("request");
    assert_eq!(r.path, "into g");
}

#[test]
fn targets_follow_the_kind_of_path() {
    let none = facts(false, false, false, None, false, [false; 4]);
    assert!(matches!(import_target("/b/mods/*.nest", &none), Ok(ImportTarget::Pattern(Some(d), p)) if d == "/b/mods" && p == "*.nest"));
    assert!(matches!(import_target("*.nest", &none), Ok(ImportTarget::Pattern(None, p)) if p == "*.nest"));
    assert!(matches!(import_target("https://x.org/a.nest", &none), Ok(ImportTarget::Remote(u)) if u == "https://x.org/a.nest"));
    assert!(matches!(import_target("/b/cmds//", &none), Ok(ImportTarget::Directory(d)) if d == "/b/cmds"));
    let file = facts(true, true, false, Some("a.nest"), true, [false; 4]);
    assert!(matches!(import_target("/b/a.nest", &file), Ok(ImportTarget::File(f)) if f == "/b/a.nest"));
    let dir = facts(true, false, true, Some("cmds"), false, [false; 4]);
    assert!(matches!(import_target("/b/cmds", &dir), Ok(ImportTarget::Directory(d)) if d == "/b/cmds"));
    let named = facts(false, false, false, Some("nestfile"), false, [false; 4]);
    assert!(matches!(import_target("/b/nestfile", &named), Ok(ImportTarget::File(f)) if f == "/b/nestfile"));
    let inner = facts(true, false, false, Some("app"), false, [false, true, true, false]);
    assert!(matches!(import_target("/b/app", &inner), Ok(ImportTarget::File(f)) if f == "/b/app/Nestfile"));
    let missing = facts(false, false, false, Some("app"), false, [false; 4]);
    assert!(matches!(import_target("/b/app", &missing), Ok(ImportTarget::Directory(d)) if d == "/b/app"));
    let gone = facts(false, false, false, Some("a.nest"), true, [false; 4]);
    assert!(matches!(import_target("/b/a.nest", &gone), Err(IncludeError::NotFound(m)) if m == "File not found: /b/a.nest"));
}

#[test]
fn directories_bring_in_configuration_files() {
    assert!(is_config_file("Nest"));
    assert!(!is_config_file("nest.txt"));
    assert_eq!(config_file_names(), vec!["nestfile", "Nestfile", "nest", "Nest"]);
    let names: Vec<String> = ["a.nest", "nestfile", "b.nest", "sub", "Nest"].iter().map(|s| s.to_string()).collect();
    let files = vec![true, true, false, false, true];
    assert_eq!(directory_picks(&names, &files, None), vec!["nestfile", "Nest"]);
    assert_eq!(directory_picks(&names, &files, Some("*.nest")), vec!["a.nest"]);
}

#[test]
fn circular_inclusion_is_refused() {
    let v = enter_file(&Vec::new(), "/b/nestfile", "nestfile").expect("first");
    assert_eq!(v, vec!["/b/nestfile"]);
    let v = enter_file(&v, "/b/a.nest", "a.nest").expect("second");
    assert!(matches!(enter_file(&v, "/b/nestfile", "../nestfile"), Err(IncludeError::CircularInclude(m)) if m == "../nestfile"));
    assert!(matches!(not_visited(&v, "/b/a.nest", "a.nest"), Err(IncludeError::CircularInclude(m)) if m == "a.nest"));
    assert!(not_visited(&v, "/b/c.nest", "c.nest").is_ok());
    assert_eq!(leave_file(&v, "/b/a.nest"), vec!["/b/nestfile"]);
    assert_eq!(sourced_text("/b/a.nest", "x:\n"), "# @source: /b/a.nest\nx:\n");
}

#[test]
fn every_directive_line_is_replaced_by_what_it_loads() {
    let content = "a:\n    script: x\n@include one.nest\n  @include two.nest into g\n@include none.nest\nb:\n";
    let (mut run, mut action) = SpliceRun::start(content, KW);
    let mut asked = Vec::new();
    let out = loop {
        match action {
            SpliceAction::Done(r) => break r,
            SpliceAction::Load(q) => {
                asked.push(q.path.clone());
                let loaded = match q.path.as_str() {
                    "one.nest" => Some("c:\n    script: c".to_string()),
                    "two.nest" => Some("d:\n    script: d".to_string()),
                    _ => None,
                };
                action = run.resume(loaded);
            }
        }
    };
    assert_eq!(asked, vec!["one.nest", "two.nest", "none.nest"]);
    let text = match out {
        Ok(t) => t,
        Err(_) => panic!("walk failed"),
    };
    assert_eq!(text, "a:\n    script: x\nc:\n    script: c\n  g:\n      d:\n          script: d\nb:\n");
}

#[test]
fn an_empty_group_stops_the_walk() {
    let (mut run, action) = SpliceRun::start("@include x.nest into \n", KW);
    match action {
        SpliceAction::Load(q) => assert_eq!(q.path, "x.nest into"),
        _ => panic!("expected a load"),
    }
    let (mut run2, action2) = SpliceRun::start("@include x.nest into  g\n", KW);
    assert!(matches!(action2, SpliceAction::Load(_)));
    assert!(matches!(run2.resume(Some("k:\n".to_string())), SpliceAction::Done(Ok(_))));
    assert!(matches!(run.resume(None), SpliceAction::Done(Ok(t)) if t.is_empty()));
}
