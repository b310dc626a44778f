use nest::ast::ArgMap;
use nest::browser::{
    add_history, command_line, flat_paths, history_file_text, history_from_file,
    resolve_command_from_string, search, select_next, select_previous, source_excerpt, split_words,
};
use nest::parser::Parser;

const NESTFILE: &str = "build(!release|r: bool = false, target: str):\n    script: cargo build\n\ndev:\n    desc: tools\n\n    lint():\n        script: eslint\n    test(!watch|w: bool = false):\n        script: npm test\n";

fn commands() -> Vec<nest::ast::Command> {
    Parser::new(NESTFILE).parse().expect("parse").commands
}

fn strings(v: &[&str]) -> Vec<String> {
    v.iter().map(|s| s.to_string()).collect()
}

#[test]
fn flat_paths_lists_parents_before_children() {
    let paths = flat_paths(&commands());
    let joined: Vec<String> = paths.iter().map(|p| p.join(" ")).collect();
    assert_eq!(joined, strings(&["build", "dev", "dev lint", "dev test"]));
}

#[test]
fn selection_wraps_both_ways() {
    assert_eq!(select_next(None, 3), Some(0));
    assert_eq!(select_next(Some(0), 3), Some(1));
    assert_eq!(select_next(Some(2), 3), Some(0));
    assert_eq!(select_previous(Some(0), 3), Some(2));
    assert_eq!(select_previous(Some(2), 3), Some(1));
    assert_eq!(select_previous(None, 3), Some(0));
    assert_eq!(select_next(Some(1), 0), Some(1));
    assert_eq!(select_previous(None, 0), None);
}

#[test]
fn next_then_previous_returns_to_the_same_item() {
    for count in 1..6usize {
        for i in 0..count {
            assert_eq!(select_previous(select_next(Some(i), count), count), Some(i));
        }
    }
}

#[test]
fn history_puts_newest_first_without_repeats() {
    let mut h = strings(&["b", "a"]);
    add_history(&mut h, "c".to_string());
    assert_eq!(h, strings(&["c", "b", "a"]));
    add_history(&mut h, "a".to_string());
    assert_eq!(h, strings(&["a", "c", "b"]));
}

#[test]
fn history_keeps_at_most_fifty_lines() {
    let mut h = Vec::new();
    for i in 0..60 {
        add_history(&mut h, format!("cmd {}", i));
    }
    assert_eq!(h.len(), 50);
    assert_eq!(h[0], "cmd 59");
    assert_eq!(h[49], "cmd 10");
}

#[test]
fn history_file_round_trip() {
    let h = history_from_file("old\nmiddle\nnew");
    assert_eq!(h, strings(&["new", "middle", "old"]));
    assert_eq!(history_file_text(&h), "old\nmiddle\nnew");
}

#[test]
fn search_ignores_case() {
    let paths = strings(&["build", "dev", "dev lint", "dev test"]);
    assert_eq!(search(&paths, "DEV"), vec![1, 2, 3]);
    assert_eq!(search(&paths, "lint"), vec![2]);
    assert_eq!(search(&paths, ""), Vec::<usize>::new());
    assert_eq!(search(&paths, "zzz"), Vec::<usize>::new());
}

#[test]
fn command_line_from_chosen_arguments() {
    let cs = commands();
    let mut args = ArgMap::new();
    args.insert("release".to_string(), "true".to_string());
    args.insert("target".to_string(), "x86".to_string());
    assert_eq!(command_line(&[], &cs[0], &args, false), "build --release x86");
    let mut off = ArgMap::new();
    off.insert("release".to_string(), "false".to_string());
    off.insert("target".to_string(), "".to_string());
    assert_eq!(command_line(&[], &cs[0], &off, false), "build");
    let test = &cs[1].children[1];
    let mut w = ArgMap::new();
    w.insert("watch".to_string(), "true".to_string());
    assert_eq!(command_line(&strings(&["dev"]), test, &w, false), "dev test --watch");
    assert_eq!(command_line(&strings(&["dev"]), test, &w, true), "test --watch");
}

#[test]
fn words_split_on_whitespace() {
    let w: Vec<String> = split_words("  dev \t test  --watch ").into_iter().map(|c| c.into_iter().collect()).collect();
    assert_eq!(w, strings(&["dev", "test", "--watch"]));
}

#[test]
fn command_resolved_from_history_line() {
    let cs = commands();
    assert_eq!(resolve_command_from_string(&cs, "dev test --watch").map(|c| c.name.clone()), Some("test".to_string()));
    assert_eq!(resolve_command_from_string(&cs, "dev").map(|c| c.name.clone()), Some("dev".to_string()));
    assert_eq!(resolve_command_from_string(&cs, "build x86").map(|c| c.name.clone()), Some("build".to_string()));
    assert!(resolve_command_from_string(&cs, "nothing").is_none());
    assert!(resolve_command_from_string(&cs, "").is_none());
}

#[test]
fn source_excerpt_starts_at_the_definition() {
    assert_eq!(source_excerpt(NESTFILE, "lint"), "    lint():\n        script: eslint\n    test(!watch|w: bool = false):\n        script: npm test");
    assert_eq!(source_excerpt("a\nb", "zzz"), "Could not find definition in file.");
    let long: String = (0..30).map(|i| format!("line{}\n", i)).collect();
    let ex = source_excerpt(&long, "line5");
    assert_eq!(ex.lines().count(), 20);
    assert!(ex.starts_with("line5"));
    assert!(ex.ends_with("line24"));
}
