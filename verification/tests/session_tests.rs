use nest::ast::Command;
use nest::panes::{arg_item, details, list_title, tree_label};
use nest::parser::Parser;
use nest::session::{Browser, BrowserAction, Focus, InputMode, Key, ViewMode};
use nest::sources::resolve_command_sources;

const NESTFILE: &str = "build(!release|r: bool = false, target: str):\n    desc: Build it\n    script: cargo build\n\ndev:\n    desc: tools\n\n    lint():\n        script: eslint\n    test():\n        script: npm test\n";

fn commands() -> Vec<Command> {
    Parser::new(NESTFILE).parse().expect("parse").commands
}

fn browser() -> Browser {
    Browser::new(commands(), vec!["old".to_string()])
}

fn selected_name(b: &Browser) -> Option<String> {
    b.selected_command().map(|c| c.name.clone())
}

fn buffer(b: &Browser) -> String {
    b.input_buffer.iter().collect()
}

#[test]
fn starts_in_the_tree_at_the_first_command() {
    let b = browser();
    assert_eq!(b.selected, Some(0));
    assert!(matches!(b.view_mode, ViewMode::Tree));
    assert_eq!(selected_name(&b), Some("build".to_string()));
    assert_eq!(b.flat_commands.len(), 4);
}

#[test]
fn arrows_wrap_around() {
    let mut b = browser();
    b.handle_key(Key::Down);
    assert_eq!(selected_name(&b), Some("dev".to_string()));
    b.handle_key(Key::Down);
    assert_eq!(selected_name(&b), Some("build".to_string()));
    b.handle_key(Key::Up);
    assert_eq!(selected_name(&b), Some("dev".to_string()));
}

#[test]
fn right_goes_into_a_group_and_left_comes_back() {
    let mut b = browser();
    b.handle_key(Key::Down);
    b.handle_key(Key::Right);
    assert_eq!(b.breadcrumbs, vec!["dev".to_string()]);
    assert_eq!(selected_name(&b), Some("lint".to_string()));
    b.handle_key(Key::Down);
    assert_eq!(selected_name(&b), Some("test".to_string()));
    b.handle_key(Key::Left);
    assert!(b.breadcrumbs.is_empty());
    assert_eq!(selected_name(&b), Some("dev".to_string()));
}

#[test]
fn enter_on_a_command_runs_it_and_records_it() {
    let mut b = browser();
    b.handle_key(Key::Down);
    b.handle_key(Key::Enter);
    assert_eq!(b.breadcrumbs, vec!["dev".to_string()]);
    match b.handle_key(Key::Enter) {
        BrowserAction::Execute(line) => assert_eq!(line, "dev lint"),
        other => panic!("unexpected {:?}", other),
    }
    assert_eq!(b.history, vec!["dev lint".to_string(), "old".to_string()]);
}

#[test]
fn search_then_enter_shows_the_flat_results() {
    let mut b = browser();
    b.handle_key(Key::Char('/'));
    assert!(matches!(b.mode, InputMode::Search));
    b.handle_key(Key::Char('L'));
    b.handle_key(Key::Char('i'));
    assert_eq!(b.filtered_commands, vec![2]);
    b.handle_key(Key::Enter);
    assert!(matches!(b.view_mode, ViewMode::Flat));
    assert_eq!(selected_name(&b), Some("lint".to_string()));
    b.handle_key(Key::Char('/'));
    b.handle_key(Key::Esc);
    assert!(b.search_query.is_empty());
    assert!(b.filtered_commands.is_empty());
}

#[test]
fn argument_form_toggles_booleans_and_edits_values() {
    let mut b = browser();
    b.handle_key(Key::Tab);
    assert!(matches!(b.focus, Focus::History));
    assert_eq!(b.history_selected, Some(0));
    b.handle_key(Key::Tab);
    assert!(matches!(b.focus, Focus::ArgumentList));
    assert_eq!(b.arg_selected, Some(0));
    assert_eq!(buffer(&b), "build");
    b.handle_key(Key::Enter);
    assert_eq!(buffer(&b), "build --release");
    b.handle_key(Key::Down);
    b.handle_key(Key::Enter);
    assert!(matches!(b.mode, InputMode::EditingArg));
    b.handle_key(Key::Char('x'));
    b.handle_key(Key::Char('8'));
    b.handle_key(Key::Char('7'));
    b.handle_key(Key::Backspace);
    b.handle_key(Key::Enter);
    assert!(matches!(b.mode, InputMode::Normal));
    assert_eq!(buffer(&b), "build --release x8");
}

#[test]
fn edit_mode_runs_the_typed_line() {
    let mut b = browser();
    b.handle_key(Key::Char('e'));
    assert!(matches!(b.mode, InputMode::Editing));
    assert_eq!(buffer(&b), "build");
    b.handle_key(Key::Char(' '));
    b.handle_key(Key::Char('x'));
    match b.handle_key(Key::Enter) {
        BrowserAction::Execute(line) => assert_eq!(line, "build x"),
        other => panic!("unexpected {:?}", other),
    }
    assert!(matches!(b.mode, InputMode::Normal));
}

#[test]
fn history_view_selects_by_command_line() {
    let mut b = Browser::new(commands(), vec!["dev test --x".to_string()]);
    b.handle_key(Key::Char('h'));
    assert!(matches!(b.view_mode, ViewMode::History));
    assert_eq!(selected_name(&b), Some("test".to_string()));
    b.handle_key(Key::Char('h'));
    assert!(matches!(b.view_mode, ViewMode::Tree));
}

#[test]
fn source_pane_asks_for_the_file() {
    let mut b = browser();
    b.handle_key(Key::Char('d'));
    assert!(b.show_source);
    assert_eq!(b.source_code.as_deref(), Some("No source file information available."));
    b.handle_key(Key::Char('d'));
    let resolved = resolve_command_sources(commands(), NESTFILE, "/p/nestfile");
    let mut b = Browser::new(resolved, vec![]);
    match b.handle_key(Key::Char('d')) {
        BrowserAction::LoadSource(p) => assert_eq!(p, "/p/nestfile"),
        other => panic!("unexpected {:?}", other),
    }
    b.source_loaded(NESTFILE);
    assert!(b.source_code.as_deref().unwrap().starts_with("build(!release"));
}

#[test]
fn quit_keys() {
    let mut b = browser();
    assert!(matches!(b.handle_key(Key::Char('q')), BrowserAction::Quit));
    assert!(b.should_quit);
    let mut b = browser();
    b.handle_key(Key::Char('/'));
    b.handle_key(Key::Char('q'));
    assert!(!b.should_quit);
    assert_eq!(b.search_query, vec!['q']);
}

#[test]
fn sources_follow_markers() {
    let content = "# @source: /a/nestfile\nbuild():\n    script: x\n# @source: /b/nestfile\ndev:\n    lint():\n        script: y\n";
    let cs = Parser::new(content).parse().expect("parse").commands;
    let cs = resolve_command_sources(cs, content, "/start");
    assert_eq!(cs[0].source_file.as_deref(), Some("/a/nestfile"));
    assert_eq!(cs[1].source_file.as_deref(), Some("/b/nestfile"));
    assert_eq!(cs[1].children[0].source_file.as_deref(), Some("/b/nestfile"));
}

#[test]
fn pane_texts() {
    let cs = commands();
    assert_eq!(list_title(false, &vec![]), "Commands (Root)");
    assert_eq!(list_title(false, &vec!["dev".to_string(), "x".to_string()]), "Commands (dev > x)");
    assert_eq!(list_title(true, &vec!["dev".to_string()]), "Commands (All)");
    assert_eq!(tree_label(&cs[1]), "dev /");
    assert_eq!(tree_label(&cs[0]), "build");
    assert_eq!(arg_item(&cs[0].parameters[0], None), "[ ] --release");
    assert_eq!(arg_item(&cs[0].parameters[0], Some(&"true".to_string())), "[x] --release");
    assert_eq!(arg_item(&cs[0].parameters[1], Some(&"x86".to_string())), "<target>: x86 (str)");
    assert_eq!(arg_item(&cs[0].parameters[1], None), "<target> (str)");
    assert_eq!(
        details(&cs[1]),
        vec!["Group: dev", "", "Description:", "  tools", "", "Subcommands:", "  lint, test", ""]
    );
    assert_eq!(details(&cs[0]), vec!["Command: build", "", "Description:", "  Build it", ""]);
}
