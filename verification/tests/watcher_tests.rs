use nest::ast::{Command, Directive};
use nest::watcher::{debounce_allows, WatcherConfig};

fn command(directives: Vec<Directive>) -> Command {
    Command {
        name: "dev".to_string(),
        parameters: vec![],
        directives,
        children: vec![],
        has_wildcard: false,
        local_variables: vec![],
        local_constants: vec![],
        source_file: None,
    }
}

#[test]
fn default_configuration() {
    let c = WatcherConfig::default();
    assert!(c.patterns.is_empty());
    assert_eq!(c.debounce_ms, 100);
}

#[test]
fn unwatched_commands_have_no_configuration() {
    assert!(WatcherConfig::for_command(&command(vec![]), None).is_none());
}

#[test]
fn patterns_are_sorted_without_repeats() {
    let c = command(vec![
        Directive::Watch(vec!["src/**/*.rs".to_string(), "Cargo.toml".to_string()]),
        Directive::Desc("d".to_string()),
        Directive::Watch(vec!["Cargo.toml".to_string()]),
    ]);
    let cfg = WatcherConfig::for_command(&c, Some("assets/*".to_string())).expect("watched").expect("patterns");
    assert_eq!(cfg.patterns, vec!["Cargo.toml".to_string(), "assets/*".to_string(), "src/**/*.rs".to_string()]);
    assert_eq!(cfg.debounce_ms, 200);

    let only_cli = WatcherConfig::for_command(&command(vec![]), Some("x".to_string())).expect("watched").expect("ok");
    assert_eq!(only_cli.patterns, vec!["x".to_string()]);
}

#[test]
fn debounce_counts_elapsed_time() {
    assert!(!debounce_allows(150, 200));
    assert!(debounce_allows(200, 200));
    assert!(debounce_allows(5000, 200));
}
