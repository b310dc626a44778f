use nest::ast::Command;
use nest::includes::{filter_commands, matches_pattern};

fn create_dummy_command(name: &str) -> Command {
    Command {
        name: name.to_string(),
        parameters: vec![],
        directives: vec![],
        children: vec![],
        has_wildcard: false,
        local_variables: vec![],
        local_constants: vec![],
        source_file: None,
    }
}

fn create_group(name: &str, children: Vec<Command>) -> Command {
    let mut cmd = create_dummy_command(name);
    cmd.children = children;
    cmd
}

#[test]
fn test_filter_commands_deep() {
    // defined: group1 -> sub1, sub2
    let sub1 = create_dummy_command("sub1");
    let sub2 = create_dummy_command("sub2");
    let group1 = create_group("group1", vec![sub1, sub2]);
    let commands = vec![group1];

    // test: from group1
    let filter = vec!["group1"];
    let result = filter_commands(commands, &filter).expect("Filter failed");

    assert_eq!(result.len(), 1);
    assert_eq!(result[0].name, "group1");
    assert_eq!(result[0].children.len(), 2); // Should have both children
}

#[test]
fn test_filter_commands_partial() {
    // defined: group1 -> sub1, sub2
    let sub1 = create_dummy_command("sub1");
    let sub2 = create_dummy_command("sub2");
    let group1 = create_group("group1", vec![sub1, sub2]);
    let commands = vec![group1];

    // test: from group1.sub1
    let filter = vec!["group1.sub1"];
    let result = filter_commands(commands, &filter).expect("Filter failed");

    assert_eq!(result[0].children.len(), 1);
    assert_eq!(result[0].children[0].name, "sub1");
}

#[test]
fn test_filter_commands_nested() {
    // defined: group1 -> nested -> deep
    let deep = create_dummy_command("deep");
    let nested = create_group("nested", vec![deep]);
    let group1 = create_group("group1", vec![nested]);
    let commands = vec![group1];

    // test: from group1.nested.deep
    let filter = vec!["group1.nested.deep"];
    let result = filter_commands(commands, &filter).expect("Filter failed");

    let group1_res = &result[0];
    let nested_res = &group1_res.children[0];
    let deep_res = &nested_res.children[0];

    assert_eq!(group1_res.name, "group1");
    assert_eq!(nested_res.name, "nested");
    assert_eq!(deep_res.name, "deep");
}

#[test]
fn test_filter_commands_multiple() {
    // defined: group1 -> sub1, sub2; group2 -> sub3
    let sub1 = create_dummy_command("sub1");
    let sub2 = create_dummy_command("sub2");
    let group1 = create_group("group1", vec![sub1, sub2]);

    let sub3 = create_dummy_command("sub3");
    let group2 = create_group("group2", vec![sub3]);

    let commands = vec![group1, group2];

    // test: from group1.sub1, group2
    let filter = vec!["group1.sub1", "group2"];
    let result = filter_commands(commands, &filter).expect("Filter failed");

    assert_eq!(result.len(), 2);

    // Check group1
    let r_group1 = result.iter().find(|c| c.name == "group1").expect("group1 missing");
    assert_eq!(r_group1.children.len(), 1);
    assert_eq!(r_group1.children[0].name, "sub1");

    // Check group2
    let r_group2 = result.iter().find(|c| c.name == "group2").expect("group2 missing");
    assert_eq!(r_group2.children.len(), 1); // Full deep import
    assert_eq!(r_group2.children[0].name, "sub3");
}

#[test]
fn filter_drops_unselected_commands() {
    let commands = vec![create_dummy_command("a"), create_dummy_command("b")];
    let result = filter_commands(commands, &["b"]).expect("Filter failed");
    assert_eq!(result.len(), 1);
    assert_eq!(result[0].name, "b");
}

#[test]
fn filter_with_unknown_path_keeps_nothing() {
    let commands = vec![create_group("g", vec![create_dummy_command("x")])];
    let result = filter_commands(commands, &["g.y"]).expect("Filter failed");
    assert_eq!(result.len(), 1);
    assert_eq!(result[0].children.len(), 0);
}

#[test]
fn file_patterns_match_globs() {
    assert!(matches_pattern("build.nest", "*.nest"));
    assert!(!matches_pattern("build.txt", "*.nest"));
    assert!(matches_pattern("nestfile", "nestfile"));
    assert!(matches_pattern("app.nest", "app*"));
    assert!(matches_pattern("my-app.nest", "*app*"));
    assert!(!matches_pattern("other", "*app*"));
    assert!(!matches_pattern("a", "a*a"));
    assert!(matches_pattern("aa", "a*a"));
    assert!(matches_pattern("test1.nest", "test*.nest"));
    assert!(!matches_pattern("ab", "a*b*b"));
    assert!(matches_pattern("abxb", "a*b*b"));
}
