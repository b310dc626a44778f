use nest::help::HelpFormatter;
use nest::parser::Parser;

#[test]
fn group_help_lists_children_with_descriptions() {
    let src = "dev:\n    desc: Development tools\n\n    lint():\n        desc: Lint it\n        script: eslint\n    test(!watch|w: bool = false):\n        script: npm test\n";
    let r = Parser::new(src).parse().expect("parse");
    let text = HelpFormatter::group_help(&r.commands[0], &["dev".to_string()]);
    assert_eq!(
        text,
        "Usage: nest dev [COMMAND]\n\nDevelopment tools\n\nAvailable commands:\n  lint  Lint it\n  test(!watch|w: bool = false)\n"
    );
}

#[test]
fn group_help_without_description() {
    let src = "ops:\n    a():\n        script: echo\n";
    let r = Parser::new(src).parse().expect("parse");
    let text = HelpFormatter::group_help(&r.commands[0], &["ops".to_string()]);
    assert_eq!(text, "Usage: nest ops [COMMAND]\n\nAvailable commands:\n  a\n");
}

#[test]
fn description_is_the_first_desc_directive() {
    let src = "x():\n    script: echo\n    desc: first\n    desc: second\n";
    let r = Parser::new(src).parse().expect("parse");
    let d = HelpFormatter::extract_description(&r.commands[0].directives);
    assert!(d.is_some());
}
