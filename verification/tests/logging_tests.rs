use nest::ast::ArgMap;
use nest::logging::{log_entry, log_json_object, log_path, JsonField};

fn path(parts: &[&str]) -> Vec<String> {
    parts.iter().map(|s| s.to_string()).collect()
}

#[test]
fn text_entries() {
    let mut args = ArgMap::new();
    args.insert("a".to_string(), "1".to_string());
    args.insert("b".to_string(), "x y".to_string());
    let p = path(&["dev", "build"]);
    assert_eq!(
        log_entry("txt", Some(&p), &args, &Ok(()), "T0"),
        Ok("[T0] Command: dev build\n  Args: a=1, b=x y\n  Status: SUCCESS\n\n".to_string())
    );
    assert_eq!(
        log_entry("txt", None, &ArgMap::new(), &Err("boom".to_string()), "T1"),
        Ok("[T1] Command: unknown\n  Status: FAILED\n  Error: boom\n\n".to_string())
    );
}

#[test]
fn json_entries_and_unknown_formats() {
    let mut args = ArgMap::new();
    args.insert("a".to_string(), "1".to_string());
    let p = path(&["build"]);
    let line = log_entry("json", Some(&p), &args, &Err("bad \"quote\"".to_string()), "T").expect("json");
    assert!(line.ends_with('\n'));
    let v: serde_json::Value = serde_json::from_str(line.trim_end()).expect("valid JSON");
    assert_eq!(v["command"], "build");
    assert_eq!(v["args"]["a"], "1");
    assert_eq!(v["success"], false);
    assert_eq!(v["error"], "bad \"quote\"");
    assert_eq!(v["timestamp"], "T");
    assert_eq!(log_entry("xml", Some(&p), &args, &Ok(()), "T"), Err("Unknown log format: xml".to_string()));
}

#[test]
fn log_paths_are_templates() {
    let mut args = ArgMap::new();
    args.insert("env".to_string(), "prod".to_string());
    assert_eq!(log_path("logs/{{env}}-{{user}}.log", &args, "T", "me"), "logs/prod-me.log");
}

#[test]
fn json_entries_have_five_fields() {
    let mut args = ArgMap::new();
    args.insert("env".to_string(), "prod".to_string());
    let f = log_json_object("T", "deploy app", &args, false, Some("boom"));
    let names: Vec<&str> = f.iter().map(|(k, _)| k.as_str()).collect();
    assert_eq!(names, vec!["timestamp", "command", "args", "success", "error"]);
    assert!(matches!(&f[0].1, JsonField::Text(t) if t == "T"));
    assert!(matches!(&f[1].1, JsonField::Text(t) if t == "deploy app"));
    assert!(matches!(&f[2].1, JsonField::Strings(v) if v == &vec![("env".to_string(), "prod".to_string())]));
    assert!(matches!(f[3].1, JsonField::Bool(false)));
    assert!(matches!(&f[4].1, JsonField::Text(t) if t == "boom"));
    let ok = log_json_object("T", "x", &ArgMap::new(), true, None);
    assert!(matches!(ok[4].1, JsonField::Null));
}
