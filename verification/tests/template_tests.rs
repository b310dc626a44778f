use nest::ast::ArgMap;
use nest::template::{FunctionResolver, TemplateProcessor};

struct Upper;

impl FunctionResolver for Upper {
    fn resolve(&self, func_name: &str, args: &ArgMap) -> Result<Option<String>, String> {
        match func_name {
            "up" => Ok(Some(args.get("x").cloned().unwrap_or_default().to_uppercase())),
            "none" => Ok(None),
            _ => Err(format!("no function {}", func_name)),
        }
    }
}

#[test]
fn function_calls_are_found_in_order() {
    let calls = TemplateProcessor::function_calls("a {{ up(x=\"b\") }} {{ name }} {{none()}} {{ oops");
    assert_eq!(calls.len(), 2);
    assert_eq!(calls[0].0, "up");
    assert_eq!(calls[0].1.get("x").map(|s| s.as_str()), Some("b"));
    assert_eq!(calls[1].0, "none");
}

#[test]
fn calls_are_replaced_by_values() {
    let s = TemplateProcessor::substitute_calls(
        "a {{ up(x=\"b\") }} {{ name }} {{none()}}!",
        &[Some("B".to_string()), None],
    );
    assert_eq!(s, "a B {{name}} {{none()}}!");
    let empty = TemplateProcessor::substitute_calls("a {{ up() }}!", &[Some(String::new())]);
    assert_eq!(empty, "a !");
    let unclosed = TemplateProcessor::substitute_calls("x {{ y", &[]);
    assert_eq!(unclosed, "x {");
}

#[test]
fn resolver_results_fill_the_script() {
    assert_eq!(
        TemplateProcessor::process_function_calls("echo {{ up(x=\"hi\") }}{{ none() }}", &Upper),
        Ok("echo HI{{none()}}".to_string())
    );
    assert_eq!(
        TemplateProcessor::process_function_calls("echo {{ missing() }}", &Upper),
        Err("no function missing".to_string())
    );
}

struct Fixed(Result<Option<String>, String>);

impl FunctionResolver for Fixed {
    fn resolve(&self, _func_name: &str, _args: &ArgMap) -> Result<Option<String>, String> {
        self.0.clone()
    }
}

#[test]
fn a_call_without_a_value_keeps_its_template() {
    assert_eq!(
        TemplateProcessor::process_function_calls("x {{ g() }} y", &Fixed(Ok(None))),
        Ok("x {{g()}} y".to_string())
    );
    assert_eq!(
        TemplateProcessor::process_function_calls("a {{ f(x=\"1\") }} b", &Fixed(Ok(Some("R".to_string())))),
        Ok("a R b".to_string())
    );
    assert_eq!(
        TemplateProcessor::process_function_calls("{{ f() }}", &Fixed(Err("boom".to_string()))),
        Err("boom".to_string())
    );
}
