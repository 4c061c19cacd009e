use sar_extraction::java::type_inference::{
    calls_inferable, evaluate_invocations, extract_invoked_object, find_invoked_type, resolve_type, resolves_exec,
};
use sar_extraction::model::{Argument, Assignment, AssignmentKey, CallStatement, Scope};

fn entry(scope: Scope, name: &str, vtype: &str, value: &str) -> (AssignmentKey, Assignment) {
    (
        AssignmentKey { scope, variable_name: name.to_string() },
        Assignment { variable_name: name.to_string(), variable_type: vtype.to_string(), value: value.to_string() },
    )
}

fn call(name: &str, args: &[&str], function: Option<&str>, class: Option<&str>) -> CallStatement {
    CallStatement {
        function_name: name.to_string(),
        arguments: args
            .iter()
            .map(|a| Argument { assigned_variable: String::new(), value: a.to_string(), datatype: None })
            .collect(),
        enclosing_function_name: function.map(|f| f.to_string()),
        enclosing_class_name: class.map(|c| c.to_string()),
        enclosing_function_hash: None,
        is_self_invoke: false,
        is_super_invoke: false,
        invoked_on: None,
        source_span: Default::default(),
    }
}

#[test]
fn resolves_types_through_assignment_chains() {
    let f = Scope::Function("void run()".to_string());
    let map = vec![entry(f.clone(), "a", "", "b"), entry(f.clone(), "b", "Order", "new Order()")];
    assert_eq!(resolve_type("a", &f, &map), Some("Order".to_string()));
    assert_eq!(resolve_type("c", &f, &map), None);
    assert!(resolves_exec("a", &f, &map));
}

#[test]
fn cyclic_chains_are_reported() {
    let f = Scope::Function("void run()".to_string());
    let map = vec![entry(f.clone(), "a", "", "b"), entry(f.clone(), "b", "", "a")];
    assert!(!resolves_exec("a", &f, &map));
    let calls = vec![call("client.send", &["a"], Some("void run()"), None)];
    assert!(!calls_inferable(&calls, &map, &vec![vec![false]]));
}

#[test]
fn invoked_objects_and_their_types() {
    assert_eq!(extract_invoked_object("restTemplate.getForObject"), Some("restTemplate".to_string()));
    assert_eq!(extract_invoked_object("send"), None);
    let map = vec![entry(Scope::Class("Client".to_string()), "restTemplate", "RestTemplate", "")];
    assert_eq!(
        find_invoked_type("restTemplate", &Some("void run()".to_string()), &Some("Client".to_string()), &map),
        Some("RestTemplate".to_string())
    );
}

#[test]
fn evaluates_call_objects_and_argument_types() {
    let map = vec![
        entry(Scope::Class("Client".to_string()), "restTemplate", "RestTemplate", ""),
        entry(Scope::Function("void run()".to_string()), "url", "String", "\"http://x\""),
    ];
    let mut calls = vec![call("restTemplate.getForObject", &["url", "42", "\"a\"", "2.5", "other"], Some("void run()"), Some("Client"))];
    let floats = vec![vec![false, true, false, true, false]];
    assert!(calls_inferable(&calls, &map, &floats));
    evaluate_invocations(&mut calls, &map, &floats);
    let c = &calls[0];
    assert_eq!(c.invoked_on.as_deref(), Some("RestTemplate"));
    let types: Vec<Option<&str>> = c.arguments.iter().map(|a| a.datatype.as_deref()).collect();
    assert_eq!(types, vec![Some("String"), Some("int"), Some("String"), Some("double"), None]);
}
