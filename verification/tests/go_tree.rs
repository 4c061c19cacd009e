use sar_extraction::bindings::Bindings;
use sar_extraction::go::endpoint_frameworks::{identify_route_exec, join_route_prefix_exec, router_prefix_exec};
use sar_extraction::go::endpoints::collect_endpoints;
use sar_extraction::go::syntax::{evaluate_expression_node, GoNode};
use sar_extraction::model::{Assignment, AssignmentKey, HttpMethod, Import, Scope};

fn leaf(kind: &str, text: &str, field: Option<&str>) -> GoNode {
    GoNode { kind: kind.to_string(), text: text.to_string(), field_name: field.map(|f| f.to_string()), named: Vec::new() }
}

fn node(kind: &str, text: &str, field: Option<&str>, named: Vec<GoNode>) -> GoNode {
    GoNode { kind: kind.to_string(), text: text.to_string(), field_name: field.map(|f| f.to_string()), named }
}

fn selector(receiver: &str, name: &str, field: Option<&str>) -> GoNode {
    node(
        "selector_expression",
        &format!("{receiver}.{name}"),
        field,
        vec![leaf("identifier", receiver, Some("operand")), leaf("field_identifier", name, Some("field"))],
    )
}

fn call(receiver: &str, name: &str, args: Vec<GoNode>, text: &str) -> GoNode {
    node(
        "call_expression",
        text,
        None,
        vec![selector(receiver, name, Some("function")), node("argument_list", "(...)", Some("arguments"), args)],
    )
}

fn global(name: &str, value: &str) -> (AssignmentKey, Assignment) {
    (
        AssignmentKey { scope: Scope::Global, variable_name: name.to_string() },
        Assignment { variable_name: name.to_string(), variable_type: String::new(), value: value.to_string() },
    )
}

fn text(v: &[char]) -> String {
    v.iter().collect()
}

#[test]
fn chi_routes_carry_group_prefixes() {
    let route = call(
        "api",
        "Get",
        vec![leaf("interpreted_string_literal", "\"/items/{id}\"", None), leaf("identifier", "showItem", None)],
        "api.Get(\"/items/{id}\", showItem)",
    );
    let asg = vec![global("r", "chi.NewRouter()"), global("api", "r.Group(\"/api\")")];
    let imports: Vec<Import> = Vec::new();
    let prefix = router_prefix_exec(&route.named[0], &asg, &imports).expect("prefix");
    assert_eq!(text(&prefix), "/api");
    let found = identify_route_exec(&route, &Bindings::new(), &asg, &imports).expect("route");
    assert_eq!(found.0, HttpMethod::GET);
    assert_eq!(text(&found.1), "/api/items/{id}");
    assert_eq!(text(&found.2), "showItem");
}

#[test]
fn unknown_receivers_register_nothing() {
    let route = call("client", "Get", vec![leaf("identifier", "url", None), leaf("identifier", "h", None)], "client.Get(url, h)");
    let asg = vec![global("client", "http.Client{}")];
    assert!(identify_route_exec(&route, &Bindings::new(), &asg, &Vec::new()).is_none());
    let cyclic = vec![global("a", "b.Group(\"/x\")"), global("b", "a.Group(\"/y\")")];
    let on_a = call("a", "Get", vec![leaf("interpreted_string_literal", "\"/z\"", None), leaf("identifier", "h", None)], "a.Get(\"/z\", h)");
    assert!(router_prefix_exec(&on_a.named[0], &cyclic, &Vec::new()).is_none());
}

#[test]
fn gorilla_methods_and_synthetic_handlers() {
    let inner = call(
        "r",
        "HandleFunc",
        vec![leaf("interpreted_string_literal", "\"/payment/{order_id}\"", None), selector("ctl", "Update", None)],
        "r.HandleFunc(\"/payment/{order_id}\", ctl.Update)",
    );
    let function = node(
        "selector_expression",
        "r.HandleFunc(\"/payment/{order_id}\", ctl.Update).Methods",
        Some("function"),
        vec![GoNode { field_name: Some("operand".to_string()), ..inner }, leaf("field_identifier", "Methods", Some("field"))],
    );
    let methods = node(
        "call_expression",
        "r.HandleFunc(\"/payment/{order_id}\", ctl.Update).Methods(\"POST\")",
        None,
        vec![function, node("argument_list", "(\"POST\")", Some("arguments"), vec![leaf("interpreted_string_literal", "\"POST\"", None)])],
    );
    let root = node("source_file", "...", None, vec![methods]);
    let mut synthetic = Vec::new();
    let endpoints = collect_endpoints(&root, "router.go", &Vec::new(), &Vec::new(), &Vec::new(), &mut synthetic);
    // the inner HandleFunc call is no route of its own: its receiver is no serve mux
    assert_eq!(endpoints.len(), 1);
    assert_eq!(endpoints[0].http_method, HttpMethod::POST);
    assert_eq!(endpoints[0].uri, "/payment/{order_id}");
    assert_eq!(endpoints[0].function_name, "handler POST /payment/{order_id}");
    assert_eq!(endpoints[0].function_hash.len(), 64);
    assert_eq!(synthetic.len(), 1);
    assert_eq!(synthetic[0].metadata.name, "ctl.Update");
    assert_eq!(synthetic[0].metadata.hash, endpoints[0].function_hash);
}

#[test]
fn expression_nodes_evaluate_with_globals() {
    let mut scope = Bindings::new();
    scope.insert("base".to_string(), "http://svc".to_string());
    let sum = node(
        "binary_expression",
        "base + \"/items\"",
        None,
        vec![leaf("identifier", "base", None), leaf("interpreted_string_literal", "\"/items\"", None)],
    );
    assert_eq!(text(&evaluate_expression_node(&sum, &scope)), "http://svc/items");
    let escape = call("url", "PathEscape", vec![leaf("identifier", "id", None)], "url.PathEscape(id)");
    assert_eq!(text(&evaluate_expression_node(&escape, &scope)), "{id}");
    let other = leaf("composite_literal", "T{ a:  1 }", None);
    assert_eq!(text(&evaluate_expression_node(&other, &scope)), "T{ a: 1 }");
}

#[test]
fn route_prefixes_join_with_one_slash() {
    let j = |a: &str, b: &str| text(&join_route_prefix_exec(&a.chars().collect::<Vec<_>>(), &b.chars().collect::<Vec<_>>()));
    assert_eq!(j("/api/", "/items"), "/api/items");
    assert_eq!(j("", "/items"), "/items");
    assert_eq!(j("/api", ""), "/api");
}
