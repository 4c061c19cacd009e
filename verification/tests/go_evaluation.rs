use sar_extraction::bindings::Bindings;
use sar_extraction::go::evaluator::evaluate_call_text;
use sar_extraction::go::grpc::{client_service_name_exec, service_from_receiver_exec};
use sar_extraction::go::shared::{
    apply_sprintf, evaluate_expression_text, infer_http_method_from_name_exec,
    parse_http_method_value_exec, simple_callable_name_exec, split_method_and_path_exec,
};
use sar_extraction::model::{Callable, Expr, HttpMethod, Namespace, Parameter, ParsedCallable, Stmt};

fn chars(s: &str) -> Vec<char> {
    s.chars().collect()
}

fn text(v: &[char]) -> String {
    v.iter().collect()
}

fn scope(pairs: &[(&str, &str)]) -> Bindings {
    let mut b = Bindings::new();
    for (k, v) in pairs {
        b.insert(k.to_string(), v.to_string());
    }
    b
}

#[test]
fn resolves_generated_client_bindings_and_struct_fields() {
    assert_eq!(
        client_service_name_exec(&chars("pb.NewProductServiceClient(conn)")).map(|v| text(&v)),
        Some("ProductService".to_string())
    );
    assert_eq!(
        service_from_receiver_exec(
            &chars("client"),
            &scope(&[("client", "pb.NewProductServiceClient(conn)")])
        )
        .map(|v| text(&v)),
        Some("ProductService".to_string())
    );
    assert_eq!(
        service_from_receiver_exec(&chars("u.usersClient"), &Bindings::new()).map(|v| text(&v)),
        Some("UsersService".to_string())
    );
}

#[test]
fn evaluates_concatenation_of_literals_and_bound_names() {
    let s = scope(&[("basePath", "\"/api/v1\""), ("host", "\"http://orders\"")]);
    assert_eq!(evaluate_expression_text("host + basePath + \"/items\"", &s), "http://orders/api/v1/items");
}

#[test]
fn evaluates_path_helpers_as_placeholders() {
    let s = Bindings::new();
    assert_eq!(evaluate_expression_text("url.PathEscape(id)", &s), "{id}");
    assert_eq!(evaluate_expression_text("request.PathValue(\"orderId\")", &s), "{orderId}");
    assert_eq!(evaluate_expression_text("PathValue(\"x\")", &s), "{x}");
    assert_eq!(
        evaluate_expression_text("\"/users/\" + url.PathEscape(userID) + \"/cart\"", &s),
        "/users/{userID}/cart"
    );
}

#[test]
fn evaluates_sprintf_and_trim_right() {
    let s = scope(&[("base", "\"http://cart:8080/\"")]);
    assert_eq!(
        evaluate_expression_text("fmt.Sprintf(\"%s/cart/%d\", base, id)", &s),
        "http://cart:8080//cart/id"
    );
    assert_eq!(evaluate_expression_text("strings.TrimRight(base, \"/\")", &s), "http://cart:8080");
    assert_eq!(apply_sprintf(&chars("100%% of %s"), &vec![chars("\"x\"")]), chars("100% of x"));
    assert_eq!(apply_sprintf(&chars("%s-%s"), &vec![chars("a")]), chars("a-"));
}

#[test]
fn evaluates_map_index_and_unique_selector_suffix() {
    let s = scope(&[("routes[\"orders\"]", "/orders"), ("cfg.Endpoint", "\"http://svc\"")]);
    assert_eq!(evaluate_expression_text("routes[\"orders\"]", &s), "/orders");
    assert_eq!(evaluate_expression_text("c.Endpoint", &s), "http://svc");
    let ambiguous = scope(&[("a.Endpoint", "\"x\""), ("b.Endpoint", "\"y\"")]);
    assert_eq!(evaluate_expression_text("c.Endpoint", &ambiguous), "c.Endpoint");
}

#[test]
fn evaluation_stops_at_cycles() {
    let s = scope(&[("a", "b"), ("b", "a")]);
    assert_eq!(evaluate_expression_text("a", &s), "a");
    assert_eq!(evaluate_expression_text("  x,, ", &Bindings::new()), "x");
    assert_eq!(evaluate_expression_text("x ,", &Bindings::new()), "x ");
}

#[test]
fn parses_http_method_values() {
    assert_eq!(parse_http_method_value_exec(&chars("http.MethodPost")), Some(HttpMethod::POST));
    assert_eq!(parse_http_method_value_exec(&chars("\"delete\"")), Some(HttpMethod::DELETE));
    assert_eq!(parse_http_method_value_exec(&chars("`put`")), Some(HttpMethod::PUT));
    assert_eq!(parse_http_method_value_exec(&chars("FETCH")), None);
    let (m, p) = split_method_and_path_exec(&chars("GET /api/items")).unwrap();
    assert_eq!(m, HttpMethod::GET);
    assert_eq!(text(&p), "/api/items");
    assert!(split_method_and_path_exec(&chars("/api/items")).is_none());
}

#[test]
fn infers_methods_from_handler_names() {
    assert_eq!(infer_http_method_from_name_exec(&chars("CreateOrder")), HttpMethod::POST);
    assert_eq!(infer_http_method_from_name_exec(&chars("UpdateCart")), HttpMethod::PUT);
    assert_eq!(infer_http_method_from_name_exec(&chars("RemoveItem")), HttpMethod::DELETE);
    assert_eq!(infer_http_method_from_name_exec(&chars("PatchUser")), HttpMethod::PATCH);
    assert_eq!(infer_http_method_from_name_exec(&chars("ListOrders")), HttpMethod::GET);
    assert_eq!(
        simple_callable_name_exec(&chars("func Handle(w http.ResponseWriter)")).map(|v| text(&v)),
        Some("Handle".to_string())
    );
    assert_eq!(
        simple_callable_name_exec(&chars("func (s *Server) Handle(w http.ResponseWriter)")).map(|v| text(&v)),
        Some("func".to_string())
    );
    assert_eq!(simple_callable_name_exec(&chars("   (x)")), None);
}

fn callable(name: &str, params: &[&str], hash: &str, statements: Vec<Stmt>) -> ParsedCallable {
    ParsedCallable {
        metadata: Callable {
            name: name.to_string(),
            signature: name.to_string(),
            namespace: Namespace::Module("client.go".to_string()),
            parameters: params
                .iter()
                .map(|p| Parameter { name: p.to_string(), datatype: None, initial_value: None })
                .collect(),
            return_type: None,
            is_async: false,
            is_constructor: false,
            hash: hash.to_string(),
            file_path: "client.go".to_string(),
        },
        statements,
    }
}

#[test]
fn evaluates_calls_to_package_functions() {
    let build = callable(
        "buildURL",
        &["host", "path"],
        "h1",
        vec![
            Stmt::Declaration {
                name: "base".to_string(),
                dtype: None,
                value: Expr::Concat(
                    Box::new(Expr::Literal("http://".to_string())),
                    Box::new(Expr::Var("host".to_string())),
                ),
            },
            Stmt::Return(Expr::Concat(
                Box::new(Expr::Var("base".to_string())),
                Box::new(Expr::Var("path".to_string())),
            )),
        ],
    );
    let cs = vec![build];
    let s = Bindings::new();
    assert_eq!(
        evaluate_call_text("buildURL(\"orders\", \"/items\")", &cs, &s),
        Some("http://orders/items".to_string())
    );
    assert_eq!(
        evaluate_call_text("prefix + buildURL(\"a\", \"/b\") + suffix", &cs, &s),
        Some("prefix + http://a/b + suffix".to_string())
    );
    assert_eq!(evaluate_call_text("unknown(1)", &cs, &s), None);
}

#[test]
fn recursive_package_functions_are_not_followed_forever() {
    let looping = callable(
        "loop",
        &["x"],
        "h2",
        vec![Stmt::Return(Expr::Call {
            name: "loop".to_string(),
            receiver: None,
            args: vec![Expr::Var("x".to_string())],
        })],
    );
    let cs = vec![looping];
    assert_eq!(evaluate_call_text("loop(\"a\")", &cs, &Bindings::new()), None);
}
