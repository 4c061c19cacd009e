use sar_extraction::bindings::Bindings;
use sar_extraction::go::legacy::{
    build_callable_index, collect_string_bindings, extract_callables, extract_endpoints,
    extract_restcalls, extract_syntactic, identify, legacy_eval_exec, legacy_method_exec,
    legacy_simple_name_exec, source_from_assignments, split_args_exec, unquote_exec,
    GO_SOURCE_SENTINEL,
};
use sar_extraction::model::{Language, HttpMethod, TypedFileRecord};

fn chars(s: &str) -> Vec<char> {
    s.chars().collect()
}

fn text(v: &[char]) -> String {
    v.iter().collect()
}

#[test]
fn extraction_extracts_train_ticket_routes_and_exchange_calls() {
    let code = r#"
const basePath = "/api/v1/stationservice"

func NewRouter() {
    mux.HandleFunc("GET "+basePath+"/stations", handler)
}

func handler() {}

const routeServiceName = "ts-route-service"

func (c *RouteClient) RoutesBetween(start, end string) {
    path := "/api/v1/routeservice/routes/" + url.PathEscape(start) + "/" + url.PathEscape(end)
    _ = c.transport.exchange(ctx, routeServiceName, http.MethodGet, path, nil, &response)
}
"#;

    let globals = collect_string_bindings(code);
    let mut callables = extract_callables(code, "router.go");
    let callable_index = build_callable_index(&callables);
    let mut synthetic = Vec::new();
    let endpoints = extract_endpoints(code, "router.go", &globals, &callable_index, &mut synthetic);
    callables.extend(synthetic);
    assert_eq!(endpoints.len(), 1);
    assert_eq!(endpoints[0].uri, "/api/v1/stationservice/stations");
    assert!(!endpoints[0].function_hash.is_empty());

    let restcalls = extract_restcalls(code, "client.go", &globals, &build_callable_index(&callables));
    assert_eq!(restcalls.len(), 1);
    assert_eq!(
        restcalls[0].target_uri,
        "http://ts-route-service/api/v1/routeservice/routes/{start}/{end}"
    );
    assert!(!restcalls[0].function_hash.is_empty());
}

#[test]
fn extraction_extracts_gorilla_and_direct_http_calls() {
    let code = r#"
func Router() {
    r.HandleFunc("/payment/{order_id}", paymentController.UpdatePaymentStatus).Methods("POST")
}

func invoke(url string) {
    req, err := http.NewRequest(http.MethodPost, url+"/ship-order", nil)
    _ = err
    _ = req
}
"#;
    let globals = collect_string_bindings(code);
    let callables = extract_callables(code, "router.go");
    let callable_index = build_callable_index(&callables);
    let mut synthetic = Vec::new();
    let endpoints = extract_endpoints(code, "router.go", &globals, &callable_index, &mut synthetic);
    assert_eq!(endpoints.len(), 1);
    assert_eq!(endpoints[0].uri, "/payment/{order_id}");
    assert!(!endpoints[0].function_hash.is_empty());

    let mut all_callables = callables;
    all_callables.extend(synthetic);
    let restcalls = extract_restcalls(code, "client.go", &globals, &build_callable_index(&all_callables));
    assert_eq!(restcalls.len(), 1);
    assert_eq!(restcalls[0].target_uri, "url/ship-order");
    assert!(!restcalls[0].function_hash.is_empty());
}

#[test]
fn legacy_handler_resolves_to_defined_function() {
    let code = "func Router() {\n    r.HandleFunc(\"/x\", ctl.Show).Methods(\"GET\", \"bogus\", http.MethodPut)\n}\n\nfunc (c *Ctl) Show(w http.ResponseWriter) {\n}\n";
    let globals = collect_string_bindings(code);
    let callables = extract_callables(code, "r.go");
    assert_eq!(callables.len(), 2);
    let index = build_callable_index(&callables);
    let mut synthetic = Vec::new();
    let endpoints = extract_endpoints(code, "r.go", &globals, &index, &mut synthetic);
    assert_eq!(endpoints.len(), 2);
    assert_eq!(endpoints[0].http_method, HttpMethod::GET);
    assert_eq!(endpoints[1].http_method, HttpMethod::PUT);
    assert_eq!(endpoints[0].function_name, "func (c *Ctl) Show(w http.ResponseWriter)");
    assert_eq!(endpoints[0].function_hash, callables[1].metadata.hash);
    assert!(synthetic.is_empty());
}

#[test]
fn legacy_synthetic_handlers_are_added_once() {
    let code = "func Routes() {\n    web.Get(\"/a\", missing)\n    web.Get(\"/a\", missing)\n}\n";
    let globals = collect_string_bindings(code);
    let index = build_callable_index(&extract_callables(code, "w.go"));
    let mut synthetic = Vec::new();
    let endpoints = extract_endpoints(code, "w.go", &globals, &index, &mut synthetic);
    assert_eq!(endpoints.len(), 2);
    assert_eq!(endpoints[0].function_name, "handler GET /a");
    assert_eq!(endpoints[0].function_hash.len(), 64);
    assert_eq!(synthetic.len(), 1);
    assert_eq!(synthetic[0].metadata.signature, "handler GET /a");
}

#[test]
fn legacy_constants_from_lines_and_blocks() {
    let code = "const a = \"one\"\nconst (\n    b = \"two\\\"q\"\n    a = \"three\"\n)\n";
    let globals = collect_string_bindings(code);
    assert_eq!(globals.get(&chars("a")), Some("three".to_string()));
    assert_eq!(globals.get(&chars("b")), Some("two\"q".to_string()));
    assert_eq!(globals.len(), 2);
}

#[test]
fn legacy_expression_evaluation() {
    let mut scope = Bindings::new();
    scope.insert("base".to_string(), "http://svc/".to_string());
    let v = legacy_eval_exec(&chars("strings.TrimRight(base, \"/\") + \"/items/\" + request.PathValue(\"id\"),"), &scope);
    assert_eq!(text(&v), "http://svc/items/{id}");
    assert_eq!(text(&legacy_eval_exec(&chars("unknown"), &scope)), "unknown");
    assert_eq!(text(&unquote_exec(&chars("\"a\\nb\""))), "a\nb");
    assert_eq!(text(&unquote_exec(&chars("plain"))), "plain");
}

#[test]
fn legacy_methods_and_names() {
    assert_eq!(legacy_method_exec(&chars(" http.MethodDelete ")), Some(HttpMethod::DELETE));
    assert_eq!(legacy_method_exec(&chars("\"patch\"")), Some(HttpMethod::PATCH));
    assert_eq!(legacy_method_exec(&chars("post")), Some(HttpMethod::POST));
    assert_eq!(legacy_method_exec(&chars("FETCH")), None);
    assert_eq!(text(&legacy_simple_name_exec(&chars("func (s *Svc) Run(x int)"))), "Run");
    assert_eq!(text(&legacy_simple_name_exec(&chars("handler GET /a"))), "/a");
    let args = split_args_exec(&chars("\"a, b\", f(x, y)) + z"));
    assert_eq!(args.len(), 2);
    assert_eq!(text(&args[0]), "\"a, b\"");
    assert_eq!(text(&args[1]), "f(x, y)");
}

#[test]
fn legacy_record_keeps_source_and_identifies_calls() {
    let code = "func get() {\n    http.Get(\"http://x/y\")\n}\n";
    let record = extract_syntactic(code, "g.go");
    assert_eq!(record.assignments.len(), 1);
    assert_eq!(record.assignments[0].1.value, code);
    assert_eq!(record.assignments[0].0.variable_name, GO_SOURCE_SENTINEL);
    let mut typed = TypedFileRecord {
        language: Language::Go,
        file_path: record.file_path,
        imports: Vec::new(),
        endpoints: record.endpoints,
        callables: record.callables,
        call_statements: Vec::new(),
        assignments: record.assignments,
        raw_restcalls: Vec::new(),
        raw_message_edges: Vec::new(),
    };
    assert_eq!(source_from_assignments(&typed), Some(code.to_string()));
    identify(&mut typed, code);
    assert_eq!(typed.raw_restcalls.len(), 1);
    assert_eq!(typed.raw_restcalls[0].target_uri, "http://x/y");
    assert_eq!(typed.raw_restcalls[0].function_name, "func get()");
}
