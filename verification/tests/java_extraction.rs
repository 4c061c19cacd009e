use sar_extraction::java::annotations::{apply_annotations, are_annotations_specifying_endpoint, extract_uri};
use sar_extraction::java::assignments::{get_assignments_map, AssignmentCapture, AssignmentsExtractor};
use sar_extraction::java::callable_extractor::{CallableCapture, CallablesExtractor};
use sar_extraction::java::calls::{CallCapture, CallStatementsExtractor};
use sar_extraction::java::config::extract_syntactic;
use sar_extraction::java::enclosing::{last_class_first_function_span, AncestorNode};
use sar_extraction::java::endpoint_extractor::{EndpointCapture, EndpointsExtractor};
use sar_extraction::java::entities::{extract_java_inner_type, is_java_collection_type};
use sar_extraction::java::entity_extractor::{evaluate_entity_fields, EntitiesExtractor, EntityCapture, FieldParts};
use sar_extraction::java::imports::{get_package_last_identifier, imports_to_graph, ImportCapture, ImportsExtractor};
use sar_extraction::java::params::parse_callable_params;
use sar_extraction::java::types::approximate_type_for_value_exec;
use sar_extraction::model::{Argument, Endpoint, HttpMethod, ImportKind, MessageRole, Namespace, Scope};

fn node(kind: &str, start: u32, end: u32, name: Option<&str>, ty: Option<&str>, params: Option<&str>, text: &str) -> AncestorNode {
    AncestorNode {
        kind: kind.to_string(),
        start,
        end,
        name: name.map(|s| s.to_string()),
        type_text: ty.map(|s| s.to_string()),
        parameters: params.map(|s| s.to_string()),
        text: text.to_string(),
    }
}

fn method_and_class() -> Vec<AncestorNode> {
    vec![
        node("block", 40, 90, None, None, None, "{...}"),
        node("method_declaration", 20, 95, Some("save"), Some("void"), Some("(String id, int n)"), "void save(String id, int n) {...}"),
        node("class_body", 10, 99, None, None, None, "{...}"),
        node("class_declaration", 0, 100, Some("Repo"), None, None, "class Repo {...}"),
    ]
}

#[test]
fn annotation_uris_and_methods() {
    assert_eq!(extract_uri("@GetMapping(\"/users\")"), Some("/users".to_string()));
    assert_eq!(extract_uri("@RequestMapping(path = \"/api\")"), Some("/api".to_string()));
    assert_eq!(extract_uri("@RequestMapping(method = GET)"), None);
    assert_eq!(extract_uri("@GetMapping"), None);
    assert!(are_annotations_specifying_endpoint(&["@Override".to_string(), "@POST".to_string()]));
    assert!(!are_annotations_specifying_endpoint(&["@Override".to_string()]));
    let mut e = Endpoint {
        function_name: "f".to_string(),
        function_hash: "h".to_string(),
        http_method: HttpMethod::GET,
        parameters: Vec::new(),
        uri: String::new(),
        file_path: "A.java".to_string(),
        router_variable: None,
    };
    apply_annotations(&mut e, &["@PutMapping(value = \"/x\")".to_string(), "@Deprecated".to_string()]);
    assert_eq!(e.http_method, HttpMethod::PUT);
    assert_eq!(e.uri, "/x");
}

#[test]
fn spring_cloud_stream_bindings_from_configuration() {
    let text = "# comment\nspring.cloud.stream.bindings.order-out-0.destination: orders\nspring.cloud.stream.bindings.pay-in-0.destination='payments'\nother: x\n";
    let edges = extract_syntactic(text, "application.yml").expect("bindings");
    assert_eq!(edges.len(), 2);
    assert_eq!(edges[0].role, MessageRole::Producer);
    assert_eq!(edges[0].destination, "orders");
    assert_eq!(edges[1].role, MessageRole::Consumer);
    assert_eq!(edges[1].topic, Some("payments".to_string()));
    assert_eq!(edges[1].function_name, "pay-in-0");
    assert!(extract_syntactic("server.port=8080\n", "application.properties").is_none());
}

#[test]
fn value_types_are_approximated() {
    assert_eq!(approximate_type_for_value_exec("42", false), Some("int".to_string()));
    assert_eq!(approximate_type_for_value_exec("4.2", true), Some("double".to_string()));
    assert_eq!(approximate_type_for_value_exec("\"a\"", false), Some("String".to_string()));
    assert_eq!(approximate_type_for_value_exec("x", false), None);
}

#[test]
fn collection_and_inner_types() {
    assert!(is_java_collection_type("List<String>"));
    assert!(is_java_collection_type("java.util.Map<String, User>"));
    assert!(is_java_collection_type("int[]"));
    assert!(!is_java_collection_type("User"));
    assert_eq!(extract_java_inner_type("Map<String, User>"), "User");
    assert_eq!(extract_java_inner_type("User[]"), "User");
}

#[test]
fn declared_parameters_are_split_at_top_level() {
    let ps = parse_callable_params("(String name, Map<String, Integer> counts, int... rest)");
    assert_eq!(ps.len(), 3);
    assert_eq!(ps[0].name, "name");
    assert_eq!(ps[0].datatype, Some("String".to_string()));
    assert_eq!(ps[1].name, "counts");
    assert_eq!(ps[1].datatype, Some("Map<String, Integer>".to_string()));
    assert_eq!(ps[2].datatype, Some("int...".to_string()));
    assert!(parse_callable_params("()").is_empty());
}

#[test]
fn assignments_are_scoped_and_merged() {
    let extractor = AssignmentsExtractor;
    let m = vec![
        AssignmentCapture::Type("int".to_string()),
        AssignmentCapture::Name("count".to_string()),
        AssignmentCapture::Value("3".to_string()),
        AssignmentCapture::Assignment(method_and_class()),
    ];
    let raw = extractor.extract(&[m]);
    // one entry after each capture from the name on, then the two parameters
    assert_eq!(raw.len(), 5);
    assert_eq!(raw[0].0.scope, Scope::Global);
    assert_eq!(raw[2].0.scope, Scope::Function("void save(String id, int n)".to_string()));
    assert_eq!(raw[2].1.variable_type, "int");
    assert_eq!(raw[2].1.value, "3");
    assert_eq!(raw[3].1.variable_name, "id");
    assert_eq!(raw[3].1.variable_type, "String");
    let merged = get_assignments_map(&raw);
    assert_eq!(merged.len(), 4);
    let class_field = vec![
        AssignmentCapture::Name("x".to_string()),
        AssignmentCapture::Assignment(vec![node("class_declaration", 0, 9, Some("C"), None, None, "")]),
    ];
    let raw = extractor.extract(&[class_field]);
    assert_eq!(raw[1].0.scope, Scope::Class("C".to_string()));
    assert_eq!(raw[1].1.variable_type, "any");
}

#[test]
fn call_statements_carry_their_context() {
    let extractor = CallStatementsExtractor;
    let m = vec![
        CallCapture::InvokedOn("this".to_string()),
        CallCapture::Name("repo".to_string()),
        CallCapture::Args {
            text: "( a,   b )".to_string(),
            arguments: vec![Argument { assigned_variable: String::new(), value: "a".to_string(), datatype: None }],
        },
        CallCapture::Call(method_and_class()),
    ];
    let calls = extractor.extract(&[m], 500);
    assert_eq!(calls.len(), 1);
    let c = &calls[0];
    assert_eq!(c.function_name, "this.repo( a, b )");
    assert!(c.is_self_invoke);
    assert!(!c.is_super_invoke);
    assert_eq!(c.enclosing_function_name, Some("void save(String id, int n)".to_string()));
    assert_eq!(c.enclosing_class_name, Some("Repo".to_string()));
    assert_eq!(c.enclosing_function_hash.as_ref().map(|h| h.len()), Some(64));
    assert_eq!((c.source_span.start, c.source_span.end), (0, 100));
    assert_eq!(c.arguments.len(), 1);
    let bare = extractor.extract(&[vec![CallCapture::ExplicitConstructorCall("super(x)".to_string())]], 7);
    assert_eq!(bare[0].function_name, "super(x)");
    assert!(bare[0].is_super_invoke);
    assert_eq!(bare[0].enclosing_class_name, None);
}

#[test]
fn call_spans_prefer_the_outermost_type() {
    assert_eq!(last_class_first_function_span(&method_and_class(), 500).start, 0);
    let only_method = vec![node("method_declaration", 20, 95, Some("m"), None, Some("()"), "")];
    let s = last_class_first_function_span(&only_method, 500);
    assert_eq!((s.start, s.end), (20, 95));
    let s = last_class_first_function_span(&[], 500);
    assert_eq!((s.start, s.end), (0, 500));
}

#[test]
fn entities_once_per_name_with_resolved_fields() {
    let extractor = EntitiesExtractor;
    let user = vec![
        EntityCapture::Package("com.shop".to_string()),
        EntityCapture::Name("User".to_string()),
        EntityCapture::Body(vec![
            FieldParts { datatype: Some("List<Order>".to_string()), name: Some("orders".to_string()), value: None },
            FieldParts { datatype: Some("int".to_string()), name: None, value: None },
        ]),
    ];
    let order = vec![
        EntityCapture::Name("Order".to_string()),
        EntityCapture::Superclass("Base".to_string()),
        EntityCapture::RecordParams(vec![FieldParts { datatype: Some("Item".to_string()), name: Some("item".to_string()), value: None }]),
    ];
    let again = vec![EntityCapture::Name("User".to_string())];
    let mut entities = extractor.extract(&[user, order, again], "Shop.java");
    assert_eq!(entities.len(), 2);
    assert_eq!(entities[0].signature, "com.shop.User");
    assert_eq!(entities[0].fields.len(), 1);
    assert!(entities[0].fields[0].is_collection);
    assert_eq!(entities[1].signature, "com.shop.Order");
    assert_eq!(entities[1].superclasses, vec!["Base".to_string()]);

    let imports = ImportsExtractor.extract(&[
        vec![ImportCapture::Scoped("com.catalog.Item".to_string())],
        vec![ImportCapture::Scoped("java.util".to_string()), ImportCapture::Asterisk],
    ]);
    assert_eq!(imports[0].codeword, "Item");
    assert_eq!(imports[1].orig_name, "*");
    let graph = imports_to_graph("Shop.java", &imports);
    assert_eq!(graph.resolved_imports.len(), 1);
    assert_eq!(graph.resolved_imports[0].1.kind, ImportKind::Entity);

    evaluate_entity_fields(&mut entities, "Shop.java", &graph);
    assert_eq!(entities[0].fields[0].datatype_signature, Some("com.shop.Order".to_string()));
    assert_eq!(entities[1].fields[0].datatype_signature, Some("com.catalog.Item".to_string()));
    assert_eq!(get_package_last_identifier("a.b.C"), "C");
}

#[test]
fn endpoints_get_the_class_prefix() {
    let extractor = EndpointsExtractor;
    let m = vec![
        EndpointCapture::ClassAnnotation("@RequestMapping(\"/api\")".to_string()),
        EndpointCapture::Annotation("@PostMapping(\"/users\")".to_string()),
        EndpointCapture::ReturnType("User".to_string()),
        EndpointCapture::CallableName("create".to_string()),
        EndpointCapture::CallableParams("(@RequestBody  User u)".to_string()),
        EndpointCapture::Callable("User create(@RequestBody User u) {}".to_string()),
    ];
    let no_text = vec![EndpointCapture::CallableName("skipped".to_string())];
    let eps = extractor.extract(&[m, no_text], "Api.java");
    assert_eq!(eps.len(), 1);
    assert_eq!(eps[0].uri, "/api/users");
    assert_eq!(eps[0].http_method, HttpMethod::POST);
    assert_eq!(eps[0].function_name, "User create(@RequestBody User u)");
    assert_eq!(eps[0].parameters.len(), 1);
    assert_eq!(eps[0].parameters[0].name, "u");
    assert_eq!(eps[0].function_hash.len(), 64);
}

#[test]
fn callables_are_signed_by_their_type() {
    let extractor = CallablesExtractor;
    let m = vec![
        CallableCapture::Type("int".to_string()),
        CallableCapture::Name("total".to_string()),
        CallableCapture::Params("(int a,\n int b)".to_string()),
        CallableCapture::Callable { text: "int total(int a, int b) {}".to_string(), ancestors: method_and_class() },
    ];
    let ctor = vec![
        CallableCapture::Name("Repo".to_string()),
        CallableCapture::Params("()".to_string()),
        CallableCapture::TypeConstructor,
        CallableCapture::Callable { text: "Repo() {}".to_string(), ancestors: method_and_class() },
    ];
    let cs = extractor.extract(&[m, ctor], "Repo.java");
    assert_eq!(cs[0].name, "int total(int a, int b)");
    assert_eq!(cs[0].signature, "Repo/int total(int a, int b)");
    assert_eq!(cs[0].namespace, Namespace::Class("Repo".to_string()));
    assert_eq!(cs[0].parameters.len(), 2);
    assert!(!cs[0].is_constructor);
    assert_eq!(cs[1].name, "Repo()");
    assert!(cs[1].is_constructor);
    assert_eq!(cs[1].return_type, None);
}

#[test]
fn a_later_import_of_the_same_word_replaces_the_earlier_one() {
    let imports = ImportsExtractor.extract(&[
        vec![ImportCapture::Scoped("com.first.Item".to_string())],
        vec![ImportCapture::Scoped("com.other.Order".to_string())],
        vec![ImportCapture::Scoped("com.second.Item".to_string())],
    ]);
    let graph = imports_to_graph("Shop.java", &imports);
    assert_eq!(graph.resolved_imports.len(), 2);
    assert_eq!(graph.resolved_imports[0].0 .1, "Item");
    assert_eq!(graph.resolved_imports[0].1.fully_qualified_name, "com.second.Item");
    assert_eq!(graph.resolved_imports[1].1.fully_qualified_name, "com.other.Order");
}
