use sar_extraction::bindings::Bindings;
use sar_extraction::go::grpc::identify_grpc_message_edges;
use sar_extraction::go::identify::identify_restcall;
use sar_extraction::go::message_edges::{
    fluent_message_name_exec, identify_configuration_builder_edges, identify_message_edge,
    message_call_safe_exec, pascal_to_snake_exec,
};
use sar_extraction::model::{Language, 
    Argument, Assignment, AssignmentKey, CallStatement, CommunicationProtocol, Endpoint, HttpMethod,
    Import, MessageDestinationKind, MessageRole, Scope, TypedFileRecord,
};

fn chars(s: &str) -> Vec<char> {
    s.chars().collect()
}

fn text(v: &[char]) -> String {
    v.iter().collect()
}

fn call(name: &str, args: &[&str], enclosing: Option<&str>) -> CallStatement {
    CallStatement {
        function_name: name.to_string(),
        arguments: args
            .iter()
            .map(|a| Argument { assigned_variable: String::new(), value: a.to_string(), datatype: None })
            .collect(),
        enclosing_function_name: enclosing.map(|e| e.to_string()),
        enclosing_class_name: None,
        enclosing_function_hash: enclosing.map(|_| "hash-1".to_string()),
        is_self_invoke: false,
        is_super_invoke: false,
        source_span: Default::default(),
        invoked_on: None,
    }
}

fn file(assignments: Vec<(AssignmentKey, Assignment)>, imports: Vec<Import>, endpoints: Vec<Endpoint>) -> TypedFileRecord {
    TypedFileRecord {
        language: Language::Go,
        file_path: "client.go".to_string(),
        imports,
        endpoints,
        callables: vec![],
        call_statements: vec![],
        assignments,
        raw_restcalls: vec![],
        raw_message_edges: vec![],
    }
}

fn assignment(scope: Scope, name: &str, value: &str) -> (AssignmentKey, Assignment) {
    (
        AssignmentKey { scope, variable_name: name.to_string() },
        Assignment { variable_name: name.to_string(), variable_type: String::new(), value: value.to_string() },
    )
}

#[test]
fn identifies_net_http_get_with_scope_values() {
    let f = file(
        vec![
            assignment(Scope::Global, "base", "\"http://catalog:8080\""),
            assignment(Scope::Function("func fetch()".to_string()), "url", "base + \"/products\""),
        ],
        vec![],
        vec![],
    );
    let c = call("http.Get", &["url"], Some("func fetch()"));
    let r = identify_restcall(&f, &c, None, &vec![]).expect("a GET request");
    assert_eq!(r.http_method, HttpMethod::GET);
    assert_eq!(r.target_uri, "http://catalog:8080/products");
    assert_eq!(r.function_name, "func fetch()");
    assert_eq!(r.function_hash, "hash-1");
    assert_eq!(r.file_path, "client.go");
    assert_eq!(r.call_arguments.len(), 1);
}

#[test]
fn identifies_exchange_and_new_request_calls() {
    let f = file(vec![assignment(Scope::Global, "svc", "\"ts-route-service\"")], vec![], vec![]);
    let c = call("c.transport.exchange", &["ctx", "svc", "http.MethodGet", "\"/routes\"", "nil"], None);
    let r = identify_restcall(&f, &c, None, &vec![]).unwrap();
    assert_eq!(r.target_uri, "http://ts-route-service/routes");
    assert_eq!(r.http_method, HttpMethod::GET);
    assert_eq!(r.function_name, "c.transport.exchange");

    let aliased = file(
        vec![],
        vec![Import {
            orig_module: "net/http".to_string(),
            orig_name: String::new(),
            module_alias: "nh".to_string(),
            name_alias: String::new(),
            codeword: String::new(),
        }],
        vec![],
    );
    let c = call("nh.NewRequest", &["http.MethodPost", "url + \"/ship-order\"", "nil"], None);
    let r = identify_restcall(&aliased, &c, None, &vec![]).unwrap();
    assert_eq!(r.http_method, HttpMethod::POST);
    assert_eq!(r.target_uri, "url/ship-order");
}

#[test]
fn route_registrations_are_not_requests() {
    let ep = Endpoint {
        function_name: "h".to_string(),
        function_hash: String::new(),
        http_method: HttpMethod::GET,
        parameters: vec![],
        uri: "/status".to_string(),
        file_path: "client.go".to_string(),
        router_variable: None,
    };
    let f = file(vec![], vec![], vec![ep]);
    assert!(identify_restcall(&f, &call("client.Get", &["\"/status\"", "handler"], None), None, &vec![]).is_none());
    let r = identify_restcall(&f, &call("client.Get", &["\"/other\""], None), None, &vec![]).unwrap();
    assert_eq!(r.target_uri, "/other");
    assert!(identify_restcall(&f, &call("router.Get", &["\"/x\""], None), None, &vec![]).is_none());
}

#[test]
fn identifies_rabbitmq_channel_calls() {
    let scope = Bindings::new();
    let publish = call("ch.PublishWithContext", &["ctx", "\"orders\"", "\"order.created\"", "false"], None);
    assert!(message_call_safe_exec(&publish, &scope));
    let e = identify_message_edge(&publish, "svc.go", &scope).unwrap();
    assert_eq!(e.protocol, CommunicationProtocol::RabbitMq);
    assert_eq!(e.role, MessageRole::Producer);
    assert_eq!(e.destination_kind, MessageDestinationKind::ExchangeRoutingKey);
    assert_eq!(e.destination, "orders:order.created");
    assert_eq!(e.queue.as_deref(), Some("order.created"));

    let to_queue = call("ch.Publish", &["\"\"", "\"billing\""], None);
    let e = identify_message_edge(&to_queue, "svc.go", &scope).unwrap();
    assert_eq!(e.destination_kind, MessageDestinationKind::Queue);
    assert_eq!(e.destination, "billing");
    assert_eq!(e.exchange, None);

    let bind = call("ch.QueueBind", &["\"q\"", "\"\"", "\"events\""], None);
    let e = identify_message_edge(&bind, "svc.go", &scope).unwrap();
    assert_eq!(e.role, MessageRole::Binding);
    assert_eq!(e.destination, "events");

    let consume = call("ch.Consume", &["\"events.in\""], None);
    assert_eq!(identify_message_edge(&consume, "svc.go", &scope).unwrap().destination, "events.in");
    assert!(identify_message_edge(&call("ch.QueueDeclare", &["\"\""], None), "svc.go", &scope).is_none());
    assert!(identify_message_edge(&call("ch.Close", &[], None), "svc.go", &scope).is_none());
}

#[test]
fn lone_quote_arguments_are_reported_unsafe() {
    let scope = Bindings::new();
    assert!(!message_call_safe_exec(&call("ch.Consume", &["`\"`"], None), &scope));
    assert!(message_call_safe_exec(&call("ch.Close", &["`\"`"], None), &scope));
}

#[test]
fn converts_event_type_names() {
    assert_eq!(pascal_to_snake_exec(&chars("OrderCreated")).map(|v| text(&v)), Some("order_created".to_string()));
    assert_eq!(pascal_to_snake_exec(&chars("")), None);
    assert_eq!(
        fluent_message_name_exec(&chars("&events.PaymentReceived{Amount: 1}")).map(|v| text(&v)),
        Some("payment_received".to_string())
    );
}

#[test]
fn identifies_configuration_builder_edges() {
    let c = call(
        "rabbitmq.NewConfig().AddProducer(&events.OrderPlaced{}).AddConsumer(&events.PaymentDone{})",
        &[],
        None,
    );
    let edges = identify_configuration_builder_edges(&c, "cfg.go");
    assert_eq!(edges.len(), 3);
    assert_eq!(edges[0].role, MessageRole::Producer);
    assert_eq!(edges[0].destination, "order_placed:order_placed");
    assert_eq!(edges[1].role, MessageRole::Binding);
    assert_eq!(edges[1].destination, "payment_done:payment_done");
    assert_eq!(edges[2].role, MessageRole::Consumer);
    assert_eq!(edges[2].destination, "payment_done");
}

#[test]
fn identifies_grpc_edges() {
    let scope = Bindings::new();
    let reg = call("pb.RegisterCatalogServer", &["s", "srv"], None);
    let e = identify_grpc_message_edges(&reg, "main.go", &scope, true);
    assert_eq!(e.len(), 1);
    assert_eq!(e[0].role, MessageRole::Consumer);
    assert_eq!(e[0].destination, "Catalog");
    let invoke = call("u.usersClient.CreateUser", &["ctx", "req"], None);
    let e = identify_grpc_message_edges(&invoke, "main.go", &scope, false);
    assert_eq!(e.len(), 1);
    assert_eq!(e[0].destination, "UsersService/CreateUser");
    assert!(identify_grpc_message_edges(&call("pb.NewUsersClient", &["conn"], None), "main.go", &scope, true).is_empty());
}
