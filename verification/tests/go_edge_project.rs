use sar_extraction::bindings::Bindings;
use sar_extraction::go::edge_values::{binding_values_exec, concrete_values_exec, known_values_exec};
use sar_extraction::go::message_edge_project::{message_edges_resolvable, resolve_message_edges};
use sar_extraction::model::{
    Argument, Assignment, AssignmentKey, CallStatement, Callable, CommunicationProtocol, Language, MessageDestinationKind,
    MessageEdge, MessageRole, Namespace, Parameter, ParsedCallable, Scope, TypedFileRecord,
};

fn chars(s: &str) -> Vec<char> {
    s.chars().collect()
}

fn call(name: &str, args: &[&str], enclosing_hash: &str) -> CallStatement {
    CallStatement {
        function_name: name.to_string(),
        arguments: args
            .iter()
            .map(|a| Argument { assigned_variable: String::new(), value: a.to_string(), datatype: None })
            .collect(),
        enclosing_function_name: None,
        enclosing_class_name: None,
        enclosing_function_hash: Some(enclosing_hash.to_string()),
        is_self_invoke: false,
        is_super_invoke: false,
        source_span: Default::default(),
        invoked_on: None,
    }
}

fn callable(name: &str, params: &[&str], hash: &str, file_path: &str) -> ParsedCallable {
    ParsedCallable {
        metadata: Callable {
            name: name.to_string(),
            signature: format!("func {name}()"),
            namespace: Namespace::Module(file_path.to_string()),
            parameters: params
                .iter()
                .map(|p| Parameter { name: p.to_string(), datatype: None, initial_value: None })
                .collect(),
            return_type: None,
            is_async: false,
            is_constructor: false,
            hash: hash.to_string(),
            file_path: file_path.to_string(),
        },
        statements: vec![],
    }
}

fn producer_edge(exchange: &str, hash: &str, file_path: &str) -> MessageEdge {
    MessageEdge {
        protocol: CommunicationProtocol::RabbitMq,
        role: MessageRole::Producer,
        destination_kind: MessageDestinationKind::ExchangeRoutingKey,
        destination: exchange.to_string(),
        exchange: Some(exchange.to_string()),
        routing_key: None,
        queue: None,
        topic: None,
        handler: None,
        function_name: "Publish".to_string(),
        function_hash: hash.to_string(),
        call_arguments: vec![],
        file_path: file_path.to_string(),
    }
}

fn go_file(path: &str) -> TypedFileRecord {
    TypedFileRecord {
        file_path: path.to_string(),
        language: Language::Go,
        imports: vec![],
        endpoints: vec![],
        callables: vec![],
        call_statements: vec![],
        assignments: vec![],
        raw_restcalls: vec![],
        raw_message_edges: vec![],
    }
}

fn assignment(name: &str, value: &str) -> (AssignmentKey, Assignment) {
    (
        AssignmentKey { scope: Scope::Global, variable_name: name.to_string() },
        Assignment { variable_name: name.to_string(), variable_type: String::new(), value: value.to_string() },
    )
}

#[test]
fn resolves_wrapper_edges_at_their_call_sites() {
    let mut wrapper = go_file("svc/internal/bus/publisher.go");
    wrapper.callables.push(callable("Publish", &["exchange"], "h-publish", "svc/internal/bus/publisher.go"));
    wrapper.raw_message_edges.push(producer_edge("exchange", "h-publish", "svc/internal/bus/publisher.go"));
    let mut caller = go_file("svc/internal/bus/orders.go");
    caller.callables.push(callable("PlaceOrder", &[], "h-place", "svc/internal/bus/orders.go"));
    caller.call_statements.push(call("bus.Publish", &["\"orders\""], "h-place"));
    caller.call_statements.push(call("bus.Publish", &["\"payments\""], "h-place"));
    let mut files = vec![wrapper, caller];
    assert!(message_edges_resolvable(&files));
    resolve_message_edges(&mut files);
    let edges = &files[0].raw_message_edges;
    assert_eq!(edges.len(), 2);
    assert_eq!(edges[0].exchange.as_deref(), Some("orders"));
    assert_eq!(edges[1].exchange.as_deref(), Some("payments"));
    assert_eq!(edges[0].file_path, "svc/internal/bus/orders.go");
    assert_eq!(edges[0].destination, "exchange");
    assert_eq!(edges[0].function_hash, "h-publish");
    assert!(files[1].raw_message_edges.is_empty());
}

#[test]
fn keeps_declared_edges_without_call_sites() {
    let mut wrapper = go_file("svc/internal/bus/publisher.go");
    wrapper.callables.push(callable("Publish", &["exchange"], "h-publish", "svc/internal/bus/publisher.go"));
    wrapper.raw_message_edges.push(producer_edge("exchange", "h-publish", "svc/internal/bus/publisher.go"));
    wrapper.assignments.push(assignment("config.Exchange", "\"audit\""));
    let mut files = vec![wrapper];
    resolve_message_edges(&mut files);
    let edges = &files[0].raw_message_edges;
    assert_eq!(edges.len(), 1);
    assert_eq!(edges[0].exchange.as_deref(), Some("exchange"));
    assert_eq!(edges[0].file_path, "svc/internal/bus/publisher.go");
}

#[test]
fn edges_of_unknown_callables_stay_as_they_are() {
    let mut f = go_file("svc/internal/bus/publisher.go");
    f.raw_message_edges.push(producer_edge("exchange", "h-missing", "elsewhere.go"));
    let mut files = vec![f];
    resolve_message_edges(&mut files);
    assert_eq!(files[0].raw_message_edges[0].file_path, "elsewhere.go");
    assert_eq!(files[0].raw_message_edges[0].exchange.as_deref(), Some("exchange"));
}

#[test]
fn reports_unreadable_composite_literals() {
    let mut wrapper = go_file("svc/internal/bus/publisher.go");
    wrapper.callables.push(callable("Publish", &["cfg"], "h-publish", "svc/internal/bus/publisher.go"));
    wrapper.raw_message_edges.push(producer_edge("cfg.Exchange", "h-publish", "svc/internal/bus/publisher.go"));
    let mut caller = go_file("svc/internal/bus/orders.go");
    caller.call_statements.push(call("bus.Publish", &["x}{"], "h-place"));
    let files = vec![wrapper, caller];
    assert!(!message_edges_resolvable(&files));
}

#[test]
fn known_values_collect_literals_by_selector_suffix() {
    let a = vec![
        ("config.Rabbit.Exchange".to_string(), "\"orders\"".to_string()),
        ("other.Exchange".to_string(), "\"billing\"".to_string()),
    ];
    let known = known_values_exec(&a, &chars("Rabbit.Exchange"));
    assert_eq!(known, vec!["orders".to_string()]);
    let both = known_values_exec(&a, &chars("Exchange"));
    assert_eq!(both, vec!["orders".to_string(), "billing".to_string()]);
    let v = concrete_values_exec(&chars("cfg.Rabbit.Exchange"), &a);
    assert_eq!(v, vec!["orders".to_string()]);
    let none = concrete_values_exec(&chars("cfg.Exchange"), &a);
    assert!(none.is_empty());
    let lit = concrete_values_exec(&chars("\"direct\""), &a);
    assert_eq!(lit, vec!["direct".to_string()]);
}

#[test]
fn binding_values_follow_parameters_aliases_and_lists() {
    let mut b = Bindings::new();
    b.insert("queues".to_string(), "[]QueueConfig{a, b}".to_string());
    b.insert("cfg".to_string(), "Config{Exchange: \"orders\"}".to_string());
    let mut a = Bindings::new();
    a.insert("name".to_string(), "cfg.Exchange".to_string());
    assert_eq!(binding_values_exec(&chars("cfg.Exchange"), &b, &a, 0), Some(vec!["\"orders\"".to_string()]));
    assert_eq!(
        binding_values_exec(&chars("queues.Name"), &b, &a, 0),
        Some(vec!["a.Name".to_string(), "b.Name".to_string()])
    );
    assert_eq!(binding_values_exec(&chars("name"), &b, &a, 0), Some(vec!["\"orders\"".to_string()]));
    assert_eq!(binding_values_exec(&chars("plain"), &b, &a, 0), Some(vec!["plain".to_string()]));
    let mut bad = Bindings::new();
    bad.insert("cfg".to_string(), "}{".to_string());
    assert_eq!(binding_values_exec(&chars("cfg.Exchange"), &bad, &a, 0), None);
}
