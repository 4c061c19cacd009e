use sar_extraction::hashing::hash_text;
use sar_extraction::java::grpc::{extract, extract_server_endpoints};
use sar_extraction::java::source::handler_classes;
use sar_extraction::model::HttpMethod;

const SERVER: &str = r#"public class FlightImpl extends FlightServiceGrpc.FlightServiceImplBase {
    public void getById(Request request, StreamObserver<Flight> observer) {
        observer.onCompleted();
    }
}
"#;

#[test]
fn server_methods_become_grpc_endpoints() {
    let endpoints = extract_server_endpoints(SERVER, "FlightImpl.java");
    assert_eq!(endpoints.len(), 1);
    let e = &endpoints[0];
    assert_eq!(e.uri, "grpc://FlightService/GetById");
    assert_eq!(e.http_method, HttpMethod::POST);
    assert_eq!(e.function_name, "public void getById(Request request, StreamObserver<Flight> observer)");
    let method_text = "public void getById(Request request, StreamObserver<Flight> observer) {\n        observer.onCompleted();\n    }";
    assert_eq!(e.function_hash, hash_text(method_text));
    assert_eq!(e.file_path, "FlightImpl.java");
    assert!(e.parameters.is_empty());
}

#[test]
fn a_class_with_no_grpc_service_has_no_server_endpoints() {
    let code = "public class Plain {\n    public void getById(String id) {}\n}\n";
    assert!(extract_server_endpoints(code, "Plain.java").is_empty());
}

#[test]
fn extract_gives_server_endpoints_and_client_calls() {
    let (endpoints, calls) = extract(SERVER, "FlightImpl.java", &[]);
    assert_eq!(endpoints.len(), 1);
    assert!(calls.is_empty());
}

#[test]
fn handler_classes_are_read_from_a_source() {
    let code = "public class OrderHandler implements MessageHandler<OrderCreated> {\n}\n";
    let classes = handler_classes(code).expect("parsed");
    assert_eq!(classes.len(), 1);
    assert_eq!(classes[0].class_name, "OrderHandler");
    assert_eq!(classes[0].interfaces, vec!["MessageHandler<OrderCreated>".to_string()]);
    assert_eq!(classes[0].class_text, "public class OrderHandler implements MessageHandler<OrderCreated> {\n}");
}
