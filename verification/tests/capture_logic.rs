use sar_extraction::bindings::Bindings;
use sar_extraction::go::legacy::{blocks_from_matches, calls_from_captures};
use sar_extraction::java::grpc::client_calls_from_captures;
use sar_extraction::model::{Argument, CallStatement, HttpMethod, SourceSpan};
use sar_extraction::regexes::RegexMatch;

fn caps(groups: &[&[Option<&str>]]) -> Vec<Vec<Option<String>>> {
    groups.iter().map(|g| g.iter().map(|x| x.map(|s| s.to_string())).collect()).collect()
}

fn chars(s: &str) -> Vec<char> {
    s.chars().collect()
}

#[test]
fn calls_are_read_from_url_captures_in_scope() {
    let mut scope = Bindings::new();
    scope.insert("base".to_string(), "http://orders".to_string());
    let gets = caps(&[&[Some("http.Get(base + \"/items\")"), Some("base + \"/items\"")]]);
    let posts = caps(&[&[Some("http.Post(\"http://pay/charge\")"), Some("\"http://pay/charge\"")]]);
    let none = caps(&[]);
    let calls =
        calls_from_captures(&none, &gets, &posts, &none, &scope, &chars("func Load()"), &chars("h1"), "client.go");
    assert_eq!(calls.len(), 2);
    assert_eq!(calls[0].http_method, HttpMethod::GET);
    assert_eq!(calls[0].target_uri, "http://orders/items");
    assert_eq!(calls[0].function_name, "func Load()");
    assert_eq!(calls[1].http_method, HttpMethod::POST);
    assert_eq!(calls[1].target_uri, "http://pay/charge");
}

#[test]
fn function_blocks_are_read_from_matches() {
    let code = "func Load() {\n\treturn\n}\n";
    let m = RegexMatch { start: 0, end: 13, start_byte: 0, groups: vec![Some("func Load() {".to_string()), None] };
    let blocks = blocks_from_matches(code, &vec![m]);
    assert_eq!(blocks.len(), 1);
    assert_eq!(blocks[0].signature, "func Load()");
    assert_eq!(blocks[0].body, "\n\treturn\n");
}

#[test]
fn grpc_client_calls_are_read_from_stub_captures() {
    let fields = caps(&[&[Some("FlightServiceGrpc.FlightServiceBlockingStub stub"), Some("FlightService"), Some("stub")]]);
    let receivers = caps(&[&[Some("stub.getById("), Some("stub"), Some("getById")]]);
    let none = caps(&[]);
    let call = CallStatement {
        function_name: "stub.getById(".to_string(),
        arguments: vec![Argument { assigned_variable: String::new(), value: "id".to_string(), datatype: None }],
        enclosing_function_name: Some("Flight find(long id)".to_string()),
        enclosing_class_name: None,
        enclosing_function_hash: Some("abc".to_string()),
        is_self_invoke: false,
        is_super_invoke: false,
        invoked_on: None,
        source_span: SourceSpan { start: 0, end: 0 },
    };
    let calls = client_calls_from_captures(&fields, &none, &receivers, &none, "FlightClient.java", &[call]);
    assert_eq!(calls.len(), 1);
    assert_eq!(calls[0].target_uri, "grpc://FlightService/GetById");
    assert_eq!(calls[0].function_name, "Flight find(long id)");
    assert_eq!(calls[0].http_method, HttpMethod::POST);
}
