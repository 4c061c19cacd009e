use sar_extraction::java::annotations::get_annotations_from_modifiers;
use sar_extraction::java::enclosing::{get_field_string_from_node, get_hashed_node_value, AncestorNode};
use sar_extraction::java::source::{listener_methods, SyntaxChild};

fn child(kind: &str, text: &str) -> SyntaxChild {
    SyntaxChild { kind: kind.to_string(), text: text.to_string(), name: None, type_text: None, declarator: None }
}

fn method_node() -> AncestorNode {
    AncestorNode {
        kind: "method_declaration".to_string(),
        start: 10,
        end: 40,
        name: Some("getUser".to_string()),
        type_text: Some("User".to_string()),
        parameters: Some("(Long id)".to_string()),
        text: "abc".to_string(),
    }
}

#[test]
fn annotations_are_taken_from_annotation_children_in_order() {
    let children = vec![
        child("annotation", "@GetMapping(\"/users\")"),
        child("public", "public"),
        child("marker_annotation", "@Override"),
    ];
    assert_eq!(
        get_annotations_from_modifiers(&children),
        vec!["@GetMapping(\"/users\")".to_string(), "@Override".to_string()]
    );
}

#[test]
fn modifiers_without_annotations_give_none() {
    let children = vec![child("public", "public"), child("static", "static")];
    assert!(get_annotations_from_modifiers(&children).is_empty());
}

#[test]
fn field_strings_come_from_the_named_fields() {
    let node = method_node();
    assert_eq!(get_field_string_from_node(&node, "name"), Some("getUser".to_string()));
    assert_eq!(get_field_string_from_node(&node, "type"), Some("User".to_string()));
    assert_eq!(get_field_string_from_node(&node, "parameters"), Some("(Long id)".to_string()));
    assert_eq!(get_field_string_from_node(&node, "body"), None);
}

#[test]
fn node_hash_is_the_sha256_of_its_text() {
    assert_eq!(
        get_hashed_node_value(&method_node()),
        "ba7816bf8f01cfea414140de5dae2223b00361a396177a9cb410ff61f20015ad"
    );
}

#[test]
fn listener_methods_are_read_from_a_source() {
    let code = r#"class Orders {
    @KafkaListener(topics = "orders")
    public void onOrder(String order) {}
}
"#;
    let methods = listener_methods(code).expect("parsed");
    assert_eq!(methods.len(), 1);
    assert_eq!(methods[0].annotations, vec!["@KafkaListener(topics = \"orders\")".to_string()]);
    assert_eq!(methods[0].return_type, "void");
    assert_eq!(methods[0].method_name, "onOrder");
    assert_eq!(methods[0].method_params, "(String order)");
}
