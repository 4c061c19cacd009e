use sar_extraction::java::source::{extract_syntactic, java_annotations_readable_exec};
use sar_extraction::model::{HttpMethod, Language, Scope};

const CONTROLLER: &str = r#"package com.example.users;

import java.util.List;
import com.example.users.model.User;

@RequestMapping("/api")
public class UserController {
    private UserService service = new UserService();

    @GetMapping("/users")
    public List<User> getUsers(String name) {
        String prefix = "/users";
        return service.findAll(prefix, name);
    }
}
"#;

#[test]
fn java_source_gives_imports_entities_and_callables() {
    let record = extract_syntactic(CONTROLLER, "UserController.java").expect("parsed");
    assert_eq!(record.file_path, "UserController.java");
    assert_eq!(record.language, Language::Java);
    let modules: Vec<&str> = record.imports.iter().map(|i| i.orig_module.as_str()).collect();
    assert_eq!(modules, vec!["java.util.List", "com.example.users.model.User"]);
    assert_eq!(record.imports[0].codeword, "List");
    assert_eq!(record.entities.len(), 1);
    assert_eq!(record.entities[0].name, "UserController");
    assert_eq!(record.entities[0].fields.len(), 1);
    assert_eq!(record.entities[0].fields[0].name, "service");
    assert_eq!(record.callables.len(), 1);
    assert!(record.callables[0].metadata.name.contains("getUsers"));
    assert!(record.callables[0].statements.is_empty());
}

#[test]
fn java_source_gives_call_statements_with_arguments() {
    let record = extract_syntactic(CONTROLLER, "UserController.java").expect("parsed");
    let find_all = record
        .call_statements
        .iter()
        .find(|c| c.function_name.contains("findAll"))
        .expect("the findAll call");
    let args: Vec<&str> = find_all.arguments.iter().map(|a| a.value.as_str()).collect();
    assert_eq!(args, vec!["prefix", "name"]);
    assert!(find_all.arguments.iter().all(|a| a.assigned_variable.is_empty() && a.datatype.is_none()));
}

#[test]
fn java_source_gives_the_assignment_map() {
    let record = extract_syntactic(CONTROLLER, "UserController.java").expect("parsed");
    let prefix = record
        .assignments
        .iter()
        .find(|(k, _)| k.variable_name == "prefix")
        .expect("the local variable prefix");
    assert_eq!(prefix.1.variable_type, "String");
    assert_eq!(prefix.1.value, "\"/users\"");
    assert!(matches!(prefix.0.scope, Scope::Function(_)));
    let service = record.assignments.iter().find(|(k, _)| k.variable_name == "service").expect("the field service");
    assert!(matches!(&service.0.scope, Scope::Class(c) if c == "UserController"));
}

#[test]
fn java_source_endpoints_follow_the_endpoints_query() {
    let record = extract_syntactic(CONTROLLER, "UserController.java").expect("parsed");
    assert_eq!(record.endpoints.len(), 1);
    assert_eq!(record.endpoints[0].http_method, HttpMethod::GET);
    assert!(record.endpoints[0].function_name.contains("getUsers"));
    assert!(record.raw_message_edges.is_empty());
}

#[test]
fn annotations_of_a_controller_can_be_read() {
    assert!(java_annotations_readable_exec(CONTROLLER));
}
