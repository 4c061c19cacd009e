use sar_extraction::go::uri_generator::{generate_target_uris, selector_env_key_exec, AnalysisResult};
use sar_extraction::model::Expr;

fn chars(s: &str) -> Vec<char> {
    s.chars().collect()
}

fn text(v: &[char]) -> String {
    v.iter().collect()
}

#[test]
fn substitutes_go_config_selectors_from_scraped_env() {
    let env = vec![(
        "CUSTOMER_SERVICE_ENDPOINT".to_string(),
        (Some("String".to_string()), Expr::Literal("http://localhost:8082/api".to_string())),
    )];
    let analysis = AnalysisResult { return_value: Expr::Empty, final_env: env };

    let uris = generate_target_uris("config.AppConfig.CustomerServiceEndpoint/customers/customerID/basketItems", &analysis);

    assert!(uris.contains(&"http://localhost:8082/api/customers/customerID/basketItems".to_string()));
}

#[test]
fn selector_keys_are_upper_snake_case_of_the_last_segment() {
    assert_eq!(
        selector_env_key_exec(&chars("config.AppConfig.CustomerServiceEndpoint")).map(|v| text(&v)),
        Some("CUSTOMER_SERVICE_ENDPOINT".to_string())
    );
    assert_eq!(selector_env_key_exec(&chars("plainName")), None);
    assert_eq!(selector_env_key_exec(&chars("config.lower")), None);
}

#[test]
fn query_strings_give_a_second_uri_and_joined_values_their_first_literal() {
    let env = vec![
        ("host".to_string(), (None, Expr::Joined { vals: vec![Expr::Var("x".to_string()), Expr::Literal("svc".to_string())] })),
        ("id".to_string(), (None, Expr::Var("other".to_string()))),
    ];
    let analysis = AnalysisResult { return_value: Expr::Empty, final_env: env };
    let uris = generate_target_uris("http://host/items?id=id", &analysis);
    assert_eq!(uris, vec!["http://svc/items".to_string(), "http://svc/items?id=id".to_string()]);
}

#[test]
fn later_bindings_of_a_name_win() {
    let env = vec![
        ("host".to_string(), (None, Expr::Literal("old".to_string()))),
        ("host".to_string(), (None, Expr::Literal("new".to_string()))),
    ];
    let analysis = AnalysisResult { return_value: Expr::Empty, final_env: env };
    assert_eq!(generate_target_uris("host/x", &analysis), vec!["new/x".to_string()]);
}
