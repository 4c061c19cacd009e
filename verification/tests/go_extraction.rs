use sar_extraction::go::kafka::topics_from_field_or_literals;
use sar_extraction::go::should_extract_file;
use sar_extraction::go::values::composite_selector_values;

#[test]
fn extracts_topics_from_kafka_record_and_lists() {
    assert_eq!(
        topics_from_field_or_literals(
            "&kafka.Message{TopicPartition: kafka.TopicPartition{Topic: strPtr(\"orders.created\")}}",
            "Topic"
        ),
        vec!["orders.created"]
    );
    assert_eq!(
        topics_from_field_or_literals("[]string{\"orders.created\", \"orders.retry\"}", "Topic"),
        vec!["orders.created", "orders.retry"]
    );
}

#[test]
fn message_edge_project_resolves_nested_constructor_configuration_selectors() {
    let config = r#"Config{
            OrderActionExchange: "order-action-exchange",
            PaymentQueue: QueueConfig{Name: "payment-action-queue"},
        }"#;

    assert_eq!(
        composite_selector_values(config, "OrderActionExchange"),
        Some(vec!["\"order-action-exchange\"".to_string()])
    );
    assert_eq!(
        composite_selector_values(config, "PaymentQueue.Name"),
        Some(vec!["\"payment-action-queue\"".to_string()])
    );
}

#[test]
fn values_resolves_nested_constructor_configuration_selectors() {
    let config = r#"Config{
            OrderActionExchange: "order-action-exchange",
            PaymentQueue: QueueConfig{Name: "payment-action-queue"},
        }"#;

    assert_eq!(
        composite_selector_values(config, "OrderActionExchange"),
        Some(vec!["\"order-action-exchange\"".to_string()])
    );
    assert_eq!(
        composite_selector_values(config, "PaymentQueue.Name"),
        Some(vec!["\"payment-action-queue\"".to_string()])
    );
}

#[test]
fn skips_generated_go_files() {
    assert!(!should_extract_file("service.pb.go"));
    assert!(!should_extract_file("service_grpc.pb.go"));
    assert!(!should_extract_file("gen/thriftgo/client.go"));
    assert!(should_extract_file("service.go"));
}
