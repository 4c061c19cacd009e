use sar_extraction::go::pipeline::identify;
use sar_extraction::go::parse::extract_go_source;
use sar_extraction::model::{CommunicationProtocol, FileRecord, HttpMethod, MessageRole, TypedFileRecord};

fn extract(code: &str, file_path: &str) -> FileRecord {
    extract_go_source(code, file_path).expect("parsed")
}

fn typed_record(record: FileRecord) -> TypedFileRecord {
    TypedFileRecord {
        file_path: record.file_path,
        language: record.language,
        imports: record.imports,
        endpoints: record.endpoints,
        callables: record.callables,
        call_statements: record.call_statements,
        assignments: record.assignments,
        raw_restcalls: vec![],
        raw_message_edges: record.raw_message_edges,
    }
}

#[test]
fn tests_extracts_train_ticket_routes_and_exchange_calls() {
    let code = r#"
const basePath = "/api/v1/stationservice"

func NewRouter() {
    mux := http.NewServeMux()
    mux.HandleFunc("GET "+basePath+"/stations", handler)
}

func handler() {}

const routeServiceName = "ts-route-service"

func (c *RouteClient) RoutesBetween(start, end string) {
    path := "/api/v1/routeservice/routes/" + url.PathEscape(start) + "/" + url.PathEscape(end)
    _ = c.transport.exchange(ctx, routeServiceName, http.MethodGet, path, nil, &response)
}
"#;

    let record = extract(code, "router.go");
    assert_eq!(record.endpoints.len(), 1);
    assert_eq!(record.endpoints[0].uri, "/api/v1/stationservice/stations");
    assert_eq!(record.call_statements.len(), 5);
    assert!(
        record
            .assignments
            .iter()
            .map(|e| &e.1)
            .any(|assignment| assignment.variable_name == "path"
                && assignment.value == "/api/v1/routeservice/routes/{start}/{end}")
    );

    let mut typed = typed_record(record);
    identify(&mut typed);
    assert_eq!(typed.raw_restcalls.len(), 1);
    assert_eq!(
        typed.raw_restcalls[0].target_uri,
        "http://ts-route-service/api/v1/routeservice/routes/{start}/{end}"
    );
}

#[test]
fn tests_extracts_gorilla_and_direct_http_calls() {
    let code = r#"
func UpdatePaymentStatus() {}

func Router() {
    r.HandleFunc("/payment/{order_id}", UpdatePaymentStatus).Methods("POST")
}

func invoke(url string) {
    req, err := http.NewRequest(http.MethodPost, url+"/ship-order", nil)
    _ = err
    _ = req
}
"#;

    let record = extract(code, "router.go");
    assert_eq!(record.endpoints.len(), 1);
    assert_eq!(record.endpoints[0].uri, "/payment/{order_id}");

    let mut typed = typed_record(record);
    identify(&mut typed);
    assert_eq!(typed.raw_restcalls.len(), 1);
    assert_eq!(typed.raw_restcalls[0].target_uri, "url/ship-order");
}

#[test]
fn extracts_chi_routes() {
    let code = r#"
package main

import "net/http"

func broker(http.ResponseWriter, *http.Request) {}
func submit(http.ResponseWriter, *http.Request) {}
func dynamic(http.ResponseWriter, *http.Request) {}

func routes() http.Handler {
    mux := chi.NewRouter()
    mux.Get("/status", dynamic)
    mux.Head("/status", dynamic)
    mux.Options("/status", dynamic)
    mux.Post("/", broker)
    mux.Post("/handle", submit)
    mux.Method("DELETE", "/items/{id}", http.HandlerFunc(dynamic))
    return mux
}
"#;

    let record = extract(code, "routes.go");
    assert_eq!(record.endpoints.len(), 6);
    assert!(
        record
            .endpoints
            .iter()
            .any(|e| { e.uri == "/status" && e.http_method == HttpMethod::GET })
    );
    assert!(
        record
            .endpoints
            .iter()
            .any(|e| e.uri == "/" && e.http_method == HttpMethod::POST)
    );
    assert!(
        record
            .endpoints
            .iter()
            .any(|e| e.uri == "/handle" && e.http_method == HttpMethod::POST)
    );
    assert!(
        record
            .endpoints
            .iter()
            .any(|e| e.uri == "/items/{id}" && e.http_method == HttpMethod::DELETE)
    );
    assert!(
        record
            .endpoints
            .iter()
            .any(|e| e.uri == "/status" && e.http_method == HttpMethod::HEAD)
    );
    assert!(
        record
            .endpoints
            .iter()
            .any(|e| e.uri == "/status" && e.http_method == HttpMethod::OPTIONS)
    );

    let mut typed = typed_record(record);
    identify(&mut typed);
    assert!(
        typed.raw_restcalls.is_empty(),
        "route registrations must not become outgoing REST calls: {:?}",
        typed.raw_restcalls
    );
}

#[test]
fn extracts_serve_mux_handle_and_client_methods() {
    let code = r#"
package main

import (
    "fmt"
    "net/http"
)

func httpGetProduct() http.HandlerFunc {
    return func(w http.ResponseWriter, r *http.Request) {}
}

func routes() {
    mux := http.NewServeMux()
    mux.Handle("/get-product", httpGetProduct())
}

type RestClient struct {
    restClient *http.Client
    ProductCatalogService string
}

func (c *RestClient) GetProduct(productID string) {
    url := fmt.Sprintf("http://%s/%s?product_id=%s", c.ProductCatalogService, "get-product", productID)
    _, _ = c.restClient.Get(url)
}
"#;

    let record = extract(code, "sample.go");
    assert!(record.endpoints.iter().any(|e| e.uri == "/get-product"));

    let mut typed = typed_record(record);
    identify(&mut typed);
    assert!(
        typed
            .raw_restcalls
            .iter()
            .any(|call| call.target_uri.contains("/get-product?product_id="))
    );
}

#[test]
fn extracts_gin_routes() {
    let code = r#"
package main

func checkout() {}

func startRest() {
    router := gin.Default()
    router.POST("/checkout", checkout)
}
"#;

    let record = extract(code, "gin.go");
    assert!(
        record
            .endpoints
            .iter()
            .any(|e| e.uri == "/checkout" && e.http_method == HttpMethod::POST)
    );
}

#[test]
fn extracts_gin_group_routes() {
    let code = r#"
package main

func health() {}
func getCustomer() {}
func addItemToBasket() {}

func startRest() {
    router := gin.Default()
    routerGroup := router.Group("/api")
    routerGroup.GET("/customers/:id", getCustomer)
    routerGroup.POST("/customer-basket", addItemToBasket)
    routerGroup.GET("/health", health)
}
"#;

    let record = extract(code, "gin_group.go");
    assert!(
        record
            .endpoints
            .iter()
            .any(|e| e.uri == "/api/customers/:id" && e.http_method == HttpMethod::GET)
    );
    assert!(
        record
            .endpoints
            .iter()
            .any(|e| e.uri == "/api/customer-basket" && e.http_method == HttpMethod::POST)
    );
    assert!(
        record
            .endpoints
            .iter()
            .any(|e| { e.uri == "/api/health" && e.http_method == HttpMethod::GET })
    );
}

#[test]
fn extracts_rabbitmq_and_kafka_message_edges() {
    let code = r#"
package messaging

func publish(ctx any, writer any, producer any, syncProducer any, client any, channel any) {
    _ = writer.WriteMessages(ctx, kafka.Message{Topic: "segment.out"})
    _ = producer.Produce(&ckafka.Message{TopicPartition: ckafka.TopicPartition{Topic: strPtr("confluent.out")}}, nil)
    _ = syncProducer.SendMessage(&sarama.ProducerMessage{Topic: "sarama.out"})
    _ = client.Produce(ctx, &kgo.Record{Topic: "franz.out"})
    _ = channel.Publish("events", "rabbit.out", false, false, amqp.Publishing{})
    _ = channel.QueueDeclare("billing", true, false, false, false, nil)
    _ = channel.QueueBind("billing", "created", "events", false, nil)
}

func consume(reader any, consumer any, partitionConsumer any, group any, channel any) {
    _ = kafka.NewReader(kafka.ReaderConfig{Topic: "segment.in"})
    _ = consumer.SubscribeTopics([]string{"confluent.in", "confluent.retry"}, nil)
    _, _ = partitionConsumer.ConsumePartition("sarama.in", 0, 0)
    _ = group.Consume(ctx, []string{"sarama.group.in"}, handler)
    _ = kgo.SeedTopics("franz.in")
    _, _ = channel.Consume("billing", "", false, false, false, false, nil)
}
"#;

    let record = extract(code, "messaging.go");
    let mut typed = typed_record(record);
    identify(&mut typed);

    let has_edge = |protocol, role, destination: &str| {
        typed.raw_message_edges.iter().any(|edge| {
            edge.protocol == protocol && edge.role == role && edge.destination == destination
        })
    };

    for destination in ["segment.out", "confluent.out", "sarama.out", "franz.out"] {
        assert!(has_edge(
            CommunicationProtocol::Kafka,
            MessageRole::Producer,
            destination
        ));
    }
    for destination in [
        "segment.in",
        "confluent.in",
        "confluent.retry",
        "sarama.in",
        "sarama.group.in",
        "franz.in",
    ] {
        assert!(has_edge(
            CommunicationProtocol::Kafka,
            MessageRole::Consumer,
            destination
        ));
    }
    assert!(has_edge(
        CommunicationProtocol::RabbitMq,
        MessageRole::Producer,
        "events:rabbit.out"
    ));
    assert!(has_edge(
        CommunicationProtocol::RabbitMq,
        MessageRole::QueueDeclaration,
        "billing"
    ));
    assert!(has_edge(
        CommunicationProtocol::RabbitMq,
        MessageRole::Binding,
        "events:created"
    ));
    assert!(has_edge(
        CommunicationProtocol::RabbitMq,
        MessageRole::Consumer,
        "billing"
    ));
}

#[test]
fn resolves_service_hosts_from_init_assignments() {
    let code = r#"
package main

import (
    "fmt"
    "net/http"
)

const PRODUCT_CATALOG_SERVICE_ADDR = "PRODUCT_CATALOG_SERVICE_ADDR"

var defaultServiceName = map[string]string{
    PRODUCT_CATALOG_SERVICE_ADDR: "product-catalog-service",
}

type RestClient struct {
    restClient *http.Client
    ProductCatalogService string
}

var client = &RestClient{}

func resolveEndpoint(serviceEnv string, port int) string {
    serviceHost := defaultServiceName[serviceEnv]
    service := fmt.Sprintf("%s:%d", serviceHost, port)
    return service
}

func init() {
    client.ProductCatalogService = resolveEndpoint(PRODUCT_CATALOG_SERVICE_ADDR, 60000)
}

func (c *RestClient) GetProduct(productID string) {
    url := fmt.Sprintf("http://%s/%s?product_id=%s", c.ProductCatalogService, "get-product", productID)
    _, _ = c.restClient.Get(url)
}
"#;

    let record = extract(code, "sample.go");
    let mut typed = typed_record(record);
    identify(&mut typed);
    let uris = typed
        .raw_restcalls
        .iter()
        .map(|call| call.target_uri.clone())
        .collect::<Vec<_>>();
    assert!(
        uris.iter().any(|uri| {
            uri == "http://product-catalog-service:60000/get-product?product_id=productID"
        }),
        "resolved URIs: {uris:?}"
    );
}

#[test]
fn preserves_literal_path_segments_when_resolving_selector_hosts() {
    let code = r#"
package main

import (
    "fmt"
    "net/http"
)

const CART_SERVICE_ADDR = "CART_SERVICE_ADDR"

var defaultServiceName = map[string]string{
    CART_SERVICE_ADDR: "cart-service",
}

type RestClient struct {
    restClient *http.Client
    CartService string
}

var client = &RestClient{}

func getService(serviceEnv string, port int) string {
    serviceHost := defaultServiceName[serviceEnv]
    return fmt.Sprintf("%s:%d", serviceHost, port)
}

func init() {
    client.CartService = getService(CART_SERVICE_ADDR, 60000)
}

func (c *RestClient) GetCart(user_id string) {
    url := fmt.Sprintf("http://%s/%s/user_id/%s", c.CartService, "cart", user_id)
    request, _ := http.NewRequest("GET", url, nil)
    _, _ = c.restClient.Do(request)
    cart := &pb.Cart{}
    _ = cart
}
"#;

    let record = extract(code, "sample.go");
    let mut typed = typed_record(record);
    identify(&mut typed);
    let uris = typed
        .raw_restcalls
        .iter()
        .map(|call| call.target_uri.clone())
        .collect::<Vec<_>>();
    assert!(
        uris.iter()
            .any(|uri| { uri == "http://cart-service:60000/cart/user_id/user_id" }),
        "resolved URIs: {uris:?}"
    );
}

#[test]
fn extracts_multiple_rest_client_calls() {
    let code = r#"
package main

import (
    "bytes"
    "fmt"
    "net/http"
)

const (
    CART_SERVICE_ADDR = "CART_SERVICE_ADDR"
    PRODUCT_CATALOG_SERVICE_ADDR = "PRODUCT_CATALOG_SERVICE_ADDR"
    PAYMENT_SERVICE_ADDR = "PAYMENT_SERVICE_ADDR"
)

var defaultServiceName = map[string]string{
    CART_SERVICE_ADDR: "cart-service",
    PRODUCT_CATALOG_SERVICE_ADDR: "product-catalog-service",
    PAYMENT_SERVICE_ADDR: "payment-service",
}

type RestClient struct {
    restClient *http.Client
    CartService string
    ProductCatalogService string
    Paymentservice string
}

var client = NewRestClient()

func NewRestClient() *RestClient {
    return &RestClient{restClient: &http.Client{}}
}

func getService(serviceEnv string, port int) string {
    serviceHost := defaultServiceName[serviceEnv]
    return fmt.Sprintf("%s:%d", serviceHost, port)
}

func init() {
    client.CartService = getService(CART_SERVICE_ADDR, 60000)
    client.ProductCatalogService = getService(PRODUCT_CATALOG_SERVICE_ADDR, 60000)
    client.Paymentservice = getService(PAYMENT_SERVICE_ADDR, 60000)
}

func (c *RestClient) GetProduct(productID string) {
    url := fmt.Sprintf("http://%s/%s?product_id=%s", c.ProductCatalogService, "get-product", productID)
    _, _ = c.restClient.Get(url)
}

func (c *RestClient) GetCart(userID string) {
    url := fmt.Sprintf("http://%s/%s/user_id/%s", c.CartService, "cart", userID)
    request, _ := http.NewRequest("GET", url, nil)
    _, _ = c.restClient.Do(request)
}

func (c *RestClient) charge(data []byte) {
    url := fmt.Sprintf("http://%s/%s", c.Paymentservice, "charge")
    _, _ = c.restClient.Post(url, "application/json", bytes.NewBuffer(data))
}
"#;

    let record = extract(code, "sample.go");
    let mut typed = typed_record(record);
    identify(&mut typed);
    let uris = typed
        .raw_restcalls
        .iter()
        .map(|call| call.target_uri.clone())
        .collect::<Vec<_>>();
    assert!(
        uris.contains(
            &"http://product-catalog-service:60000/get-product?product_id=productID".to_string()
        ),
        "resolved URIs: {uris:?}"
    );
    assert!(
        uris.contains(&"http://cart-service:60000/cart/user_id/userID".to_string()),
        "resolved URIs: {uris:?}"
    );
    assert!(
        uris.contains(&"http://payment-service:60000/charge".to_string()),
        "resolved URIs: {uris:?}"
    );
}

#[test]
fn resolves_constructor_initialized_receiver_fields() {
    let code = r#"
package main

import (
    "fmt"
    "net/http"
)

type Client struct {
    hostURL string
}

func NewCustomerClient() *Client {
    return &Client{
        hostURL: config.AppConfig.CustomerServiceEndpoint,
    }
}

func (c *Client) GetBasketItems(customerID string) {
    resp, _ := http.Get(c.hostURL + fmt.Sprintf("/customers/%v/basketItems", customerID))
    _ = resp
}
"#;

    let record = extract(code, "customer_http_client.go");
    let mut typed = typed_record(record);
    identify(&mut typed);

    let uris = typed
        .raw_restcalls
        .iter()
        .map(|call| call.target_uri.clone())
        .collect::<Vec<_>>();
    assert!(
        uris.contains(
            &"config.AppConfig.CustomerServiceEndpoint/customers/customerID/basketItems"
                .to_string()
        ),
        "resolved URIs: {uris:?}"
    );
}

#[test]
fn does_not_treat_regular_delete_method_calls_as_endpoints() {
    let code = r#"
package api

import "net/http"

const basePath = "/api/v1/stationservice"

func NewRouter(stations *Service) http.Handler {
    mux := http.NewServeMux()
    mux.HandleFunc("DELETE "+basePath+"/stations/{stationsId}", func(writer http.ResponseWriter, request *http.Request) {
        _ = stations.Delete(request.Context(), request.PathValue("stationsId"))
    })
    return mux
}
"#;

    let record = extract(code, "router.go");
    assert_eq!(record.endpoints.len(), 1);
    assert_eq!(
        record.endpoints[0].uri,
        "/api/v1/stationservice/stations/{stationsId}"
    );
}

#[test]
fn uses_import_and_receiver_provenance_for_rest_operations() {
    let code = r#"
package api

import (
    nethttp "net/http"
    "github.com/go-chi/chi/v5"
)

func listItems(nethttp.ResponseWriter, *nethttp.Request) {}

func routes() {
    router := chi.NewRouter()
    router.Get("/items", listItems)
}

func load() {
    store.Get("/cache", listItems)
    _, _ = nethttp.Get("http://inventory-service/items")
}
"#;

    let record = extract(code, "api/routes.go");
    assert_eq!(record.imports.len(), 2);
    assert_eq!(record.endpoints.len(), 1);
    assert_eq!(record.endpoints[0].uri, "/items");

    let mut typed = typed_record(record);
    identify(&mut typed);
    assert_eq!(typed.raw_restcalls.len(), 1);
    assert_eq!(
        typed.raw_restcalls[0].target_uri,
        "http://inventory-service/items"
    );
}

#[test]
fn package_globals_reach_requests_in_other_files_of_the_package() {
    let config = r#"package client

const routeServiceName = "ts-route-service"
"#;
    let client = r#"package client

func (c *RouteClient) Routes() {
    _ = c.transport.exchange(ctx, routeServiceName, http.MethodGet, "/api/v1/routes", nil, &response)
}
"#;
    let other = r#"package other

func (c *RouteClient) Routes() {
    _ = c.transport.exchange(ctx, routeServiceName, http.MethodGet, "/api/v1/routes", nil, &response)
}
"#;
    let mut files = vec![
        typed_record(extract(config, "svc/client/config.go")),
        typed_record(extract(client, "svc/client/client.go")),
        typed_record(extract(other, "svc/other/client.go")),
    ];
    let callables_before = files[1].callables.len();
    sar_extraction::go::package_context::identify_project_restcalls(&mut files);
    assert_eq!(files[1].raw_restcalls.len(), 1);
    assert_eq!(files[1].raw_restcalls[0].target_uri, "http://ts-route-service/api/v1/routes");
    assert_eq!(files[1].callables.len(), callables_before);
    assert_eq!(files[2].raw_restcalls.len(), 1);
    assert_eq!(files[2].raw_restcalls[0].target_uri, "http://routeServiceName/api/v1/routes");
}
