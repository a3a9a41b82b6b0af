use callix::boundaries::normalize_http_path;
use callix::cfamily::boundary::{
    format_to_pattern, last_component, receiver_key, split_first_quoted, usable_path,
};

/// The conversion that lets a `printf`-built URL meet a route: every
/// specifier has to reduce to the same `{}` `normalize_http_path` produces.
#[test]
fn a_format_string_becomes_a_path_pattern() {
    assert_eq!(format_to_pattern("/engines/%ld"), "/engines/{}");
    assert_eq!(format_to_pattern("/a/%s/b/%d"), "/a/{}/b/{}");
    assert_eq!(format_to_pattern("/w/%-10.3f"), "/w/{}");
    assert_eq!(format_to_pattern("/x/%zu"), "/x/{}");
    // `%%` is a percent, not a parameter.
    assert_eq!(format_to_pattern("/100%%"), "/100%");
    assert_eq!(format_to_pattern("/plain"), "/plain");
    assert_eq!(format_to_pattern(""), "");
}

/// The pattern a format string produces has to survive normalization
/// unchanged, or the client's key and the server's diverge.
#[test]
fn a_pattern_and_a_route_normalize_alike() {
    assert_eq!(
        normalize_http_path(&format_to_pattern("/engines/%ld")),
        normalize_http_path("/engines/{id}")
    );
}

#[test]
fn only_a_path_with_a_real_segment_is_usable() {
    assert!(usable_path("/engines/{}"));
    assert!(usable_path("https://api.example.com/v1/things"));
    assert!(usable_path("/a"));
    // Nothing was recovered but the shape.
    assert!(!usable_path("/{}"));
    assert!(!usable_path("/"));
    assert!(!usable_path("{}"));
    assert!(!usable_path(""));
    // A bare word is not a path.
    assert!(!usable_path("url"));
}

#[test]
fn a_qualified_name_reduces_to_its_last_component() {
    assert_eq!(last_component("std::snprintf"), "snprintf");
    assert_eq!(last_component("snprintf"), "snprintf");
    assert_eq!(receiver_key("this->stub_"), "stub_");
    assert_eq!(receiver_key("state.client"), "client");
    assert_eq!(receiver_key("stub"), "stub");
}

#[test]
fn the_first_quoted_run_of_a_drogon_macro_is_its_path() {
    assert_eq!(
        split_first_quoted("Ctrl::getOne, \"/engines/{1}\", Get"),
        Some(("/engines/{1}".to_string(), ", Get".to_string()))
    );
    assert_eq!(split_first_quoted("Ctrl::getOne, Get"), None);
}

fn rows(refs: &[callix::boundaries::BoundaryRef]) -> Vec<(String, String, String, u32)> {
    refs.iter()
        .map(|r| (r.mechanism.clone(), r.role.clone(), r.key.clone(), r.confidence))
        .collect()
}

fn row(mechanism: &str, role: &str, key: &str, confidence: u32) -> (String, String, String, u32) {
    (mechanism.to_string(), role.to_string(), key.to_string(), confidence)
}

#[test]
fn c_clients_and_servers_are_found() {
    let source = br#"
#include <curl/curl.h>

static int fetch(long id) {
    char url[256];
    snprintf(url, sizeof(url), "https://api.example.com/engines/%ld", id);
    curl_easy_setopt(handle, CURLOPT_URL, url);
    curl_easy_setopt(handle, CURLOPT_POST, 1L);
    return 0;
}

static int direct(void) {
    curl_easy_setopt(handle, CURLOPT_URL, "http://host/v1/things");
    return 0;
}

static int hidden(char *url) {
    curl_easy_setopt(handle, CURLOPT_URL, url);
    return 0;
}

int serve(void) {
    mg_set_request_handler(ctx, "/engines/{id}", on_engine, 0);
    MHD_start_daemon(FLAGS, 8080, 0, 0, &answer, 0);
    return 0;
}
"#;
    let refs = callix::cfamily::boundary::extract_c_boundaries(source).unwrap();
    assert_eq!(
        rows(&refs),
        vec![
            row("http", "client", "POST /engines/{}", 70),
            row("http", "client", "GET /v1/things", 85),
            row("http", "server", "ANY /engines/{}", 90),
            row("http", "server", "ANY /*", 40),
        ]
    );
    assert_eq!(refs[3].detail.pairs[3], ("port".to_string(), "8080".to_string()));
}

#[test]
fn cpp_routes_requests_and_services_are_found() {
    let source = br#"
class GreeterImpl final : public helloworld::Greeter::Service {
    Status SayHello(ServerContext* context, const HelloRequest* request, HelloReply* reply) override;
    int helper(int x);
};

void run(httplib::Server& svr, httplib::Client& cli, int id) {
    svr.Get("/engines/:id", [](const Request& req, Response& res) {});
    svr.Post("/engines", handle_post);
    cli.Put("/engines/1", body, "text/plain");
    CROW_ROUTE(app, "/crow").methods("POST"_method, "PUT"_method)(handler);
    std::string url = "/concat/" + std::to_string(id);
    curl_easy_setopt(handle, CURLOPT_URL, url.c_str());
    auto stub = Greeter::NewStub(channel);
    stub->SayHello(&context, request, &reply);
}
"#;
    let refs = callix::cfamily::boundary::extract_cpp_boundaries(source).unwrap();
    assert_eq!(
        rows(&refs),
        vec![
            row("http", "client", "GET /concat/{}", 70),
            row("http", "server", "GET /engines/{}", 100),
            row("http", "server", "POST /engines", 75),
            row("http", "client", "PUT /engines/{}", 85),
            row("http", "server", "POST /crow", 100),
            row("http", "server", "PUT /crow", 100),
            row("grpc", "server", "Greeter/SayHello", 80),
            row("grpc", "client", "Greeter/SayHello", 85),
        ]
    );
}

#[test]
fn a_literal_root_path_is_a_route_in_c() {
    let source = br#"
static int fetch(long id) {
    char url[256];
    snprintf(url, sizeof(url), "/%ld", id);
    curl_easy_setopt(handle, CURLOPT_URL, url);
    return 0;
}

static int direct(void) {
    curl_easy_setopt(handle, CURLOPT_URL, "/");
    return 0;
}

int serve(void) {
    mg_set_request_handler(ctx, "/", on_root, 0);
    mg_set_request_handler(ctx, "root", on_root, 0);
    return 0;
}
"#;
    let refs = callix::cfamily::boundary::extract_c_boundaries(source).unwrap();
    assert_eq!(rows(&refs), vec![row("http", "client", "GET /", 85), row("http", "server", "ANY /", 90)]);
}

#[test]
fn a_literal_root_path_is_a_route_in_cpp() {
    let source = br#"
void run(httplib::Server& svr, httplib::Client& cli, int id) {
    svr.Get("/", [](const Request& req, Response& res) {});
    svr.Post("/{}", handle_post);
    svr.Put("root", handle_put);
    cli.Delete("/");
    CROW_ROUTE(app, "/")(handler);
    std::string url = "/" + std::to_string(id);
    curl_easy_setopt(handle, CURLOPT_URL, url.c_str());
}

class Root : public drogon::HttpController<Root> {
public:
    METHOD_LIST_BEGIN
    ADD_METHOD_TO(Root::index, "/", Get);
    METHOD_LIST_END
};
"#;
    let refs = callix::cfamily::boundary::extract_cpp_boundaries(source).unwrap();
    assert_eq!(
        rows(&refs),
        vec![
            row("http", "server", "GET /", 100),
            row("http", "server", "POST /{}", 75),
            row("http", "client", "DELETE /", 85),
            row("http", "server", "GET /", 100),
            row("http", "server", "GET /", 90),
        ]
    );
}
