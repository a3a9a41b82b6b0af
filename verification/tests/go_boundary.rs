use callix::boundaries::BoundaryRef;
use callix::golang::boundary::extract_go_boundaries;

fn keys(refs: &[BoundaryRef]) -> Vec<(String, String, String, u32)> {
    refs.iter()
        .map(|r| (r.mechanism.clone(), r.role.clone(), r.key.clone(), r.confidence))
        .collect()
}

fn row(mechanism: &str, role: &str, key: &str, confidence: u32) -> (String, String, String, u32) {
    (mechanism.to_string(), role.to_string(), key.to_string(), confidence)
}

#[test]
fn go_routes_requests_queues_activities_and_rpcs() {
    let source = br#"package main

import "net/http"

func run(r Router) {
	r.GET("/users/:id", h)
	http.Get("https://api.example.com/users/1?x=1")
	http.Get("not a url")
	bus.Publish("orders", msg)
	bus.Subscribe("orders", cb)
	workflow.ExecuteActivity(ctx, acts.Charge, 1)
	worker.RegisterActivity(Charge)
	client := pb.NewGreeterClient(conn)
	client.SayHello(ctx, req)
}
"#;
    let refs = extract_go_boundaries(source).unwrap();
    assert_eq!(
        keys(&refs),
        vec![
            row("http", "server", "GET /users/{}", 100),
            row("http", "client", "GET /users/{}", 85),
            row("queue", "client", "orders", 70),
            row("queue", "server", "orders", 75),
            row("temporal", "client", "Charge", 90),
            row("temporal", "server", "Charge", 90),
            row("grpc", "client", "Greeter/SayHello", 85),
        ]
    );
    assert_eq!((refs[0].line, refs[0].col), (6, 4));
    assert_eq!(refs[0].detail.pairs[0], ("method".to_string(), "GET".to_string()));
    assert_eq!(refs[0].detail.pairs[1], ("path".to_string(), "/users/{}".to_string()));
}
