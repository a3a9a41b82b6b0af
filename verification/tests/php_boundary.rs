use callix::php::boundary::extract_php_boundaries;

fn ports(body: &str) -> Vec<String> {
    let text = format!("<?php\n{}\n", body);
    extract_php_boundaries(text.as_bytes())
        .unwrap()
        .iter()
        .map(|b| format!("{} {} {} {}", b.mechanism, b.key, b.role, b.confidence))
        .collect()
}

#[test]
fn a_bound_handler_makes_a_route() {
    assert_eq!(
        ports("Route::get('/users/{id}', [UserController::class, 'show']);"),
        vec!["http GET /users/{} server 100"]
    );
    assert_eq!(ports("$r->put('/x', 'Controller@show');"), vec!["http PUT /x server 100"]);
    assert_eq!(ports("$client->post(\"/e/$id\", []);"), vec!["http POST /e/{} server 100"]);
    assert_eq!(ports("Route::get('/x', $handler);"), vec!["http GET /x server 75"]);
    assert_eq!(ports("Route::any('/any', $handler);"), vec!["http ANY /any server 75"]);
    assert!(ports("Route::any('/any', 'X');").is_empty());
    assert_eq!(
        ports("Route::match(['get', 'post'], '/a', fn() => 1);"),
        vec!["http GET /a server 100", "http POST /a server 100"]
    );
}

#[test]
fn options_or_nothing_make_a_request() {
    assert_eq!(ports("$app->get('/d/:id', $h);"), vec!["http GET /d/{} client 90"]);
    assert_eq!(ports("$c->post('/e', ['json' => 1]);"), vec!["http POST /e client 90"]);
    assert_eq!(ports("Http::get('http://h/f');"), vec!["http GET /f client 80"]);
    assert_eq!(
        ports("$client->request('GET', 'https://api.example.com/v1/items?x=1');"),
        vec!["http GET /v1/items client 90"]
    );
    assert!(ports("$cache->get('key');").is_empty());
    assert_eq!(ports("$c->get(<<<EOT\nhttps://h/k/{$x}\nEOT);"), vec!["http GET /k/{} client 80"]);
}

#[test]
fn attributes_are_routes() {
    assert_eq!(ports("#[Route('/b/{x}', methods: ['POST'])]\nfunction f() {}"), vec!["http POST /b/{} server 100"]);
    assert_eq!(ports("#[Route(path: '/b')]\nfunction f() {}"), vec!["http ANY /b server 100"]);
    assert_eq!(ports("#[\\Some\\Where\\Get('/c')]\nfunction f() {}"), vec!["http GET /c server 100"]);
    assert!(ports("#[Other('/c')]\nfunction f() {}").is_empty());
}

#[test]
fn functions_that_fetch_are_requests() {
    assert_eq!(ports("file_get_contents('https://h/g/1');"), vec!["http GET /g/{} client 80"]);
    assert!(ports("file_get_contents('/etc/passwd');").is_empty());
    assert_eq!(ports("curl_setopt($c, CURLOPT_URL, 'https://h/i');"), vec!["http GET /i client 70"]);
    assert!(ports("curl_setopt($c, CURLOPT_POST, 'https://h/i');").is_empty());
}

#[test]
fn queues_and_jobs_are_ports() {
    assert_eq!(ports("$redis->publish('chan', 'x');"), vec!["queue chan client 70"]);
    assert_eq!(ports("$channel->basic_consume('q2', '', false);"), vec!["queue q2 server 75"]);
    assert_eq!(ports("dispatch(new SendMail($u));"), vec!["queue SendMail client 70"]);
    assert_eq!(ports("Queue::later(10, new \\App\\Jobs\\Ship());"), vec!["queue Ship client 70"]);
    assert!(ports("SendMail::dispatch($u);").is_empty());
    assert!(ports("$channel->basic_publish($m, '', 'q1');").is_empty());
}

#[test]
fn the_letters_of_a_verb_do_not_matter() {
    for verb in ["post", "POST", "Post"] {
        let text = format!("#[Route('/b', methods: ['{}'])]\nfunction f() {{}}", verb);
        assert_eq!(ports(&text), vec!["http POST /b server 100"]);
    }
}
