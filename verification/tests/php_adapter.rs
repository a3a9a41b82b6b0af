use callix::boundaries::{BoundaryRef, Detail};
use callix::graph::Graph;
use callix::php::adapter::{analyze, read_namespace, read_structure, PhpRoot};
use callix::php::deps::ComposerFiles;
use callix::php::resolver::{PhpManifest, PhpResolver, PhpSource};

const MANIFEST: &str = r#"{"name":"acme/shop","require":{"php":">=8.1","ext-json":"*","symfony/console":"^6.0"},"autoload":{"psr-4":{"App\\":"src/"}}}"#;

const USER: &str = r#"<?php
namespace App\Model;

use App\Util\Slug;
use Symfony\Console\Command as Cmd;
use function App\helper;

abstract class Base
{
    protected string $name = 'x';

    public function label(): string
    {
        return $this->name;
    }
}

final class User extends Base
{
    public const LIMIT = 3;

    public function __construct(private readonly Slug $slug, int $age)
    {
    }

    public static function make(): self
    {
        return new self(new Slug(), 1);
    }

    public function show(): string
    {
        helper();
        $this->slug->build();
        return $this->label() . self::LIMIT;
    }
}
"#;

const SLUG: &str = r#"<?php
namespace App\Util;

class Slug
{
    public function build(): string
    {
        return strtolower('A');
    }
}

enum Suit: string
{
    case Hearts = 'h';
}
"#;

fn composer() -> ComposerFiles {
    ComposerFiles { manifest: Some(MANIFEST.to_string()), lock: None }
}

fn sources() -> Vec<PhpSource> {
    vec![
        PhpSource { path: "/p/src/Model/User.php".to_string(), source: Some(USER.as_bytes().to_vec()), extra: vec![] },
        PhpSource { path: "/p/src/Util/Slug.php".to_string(), source: Some(SLUG.as_bytes().to_vec()), extra: vec![] },
    ]
}

fn resolved() -> Graph {
    let roots = vec![PhpRoot { dir: "/p".to_string(), manifests: composer(), files: sources() }];
    let analysis = read_structure("/p", &roots).unwrap();
    let manifests = vec![PhpManifest { dir: "/p".to_string(), files: composer() }];
    let resolver = PhpResolver::prepare("/p", &manifests, &sources()).unwrap();
    analyze("/p", analysis, &Some(resolver), 7, false).unwrap()
}


fn nodes(g: &Graph) -> Vec<String> {
    g.nodes().iter().map(|n| format!("{} {}", n.kind.as_str(), n.qualified_name)).collect()
}

fn edges(g: &Graph, kind: &str) -> Vec<String> {
    let name = |id: &str| g.nodes().iter().find(|n| n.id == id).map(|n| n.qualified_name.clone()).unwrap_or_default();
    g.relations()
        .iter()
        .filter(|r| r.kind.as_str() == kind)
        .map(|r| format!("{} > {}", name(&r.source_id), name(&r.target_id)))
        .collect()
}

#[test]
fn a_project_is_read_in_order() {
    let g = resolved();
    assert_eq!(
        nodes(&g),
        vec![
            "project acme/shop",
            "dependency symfony",
            "module App",
            "module App\\Model",
            "module App\\Util",
            "file src/Model/User.php",
            "import App\\Model\\Slug",
            "import App\\Model\\Cmd",
            "external_symbol Symfony\\Console\\Command",
            "import App\\Model\\helper",
            "class App\\Model\\Base",
            "attribute App\\Model\\Base\\name",
            "method App\\Model\\Base\\label",
            "class App\\Model\\User",
            "attribute App\\Model\\User\\LIMIT",
            "method App\\Model\\User\\__construct",
            "parameter App\\Model\\User\\__construct\\slug",
            "attribute App\\Model\\User\\slug",
            "parameter App\\Model\\User\\__construct\\age",
            "method App\\Model\\User\\make",
            "method App\\Model\\User\\show",
            "file src/Util/Slug.php",
            "class App\\Util\\Slug",
            "method App\\Util\\Slug\\build",
            "class App\\Util\\Suit",
            "attribute App\\Util\\Suit\\Hearts",
            "external_symbol App\\Model\\self",
            "external_symbol App\\helper",
            "external_symbol strtolower",
        ]
    );
    assert_eq!(g.metadata().get_text("resolver_status"), "degraded");
}

#[test]
fn uses_are_bound_by_the_symbol_table() {
    let g = resolved();
    assert_eq!(
        edges(&g, "calls"),
        vec![
            "App\\Model\\User\\make > App\\Model\\self",
            "App\\Model\\User\\make > App\\Util\\Slug",
            "App\\Model\\User\\show > App\\helper",
            "App\\Model\\User\\show > App\\Util\\Slug\\build",
            "App\\Model\\User\\show > App\\Model\\Base\\label",
            "App\\Util\\Slug\\build > strtolower",
        ]
    );
    assert_eq!(edges(&g, "inherits_from"), vec!["App\\Model\\User > App\\Model\\Base"]);
    assert_eq!(
        edges(&g, "references"),
        vec![
            "App\\Model\\Base\\label > App\\Model\\Base\\name",
            "App\\Model\\User\\show > App\\Model\\User\\slug",
            "App\\Model\\User\\show > App\\Model\\User\\LIMIT",
        ]
    );
    assert_eq!(
        edges(&g, "imports"),
        vec![
            "src/Model/User.php > App\\Util",
            "src/Model/User.php > Symfony\\Console\\Command",
            "src/Model/User.php > App",
        ]
    );
    assert_eq!(edges(&g, "depends_on"), vec!["acme/shop > symfony"]);
}

#[test]
fn a_graph_without_a_resolver_stays_structural() {
    let roots = vec![PhpRoot { dir: "/p".to_string(), manifests: composer(), files: sources() }];
    let g = analyze("/p", read_structure("/p", &roots).unwrap(), &None, 0, false).unwrap();
    assert_eq!(g.metadata().get_text("resolver_status"), "unavailable");
    assert!(edges(&g, "calls").is_empty());
    let strict = analyze("/p", read_structure("/p", &roots).unwrap(), &None, 0, true);
    assert!(strict.err().unwrap().starts_with("PHP resolver status is 'unavailable'; refusing"));
}

fn one_file(text: &str) -> Graph {
    let files = || vec![PhpSource { path: "/p/a.php".to_string(), source: Some(text.as_bytes().to_vec()), extra: vec![] }];
    let none = || ComposerFiles { manifest: None, lock: None };
    let roots = vec![PhpRoot { dir: "/p".to_string(), manifests: none(), files: files() }];
    let manifests = vec![PhpManifest { dir: "/p".to_string(), files: none() }];
    let resolver = PhpResolver::prepare("/p", &manifests, &files()).unwrap();
    analyze("/p", read_structure("/p", &roots).unwrap(), &Some(resolver), 0, false).unwrap()
}

#[test]
fn classes_that_inherit_in_a_circle_end() {
    let g = one_file(
        "<?php\nclass A extends B { function go() { $this->missing(); } }\nclass B extends A { function found() {} function run() { parent::go(); $this->found(); } }\n",
    );
    assert_eq!(edges(&g, "calls"), vec!["A\\go > A\\missing", "B\\run > A\\go", "B\\run > B\\found"]);
}

#[test]
fn every_kind_of_declaration_has_its_node() {
    let g = one_file(
        "<?php\nnamespace N { trait T { public static int $count = 0; function t() { static $memo = 1; return fn($x) => $x->go(); } }\ninterface I { const K = 1; function m(): void; }\nclass C implements I { use T; public function m(): void { self::$count++; $o = new class extends D { public function q() {} }; try { I::K; } catch (\\Exception $e) {} if ($o instanceof I) {} } } }\nnamespace { function top(?N\\C $c, N\\C|N\\I ...$rest) { $c->m(); N\\C::m(); $c?->t(); } top(null); const Z = 2; }\n",
    );
    assert_eq!(
        nodes(&g),
        vec![
            "project p",
            "module N",
            "file a.php",
            "class N\\T",
            "attribute N\\T\\count",
            "method N\\T\\t",
            "variable N\\T\\t\\memo",
            "class N\\I",
            "attribute N\\I\\K",
            "method N\\I\\m",
            "class N\\C",
            "method N\\C\\m",
            "class N\\C\\m\\class@4:84",
            "method N\\C\\m\\class@4:84\\q",
            "function top",
            "parameter top\\c",
            "parameter top\\rest",
            "variable Z",
            "external_symbol D",
            "external_symbol Exception",
        ]
    );
    assert_eq!(edges(&g, "calls"), vec!["top > N\\C\\m", "top > N\\C\\m", "top > N\\T\\t", "a.php > top"]);
    assert_eq!(
        edges(&g, "has_type"),
        vec![
            "N\\C\\m > Exception",
            "N\\C\\m > N\\I",
            "top\\c > N\\C",
            "top\\rest > N\\C",
            "top\\rest > N\\I",
        ]
    );
    assert_eq!(
        edges(&g, "inherits_from"),
        vec!["N\\C > N\\I", "N\\C > N\\T", "N\\C\\m\\class@4:84 > D"]
    );
    assert_eq!(
        edges(&g, "references"),
        vec!["N\\C\\m > N\\T\\count", "N\\C\\m > N\\I", "N\\C\\m > N\\I\\K", "top > N\\C"]
    );
    let metadata = |name: &str, key: &str| {
        let node = g.nodes().iter().find(|n| n.qualified_name == name).unwrap();
        format!("{:?}", node.metadata.get(key))
    };
    assert_eq!(metadata("N\\I", "is_interface"), "Some(Flag(true))");
    assert_eq!(metadata("N\\T", "is_trait"), "Some(Flag(true))");
}

#[test]
fn ports_that_others_found_are_added() {
    let port = || BoundaryRef {
        mechanism: "cron".to_string(),
        role: "client".to_string(),
        key: "nightly".to_string(),
        line: 1,
        col: 0,
        confidence: 100,
        detail: Detail::new(),
    };
    let file = |text: &str| PhpSource {
        path: "/p/a.php".to_string(),
        source: Some(text.as_bytes().to_vec()),
        extra: vec![port()],
    };
    let consumed = |text: &str| {
        let none = ComposerFiles { manifest: None, lock: None };
        let roots = vec![PhpRoot { dir: "/p".to_string(), manifests: none, files: vec![file(text)] }];
        let g = analyze("/p", read_structure("/p", &roots).unwrap(), &None, 0, false).unwrap();
        edges(&g, "consumes")
    };
    assert_eq!(consumed("<?php\nfunction go() {}\n").len(), 1);
    // A file without PHP leaves no trace.
    assert!(consumed("just text\n").is_empty());
    assert_eq!(read_namespace(&file("<?php namespace A; go();")), Ok(Some("A".to_string())));
    assert_eq!(read_namespace(&file("just text")), Ok(None));
}
