use callix::php::deps::{
    classify_php_import, dependencies, internal_prefixes, is_platform_requirement, php_parse_dependencies, stdlib_names,
    vendor_prefix, ComposerFiles,
};
use callix::php::detector::{is_php_project, php_detect_project_name, psr4_roots};

fn files(manifest: &str, lock: Option<&str>) -> ComposerFiles {
    ComposerFiles { manifest: Some(manifest.to_string()), lock: lock.map(|l| l.to_string()) }
}

#[test]
fn longer_prefixes_stand_before_shorter_ones() {
    let text = r#"{"autoload":{"psr-4":{"App\\":"src/","App\\Admin\\":["admin/","more/"],"Z\\":"z"}},"autoload-dev":{"psr-4":{"Tests\\":"tests/"}}}"#;
    let roots = psr4_roots(&Some(text.to_string()));
    let names: Vec<&str> = roots.iter().map(|(p, _)| p.as_str()).collect();
    let lengths: Vec<usize> = names.iter().map(|n| n.len()).collect();
    let mut sorted = lengths.clone();
    sorted.sort_by(|a, b| b.cmp(a));
    assert_eq!(lengths, sorted);
    assert!(names[0].starts_with("App\\Admin"));
    assert!(names.contains(&"App\\") || names.contains(&"App"));
    assert!(psr4_roots(&None).is_empty());
    assert!(psr4_roots(&Some("not json".to_string())).is_empty());
}

#[test]
fn vendors_come_from_the_manifest_and_the_lock() {
    let all = dependencies(&files(
        r#"{"require":{"php":"^8","ext-json":"*","symfony/console":"^6"},"require-dev":{"phpunit/phpunit":"^10"}}"#,
        Some(r#"{"packages":[{"name":"monolog/monolog"}],"packages-dev":[]}"#),
    ));
    for v in ["symfony", "phpunit", "monolog"] {
        assert!(all.iter().any(|a| a == v), "{}", v);
    }
    assert!(!all.iter().any(|a| a == "php" || a == "ext-json"));
    assert_eq!(php_parse_dependencies(&files("{}", None)).len(), 0);
    assert!(is_platform_requirement("php"));
    assert!(is_platform_requirement("ext-json"));
    assert!(!is_platform_requirement("symfony/console"));
    assert_eq!(vendor_prefix("symfony/console").as_deref(), Some("symfony"));
    assert_eq!(vendor_prefix("php"), None);
}

#[test]
fn imports_have_an_origin() {
    let own = || Some(vec!["App".to_string()]);
    let vendors = || Some(vec!["symfony".to_string()]);
    assert_eq!(classify_php_import("App\\Model\\User", own(), vendors()), "internal");
    assert_eq!(classify_php_import("Symfony\\Console\\Command", own(), vendors()), "third_party");
    assert_eq!(classify_php_import("DateTimeImmutable", own(), vendors()), "stdlib");
    assert_eq!(classify_php_import("\\Exception", None, None), "stdlib");
    assert!(stdlib_names().iter().any(|n| n == "Exception"));
}

#[test]
fn names_come_from_the_manifest_or_the_directory() {
    assert_eq!(php_detect_project_name(&Some(r#"{"name":"acme/shop"}"#.to_string()), "dir"), "acme/shop");
    assert_eq!(php_detect_project_name(&Some(r#"{"name":""}"#.to_string()), "dir"), "dir");
    assert_eq!(php_detect_project_name(&None, "dir"), "dir");
    assert!(is_php_project(true, &vec![]));
    assert!(is_php_project(false, &vec!["src/a.php".to_string()]));
    assert!(!is_php_project(false, &vec!["src/a.js".to_string()]));
    assert_eq!(
        internal_prefixes(&files(r#"{"autoload":{"psr-4":{"App\\Core\\":"src/"}}}"#, None)),
        vec!["App".to_string()]
    );
}
