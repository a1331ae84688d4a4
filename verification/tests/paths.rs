use kepler::help_cache::HelpCache;
use kepler::paths::{components_of, same_path};

fn parts(path: &str) -> Vec<String> {
    components_of(path).iter().map(|c| c.iter().collect()).collect()
}

#[test]
fn components_follow_the_unix_rules() {
    assert_eq!(parts("/usr/bin/rg"), vec!["/", "usr", "bin", "rg"]);
    assert_eq!(parts("/usr//bin/./rg/"), vec!["/", "usr", "bin", "rg"]);
    assert_eq!(parts("./bin/../rg"), vec![".", "bin", "..", "rg"]);
    assert_eq!(parts("."), vec!["."]);
    assert_eq!(parts(".hidden/x"), vec![".hidden", "x"]);
    assert_eq!(parts("a/./b"), vec!["a", "b"]);
    assert_eq!(parts("//"), vec!["/"]);
    assert!(parts("").is_empty());
}

#[test]
fn paths_with_the_same_components_are_the_same() {
    assert!(same_path("/usr/bin/rg", "/usr/bin/rg/"));
    assert!(same_path("/usr/bin/rg", "//usr///bin/./rg"));
    assert!(same_path("bin", "bin/."));
    assert!(!same_path("/usr/bin/rg", "usr/bin/rg"));
    assert!(!same_path("./rg", "rg"));
    assert!(!same_path("/usr/bin/rg", "/usr/bin/rga"));
    assert!(!same_path("/a/../b", "/b"));
}

#[test]
fn cache_keys_compare_by_components() {
    let mut cache = HelpCache::new();
    cache.insert("/bin/ls/".to_string(), "first".to_string());
    assert!(cache.contains_key(&"/bin/ls".to_string()));
    assert_eq!(cache.get(&"//bin/./ls".to_string()).map(|s| s.as_str()), Some("first"));
    cache.insert("/bin/ls".to_string(), "second".to_string());
    assert_eq!(cache.get(&"/bin/ls/".to_string()).map(|s| s.as_str()), Some("second"));
    assert!(!cache.contains_key(&"bin/ls".to_string()));
}
