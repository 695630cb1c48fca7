use gws::check::check_status;
use gws::check::classify;
use gws::check::is_ignored;
use gws::check::read_ignore_patterns;
use gws::check::ignore_pattern;
use gws::check::is_known;
use gws::check::IgnorePattern;
use gws::check::ProjectStatus;
use gws::config::parse;

#[test]
fn ignore_lines_become_patterns() {
    assert_eq!(ignore_pattern("# a comment"), None);
    assert_eq!(ignore_pattern("  vendor/  "), Some("vendor/**".to_string()));
    assert_eq!(ignore_pattern("build"), Some("build".to_string()));
}

#[test]
fn repositories_are_classified() {
    let ws = parse("known | url\n").unwrap();
    assert!(is_known(&ws, &"known".to_string()));
    assert!(!is_known(&ws, &"other".to_string()));
    assert_eq!(classify(true, true), ProjectStatus::Ignored);
    assert_eq!(classify(false, true), ProjectStatus::Known);
    assert_eq!(classify(false, false), ProjectStatus::Unknown);
    assert_eq!(ProjectStatus::Missing.to_string(), "Missing");
}

#[test]
fn ignore_file_patterns_match_with_glob() {
    let lines = vec![
        "# comment".to_string(),
        "nextjs-blog/public/downloads/code/".to_string(),
        "tmp-*".to_string(),
        "[".to_string(),
    ];
    let patterns = read_ignore_patterns(&lines);
    assert_eq!(patterns.len(), 2);
    assert!(is_ignored(&patterns, "nextjs-blog/public/downloads/code/es-cluster-traefik"));
    assert!(is_ignored(&patterns, "nextjs-blog/public/downloads/code/go-enum-tutorial"));
    assert!(is_ignored(&patterns, "tmp-1"));
    assert!(!is_ignored(&patterns, "src"));

    let ws = parse("tmp-1 | url\nsrc | url\n").unwrap();
    assert_eq!(check_status(&"tmp-1".to_string(), &patterns, &ws), ProjectStatus::Ignored);
    assert_eq!(check_status(&"src".to_string(), &patterns, &ws), ProjectStatus::Known);
    assert_eq!(check_status(&"lib".to_string(), &patterns, &ws), ProjectStatus::Unknown);
}

#[test]
fn test_glob() {
    let glob = IgnorePattern::new("nextjs-blog/public/downloads/code/**".to_string()).unwrap();

    assert_eq!(
        glob.matches("nextjs-blog/public/downloads/code/es-cluster-traefik"),
        true
    );
    assert_eq!(
        glob.matches("nextjs-blog/public/downloads/code/go-enum-tutorial"),
        true
    );
}
