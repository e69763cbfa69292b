use herdr_pluck::patterns::{compile_custom_patterns, default_custom_priority};
use herdr_pluck::model::{MatchSpan, PatternSpec};
use herdr_pluck::patterns::{find_matches, find_matches_with_patterns};

fn lines<const N: usize>(values: [&str; N]) -> Vec<String> {
    values.into_iter().map(String::from).collect()
}

fn test_pattern(name: &str, priority: u16, pattern: &str) -> PatternSpec {
    PatternSpec {
        name: name.to_string(),
        regex: pattern.to_string(),
        priority,
    }
}

#[test]
fn finds_url_schemes() {
    let matches = find_matches(&lines([
        "https://example.com http://example.com git@github.com:org/repo.git",
        "git://host/repo ssh://host/path ftp://host/path file:///tmp/file",
    ]));
    let urls: Vec<&str> = matches
        .iter()
        .filter(|span| span.pattern == "url")
        .map(|span| span.text.as_str())
        .collect();

    assert_eq!(
        urls,
        vec![
            "https://example.com",
            "http://example.com",
            "git@github.com:org/repo.git",
            "git://host/repo",
            "ssh://host/path",
            "ftp://host/path",
            "file:///tmp/file",
        ]
    );
}

#[test]
fn url_stops_at_delimiters() {
    let matches = find_matches(&lines([
        "(https://a.test/path) 'https://b.test' \"https://c.test\"",
    ]));
    let urls: Vec<&str> = matches
        .iter()
        .filter(|span| span.pattern == "url")
        .map(|span| span.text.as_str())
        .collect();

    assert_eq!(
        urls,
        vec!["https://a.test/path", "https://b.test", "https://c.test"]
    );
}

#[test]
fn url_preserves_non_delimiter_trailing_punctuation() {
    let matches = find_matches(&lines(["see https://example.com/path., next"]));
    let url = matches.iter().find(|span| span.pattern == "url").unwrap();

    assert_eq!(url.text, "https://example.com/path.,");
}

#[test]
fn finds_style_paths() {
    let matches = find_matches(&lines(["/tmp/foo/bar src/main.rs foo/bar dir/sub/"]));
    let paths: Vec<&str> = matches
        .iter()
        .filter(|span| span.pattern == "path")
        .map(|span| span.text.as_str())
        .collect();

    assert_eq!(
        paths,
        vec!["/tmp/foo/bar", "src/main.rs", "foo/bar", "dir/sub/"]
    );
}

#[test]
fn finds_uppercase_and_lowercase_uuids() {
    let matches = find_matches(&lines([
        "ids 123e4567-e89b-12d3-a456-426614174000 123E4567-E89B-12D3-A456-426614174000",
    ]));
    let uuids: Vec<&str> = matches
        .iter()
        .filter(|span| span.pattern == "uuid")
        .map(|span| span.text.as_str())
        .collect();

    assert_eq!(
        uuids,
        vec![
            "123e4567-e89b-12d3-a456-426614174000",
            "123E4567-E89B-12D3-A456-426614174000",
        ]
    );
}

#[test]
fn finds_git_sha_lengths_with_uppercase_support() {
    let matches = find_matches(&lines([
        "sha abcDEF1 abcdef1234567890abcdef1234567890abcdef12 abcdef1234567890abcdef1234567890abcdef123",
    ]));
    let shas: Vec<&str> = matches
        .iter()
        .filter(|span| span.pattern == "git-sha")
        .map(|span| span.text.as_str())
        .collect();

    assert_eq!(
        shas,
        vec!["abcDEF1", "abcdef1234567890abcdef1234567890abcdef12"]
    );
}

#[test]
fn finds_loose_ipv4() {
    let matches = find_matches(&lines(["hosts 192.168.1.10 999.999.999.999"]));
    let ips: Vec<&str> = matches
        .iter()
        .filter(|span| span.pattern == "ipv4")
        .map(|span| span.text.as_str())
        .collect();

    assert_eq!(ips, vec!["192.168.1.10", "999.999.999.999"]);
}

#[test]
fn finds_long_numbers_inside_text() {
    let matches = find_matches(&lines(["zzz1234zzz issue-5678 foo_9012"]));
    let numbers: Vec<&str> = matches
        .iter()
        .filter(|span| span.pattern == "number")
        .map(|span| span.text.as_str())
        .collect();

    assert_eq!(numbers, vec!["1234", "5678", "9012"]);
}

#[test]
fn named_match_capture_defines_text_and_range() {
    let patterns = vec![test_pattern("status", 10, r#"status=\[(?<match>[^\]]+)\]"#)];
    let matches = find_matches_with_patterns(&lines(["status=[copy-me]"]), &patterns);

    assert_eq!(matches.len(), 1);
    assert_eq!(matches[0].text, "copy-me");
    assert_eq!(matches[0].start, 8);
    assert_eq!(matches[0].end, 15);
}

#[test]
fn full_match_is_used_without_named_capture() {
    let patterns = vec![test_pattern("word", 10, r#"copy-me"#)];
    let matches = find_matches_with_patterns(&lines(["xx copy-me yy"]), &patterns);

    assert_eq!(matches.len(), 1);
    assert_eq!(matches[0].text, "copy-me");
    assert_eq!(matches[0].start, 3);
    assert_eq!(matches[0].end, 10);
}

#[test]
fn overlap_resolution_uses_named_capture_range() {
    let patterns = vec![
        test_pattern("wrapped", 10, r#"prefix-(?<match>abc)-suffix"#),
        test_pattern("prefix", 20, r#"prefix"#),
    ];
    let matches = find_matches_with_patterns(&lines(["prefix-abc-suffix"]), &patterns);
    let texts: Vec<&str> = matches.iter().map(|span| span.text.as_str()).collect();

    assert_eq!(texts, vec!["prefix", "abc"]);
}

#[test]
fn url_wins_over_path_inside_url() {
    let matches = find_matches(&lines(["open https://example.com/src/main.rs"]));

    assert_eq!(matches.len(), 1);
    assert_eq!(matches[0].pattern, "url");
    assert_eq!(matches[0].text, "https://example.com/src/main.rs");
}

#[test]
fn uuid_wins_over_sha_and_number_submatches() {
    let matches = find_matches(&lines(["id 123e4567-e89b-12d3-a456-426614174000"]));

    assert_eq!(matches.len(), 1);
    assert_eq!(matches[0].pattern, "uuid");
}

#[test]
fn git_sha_wins_over_number_submatch() {
    let matches = find_matches(&lines(["sha abc1234"]));

    assert_eq!(matches.len(), 1);
    assert_eq!(matches[0].pattern, "git-sha");
    assert_eq!(matches[0].text, "abc1234");
}

#[test]
fn higher_priority_beats_longer_lower_priority_overlap() {
    let patterns = vec![
        test_pattern("short-high", 10, r#"abc"#),
        test_pattern("long-low", 20, r#"abcdef"#),
    ];
    let matches = find_matches_with_patterns(&lines(["abcdef"]), &patterns);

    assert_eq!(matches.len(), 1);
    assert_eq!(matches[0].pattern, "short-high");
}

#[test]
fn longer_match_wins_within_same_priority() {
    let patterns = vec![
        test_pattern("short", 10, r#"abc"#),
        test_pattern("long", 10, r#"abcdef"#),
    ];
    let matches = find_matches_with_patterns(&lines(["abcdef"]), &patterns);

    assert_eq!(matches.len(), 1);
    assert_eq!(matches[0].pattern, "long");
}

#[test]
fn earlier_position_wins_within_same_priority_and_length() {
    let patterns = vec![test_pattern("word", 10, r#"abc"#)];
    let matches = find_matches_with_patterns(&lines(["abc abc"]), &patterns);

    assert_eq!(matches.len(), 2);
    assert_eq!(matches[0].start, 0);
    assert_eq!(matches[1].start, 4);
}

#[test]
fn pattern_definition_order_breaks_exact_ties() {
    let patterns = vec![
        test_pattern("first", 10, r#"abc"#),
        test_pattern("second", 10, r#"abc"#),
    ];
    let matches = find_matches_with_patterns(&lines(["abc"]), &patterns);

    assert_eq!(matches.len(), 1);
    assert_eq!(matches[0].pattern, "first");
}

#[test]
fn output_order_is_visible_order_not_acceptance_priority() {
    let matches = find_matches(&lines(["1234", "https://example.com"]));
    let texts: Vec<&str> = matches.iter().map(|span| span.text.as_str()).collect();

    assert_eq!(texts, vec!["1234", "https://example.com"]);
}

#[test]
fn duplicate_copied_text_occurrences_are_preserved() {
    let matches = find_matches(&lines(["/tmp/foo /tmp/foo"]));
    let paths: Vec<&MatchSpan> = matches
        .iter()
        .filter(|span| span.pattern == "path")
        .collect();

    assert_eq!(paths.len(), 2);
    assert_eq!(paths[0].text, paths[1].text);
    assert_ne!(paths[0].start, paths[1].start);
}

#[test]
fn overlap_is_line_local() {
    let patterns = vec![test_pattern("same", 10, r#"abc"#)];
    let matches = find_matches_with_patterns(&lines(["abc", "abc"]), &patterns);

    assert_eq!(matches.len(), 2);
    assert_eq!(matches[0].line, 0);
    assert_eq!(matches[1].line, 1);
}

#[test]
fn custom_patterns_are_checked_in_order() {
    assert_eq!(default_custom_priority(), 25);
    let good = vec![
        test_pattern("ticket", 25, r"(?P<match>T-\d+)"),
        test_pattern("word", 30, r"\w+"),
    ];
    assert_eq!(compile_custom_patterns(good.clone()).unwrap(), good);

    let bad = vec![
        test_pattern("ticket", 25, r"(?P<match>T-\d+)"),
        test_pattern("broken", 30, r"(unclosed"),
        test_pattern("also-broken", 30, r"[z-a]"),
    ];
    let error = compile_custom_patterns(bad).unwrap_err();
    assert_eq!(error.name, "broken");
    assert_eq!(error.message(), "invalid regex for pattern broken");
}

fn found(line: &str) -> Vec<(String, String)> {
    find_matches(&lines([line]))
        .into_iter()
        .map(|m| (m.pattern, m.text))
        .collect()
}

#[test]
fn finds_hex_literals() {
    let matches = find_matches(&lines(["0xdeadBEEF"]));
    assert_eq!(matches.len(), 1);
    assert_eq!(matches[0].line, 0);
    assert_eq!(matches[0].start, 0);
    assert_eq!(matches[0].end, 10);
    assert_eq!(matches[0].text, "0xdeadBEEF");
    assert_eq!(matches[0].pattern, "hex");
}

#[test]
fn finds_kubernetes_resource_references_over_paths() {
    assert_eq!(
        found("kubectl get pod/nginx deployment.apps/frontend"),
        vec![
            ("k8s-ref".to_string(), "pod/nginx".to_string()),
            ("k8s-ref".to_string(), "deployment.apps/frontend".to_string()),
        ]
    );
}

#[test]
fn finds_git_status_branch_and_diff_paths() {
    assert_eq!(
        found("\tmodified:   src/main.rs"),
        vec![("git-status".to_string(), "src/main.rs".to_string())]
    );
    assert_eq!(
        found("Your branch is up to date with 'origin/main'."),
        vec![("git-branch".to_string(), "origin/main".to_string())]
    );
    assert_eq!(
        found("+++ b/src/lib.rs"),
        vec![("diff-path".to_string(), "src/lib.rs".to_string())]
    );
}

#[test]
fn finds_deployment_managed_pod_names() {
    assert_eq!(
        found("frontend-7d9c6b5f8d-x2k9p Running"),
        vec![("k8s-pod".to_string(), "frontend-7d9c6b5f8d-x2k9p".to_string())]
    );
}
