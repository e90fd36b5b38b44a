use vdns::kmp::kmp_search;
use vdns::matcher::{
    domain_full_match_fn, domain_keyword_match_fn, domain_regexp_match_fn, domain_suffix_match_fn,
    parse_domain, DomainError,
};

#[test]
fn test_kmp_search() {
    let test_cases = vec![
        (vec![1, 2, 3, 4, 5], vec![2, 3, 4], true),
        (vec![1, 2, 3, 4, 5], vec![2, 4, 3], false),
        (vec![1, 2, 3], vec![], true),
        (vec![], vec![1, 2, 3], false),
        (vec![1, 2, 3], vec![1, 2, 3], true),
        (vec![1, 2, 3], vec![1, 2, 3, 4], false),
        (vec![1, 2, 2, 3, 2], vec![2, 2, 3], true),
        (vec![1, 2, 3, 2, 3, 4], vec![2, 3], true),
    ];

    for (i, (haystack, needle, expected)) in test_cases.iter().enumerate() {
        assert_eq!(kmp_search(haystack, needle), *expected, "Test case {} failed", i + 1);
    }
}

#[test]
fn test_domain_suffix_match_fn() {
    let matcher = domain_suffix_match_fn("example.com");

    assert!(matcher.matches("example.com"));
    assert!(matcher.matches("www.example.com"));
    assert!(matcher.matches("sub.www.example.com"));

    assert!(!matcher.matches("example.org"));
    assert!(!matcher.matches("example.com.org"));
    assert!(!matcher.matches("example"));
}

#[test]
fn test_domain_full_match_fn() {
    let matcher = domain_full_match_fn("example.com");

    assert!(matcher.matches("example.com"));

    assert!(!matcher.matches("www.example.com"));
    assert!(!matcher.matches("sub.www.example.com"));
    assert!(!matcher.matches("example.org"));
    assert!(!matcher.matches("example.com.org"));
    assert!(!matcher.matches("example"));
}

#[test]
fn test_domain_keyword_match_fn() {
    let matcher = domain_keyword_match_fn("example.com");

    assert!(matcher.matches("example.com"));
    assert!(matcher.matches("www.example.com"));
    assert!(matcher.matches("sub.www.example.com"));
    assert!(matcher.matches("example.com.org"));
    assert!(matcher.matches("www.example.com.org"));

    assert!(!matcher.matches("example.org"));
    assert!(!matcher.matches("example"));
    assert!(!matcher.matches("example.foobar.com"));
}

#[test]
fn test_parse_domain() {
    let matcher = parse_domain("domain:google.com").unwrap();
    assert!(matcher.matches("google.com"));
    assert!(matcher.matches("www.google.com"));
    assert!(!matcher.matches("www.google.com.cn"));
    assert!(!matcher.matches("example.com"));

    let matcher = parse_domain("full:google.com").unwrap();
    assert!(matcher.matches("google.com"));
    assert!(!matcher.matches("www.google.com"));
    assert!(!matcher.matches("www.google.com.cn"));

    let matcher = parse_domain("keyword:google.com").unwrap();
    assert!(matcher.matches("google.com"));
    assert!(matcher.matches("www.google.com"));
    assert!(matcher.matches("maps.l.google.com"));
    assert!(matcher.matches("www.google.com.cn"));
    assert!(!matcher.matches("example.com"));

    let matcher = parse_domain("regexp:^google\\.*").unwrap();
    assert!(matcher.matches("google.com"));
    assert!(matcher.matches("google.cn"));
    assert!(!matcher.matches("www.google.com"));
}

#[test]
fn kmp_search_on_strings_and_edges() {
    let hay = vec!["com", "example", "www"];
    assert!(kmp_search(&hay, &["example", "www"]));
    assert!(!kmp_search(&hay, &["www", "example"]));
    let empty: Vec<u8> = vec![];
    assert!(kmp_search(&empty, &empty));
    assert!(kmp_search(&[1u8, 1, 1, 2], &[1u8, 1, 2]));
    assert!(!kmp_search(&[1u8, 2, 1, 2, 1], &[1u8, 2, 1, 2, 2]));
}

#[test]
fn suffix_versus_full_is_label_aware() {
    let full = parse_domain("full:example.com").unwrap();
    let suffix = parse_domain("domain:example.com").unwrap();
    assert!(!full.matches("www.example.com"));
    assert!(suffix.matches("www.example.com"));
    assert!(!full.matches("badexample.com"));
    assert!(!suffix.matches("badexample.com"));
}

#[test]
fn keyword_is_label_aware() {
    let keyword = parse_domain("keyword:example.com").unwrap();
    assert!(keyword.matches("example.com.org"));
    assert!(!keyword.matches("badexample.com"));
}

#[test]
fn bare_rule_reads_as_domain_rule() {
    let bare = parse_domain("example.com").unwrap();
    let prefixed = parse_domain("domain:example.com").unwrap();
    for name in ["example.com", "a.example.com", "example.org", "com", "", "example.com."] {
        assert_eq!(bare.matches(name), prefixed.matches(name), "{}", name);
    }
}

#[test]
fn names_are_trimmed_and_dots_ignored() {
    let suffix = domain_suffix_match_fn("  example.com.  ");
    assert!(suffix.matches("www.example.com."));
    assert!(suffix.matches("example..com"));
    let full = domain_full_match_fn(" example.com\t");
    assert!(full.matches("example.com"));
    assert!(full.matches("example.com."));
    assert!(full.matches(".example.com"));
    assert!(!full.matches(" example.com"));
    assert!(!full.matches("example.com\t"));
    let everything = domain_suffix_match_fn("");
    assert!(everything.matches("anything.at.all"));
}

#[test]
fn rule_errors() {
    assert!(matches!(parse_domain(""), Err(DomainError::Empty)));
    assert!(matches!(parse_domain("   "), Err(DomainError::Empty)));
    assert!(matches!(parse_domain("geosite:cn"), Err(DomainError::Invalid)));
    assert!(matches!(parse_domain("regexp:(unclosed"), Err(DomainError::InvalidRegexp)));
    assert!(matches!(domain_regexp_match_fn("a(b"), Err(DomainError::InvalidRegexp)));
    assert!(domain_regexp_match_fn("^a.*b$").is_ok());
}

#[test]
fn repeated_kind_prefix_is_stripped() {
    let m = parse_domain("full:full:example.com").unwrap();
    assert!(m.matches("example.com"));
    assert!(!m.matches("www.example.com"));
}

#[test]
fn regexp_matches_the_whole_name_text() {
    let m = parse_domain("regexp:\\.cn$").unwrap();
    assert!(m.matches("www.google.cn"));
    assert!(!m.matches("www.google.com"));
}

#[test]
fn tested_names_are_not_trimmed() {
    let suffix = domain_suffix_match_fn("a");
    let full = domain_full_match_fn("a");
    let keyword = domain_keyword_match_fn("a");
    assert!(!suffix.matches("a "));
    assert!(!full.matches("a "));
    assert!(!full.matches("a ."));
    assert!(!keyword.matches(" a"));
    assert!(suffix.matches("b.a."));
    assert!(keyword.matches("a.b"));
}
