use log_aggregator::config::{Config, ConfigError, Grouping};
use log_aggregator::normalize::{compile_groupings, normalize_uri, strip_query};

fn rule(pattern: &str, template: Option<&str>) -> Grouping {
    Grouping {
        regexp: pattern.to_string(),
        name: template.map(|t| t.to_string()),
        compiled_regexp: None,
    }
}

fn compiled_rules(rules: &[(&str, Option<&str>)]) -> Vec<Grouping> {
    let mut groupings: Vec<Grouping> = rules.iter().map(|(p, t)| rule(p, *t)).collect();
    assert_eq!(compile_groupings(&mut groupings), Ok(()));
    groupings
}

#[test]
fn strip_query_cuts_at_the_first_question_mark() {
    assert_eq!(strip_query("/items?x=1"), "/items");
    assert_eq!(strip_query("/items?x=1?y=2"), "/items");
    assert_eq!(strip_query("/items"), "/items");
    assert_eq!(strip_query("?x=1"), "");
    assert_eq!(strip_query(""), "");
    assert_eq!(strip_query("/items?"), "/items");
}

#[test]
fn strip_query_counts_characters_not_bytes() {
    assert_eq!(strip_query("/caf\u{e9}/\u{1f600}?q=\u{e9}"), "/caf\u{e9}/\u{1f600}");
    assert_eq!(strip_query("/\u{e9}\u{e9}\u{e9}"), "/\u{e9}\u{e9}\u{e9}");
}

#[test]
fn query_stripping_with_an_empty_rule_set() {
    let rules: Vec<Grouping> = Vec::new();
    assert_eq!(normalize_uri("/items?x=1", &rules), "/items");
}

#[test]
fn rule_precedence_first_match_wins() {
    let rules = compiled_rules(&[("^/a$", Some("/A")), ("^/a$", Some("/B"))]);
    assert_eq!(normalize_uri("/a", &rules), "/A");
}

#[test]
fn later_rule_applies_where_earlier_ones_do_not_match() {
    let rules = compiled_rules(&[("^/a$", Some("/A")), ("^/b$", Some("/B"))]);
    assert_eq!(normalize_uri("/b", &rules), "/B");
    assert_eq!(normalize_uri("/c?x=1", &rules), "/c");
}

#[test]
fn numeric_segment_is_collapsed() {
    let rules = compiled_rules(&[(r"^/posts/\d+$", Some("/posts/:id"))]);
    assert_eq!(normalize_uri("/posts/5", &rules), "/posts/:id");
    assert_eq!(normalize_uri("/posts/9", &rules), "/posts/:id");
    assert_eq!(normalize_uri("/posts/new", &rules), "/posts/new");
}

#[test]
fn rules_see_the_query_string() {
    let anchored = compiled_rules(&[(r"^/posts/\d+$", Some("/posts/:id"))]);
    assert_eq!(normalize_uri("/posts/5?x=1", &anchored), "/posts/5");
    let open = compiled_rules(&[(r"^/posts/\d+", Some("/posts/:id"))]);
    assert_eq!(normalize_uri("/posts/5?x=1", &open), "/posts/:id?x=1");
    let on_query = compiled_rules(&[(r"\?page=\d+$", Some(""))]);
    assert_eq!(normalize_uri("/list?page=3", &on_query), "/list");
}

#[test]
fn only_the_leftmost_match_is_replaced() {
    let rules = compiled_rules(&[(r"\d+", Some(":n"))]);
    assert_eq!(normalize_uri("/a/1/b/2", &rules), "/a/:n/b/2");
}

#[test]
fn template_may_name_capture_groups() {
    let rules = compiled_rules(&[(r"^/(\w+)/(\d+)$", Some("/$1/:id"))]);
    assert_eq!(normalize_uri("/users/42", &rules), "/users/:id");
}

#[test]
fn rule_without_template_uses_its_pattern_text() {
    let rules = compiled_rules(&[("/posts/[0-9]+", None)]);
    assert_eq!(normalize_uri("/posts/5", &rules), "/posts/[0-9]+");
}

#[test]
fn rule_that_is_not_compiled_never_matches() {
    let rules = vec![rule("^/a$", Some("/A"))];
    assert_eq!(normalize_uri("/a?x=1", &rules), "/a");
}

#[test]
fn normalizing_twice_gives_the_same_key() {
    let rules = compiled_rules(&[(r"^/posts/\d+$", Some("/posts/:id"))]);
    for uri in ["/posts/5", "/posts/:id", "/other", "/other?y=2", "/posts/new?x=1", ""] {
        let once = normalize_uri(uri, &rules);
        let twice = normalize_uri(&once, &rules);
        assert_eq!(twice, once);
    }
}

#[test]
fn normalizing_twice_differs_where_a_rule_applies_to_its_own_rewrite() {
    let rules = compiled_rules(&[("a", Some("aa"))]);
    let once = normalize_uri("a", &rules);
    assert_eq!(once, "aa");
    assert_eq!(normalize_uri(&once, &rules), "aaa");
}

#[test]
fn normalizing_twice_differs_where_a_rule_applies_once_the_query_is_gone() {
    let rules = compiled_rules(&[(r"^/posts/\d+$", Some("/posts/:id"))]);
    let once = normalize_uri("/posts/5?x=1", &rules);
    assert_eq!(once, "/posts/5");
    assert_eq!(normalize_uri(&once, &rules), "/posts/:id");
}

#[test]
fn normalizing_twice_differs_where_a_rewrite_leaves_a_query() {
    let rules = compiled_rules(&[(r"^/posts/\d+", Some("/posts/:id"))]);
    let once = normalize_uri("/posts/5?x=1", &rules);
    assert_eq!(once, "/posts/:id?x=1");
    assert_eq!(normalize_uri(&once, &rules), "/posts/:id");
}

#[test]
fn compile_groupings_compiles_every_rule() {
    let mut groupings = vec![rule("^/a$", Some("/A")), rule(r"\d+", None)];
    assert_eq!(compile_groupings(&mut groupings), Ok(()));
    assert_eq!(groupings.len(), 2);
    assert_eq!(groupings[0].regexp, "^/a$");
    assert_eq!(groupings[0].name, Some("/A".to_string()));
    assert_eq!(groupings[1].name, None);
    assert_eq!(groupings[0].compiled_regexp.as_ref().map(|re| re.as_str()), Some("^/a$"));
    assert_eq!(groupings[1].compiled_regexp.as_ref().map(|re| re.as_str()), Some(r"\d+"));
}

#[test]
fn compile_groupings_accepts_no_rules() {
    let mut groupings: Vec<Grouping> = Vec::new();
    assert_eq!(compile_groupings(&mut groupings), Ok(()));
}

#[test]
fn compile_groupings_reports_the_first_invalid_pattern() {
    let mut groupings =
        vec![rule("^/a$", Some("/A")), rule("foo(bar", None), rule("^/c$", None), rule("[", None)];
    assert_eq!(
        compile_groupings(&mut groupings),
        Err(ConfigError::InvalidPattern { index: 1 })
    );
    assert!(groupings[0].compiled_regexp.is_some());
    assert!(groupings[1].compiled_regexp.is_none());
    assert!(groupings[2].compiled_regexp.is_none());
    assert!(groupings[3].compiled_regexp.is_none());
}

#[test]
fn replacement_text_is_the_template_or_the_pattern() {
    assert_eq!(rule("^/a$", Some("/A")).replacement_text(), "/A");
    assert_eq!(rule("^/a$", None).replacement_text(), "^/a$");
}

#[test]
fn config_holds_the_rules_in_order() {
    let mut config = Config { grouping: vec![rule("^/a$", Some("/A")), rule("^/a", Some("/B"))] };
    assert_eq!(compile_groupings(&mut config.grouping), Ok(()));
    assert_eq!(normalize_uri("/a", &config.grouping), "/A");
    assert_eq!(normalize_uri("/ab", &config.grouping), "/Bb");
}
