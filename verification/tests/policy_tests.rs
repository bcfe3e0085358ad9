use kintate_proxy::policy::{Action, Policy, Rule, RuleData};
use kintate_proxy::url::{domain_from_host, extract_domain, extract_path, extract_sld, path_from_parts};

fn rule(id: i64, priority: i32, action: &str, domain: Option<&str>, tag: Option<&str>, path: Option<&str>, ip: Option<&str>) -> Rule {
    Rule::from_row(
        id,
        priority,
        action,
        Some(format!("rule {}", id)),
        domain.map(|s| s.to_string()),
        tag.map(|s| s.to_string()),
        path.map(|s| s.to_string()),
        ip.map(|s| s.to_string()),
    )
}

fn policy_with(rules: Vec<Rule>, tags: Vec<(&str, &str)>) -> Policy {
    let mut p = Policy::new();
    p.reload_cache(rules);
    p.reload_tag_cache(tags.into_iter().map(|(a, b)| (a.to_string(), b.to_string())).collect());
    p
}

#[test]
fn sld_examples_from_docs() {
    assert_eq!(extract_sld("rr3---sn.googlevideo.com"), "googlevideo");
    assert_eq!(extract_sld("i.ytimg.com"), "ytimg");
    assert_eq!(extract_sld("www.google.co.jp"), "google");
}

#[test]
fn sld_edge_cases() {
    assert_eq!(extract_sld("example.com"), "example");
    assert_eq!(extract_sld("localhost"), "localhost");
    assert_eq!(extract_sld(""), "");
    assert_eq!(extract_sld("www.bbc.co.uk"), "bbc");
    assert_eq!(extract_sld("shop.example.com.au"), "example");
    assert_eq!(extract_sld("a.b.cd"), "a");
    assert_eq!(extract_sld("a.long.cd"), "long");
    assert_eq!(extract_sld("x.y.com"), "y");
    // byte length counts: two one-byte labels vs a two-char, six-byte label
    assert_eq!(extract_sld("a.bé.jp"), "a");
    assert_eq!(extract_sld("a.b.日本"), "b");
}

#[test]
fn domain_from_parsed_uri() {
    assert_eq!(extract_domain("https://www.example.com/path?q=1"), "www.example.com");
    assert_eq!(extract_domain("http://example.com:8080/x"), "example.com");
}

#[test]
fn domain_fallback_trims_prefixes() {
    assert_eq!(domain_from_host(None, "https://www.example.com:443/a"), "example.com");
    assert_eq!(domain_from_host(None, "http://http://a.org/b"), "a.org");
    assert_eq!(domain_from_host(None, "www.www.site.net"), "site.net");
    assert_eq!(domain_from_host(Some("host.io".to_string()), "ignored"), "host.io");
    // not a URI: the text is read by hand
    assert_eq!(extract_domain("http://exa mple.com/x"), "exa mple.com");
}

#[test]
fn path_extraction() {
    assert_eq!(extract_path("https://example.com/search?q=1"), "/search?q=1");
    assert_eq!(extract_path("http://exa mple.com/x"), "/");
    assert_eq!(path_from_parts(None), "/");
    assert_eq!(path_from_parts(Some("/a".to_string())), "/a");
}

#[test]
fn action_names() {
    assert_eq!(Action::from_str("allow"), Action::Allow);
    assert_eq!(Action::from_str("ALLOW"), Action::Allow);
    assert_eq!(Action::from_str("AlLoW"), Action::Allow);
    assert_eq!(Action::from_str("block"), Action::Block);
    assert_eq!(Action::from_str(""), Action::Block);
    assert_eq!(Action::from_str("allowed"), Action::Block);
    assert_eq!(Action::from_str(" allow"), Action::Block);
    assert_eq!(Action::Allow.as_str(), "Allow");
    assert_eq!(Action::Block.as_str(), "Block");
}

#[test]
fn action_name_round_trip() {
    for a in [Action::Allow, Action::Block] {
        assert_eq!(Action::from_str(a.as_str()), a);
    }
}

#[test]
fn no_rules_allows() {
    let p = Policy::new();
    assert_eq!(p.evaluate("anything.com", "/", None), Action::Allow);
}

#[test]
fn domain_rule_is_a_suffix_match() {
    let p = policy_with(vec![rule(1, 10, "Block", Some("youtube.com"), None, None, None)], vec![]);
    assert_eq!(p.evaluate("www.youtube.com", "/", None), Action::Block);
    assert_eq!(p.evaluate("youtube.com", "/", None), Action::Block);
    assert_eq!(p.evaluate("example.com", "/", None), Action::Allow);
    assert_eq!(p.evaluate("youtube.com.evil", "/", None), Action::Allow);
}

#[test]
fn first_rule_by_priority_wins() {
    let p = policy_with(
        vec![
            rule(1, 20, "Block", None, None, None, None),
            rule(2, 10, "Allow", Some("youtube.com"), None, None, None),
        ],
        vec![],
    );
    assert_eq!(p.evaluate("m.youtube.com", "/", None), Action::Allow);
    assert_eq!(p.evaluate("example.com", "/", None), Action::Block);
    let rules = p.get_all_rules();
    assert_eq!(rules.iter().map(|r| r.id).collect::<Vec<_>>(), vec![2, 1]);
}

#[test]
fn equal_priorities_keep_load_order() {
    let p = policy_with(
        vec![
            rule(5, 10, "Block", None, None, None, None),
            rule(3, 1, "Allow", Some("a.com"), None, None, None),
            rule(4, 10, "Allow", None, None, None, None),
            rule(6, 5, "Block", Some("b.com"), None, None, None),
        ],
        vec![],
    );
    let ids: Vec<i64> = p.get_all_rules().iter().map(|r| r.id).collect();
    assert_eq!(ids, vec![3, 6, 5, 4]);
    assert_eq!(p.evaluate("c.com", "/", None), Action::Block);
}

#[test]
fn client_ip_rule() {
    let p = policy_with(vec![rule(1, 1, "Block", None, None, None, Some("192.168.1.5"))], vec![]);
    assert_eq!(p.evaluate("a.com", "/", Some("192.168.1.5:5000")), Action::Block);
    assert_eq!(p.evaluate("a.com", "/", Some("192.168.1.5")), Action::Block);
    assert_eq!(p.evaluate("a.com", "/", Some("192.168.1.6")), Action::Allow);
    assert_eq!(p.evaluate("a.com", "/", None), Action::Allow);
}

#[test]
fn tag_rule_uses_second_level_domain() {
    let p = policy_with(
        vec![rule(1, 1, "Block", None, Some("video"), None, None)],
        vec![("googlevideo", "video"), ("ytimg", "video"), ("google", "search")],
    );
    assert_eq!(p.evaluate("rr3---sn.googlevideo.com", "/", None), Action::Block);
    assert_eq!(p.evaluate("i.ytimg.com", "/", None), Action::Block);
    assert_eq!(p.evaluate("www.google.com", "/", None), Action::Allow);
    assert_eq!(p.evaluate("untagged.org", "/", None), Action::Allow);
}

#[test]
fn later_tag_pair_wins() {
    let p = policy_with(vec![], vec![("a", "one"), ("b", "two"), ("a", "three")]);
    assert_eq!(p.get_tag("a"), Some("three".to_string()));
    assert_eq!(p.get_tag("b"), Some("two".to_string()));
    assert_eq!(p.get_tag("c"), None);
}

#[test]
fn path_pattern_rule() {
    let p = policy_with(
        vec![rule(1, 1, "Block", Some("youtube.com"), None, Some("^/shorts"), None)],
        vec![],
    );
    assert_eq!(p.evaluate("www.youtube.com", "/shorts/abc", None), Action::Block);
    assert_eq!(p.evaluate("www.youtube.com", "/watch?v=1", None), Action::Allow);
}

#[test]
fn invalid_path_pattern_is_ignored() {
    let r = rule(1, 1, "Block", None, None, Some("("), None);
    assert!(r.compiled_regex.is_none());
    let p = policy_with(vec![r], vec![]);
    assert_eq!(p.evaluate("a.com", "/anything", None), Action::Block);
    let ok = rule(2, 1, "Block", None, None, Some("a+"), None);
    assert_eq!(ok.compiled_regex, Some("a+".to_string()));
}

#[test]
fn rule_from_row_reads_action() {
    let r = rule(9, 3, "allow", None, None, None, None);
    assert_eq!(r.data.action, Action::Allow);
    assert_eq!(r.data.priority, 3);
    let r2 = Rule::new(10, RuleData {
        priority: 1,
        action: Action::Block,
        name: None,
        domain: None,
        tag: None,
        path_pattern: None,
        client_ip: None,
    });
    assert_eq!(r2.id, 10);
    assert!(r2.compiled_regex.is_none());
}

#[test]
fn reloading_rules_replaces_them() {
    let mut p = policy_with(vec![rule(1, 1, "Block", None, None, None, None)], vec![]);
    assert_eq!(p.evaluate("x.com", "/", None), Action::Block);
    p.reload_cache(vec![]);
    assert_eq!(p.evaluate("x.com", "/", None), Action::Allow);
    assert!(p.get_all_rules().is_empty());
}
