use kintate_proxy::auth::bearer_token;
use kintate_proxy::handlers::{DomainHandlers, GoogleSearchHandler, HandlerContext, RequestHandler};
use kintate_proxy::log::AccessLogger;
use kintate_proxy::policy::{Action, Policy, Rule};
use kintate_proxy::proxy::{block_page, handle_request, handle_request_checked};

fn search(ctx: &mut HandlerContext, domain: &str, path: &str, query: Option<&str>) {
    GoogleSearchHandler.handle(domain, path, query, ctx);
}

#[test]
fn google_search_terms_are_kept() {
    let mut ctx = HandlerContext::new();
    search(&mut ctx, "www.google.com", "/search", Some("hl=en&q=hello+world&x=1"));
    assert_eq!(ctx.search_history, vec!["hello world".to_string()]);
    search(&mut ctx, "www.google.co.jp", "/search", Some("q=%E3%81%82"));
    assert_eq!(ctx.search_history[0], "あ");
    assert_eq!(ctx.search_history[1], "hello world");
}

#[test]
fn undecodable_term_is_kept_raw() {
    let mut ctx = HandlerContext::new();
    search(&mut ctx, "google.com", "/search", Some("q=a+%FF"));
    assert_eq!(ctx.search_history, vec!["a+%FF".to_string()]);
    search(&mut ctx, "google.com", "/search", Some("q=100%"));
    assert_eq!(ctx.search_history[0], "100%");
}

#[test]
fn other_requests_are_ignored() {
    let mut ctx = HandlerContext::new();
    search(&mut ctx, "www.bing.com", "/search", Some("q=x"));
    search(&mut ctx, "www.google.com", "/maps", Some("q=x"));
    search(&mut ctx, "www.google.com", "/search", None);
    search(&mut ctx, "www.google.com", "/search", Some("query=x&qq=y&q"));
    assert!(ctx.search_history.is_empty());
}

#[test]
fn first_q_pair_wins() {
    let mut ctx = HandlerContext::new();
    search(&mut ctx, "google.com", "/search", Some("q=first&q=second"));
    assert_eq!(ctx.search_history, vec!["first".to_string()]);
    search(&mut ctx, "google.com", "/search", Some("q="));
    assert_eq!(ctx.search_history[0], "");
    search(&mut ctx, "google.com", "/search", Some("q=a=b"));
    assert_eq!(ctx.search_history[0], "a=b");
}

#[test]
fn history_keeps_the_newest_hundred() {
    let mut ctx = HandlerContext::new();
    for i in 0..120 {
        search(&mut ctx, "google.com", "/search", Some(&format!("q=t{}", i)));
        assert!(ctx.search_history.len() <= 100);
    }
    assert_eq!(ctx.search_history.len(), 100);
    assert_eq!(ctx.search_history[0], "t119");
    assert_eq!(ctx.search_history[99], "t20");
}

#[test]
fn domain_handlers_run_the_search_handler() {
    let handlers = DomainHandlers::new();
    let mut ctx = HandlerContext::new();
    handlers.execute("www.google.com", "/search", Some("q=rust"), &mut ctx);
    assert_eq!(ctx.search_history, vec!["rust".to_string()]);
}

#[test]
fn block_page_fills_in_the_url() {
    assert_eq!(block_page("<p>{url}</p><a>{url}</a>", "http://x.com/"), "<p>http://x.com/</p><a>http://x.com/</a>");
    assert_eq!(block_page("no placeholder", "u"), "no placeholder");
    assert_eq!(block_page("{url", "u"), "{url");
    assert_eq!(block_page("{{url}}", "u"), "{u}");
    assert_eq!(block_page("", "u"), "");
}

#[test]
fn bearer_tokens() {
    assert_eq!(bearer_token(Some("Bearer abc")), Some("abc".to_string()));
    assert_eq!(bearer_token(Some("Bearer ")), Some("".to_string()));
    assert_eq!(bearer_token(Some("bearer abc")), None);
    assert_eq!(bearer_token(Some("Basic abc")), None);
    assert_eq!(bearer_token(None), None);
    let t = "xyz.123";
    assert_eq!(bearer_token(Some(&format!("Bearer {}", t))), Some(t.to_string()));
}

#[test]
fn a_request_is_decided_counted_and_seen() {
    let mut policy = Policy::new();
    policy.reload_cache(vec![Rule::from_row(1, 1, "Block", None, Some("youtube.com".to_string()), None, None, None)]);
    policy.reload_tag_cache(vec![("youtube".to_string(), "video".to_string())]);
    let mut logger = AccessLogger::new();
    let handlers = DomainHandlers::new();
    let mut ctx = HandlerContext::new();
    let a = handle_request(&policy, &mut logger, &handlers, &mut ctx, "https://www.youtube.com/watch?v=1", "/watch", Some("v=1"), Some("10.0.0.9:5555"));
    assert_eq!(a, Action::Block);
    let s = logger.get_active_sessions();
    assert_eq!(s.len(), 1);
    assert_eq!(s[0].device_ip, "10.0.0.9");
    assert_eq!(s[0].target_domain, "video");
    assert_eq!(s[0].action, Action::Block);
    let a = handle_request(&policy, &mut logger, &handlers, &mut ctx, "https://www.google.com/search?q=cats", "/search", Some("q=cats"), None);
    assert_eq!(a, Action::Allow);
    assert_eq!(logger.get_active_sessions().len(), 1);
    assert_eq!(ctx.search_history, vec!["cats".to_string()]);
}

#[test]
fn a_checked_request_is_handled_when_it_can_be_counted() {
    let mut policy = Policy::new();
    policy.reload_cache(vec![Rule::from_row(1, 1, "Block", None, Some("example.com".to_string()), None, None, None)]);
    let mut logger = AccessLogger::new();
    let handlers = DomainHandlers::new();
    let mut ctx = HandlerContext::new();
    for n in 1..=3 {
        let a = handle_request_checked(&policy, &mut logger, &handlers, &mut ctx, "http://example.com/", "/", None, Some("10.0.0.1"));
        assert_eq!(a, Some(Action::Block));
        assert_eq!(logger.get_active_sessions()[0].request_count, n);
    }
    assert!(logger.room_for("10.0.0.1", "EXAMPLE.com", Action::Block, None));
}
