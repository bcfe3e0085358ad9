//! What the proxy does with one request: show it to the handlers, decide
//! by the policy, count it in the access sessions, and the page that answers
//! a blocked request.
use vstd::prelude::*;
use crate::handlers::{run_search_handlers, DomainHandlers, HandlerContext};
use crate::log::{has_room_for, records_access, valid_timestamp, AccessLogger, AccessSession};
use crate::policy::{first_match, lookup_tag, Action, Policy};
use crate::text::{before_first, has_prefix, opt_str_view, opt_view, text_before, views};
use crate::url::{
    domain_of, extract_domain, extract_path, extract_sld, path_of, sld_of, uri_host,
    uri_path_and_query,
};

verus! {

/// `s` with every occurrence of `pat`, scanning left to right, replaced by
/// `rep` (`str::replace`).
pub open spec fn replace_all(s: Seq<char>, pat: Seq<char>, rep: Seq<char>) -> Seq<char>
    decreases s.len(),
{
    if s.len() == 0 || pat.len() == 0 {
        s
    } else if has_prefix(s, pat) {
        rep + replace_all(s.skip(pat.len() as int), pat, rep)
    } else {
        seq![s[0]] + replace_all(s.skip(1), pat, rep)
    }
}

/// The page that answers a blocked request: `template` with every `{url}`
/// replaced by `url`.
pub fn block_page(template: &str, url: &str) -> (page: String)
    ensures
        page@ == replace_all(template@, "{url}"@, url@),
{
    proof {
        reveal_strlit("{url}");
    }
    let pat = "{url}";
    let m: usize = 5;
    assert(pat@.len() == 5);
    let ts = crate::text::chars_of(template);
    let ps = crate::text::chars_of(pat);
    let n = ts.len();
    let mut page = String::new();
    let mut start: usize = 0;
    let mut i: usize = 0;
    assert(template@.skip(0) =~= template@);
    while i < n
        invariant
            ts@ == template@,
            ps@ == pat@,
            pat@.len() == m,
            m == 5,
            n == template@.len(),
            start <= i <= n,
            page@ + template@.subrange(start as int, i as int) + replace_all(
                template@.skip(i as int),
                pat@,
                url@,
            ) == replace_all(template@, pat@, url@),
        decreases n - i,
    {
        let ghost rest = template@.skip(i as int);
        let mut matched = m <= n - i;
        if matched {
            let mut j: usize = 0;
            while j < m
                invariant
                    ts@ == template@,
                    ps@ == pat@,
                    pat@.len() == m,
                    i + m <= n,
                    n == template@.len(),
                    j <= m,
                    matched == (forall|t: int| 0 <= t < j ==> template@[i + t] == pat@[t]),
                decreases m - j,
            {
                if ts[i + j] != ps[j] {
                    matched = false;
                }
                j = j + 1;
            }
        }
        if matched {
            assert(rest.take(m as int) =~= pat@);
            assert(rest.skip(m as int) =~= template@.skip(i + m));
            page.append(template.substring_char(start, i));
            page.append(url);
            i = i + m;
            start = i;
            assert(template@.subrange(start as int, i as int) =~= Seq::<char>::empty());
        } else {
            assert(!has_prefix(rest, pat@)) by {
                if i + m <= n {
                    let t = choose|t: int| 0 <= t < m && template@[i + t] != pat@[t];
                    assert(rest.take(m as int)[t] != pat@[t]);
                }
            }
            assert(rest.skip(1) =~= template@.skip(i + 1));
            assert(template@.subrange(start as int, i + 1) =~= template@.subrange(
                start as int,
                i as int,
            ).push(rest[0]));
            i = i + 1;
        }
    }
    page.append(template.substring_char(start, n));
    assert(template@.skip(n as int) =~= Seq::<char>::empty());
    assert(template@.subrange(start as int, n as int) + Seq::<char>::empty()
        =~= template@.subrange(start as int, n as int));
    page
}

/// The domain of a request for `url`.
pub open spec fn request_domain(url: Seq<char>) -> Seq<char> {
    domain_of(url, uri_host(url))
}

/// The tag of the domain of a request for `url`, by its second-level domain.
pub open spec fn request_tag(policy: Policy, url: Seq<char>) -> Option<Seq<char>> {
    lookup_tag(policy.tag_pairs(), sld_of(request_domain(url)))
}

/// What `policy` decides for a request for `url` from `client_ip`.
pub open spec fn request_action(policy: Policy, url: Seq<char>, client_ip: Option<Seq<char>>) -> Action {
    first_match(
        policy.rules(),
        request_domain(url),
        path_of(uri_path_and_query(url)),
        client_ip,
        request_tag(policy, url),
    )
}

/// A request for `url` from `client_ip` can be counted in `sessions`: without
/// a known client address it is not counted; with one, the session it counts
/// in has room for one more request.
pub open spec fn request_has_room(
    policy: Policy,
    sessions: Seq<AccessSession>,
    url: Seq<char>,
    client_ip: Option<Seq<char>>,
) -> bool {
    client_ip matches Some(ip) ==> has_room_for(
        sessions,
        before_first(ip, ':'),
        request_domain(url),
        request_action(policy, url, client_ip),
        request_tag(policy, url),
    )
}

/// What handling a request for `url` (URI path `uri_path`, query
/// `uri_query`) from `client_ip` did: `action` is the policy's decision, the
/// search history went from `old_history` to `new_history` through `count`
/// search handlers, and, when the client's address is known, the sessions
/// went from `old_sessions` to `new_sessions` by counting the request for the
/// address up to the first `:`, under the tag of the domain if it has one;
/// without an address they stayed as they were.
pub open spec fn request_handled(
    policy: Policy,
    count: nat,
    old_history: Seq<Seq<char>>,
    new_history: Seq<Seq<char>>,
    old_sessions: Seq<AccessSession>,
    new_sessions: Seq<AccessSession>,
    url: Seq<char>,
    uri_path: Seq<char>,
    uri_query: Option<Seq<char>>,
    client_ip: Option<Seq<char>>,
    action: Action,
) -> bool {
    let domain = request_domain(url);
    let tag = request_tag(policy, url);
    &&& action == request_action(policy, url, client_ip)
    &&& new_history == run_search_handlers(count, domain, uri_path, uri_query, old_history)
    &&& match client_ip {
        Some(ip) => exists|now: i128|
            valid_timestamp(now) && records_access(
                old_sessions,
                new_sessions,
                before_first(ip, ':'),
                domain,
                action,
                tag,
                now,
            ),
        None => new_sessions == old_sessions,
    }
}

/// Handles a request for `url` (whose URI path is `uri_path` and query
/// `uri_query`) from `client_ip`: the handlers see it, the policy decides,
/// and, when the client's address is known, the request is counted in the
/// sessions of the client's address (up to the first `:`), under the tag of
/// the domain's second-level domain if it has one. Returns the decision.
pub fn handle_request(
    policy: &Policy,
    logger: &mut AccessLogger,
    handlers: &DomainHandlers,
    ctx: &mut HandlerContext,
    url: &str,
    uri_path: &str,
    uri_query: Option<&str>,
    client_ip: Option<&str>,
) -> (action: Action)
    requires
        request_has_room(*policy, old(logger).sessions(), url@, opt_str_view(client_ip)),
    ensures
        request_handled(
            *policy,
            handlers.count(),
            views(old(ctx).search_history@),
            views(final(ctx).search_history@),
            old(logger).sessions(),
            final(logger).sessions(),
            url@,
            uri_path@,
            opt_str_view(uri_query),
            opt_str_view(client_ip),
            action,
        ),
{
    let domain = extract_domain(url);
    let path = extract_path(url);
    handlers.execute(domain.as_str(), uri_path, uri_query, ctx);
    let action = policy.evaluate(domain.as_str(), path.as_str(), client_ip);
    if let Some(ip) = client_ip {
        let ip_only = text_before(ip, ':');
        let sld = extract_sld(domain.as_str());
        let tag = policy.get_tag(sld.as_str());
        let tag_ref: Option<&str> = match &tag {
            Some(t) => Some(t.as_str()),
            None => None,
        };
        assert(opt_str_view(tag_ref) == opt_view(tag));
        logger.record_access(ip_only.as_str(), domain.as_str(), action, tag_ref);
    }
    action
}

/// Handles a request as `handle_request` does when it can be counted (see
/// `request_has_room`) and returns the decision; otherwise returns `None`
/// and changes nothing.
pub fn handle_request_checked(
    policy: &Policy,
    logger: &mut AccessLogger,
    handlers: &DomainHandlers,
    ctx: &mut HandlerContext,
    url: &str,
    uri_path: &str,
    uri_query: Option<&str>,
    client_ip: Option<&str>,
) -> (r: Option<Action>)
    ensures
        r is Some <==> request_has_room(
            *policy,
            old(logger).sessions(),
            url@,
            opt_str_view(client_ip),
        ),
        r matches Some(action) ==> request_handled(
            *policy,
            handlers.count(),
            views(old(ctx).search_history@),
            views(final(ctx).search_history@),
            old(logger).sessions(),
            final(logger).sessions(),
            url@,
            uri_path@,
            opt_str_view(uri_query),
            opt_str_view(client_ip),
            action,
        ),
        r is None ==> final(logger).sessions() == old(logger).sessions() && final(ctx).search_history@
            == old(ctx).search_history@,
{
    if let Some(ip) = client_ip {
        let domain = extract_domain(url);
        let path = extract_path(url);
        let action = policy.evaluate(domain.as_str(), path.as_str(), client_ip);
        let ip_only = text_before(ip, ':');
        let sld = extract_sld(domain.as_str());
        let tag = policy.get_tag(sld.as_str());
        let tag_ref: Option<&str> = match &tag {
            Some(t) => Some(t.as_str()),
            None => None,
        };
        assert(opt_str_view(tag_ref) == opt_view(tag));
        if !logger.room_for(ip_only.as_str(), domain.as_str(), action, tag_ref) {
            return None;
        }
    }
    Some(handle_request(policy, logger, handlers, ctx, url, uri_path, uri_query, client_ip))
}

} // verus!
