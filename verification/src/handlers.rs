//! Handlers that look at requests passing the proxy; the search handler keeps
//! the terms searched for on Google.
use vstd::prelude::*;
use vstd::utf8::{decode_utf8, encode_utf8, valid_utf8};
use crate::text::{
    contains_str, find_char, index_of_first, occurs_in, opt_str_view, opt_view, replace_char,
    replace_char_in, same_text, split_char, split_on, substring, views,
};

verus! {

/// What handlers keep between requests.
pub struct HandlerContext {
    /// Search terms, newest first.
    pub search_history: Vec<String>,
}

impl HandlerContext {
    /// A context with an empty search history.
    pub fn new() -> (c: HandlerContext)
        ensures
            c.search_history@ == Seq::<String>::empty(),
    {
        HandlerContext { search_history: Vec::new() }
    }
}

/// Something that looks at each request: its host, its path and its query.
pub trait RequestHandler: Send + Sync {
    /// The search history after this handler has seen a request, given the
    /// one before.
    spec fn handled(
        &self,
        domain: Seq<char>,
        path: Seq<char>,
        query: Option<Seq<char>>,
        history: Seq<Seq<char>>,
    ) -> Seq<Seq<char>>;

    fn handle(&self, domain: &str, path: &str, query: Option<&str>, ctx: &mut HandlerContext)
        ensures
            views(final(ctx).search_history@) == self.handled(
                domain@,
                path@,
                opt_str_view(query),
                views(old(ctx).search_history@),
            ),
    ;
}

/// The value of a hexadecimal digit byte.
pub open spec fn hex_value(b: u8) -> Option<int> {
    if 48 <= b <= 57 {
        Some(b - 48)
    } else if 97 <= b <= 102 {
        Some(b - 87)
    } else if 65 <= b <= 70 {
        Some(b - 55)
    } else {
        None
    }
}

/// `s` with every `%` followed by two hexadecimal digits replaced by the byte
/// they spell; a `%` not followed by two such digits stays.
pub open spec fn percent_decode_bytes(s: Seq<u8>) -> Seq<u8>
    decreases s.len(),
{
    if s.len() == 0 {
        Seq::empty()
    } else if s[0] == 37 && s.len() >= 3 && hex_value(s[1]) is Some && hex_value(s[2]) is Some {
        seq![(hex_value(s[1])->0 * 16 + hex_value(s[2])->0) as u8] + percent_decode_bytes(
            s.skip(3),
        )
    } else {
        seq![s[0]] + percent_decode_bytes(s.skip(1))
    }
}

/// The text whose UTF-8 bytes are the percent-decoded bytes of `s`; `None`
/// when those bytes are not valid UTF-8.
pub open spec fn percent_decode_utf8(s: Seq<char>) -> Option<Seq<char>> {
    let bytes = percent_decode_bytes(encode_utf8(s));
    if valid_utf8(bytes) {
        Some(decode_utf8(bytes))
    } else {
        None
    }
}

/// Calls `percent_encoding::percent_decode_str` and then `decode_utf8` on
/// the result. The contract restates what its source does: `%` and two
/// hexadecimal digits become one byte, and the bytes read as UTF-8 when they
/// are valid UTF-8.
#[verifier::external_body]
fn percent_decode(s: &str) -> (r: Option<String>)
    ensures
        opt_view(r) == percent_decode_utf8(s@),
{
    match percent_encoding::percent_decode_str(s).decode_utf8() {
        Ok(text) => Some(text.into_owned()),
        Err(_) => None,
    }
}

/// The value of the first `q=` pair among `pairs`.
pub open spec fn q_value(pairs: Seq<Seq<char>>) -> Option<Seq<char>>
    decreases pairs.len(),
{
    if pairs.len() == 0 {
        None
    } else {
        let p = pairs[0];
        let i = index_of_first(p, '=');
        if i < p.len() && p.take(i) == seq!['q'] {
            Some(p.skip(i + 1))
        } else {
            q_value(pairs.skip(1))
        }
    }
}

/// A query value as searched for: `+` read as a space, then percent-decoded;
/// the raw value when that is not valid UTF-8.
pub open spec fn decoded_term(value: Seq<char>) -> Seq<char> {
    match percent_decode_utf8(replace_char(value, '+', ' ')) {
        Some(d) => d,
        None => value,
    }
}

/// A `+` in a query value reads as a space, but only a literal one: a value
/// without `+` is kept as its percent-decoding, so `%2B` gives a `+` in the
/// term.
pub proof fn lemma_plus_free_value_is_percent_decoded(v: Seq<char>)
    requires
        !v.contains('+'),
        percent_decode_utf8(v) is Some,
    ensures
        decoded_term(v) == percent_decode_utf8(v)->0,
{
    assert(replace_char(v, '+', ' ') =~= v) by {
        assert forall|i: int| 0 <= i < v.len() implies replace_char(v, '+', ' ')[i] == v[i] by {
            if v[i] == '+' {
                assert(v.contains('+'));
            }
        }
    }
}

/// The term searched for by a request: the decoded `q` value of a query to
/// `/search` on a host containing `google.`.
pub open spec fn search_term(domain: Seq<char>, path: Seq<char>, query: Option<Seq<char>>) -> Option<
    Seq<char>,
> {
    if occurs_in(domain, seq!['g', 'o', 'o', 'g', 'l', 'e', '.']) && path == seq![
        '/',
        's',
        'e',
        'a',
        'r',
        'c',
        'h',
    ] {
        match query {
            Some(q) => match q_value(split_on(q, '&')) {
                Some(v) => Some(decoded_term(v)),
                None => None,
            },
            None => None,
        }
    } else {
        None
    }
}

/// The number of search terms kept.
pub open spec fn history_limit() -> int {
    100
}

/// The history with `term` put first, cut to the newest hundred when longer.
pub open spec fn push_search(history: Seq<Seq<char>>, term: Seq<char>) -> Seq<Seq<char>> {
    let h = seq![term] + history;
    if h.len() > history_limit() {
        h.take(history_limit())
    } else {
        h
    }
}

/// A new search term comes first and the history never grows beyond a
/// hundred terms; the older terms keep their order.
pub proof fn lemma_push_search(history: Seq<Seq<char>>, term: Seq<char>)
    ensures
        push_search(history, term).len() <= history_limit(),
        push_search(history, term)[0] == term,
        forall|i: int|
            0 <= i < push_search(history, term).len() - 1 ==> #[trigger] push_search(
                history,
                term,
            )[i + 1] == history[i],
{
}

/// Keeps the terms searched for on Google.
pub struct GoogleSearchHandler;

impl GoogleSearchHandler {
    /// The search history after a request, given the one before.
    pub open spec fn history_after(
        domain: Seq<char>,
        path: Seq<char>,
        query: Option<Seq<char>>,
        history: Seq<Seq<char>>,
    ) -> Seq<Seq<char>> {
        match search_term(domain, path, query) {
            Some(t) => push_search(history, t),
            None => history,
        }
    }
}

impl RequestHandler for GoogleSearchHandler {
    open spec fn handled(
        &self,
        domain: Seq<char>,
        path: Seq<char>,
        query: Option<Seq<char>>,
        history: Seq<Seq<char>>,
    ) -> Seq<Seq<char>> {
        GoogleSearchHandler::history_after(domain, path, query, history)
    }

    /// Puts the search term of a Google search first in the history.
    fn handle(&self, domain: &str, path: &str, query: Option<&str>, ctx: &mut HandlerContext) {
        proof {
            reveal_strlit("google.");
            reveal_strlit("/search");
            reveal_strlit("q");
        }
        assert("google."@ =~= seq!['g', 'o', 'o', 'g', 'l', 'e', '.']);
        assert("/search"@ =~= seq!['/', 's', 'e', 'a', 'r', 'c', 'h']);
        if !(contains_str(domain, "google.") && same_text(path, "/search")) {
            return;
        }
        let q = match query {
            Some(q) => q,
            None => {
                return;
            },
        };
        let pairs = split_char(q, '&');
        let ghost pv = views(pairs@);
        let n = pairs.len();
        let mut i: usize = 0;
        assert(pv.skip(0) =~= pv);
        while i < n
            invariant
                n == pairs@.len(),
                pv == views(pairs@),
                pv == split_on(q@, '&'),
                i <= n,
                q_value(pv) == q_value(pv.skip(i as int)),
                ctx.search_history@ == old(ctx).search_history@,
                opt_str_view(query) == Some(q@),
                occurs_in(domain@, seq!['g', 'o', 'o', 'g', 'l', 'e', '.']),
                path@ == seq!['/', 's', 'e', 'a', 'r', 'c', 'h'],
            decreases n - i,
        {
            let pair = pairs[i].as_str();
            proof {
                reveal_strlit("q");
                reveal_strlit(" ");
            }
            assert(pv.skip(i as int)[0] == pair@);
            assert(pv.skip(i as int).skip(1) =~= pv.skip(i + 1));
            let len = pair.unicode_len();
            let eq = find_char(pair, '=');
            if eq < len {
                let key = substring(pair, 0, eq);
                assert(key@ == pair@.take(eq as int));
                if same_text(key.as_str(), "q") {
                    assert("q"@ =~= seq!['q']);
                    let value = substring(pair, eq + 1, len);
                    assert(value@ =~= pair@.skip(eq + 1));
                    let replaced = replace_char_in(value.as_str(), '+', " ");
                    assert(" "@[0] == ' ');
                    let decoded = match percent_decode(replaced.as_str()) {
                        Some(d) => d,
                        None => value,
                    };
                    assert(q_value(pv.skip(i as int)) == Some(value@));
                    assert(decoded@ == decoded_term(value@));
                    let ghost before = views(ctx.search_history@);
                    ctx.search_history.insert(0, decoded);
                    assert(views(ctx.search_history@) =~= seq![decoded@] + before);
                    if ctx.search_history.len() > 100 {
                        ctx.search_history.truncate(100);
                        assert(views(ctx.search_history@) =~= (seq![decoded@] + before).take(100));
                    }
                    return;
                } else {
                    assert("q"@ =~= seq!['q']);
                }
            }
            i = i + 1;
        }
        assert(pv.skip(n as int) =~= Seq::<Seq<char>>::empty());
    }
}

/// The history after `n` Google search handlers, one after another, have
/// seen a request.
pub open spec fn run_search_handlers(
    n: nat,
    domain: Seq<char>,
    path: Seq<char>,
    query: Option<Seq<char>>,
    history: Seq<Seq<char>>,
) -> Seq<Seq<char>>
    decreases n,
{
    if n == 0 {
        history
    } else {
        GoogleSearchHandler::history_after(
            domain,
            path,
            query,
            run_search_handlers((n - 1) as nat, domain, path, query, history),
        )
    }
}

/// The handlers that see every request passing the proxy.
pub struct DomainHandlers {
    handlers: Vec<GoogleSearchHandler>,
}

impl DomainHandlers {
    /// How many handlers there are.
    pub closed spec fn count(&self) -> nat {
        self.handlers@.len()
    }

    /// The handlers of the proxy: the Google search handler.
    pub fn new() -> (d: DomainHandlers)
        ensures
            d.count() == 1,
    {
        let mut handlers: Vec<GoogleSearchHandler> = Vec::new();
        handlers.push(GoogleSearchHandler);
        DomainHandlers { handlers }
    }

    /// Shows a request for `domain`, `path` and `query` to every handler.
    pub fn execute(&self, domain: &str, path: &str, query: Option<&str>, ctx: &mut HandlerContext)
        ensures
            views(final(ctx).search_history@) == run_search_handlers(
                self.count(),
                domain@,
                path@,
                opt_str_view(query),
                views(old(ctx).search_history@),
            ),
    {
        let mut i: usize = 0;
        while i < self.handlers.len()
            invariant
                i <= self.handlers@.len(),
                views(ctx.search_history@) == run_search_handlers(
                    i as nat,
                    domain@,
                    path@,
                    opt_str_view(query),
                    views(old(ctx).search_history@),
                ),
            decreases self.handlers@.len() - i,
        {
            self.handlers[i].handle(domain, path, query, ctx);
            i = i + 1;
        }
    }
}

} // verus!
