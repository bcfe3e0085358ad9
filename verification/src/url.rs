//! Host, second-level-domain and path extraction from request URLs.
use vstd::prelude::*;
use vstd::utf8::{char_is_scalar, encode_scalar, encode_utf8};
use crate::text::{
    chars_of, has_prefix, lemma_split_nonempty, opt_view, split_char, split_on, starts_with,
    substring, views,
};

verus! {

/// The host that `http::Uri` finds when it parses `url`; `None` when `url`
/// does not parse as a URI or the URI has no host.
pub uninterp spec fn uri_host(url: Seq<char>) -> Option<Seq<char>>;

/// The path and query that `http::Uri` finds when it parses `url`; `None`
/// when `url` does not parse as a URI or the URI has no path and query.
pub uninterp spec fn uri_path_and_query(url: Seq<char>) -> Option<Seq<char>>;

/// Parses `url` with `<http::Uri as FromStr>::from_str` and takes
/// `Uri::host` of the result. The contract claims only that the result is
/// the value named by `uri_host` for this `url`: the same text always gives
/// the same answer.
#[verifier::external_body]
fn parse_uri_host(url: &str) -> (r: Option<String>)
    ensures
        opt_view(r) == uri_host(url@),
{
    match url.parse::<http::Uri>() {
        Ok(uri) => uri.host().map(|h| h.to_string()),
        Err(_) => None,
    }
}

/// Parses `url` with `<http::Uri as FromStr>::from_str` and takes
/// `Uri::path_and_query` of the result, as text. The contract claims only
/// that the result is the value named by `uri_path_and_query` for this `url`.
#[verifier::external_body]
fn parse_uri_path_and_query(url: &str) -> (r: Option<String>)
    ensures
        opt_view(r) == uri_path_and_query(url@),
{
    match url.parse::<http::Uri>() {
        Ok(uri) => uri.path_and_query().map(|pq| pq.as_str().to_string()),
        Err(_) => None,
    }
}

/// The number of UTF-8 bytes that encode `s`.
pub open spec fn byte_len(s: Seq<char>) -> nat {
    encode_utf8(s).len()
}

/// The second-level domain of a host name: the label before the top-level
/// domain, or the label before a two-part suffix such as `co.jp` (a label of
/// at most three bytes followed by a two-byte top-level label).
pub open spec fn sld_of(domain: Seq<char>) -> Seq<char> {
    let parts = split_on(domain, '.');
    let n = parts.len();
    if n >= 3 {
        if byte_len(parts[n - 2]) <= 3 && byte_len(parts[n - 1]) == 2 {
            parts[n - 3]
        } else {
            parts[n - 2]
        }
    } else if n == 2 {
        parts[0]
    } else {
        domain
    }
}

/// `s` with every leading copy of `p` removed (`str::trim_start_matches`).
pub open spec fn trim_prefix_all(s: Seq<char>, p: Seq<char>) -> Seq<char>
    decreases s.len(),
{
    if p.len() > 0 && has_prefix(s, p) {
        trim_prefix_all(s.skip(p.len() as int), p)
    } else {
        s
    }
}

/// The index of the first `/` or `:` in `s`, or its length.
pub open spec fn host_end(s: Seq<char>) -> int
    decreases s.len(),
{
    if s.len() == 0 {
        0
    } else if s[0] == '/' || s[0] == ':' {
        0
    } else {
        1 + host_end(s.skip(1))
    }
}

/// The domain read off `url` by hand: scheme and `www.` prefixes removed, and
/// everything from the first `/` or `:` on dropped.
pub open spec fn fallback_domain(url: Seq<char>) -> Seq<char> {
    let t = trim_prefix_all(
        trim_prefix_all(trim_prefix_all(url, "https://"@), "http://"@),
        "www."@,
    );
    t.take(host_end(t))
}

/// The domain of `url`, given what the URI parser found as its host.
pub open spec fn domain_of(url: Seq<char>, host: Option<Seq<char>>) -> Seq<char> {
    match host {
        Some(h) => h,
        None => fallback_domain(url),
    }
}

/// The path of a URL, given what the URI parser found as its path and query.
pub open spec fn path_of(path_and_query: Option<Seq<char>>) -> Seq<char> {
    match path_and_query {
        Some(p) => p,
        None => "/"@,
    }
}

/// Splitting `a`, `c` and `b` joined gives the pieces of `a` and then those
/// of `b`.
proof fn lemma_split_join(a: Seq<char>, b: Seq<char>, c: char)
    ensures
        split_on(a + seq![c] + b, c) == split_on(a, c) + split_on(b, c),
    decreases b.len(),
{
    let t = a + seq![c] + b;
    if b.len() == 0 {
        assert(t =~= a.push(c));
        assert(t.drop_last() =~= a);
        assert(split_on(b, c) =~= seq![Seq::<char>::empty()]);
        assert(split_on(t, c) =~= split_on(a, c) + split_on(b, c));
    } else {
        lemma_split_join(a, b.drop_last(), c);
        assert(t.drop_last() =~= a + seq![c] + b.drop_last());
        assert(t.last() == b.last());
        lemma_split_nonempty(b.drop_last(), c);
        let pa = split_on(a, c);
        let pb = split_on(b.drop_last(), c);
        if b.last() == c {
            assert(split_on(t, c) =~= pa + pb.push(Seq::<char>::empty()));
        } else {
            assert((pa + pb).last() == pb.last());
            assert(split_on(t, c) =~= pa + pb.update(pb.len() - 1, pb.last().push(b.last())));
        }
    }
}

/// A text without `c` splits into itself alone.
proof fn lemma_split_none(b: Seq<char>, c: char)
    requires
        !b.contains(c),
    ensures
        split_on(b, c) == seq![b],
    decreases b.len(),
{
    if b.len() > 0 {
        assert(!b.drop_last().contains(c)) by {
            if b.drop_last().contains(c) {
                let j = choose|j: int| 0 <= j < b.drop_last().len() && b.drop_last()[j] == c;
                assert(b[j] == c);
            }
        }
        lemma_split_none(b.drop_last(), c);
        assert(b.last() != c) by {
            assert(b[b.len() - 1] == b.last());
        }
        assert(b.drop_last().push(b.last()) =~= b);
    } else {
        assert(b =~= Seq::<char>::empty());
    }
}

/// The second-level domain of a host `prefix.label.tld` is `label`, the
/// label before the top-level domain, unless `label.tld` is a two-part suffix
/// such as `co.jp` (`label` of at most three bytes, `tld` of two).
pub proof fn lemma_sld_before_tld(prefix: Seq<char>, label: Seq<char>, tld: Seq<char>)
    requires
        !label.contains('.'),
        !tld.contains('.'),
        !(byte_len(label) <= 3 && byte_len(tld) == 2),
    ensures
        sld_of(prefix + seq!['.'] + label + seq!['.'] + tld) == label,
{
    let a = prefix + seq!['.'] + label;
    lemma_split_join(a, tld, '.');
    lemma_split_join(prefix, label, '.');
    lemma_split_none(label, '.');
    lemma_split_none(tld, '.');
    lemma_split_nonempty(prefix, '.');
    let parts = split_on(prefix + seq!['.'] + label + seq!['.'] + tld, '.');
    let pp = split_on(prefix, '.');
    assert(parts =~= pp + seq![label] + seq![tld]);
    assert(parts[parts.len() - 2] == label);
    assert(parts[parts.len() - 1] == tld);
}

/// The second-level domain of a host `prefix.name.sfx.tld` whose last two
/// labels form a two-part suffix such as `co.jp` (`sfx` of at most three
/// bytes, `tld` of two) is `name`, the label before that suffix.
pub proof fn lemma_sld_before_two_part_suffix(
    prefix: Seq<char>,
    name: Seq<char>,
    sfx: Seq<char>,
    tld: Seq<char>,
)
    requires
        !name.contains('.'),
        !sfx.contains('.'),
        !tld.contains('.'),
        byte_len(sfx) <= 3,
        byte_len(tld) == 2,
    ensures
        sld_of(prefix + seq!['.'] + name + seq!['.'] + sfx + seq!['.'] + tld) == name,
{
    let a = prefix + seq!['.'] + name + seq!['.'] + sfx;
    lemma_split_join(a, tld, '.');
    lemma_split_join(prefix + seq!['.'] + name, sfx, '.');
    lemma_split_join(prefix, name, '.');
    lemma_split_none(name, '.');
    lemma_split_none(sfx, '.');
    lemma_split_none(tld, '.');
    lemma_split_nonempty(prefix, '.');
    let parts = split_on(prefix + seq!['.'] + name + seq!['.'] + sfx + seq!['.'] + tld, '.');
    let pp = split_on(prefix, '.');
    assert(parts =~= pp + seq![name] + seq![sfx] + seq![tld]);
    assert(parts[parts.len() - 3] == name);
    assert(parts[parts.len() - 2] == sfx);
    assert(parts[parts.len() - 1] == tld);
}

/// The second-level domain of a two-label host `name.tld` is `name`.
pub proof fn lemma_sld_of_two_labels(name: Seq<char>, tld: Seq<char>)
    requires
        !name.contains('.'),
        !tld.contains('.'),
    ensures
        sld_of(name + seq!['.'] + tld) == name,
{
    lemma_split_join(name, tld, '.');
    lemma_split_none(name, '.');
    lemma_split_none(tld, '.');
    assert(split_on(name + seq!['.'] + tld, '.') =~= seq![name, tld]);
}

/// The number of UTF-8 bytes of `s`, or `cap + 1` when that is larger.
fn utf8_len_upto(s: &str, cap: usize) -> (r: usize)
    requires
        cap < 1000,
    ensures
        r == (if byte_len(s@) <= cap { byte_len(s@) } else { cap as nat + 1 }),
{
    let cs = chars_of(s);
    let n = cs.len();
    let mut acc: usize = 0;
    let mut i: usize = 0;
    assert(s@.skip(0) =~= s@);
    while i < n && acc <= cap
        invariant
            n == cs@.len(),
            cs@ == s@,
            i <= n,
            cap < 1000,
            acc <= cap + 4,
            byte_len(s@) == acc + byte_len(s@.skip(i as int)),
        decreases n - i,
    {
        let c = cs[i];
        let v = c as u32;
        proof {
            char_is_scalar(c);
            assert(s@.skip(i as int).drop_first() =~= s@.skip(i + 1));
            assert(s@.skip(i as int)[0] == c);
        }
        let w: usize = if v <= 0x7F {
            1
        } else if v <= 0x7FF {
            2
        } else if v <= 0xFFFF {
            3
        } else {
            4
        };
        assert(encode_scalar(c as u32).len() == w);
        acc = acc + w;
        i = i + 1;
    }
    if acc <= cap {
        assert(s@.skip(n as int) =~= Seq::<char>::empty());
        acc
    } else {
        cap + 1
    }
}

/// The second-level domain of a full host name, e.g. `googlevideo` for
/// `rr3---sn.googlevideo.com` and `google` for `www.google.co.jp`.
pub fn extract_sld(domain: &str) -> (r: String)
    ensures
        r@ == sld_of(domain@),
{
    let parts = split_char(domain, '.');
    let n = parts.len();
    proof {
        lemma_split_nonempty(domain@, '.');
        assert(views(parts@).len() == parts@.len());
    }
    if n >= 3 {
        let tld = parts[n - 1].as_str();
        let candidate = parts[n - 2].as_str();
        assert(views(parts@)[n - 1] == parts@[n - 1]@);
        assert(views(parts@)[n - 2] == parts@[n - 2]@);
        assert(views(parts@)[n - 3] == parts@[n - 3]@);
        if utf8_len_upto(candidate, 3) <= 3 && utf8_len_upto(tld, 3) == 2 {
            return parts[n - 3].clone();
        }
        return parts[n - 2].clone();
    } else if n == 2 {
        assert(views(parts@)[0] == parts@[0]@);
        return parts[0].clone();
    }
    String::from_str(domain)
}

/// `s` with every leading copy of `p` removed.
fn trim_start_all(s: &str, p: &str) -> (r: String)
    requires
        p@.len() > 0,
    ensures
        r@ == trim_prefix_all(s@, p@),
{
    let mut cur = String::from_str(s);
    let plen = p.unicode_len();
    while starts_with(cur.as_str(), p)
        invariant
            p@.len() > 0,
            plen == p@.len(),
            trim_prefix_all(cur@, p@) == trim_prefix_all(s@, p@),
        decreases cur@.len(),
    {
        let len = cur.unicode_len();
        let next = substring(cur.as_str(), plen, len);
        assert(next@ == cur@.skip(plen as int));
        cur = next;
    }
    cur
}

/// The index of the first `/` or `:` in `s`, or its length.
fn find_host_end(s: &str) -> (i: usize)
    ensures
        i == host_end(s@),
        i <= s@.len(),
{
    let cs = chars_of(s);
    let n = cs.len();
    let mut i: usize = 0;
    while i < n && cs[i] != '/' && cs[i] != ':'
        invariant
            n == cs@.len(),
            cs@ == s@,
            i <= n,
            forall|j: int| 0 <= j < i ==> s@[j] != '/' && s@[j] != ':',
        decreases n - i,
    {
        i = i + 1;
    }
    proof {
        lemma_host_end(s@, i as int);
    }
    i
}

proof fn lemma_host_end(s: Seq<char>, i: int)
    requires
        0 <= i <= s.len(),
        forall|j: int| 0 <= j < i ==> s[j] != '/' && s[j] != ':',
        i == s.len() || s[i] == '/' || s[i] == ':',
    ensures
        host_end(s) == i,
    decreases s.len(),
{
    if s.len() > 0 && s[0] != '/' && s[0] != ':' {
        lemma_host_end(s.skip(1), i - 1);
    }
}

/// The domain of `url` when the URI parser found `host` as its host; without
/// a host, the domain is read off the text by hand.
pub fn domain_from_host(host: Option<String>, url: &str) -> (r: String)
    ensures
        r@ == domain_of(url@, opt_view(host)),
{
    match host {
        Some(h) => h,
        None => {
            proof {
                reveal_strlit("https://");
                reveal_strlit("http://");
                reveal_strlit("www.");
            }
            let t1 = trim_start_all(url, "https://");
            let t2 = trim_start_all(t1.as_str(), "http://");
            let t3 = trim_start_all(t2.as_str(), "www.");
            let end = find_host_end(t3.as_str());
            substring(t3.as_str(), 0, end)
        },
    }
}

/// The host of `url`: what `http::Uri` finds as its host, or else the text
/// after any scheme and `www.` prefix up to the first `/` or `:`.
pub fn extract_domain(url: &str) -> (r: String)
    ensures
        r@ == domain_of(url@, uri_host(url@)),
{
    let host = parse_uri_host(url);
    domain_from_host(host, url)
}

/// The path of a URL, given what the URI parser found as its path and query:
/// that text, or `/` when there is none.
pub fn path_from_parts(path_and_query: Option<String>) -> (r: String)
    ensures
        r@ == path_of(opt_view(path_and_query)),
{
    match path_and_query {
        Some(p) => p,
        None => String::from_str("/"),
    }
}

/// The path and query of `url`, or `/` when it does not parse or has none.
pub fn extract_path(url: &str) -> (r: String)
    ensures
        r@ == path_of(uri_path_and_query(url@)),
{
    let pq = parse_uri_path_and_query(url);
    path_from_parts(pq)
}

} // verus!
