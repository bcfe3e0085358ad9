//! Filtering rules, domain tags and the decision for one request.
use vstd::prelude::*;
use vstd::multiset::Multiset;
use crate::text::{
    before_first, clone_opt, ends_with, has_prefix, has_suffix, opt_str_view, opt_view, text_before,
};
use crate::url::{extract_sld, sld_of};

verus! {

/// What a rule does with a request that it matches.
#[derive(Debug, Clone, Copy, PartialEq, Eq, Structural)]
pub enum Action {
    Allow,
    Block,
}

/// `s` spells `allow` in any mix of ASCII upper and lower case.
pub open spec fn is_allow_word(s: Seq<char>) -> bool {
    &&& s.len() == 5
    &&& (s[0] == 'a' || s[0] == 'A')
    &&& (s[1] == 'l' || s[1] == 'L')
    &&& (s[2] == 'l' || s[2] == 'L')
    &&& (s[3] == 'o' || s[3] == 'O')
    &&& (s[4] == 'w' || s[4] == 'W')
}

/// The action that a stored action name stands for.
pub open spec fn action_of(s: Seq<char>) -> Action {
    if is_allow_word(s) {
        Action::Allow
    } else {
        Action::Block
    }
}

/// The stored name of an action.
pub open spec fn action_name(a: Action) -> Seq<char> {
    match a {
        Action::Allow => seq!['A', 'l', 'l', 'o', 'w'],
        Action::Block => seq!['B', 'l', 'o', 'c', 'k'],
    }
}

impl Action {
    /// `Allow` for `allow` in any ASCII case, `Block` for anything else.
    pub fn from_str(s: &str) -> (a: Action)
        ensures
            a == action_of(s@),
    {
        let n = s.unicode_len();
        if n != 5 {
            return Action::Block;
        }
        let c0 = s.get_char(0);
        let c1 = s.get_char(1);
        let c2 = s.get_char(2);
        let c3 = s.get_char(3);
        let c4 = s.get_char(4);
        if (c0 == 'a' || c0 == 'A') && (c1 == 'l' || c1 == 'L') && (c2 == 'l' || c2 == 'L') && (
        c3 == 'o' || c3 == 'O') && (c4 == 'w' || c4 == 'W') {
            Action::Allow
        } else {
            Action::Block
        }
    }

    /// The stored name of the action: `Allow` or `Block`.
    pub fn as_str(&self) -> (s: &'static str)
        ensures
            s@ == action_name(*self),
    {
        match self {
            Action::Allow => {
                let s = "Allow";
                proof {
                    reveal_strlit("Allow");
                }
                assert(s@ =~= action_name(*self));
                s
            },
            Action::Block => {
                let s = "Block";
                proof {
                    reveal_strlit("Block");
                }
                assert(s@ =~= action_name(*self));
                s
            },
        }
    }
}

/// Reading back the stored name of an action gives the action.
pub proof fn lemma_action_name_round_trip(a: Action)
    ensures
        action_of(action_name(a)) == a,
{
}

/// The editable part of a rule. A field left `None` matches every request.
pub struct RuleData {
    pub priority: i32,
    pub action: Action,
    pub name: Option<String>,
    /// Matches hosts that end with this text.
    pub domain: Option<String>,
    /// Matches hosts whose second-level domain carries this tag.
    pub tag: Option<String>,
    /// A regular expression that the request path must match.
    pub path_pattern: Option<String>,
    /// Matches clients whose address, up to the first `:`, is this text.
    pub client_ip: Option<String>,
}

impl Clone for RuleData {
    fn clone(&self) -> (r: Self)
        ensures
            r == *self,
    {
        RuleData {
            priority: self.priority,
            action: self.action,
            name: clone_opt(&self.name),
            domain: clone_opt(&self.domain),
            tag: clone_opt(&self.tag),
            path_pattern: clone_opt(&self.path_pattern),
            client_ip: clone_opt(&self.client_ip),
        }
    }
}

/// Whether `pattern` compiles as a `regex::Regex`.
pub uninterp spec fn regex_compiles(pattern: Seq<char>) -> bool;

/// Whether the regular expression `pattern` matches somewhere in `text`.
pub uninterp spec fn regex_is_match(pattern: Seq<char>, text: Seq<char>) -> bool;

/// Calls `regex::Regex::new` and reports whether it succeeded. The contract
/// claims only that the answer is the value named by `regex_compiles`.
#[verifier::external_body]
fn compiles_as_regex(pattern: &str) -> (b: bool)
    ensures
        b == regex_compiles(pattern@),
{
    regex::Regex::new(pattern).is_ok()
}

/// Compiles `pattern` with `regex::Regex::new` and calls `Regex::is_match`
/// on `text`. The contract claims only that the answer is the value named by
/// `regex_is_match`, for a pattern that compiles.
#[verifier::external_body]
fn regex_matches(pattern: &str, text: &str) -> (b: bool)
    requires
        regex_compiles(pattern@),
    ensures
        b == regex_is_match(pattern@, text@),
{
    match regex::Regex::new(pattern) {
        Ok(re) => re.is_match(text),
        Err(_) => false,
    }
}

/// The path pattern that a rule applies: the one it was given, when that
/// compiles as a regular expression.
pub open spec fn effective_pattern(data: RuleData) -> Option<Seq<char>> {
    match data.path_pattern {
        Some(p) => if regex_compiles(p@) {
            Some(p@)
        } else {
            None
        },
        None => None,
    }
}

/// A stored rule.
pub struct Rule {
    pub id: i64,
    pub data: RuleData,
    /// The path pattern in effect: `data.path_pattern` when it compiles as a
    /// regular expression, else `None` (the rule then ignores the path).
    pub compiled_regex: Option<String>,
}

impl Rule {
    /// The rule's path pattern is the one in effect for its data.
    pub open spec fn wf(&self) -> bool {
        opt_view(self.compiled_regex) == effective_pattern(self.data)
    }

    /// A rule with the given id and data; its path pattern is kept when it
    /// compiles as a regular expression.
    pub fn new(id: i64, data: RuleData) -> (r: Rule)
        ensures
            r.wf(),
            r.id == id,
            r.data == data,
    {
        let compiled_regex = match &data.path_pattern {
            Some(p) => if compiles_as_regex(p.as_str()) {
                Some(p.clone())
            } else {
                None
            },
            None => None,
        };
        Rule { id, data, compiled_regex }
    }

    /// A rule built from the columns of a stored row, the action given by
    /// its stored name.
    pub fn from_row(
        id: i64,
        priority: i32,
        action: &str,
        name: Option<String>,
        domain: Option<String>,
        tag: Option<String>,
        path_pattern: Option<String>,
        client_ip: Option<String>,
    ) -> (r: Rule)
        ensures
            r.wf(),
            r.id == id,
            r.data == (RuleData {
                priority,
                action: action_of(action@),
                name,
                domain,
                tag,
                path_pattern,
                client_ip,
            }),
    {
        let data = RuleData {
            priority,
            action: Action::from_str(action),
            name,
            domain,
            tag,
            path_pattern,
            client_ip,
        };
        Rule::new(id, data)
    }
}

impl Clone for Rule {
    fn clone(&self) -> (r: Self)
        ensures
            r == *self,
    {
        Rule { id: self.id, data: self.data.clone(), compiled_regex: clone_opt(&self.compiled_regex) }
    }
}

/// A second-level domain and the tag it carries.
#[derive(Clone, Debug)]
pub struct DomainTag {
    pub id: i64,
    pub sld: String,
    pub tag: String,
}

/// Rule `r` applies to a request for `domain` and `path` from `client_ip`,
/// whose domain carries `tag`.
pub open spec fn rule_matches(
    r: Rule,
    domain: Seq<char>,
    path: Seq<char>,
    client_ip: Option<Seq<char>>,
    tag: Option<Seq<char>>,
) -> bool {
    &&& (r.data.client_ip matches Some(target) ==> (client_ip matches Some(ip) && target@
        == before_first(ip, ':')))
    &&& (r.data.tag matches Some(target) ==> tag == Some(target@))
    &&& (r.data.domain matches Some(target) ==> has_suffix(domain, target@))
    &&& (r.compiled_regex matches Some(p) ==> regex_is_match(p@, path))
}

/// A rule for a client address applies only to requests from that address:
/// the client's address is the rule's address, alone or followed by `:` and
/// a port, and the rule's address holds no `:`.
pub proof fn lemma_client_rule_needs_same_address(
    r: Rule,
    domain: Seq<char>,
    path: Seq<char>,
    client_ip: Option<Seq<char>>,
    tag: Option<Seq<char>>,
)
    requires
        r.data.client_ip is Some,
        rule_matches(r, domain, path, client_ip, tag),
    ensures
        client_ip is Some,
        !r.data.client_ip->0@.contains(':'),
        client_ip->0 == r.data.client_ip->0@ || has_prefix(
            client_ip->0,
            r.data.client_ip->0@.push(':'),
        ),
{
    crate::text::lemma_before_first(client_ip->0, ':');
}

/// Evaluation passes over a rule for another client address: with such a
/// rule first, the decision is that of the rules after it.
pub proof fn lemma_other_client_skipped(
    rules: Seq<Rule>,
    domain: Seq<char>,
    path: Seq<char>,
    ip: Seq<char>,
    tag: Option<Seq<char>>,
)
    requires
        rules.len() > 0,
        rules[0].data.client_ip matches Some(t) && ip != t@ && !has_prefix(ip, t@.push(':')),
    ensures
        first_match(rules, domain, path, Some(ip), tag) == first_match(
            rules.skip(1),
            domain,
            path,
            Some(ip),
            tag,
        ),
{
    if rule_matches(rules[0], domain, path, Some(ip), tag) {
        lemma_client_rule_needs_same_address(rules[0], domain, path, Some(ip), tag);
    }
}

/// A domain condition that covers a host covers every host under it: a rule
/// for `youtube.com` that matches `youtube.com` also matches
/// `www.youtube.com`.
pub proof fn lemma_domain_covers_subdomains(target: Seq<char>, host: Seq<char>, prefix: Seq<char>)
    requires
        has_suffix(host, target),
    ensures
        has_suffix(prefix + host, target),
{
    let full = prefix + host;
    assert(full.subrange(full.len() - target.len(), full.len() as int) =~= host.subrange(
        host.len() - target.len(),
        host.len() as int,
    ));
}

/// The action of the first rule of `rules` that applies, or `Allow` when
/// none does.
pub open spec fn first_match(
    rules: Seq<Rule>,
    domain: Seq<char>,
    path: Seq<char>,
    client_ip: Option<Seq<char>>,
    tag: Option<Seq<char>>,
) -> Action
    decreases rules.len(),
{
    if rules.len() == 0 {
        Action::Allow
    } else if rule_matches(rules[0], domain, path, client_ip, tag) {
        rules[0].data.action
    } else {
        first_match(rules.skip(1), domain, path, client_ip, tag)
    }
}

/// The tag of `sld` in a list of (second-level domain, tag) pairs: the
/// last pair for `sld` wins.
pub open spec fn lookup_tag(pairs: Seq<(String, String)>, sld: Seq<char>) -> Option<Seq<char>>
    decreases pairs.len(),
{
    if pairs.len() == 0 {
        None
    } else if pairs.last().0@ == sld {
        Some(pairs.last().1@)
    } else {
        lookup_tag(pairs.drop_last(), sld)
    }
}

/// `r` goes into the sorted `s` after every rule whose priority is not
/// greater than its own.
pub open spec fn insert_by_priority(s: Seq<Rule>, r: Rule) -> Seq<Rule>
    decreases s.len(),
{
    if s.len() == 0 {
        seq![r]
    } else if s[0].data.priority <= r.data.priority {
        seq![s[0]] + insert_by_priority(s.skip(1), r)
    } else {
        seq![r] + s
    }
}

/// `s` sorted by ascending priority; rules of equal priority keep their order.
pub open spec fn sort_by_priority(s: Seq<Rule>) -> Seq<Rule>
    decreases s.len(),
{
    if s.len() == 0 {
        Seq::empty()
    } else {
        insert_by_priority(sort_by_priority(s.drop_last()), s.last())
    }
}

/// The priorities of `s` never decrease.
pub open spec fn priority_sorted(s: Seq<Rule>) -> bool {
    forall|i: int, j: int| 0 <= i <= j < s.len() ==> s[i].data.priority <= s[j].data.priority
}

/// Every rule of `s` is well formed.
pub open spec fn all_wf(s: Seq<Rule>) -> bool {
    forall|i: int| 0 <= i < s.len() ==> #[trigger] s[i].wf()
}

/// Where `insert_by_priority` puts `r`: after the leading rules whose
/// priority is not greater than its own.
pub open spec fn insert_pos(s: Seq<Rule>, r: Rule) -> int
    decreases s.len(),
{
    if s.len() == 0 {
        0
    } else if s[0].data.priority <= r.data.priority {
        1 + insert_pos(s.skip(1), r)
    } else {
        0
    }
}

proof fn lemma_insert_pos(s: Seq<Rule>, r: Rule)
    ensures
        0 <= insert_pos(s, r) <= s.len(),
        forall|k: int| 0 <= k < insert_pos(s, r) ==> s[k].data.priority <= r.data.priority,
        insert_pos(s, r) < s.len() ==> s[insert_pos(s, r)].data.priority > r.data.priority,
        insert_by_priority(s, r) == s.insert(insert_pos(s, r), r),
    decreases s.len(),
{
    if s.len() == 0 {
        assert(s.insert(0, r) =~= seq![r]);
    } else if s[0].data.priority <= r.data.priority {
        lemma_insert_pos(s.skip(1), r);
        let j = insert_pos(s, r);
        assert(s.insert(j, r) =~= seq![s[0]] + s.skip(1).insert(j - 1, r));
        assert forall|k: int| 0 <= k < j implies s[k].data.priority <= r.data.priority by {
            if k > 0 {
                assert(s[k] == s.skip(1)[k - 1]);
            }
        }
        if j < s.len() {
            assert(s[j] == s.skip(1)[j - 1]);
        }
    } else {
        assert(s.insert(0, r) =~= seq![r] + s);
    }
}

proof fn lemma_insert_at(s: Seq<Rule>, r: Rule, j: int)
    requires
        0 <= j <= s.len(),
        forall|k: int| 0 <= k < j ==> s[k].data.priority <= r.data.priority,
        j == s.len() || s[j].data.priority > r.data.priority,
    ensures
        insert_by_priority(s, r) == s.insert(j, r),
{
    lemma_insert_pos(s, r);
    let p = insert_pos(s, r);
    if p < j {
        assert(s[p].data.priority <= r.data.priority);
    } else if j < p {
        assert(s[j].data.priority <= r.data.priority);
    }
}

proof fn lemma_insert_sorted(s: Seq<Rule>, r: Rule)
    requires
        priority_sorted(s),
    ensures
        priority_sorted(insert_by_priority(s, r)),
        insert_by_priority(s, r).to_multiset() == s.to_multiset().insert(r),
        insert_by_priority(s, r).len() == s.len() + 1,
{
    lemma_insert_pos(s, r);
    let j = insert_pos(s, r);
    let t = s.insert(j, r);
    vstd::seq_lib::to_multiset_insert(s, j, r);
    assert forall|a: int, b: int| 0 <= a <= b < t.len() implies t[a].data.priority
        <= t[b].data.priority by {
        if a < j && b < j {
        } else if a < j && b == j {
        } else if a < j && b > j {
            assert(t[b] == s[b - 1]);
        } else if a == j && b > j {
            assert(t[b] == s[b - 1]);
            assert(s[j].data.priority <= s[b - 1].data.priority);
        } else if a > j {
            assert(t[a] == s[a - 1]);
            assert(t[b] == s[b - 1]);
        }
    }
}

/// Sorting by priority yields rules in ascending priority that are exactly
/// the given ones.
pub proof fn lemma_sort_by_priority(s: Seq<Rule>)
    ensures
        priority_sorted(sort_by_priority(s)),
        sort_by_priority(s).to_multiset() == s.to_multiset(),
        sort_by_priority(s).len() == s.len(),
    decreases s.len(),
{
    broadcast use vstd::seq_lib::to_multiset_build;

    if s.len() == 0 {
        assert(s =~= Seq::<Rule>::empty());
        s.to_multiset_ensures();
        vstd::multiset::lemma_multiset_empty_len(s.to_multiset());
    } else {
        lemma_sort_by_priority(s.drop_last());
        lemma_insert_sorted(sort_by_priority(s.drop_last()), s.last());
        assert(s =~= s.drop_last().push(s.last()));
    }
}

/// The rules in force and the tags of second-level domains.
pub struct Policy {
    rules: Vec<Rule>,
    tags: Vec<(String, String)>,
}

impl Policy {
    #[verifier::type_invariant]
    spec fn inv(self) -> bool {
        &&& priority_sorted(self.rules@)
        &&& all_wf(self.rules@)
    }

    /// The rules in force, in the order they are tried.
    pub closed spec fn rules(&self) -> Seq<Rule> {
        self.rules@
    }

    /// The loaded (second-level domain, tag) pairs, in load order.
    pub closed spec fn tag_pairs(&self) -> Seq<(String, String)> {
        self.tags@
    }

    /// A policy with no rules and no tags.
    pub fn new() -> (p: Policy)
        ensures
            p.rules() == Seq::<Rule>::empty(),
            p.tag_pairs() == Seq::<(String, String)>::empty(),
    {
        Policy { rules: Vec::new(), tags: Vec::new() }
    }

    /// Replaces the rules in force by `rules`, sorted by ascending priority
    /// (rules of equal priority keep their order).
    pub fn reload_cache(&mut self, rules: Vec<Rule>)
        requires
            all_wf(rules@),
        ensures
            final(self).rules() == sort_by_priority(rules@),
            final(self).tag_pairs() == old(self).tag_pairs(),
    {
        proof {
            use_type_invariant(&*self);
        }
        let sorted = sort_rules(rules);
        self.rules = sorted;
    }

    /// Replaces the domain tags by `pairs` of (second-level domain, tag); a
    /// later pair for the same domain wins.
    pub fn reload_tag_cache(&mut self, pairs: Vec<(String, String)>)
        ensures
            final(self).tag_pairs() == pairs@,
            final(self).rules() == old(self).rules(),
    {
        proof {
            use_type_invariant(&*self);
        }
        self.tags = pairs;
    }

    /// The tag of the second-level domain `sld`, if it has one.
    pub fn get_tag(&self, sld: &str) -> (t: Option<String>)
        ensures
            opt_view(t) == lookup_tag(self.tag_pairs(), sld@),
    {
        let key = String::from_str(sld);
        let mut i = self.tags.len();
        assert(self.tags@.take(i as int) =~= self.tags@);
        while i > 0
            invariant
                i <= self.tags@.len(),
                key@ == sld@,
                lookup_tag(self.tags@, sld@) == lookup_tag(self.tags@.take(i as int), sld@),
            decreases i,
        {
            let ghost prefix = self.tags@.take(i as int);
            assert(prefix.drop_last() =~= self.tags@.take(i - 1));
            let entry = &self.tags[i - 1];
            assert(prefix.last() == *entry);
            if entry.0 == key {
                return Some(entry.1.clone());
            }
            i = i - 1;
        }
        None
    }

    /// The rules in force, in the order they are tried.
    pub fn get_all_rules(&self) -> (v: Vec<Rule>)
        ensures
            v@ == self.rules(),
    {
        let mut v: Vec<Rule> = Vec::new();
        let mut i: usize = 0;
        while i < self.rules.len()
            invariant
                i <= self.rules@.len(),
                v@ == self.rules@.take(i as int),
            decreases self.rules@.len() - i,
        {
            v.push(self.rules[i].clone());
            i = i + 1;
            assert(v@ =~= self.rules@.take(i as int));
        }
        assert(self.rules@.take(i as int) =~= self.rules@);
        v
    }

    /// The action for a request for `domain` and `path` from `client_ip`:
    /// that of the first rule, in priority order, whose conditions all hold,
    /// or `Allow` when no rule applies.
    pub fn evaluate(&self, domain: &str, path: &str, client_ip: Option<&str>) -> (a: Action)
        ensures
            a == first_match(
                self.rules(),
                domain@,
                path@,
                opt_str_view(client_ip),
                lookup_tag(self.tag_pairs(), sld_of(domain@)),
            ),
    {
        proof {
            use_type_invariant(self);
        }
        let sld = extract_sld(domain);
        let tag = self.get_tag(sld.as_str());
        let ip_only: Option<String> = match client_ip {
            Some(ip) => Some(text_before(ip, ':')),
            None => None,
        };
        let ghost ipv = opt_str_view(client_ip);
        let ghost tagv = opt_view(tag);
        let mut i: usize = 0;
        assert(self.rules@.skip(0) =~= self.rules@);
        while i < self.rules.len()
            invariant
                i <= self.rules@.len(),
                all_wf(self.rules@),
                ipv == opt_str_view(client_ip),
                tagv == opt_view(tag),
                tagv == lookup_tag(self.tags@, sld_of(domain@)),
                ip_only matches Some(s) ==> (ipv matches Some(full) && s@ == before_first(full, ':')),
                ip_only is None <==> ipv is None,
                first_match(self.rules@, domain@, path@, ipv, tagv) == first_match(
                    self.rules@.skip(i as int),
                    domain@,
                    path@,
                    ipv,
                    tagv,
                ),
            decreases self.rules@.len() - i,
        {
            let rule = &self.rules[i];
            assert(self.rules@.skip(i as int).skip(1) =~= self.rules@.skip(i + 1));
            assert(self.rules@.skip(i as int)[0] == *rule);
            assert(rule.wf());
            let applies = rule_applies(rule, domain, path, &ip_only, &tag);
            assert((rule.data.client_ip matches Some(target) ==> (ip_only matches Some(ip) && target@
                == ip@)) == (rule.data.client_ip matches Some(target) ==> (ipv matches Some(ip)
                && target@ == before_first(ip, ':'))));
            assert((rule.data.tag matches Some(target) ==> opt_view(tag) == Some(target@)) == (
            rule.data.tag matches Some(target) ==> tagv == Some(target@)));
            assert(applies == rule_matches(*rule, domain@, path@, ipv, tagv));
            if applies {
                return rule.data.action;
            }
            i = i + 1;
        }
        Action::Allow
    }
}

/// Whether `rule` applies to a request for `domain` and `path` from a client
/// whose address before the first `:` is `ip_only`, for a domain tagged `tag`.
fn rule_applies(
    rule: &Rule,
    domain: &str,
    path: &str,
    ip_only: &Option<String>,
    tag: &Option<String>,
) -> (b: bool)
    requires
        rule.wf(),
    ensures
        b == ((rule.data.client_ip matches Some(target) ==> (ip_only matches Some(ip) && target@
            == ip@)) && (rule.data.tag matches Some(target) ==> opt_view(*tag) == Some(target@)) && (
        rule.data.domain matches Some(target) ==> has_suffix(domain@, target@)) && (
        rule.compiled_regex matches Some(p) ==> regex_is_match(p@, path@))),
{
    if let Some(target_ip) = &rule.data.client_ip {
        match ip_only {
            Some(ip) => {
                if *ip != *target_ip {
                    return false;
                }
            },
            None => {
                return false;
            },
        }
    }
    if let Some(target_tag) = &rule.data.tag {
        match tag {
            Some(current) => {
                if *current != *target_tag {
                    return false;
                }
            },
            None => {
                return false;
            },
        }
    }
    if let Some(target_domain) = &rule.data.domain {
        if !ends_with(domain, target_domain.as_str()) {
            return false;
        }
    }
    if let Some(pattern) = &rule.compiled_regex {
        proof {
            assert(effective_pattern(rule.data) == Some(pattern@));
        }
        if !regex_matches(pattern.as_str(), path) {
            return false;
        }
    }
    true
}

/// `rules` sorted by ascending priority, rules of equal priority keeping
/// their order.
fn sort_rules(rules: Vec<Rule>) -> (sorted: Vec<Rule>)
    requires
        all_wf(rules@),
    ensures
        sorted@ == sort_by_priority(rules@),
        priority_sorted(sorted@),
        all_wf(sorted@),
{
    let ghost orig = rules@;
    let n = rules.len();
    let mut rest = rules;
    let mut sorted: Vec<Rule> = Vec::new();
    let mut k: usize = 0;
    assert(orig.take(0) =~= Seq::<Rule>::empty());
    while rest.len() > 0
        invariant
            k + rest@.len() == orig.len(),
            n == orig.len(),
            all_wf(orig),
            all_wf(sorted@),
            rest@ == orig.skip(k as int),
            sorted@ == sort_by_priority(orig.take(k as int)),
            priority_sorted(sorted@),
        decreases rest@.len(),
    {
        let r = rest.remove(0);
        assert(r == orig[k as int]);
        assert(r.wf());
        proof {
            lemma_sort_by_priority(orig.take(k as int));
        }
        let p = r.data.priority;
        let mut j: usize = 0;
        while j < sorted.len() && sorted[j].data.priority <= p
            invariant
                j <= sorted@.len(),
                forall|t: int| 0 <= t < j ==> sorted@[t].data.priority <= p,
            decreases sorted@.len() - j,
        {
            j = j + 1;
        }
        proof {
            lemma_insert_at(sorted@, r, j as int);
            lemma_insert_sorted(sorted@, r);
            assert(orig.take(k + 1).drop_last() =~= orig.take(k as int));
            assert(orig.take(k + 1).last() == r);
            assert(rest@ =~= orig.skip(k + 1));
        }
        let ghost before = sorted@;
        sorted.insert(j, r);
        assert forall|t: int| 0 <= t < sorted@.len() implies #[trigger] sorted@[t].wf() by {
            if t < j {
                assert(sorted@[t] == before[t]);
            } else if t > j {
                assert(sorted@[t] == before[t - 1]);
            }
        }
        k = k + 1;
    }
    assert(orig.take(k as int) =~= orig);
    sorted
}

} // verus!
