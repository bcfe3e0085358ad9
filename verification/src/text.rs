//! Character-level string helpers shared by the policy, log and handler code.
//!
//! Every function here works on the `Seq<char>` view of a string and states its
//! result over the spec functions defined below.
use vstd::prelude::*;

verus! {

/// The views of a sequence of strings.
pub open spec fn views(v: Seq<String>) -> Seq<Seq<char>> {
    v.map_values(|x: String| x@)
}

/// The view of an optional string.
pub open spec fn opt_view(o: Option<String>) -> Option<Seq<char>> {
    match o {
        Some(s) => Some(s@),
        None => None,
    }
}

/// The view of an optional string slice.
pub open spec fn opt_str_view(o: Option<&str>) -> Option<Seq<char>> {
    match o {
        Some(s) => Some(s@),
        None => None,
    }
}

/// The pieces that `str::split(c)` yields, scanning left to right: a `c`
/// closes the current piece and opens an empty one.
pub open spec fn split_on(s: Seq<char>, c: char) -> Seq<Seq<char>>
    decreases s.len(),
{
    if s.len() == 0 {
        seq![Seq::<char>::empty()]
    } else {
        let prev = split_on(s.drop_last(), c);
        if s.last() == c {
            prev.push(Seq::<char>::empty())
        } else {
            prev.update(prev.len() - 1, prev.last().push(s.last()))
        }
    }
}

/// The index of the first `c` in `s`, or `s.len()` when there is none.
pub open spec fn index_of_first(s: Seq<char>, c: char) -> int
    decreases s.len(),
{
    if s.len() == 0 {
        0
    } else if s[0] == c {
        0
    } else {
        1 + index_of_first(s.skip(1), c)
    }
}

/// The text before the first `c` (all of `s` when it has none), which is
/// what `s.split(c).next()` yields.
pub open spec fn before_first(s: Seq<char>, c: char) -> Seq<char> {
    s.take(index_of_first(s, c))
}

/// `s` ends with `suffix`.
pub open spec fn has_suffix(s: Seq<char>, suffix: Seq<char>) -> bool {
    suffix.len() <= s.len() && s.subrange(s.len() - suffix.len(), s.len() as int) == suffix
}

/// `s` starts with `prefix`.
pub open spec fn has_prefix(s: Seq<char>, prefix: Seq<char>) -> bool {
    prefix.len() <= s.len() && s.take(prefix.len() as int) == prefix
}

/// `needle` occurs somewhere in `s`.
pub open spec fn occurs_in(s: Seq<char>, needle: Seq<char>) -> bool {
    exists|i: int|
        0 <= i && i + needle.len() <= s.len() && #[trigger] s.subrange(i, i + needle.len()) == needle
}

/// `s` with every `from` replaced by `to`.
pub open spec fn replace_char(s: Seq<char>, from: char, to: char) -> Seq<char> {
    s.map_values(|c: char| if c == from { to } else { c })
}

/// ASCII lower-casing of one character; other characters are unchanged.
pub open spec fn ascii_lower(c: char) -> char {
    if 'A' <= c && c <= 'Z' {
        ((c as u32) + 32) as char
    } else {
        c
    }
}

pub proof fn lemma_split_nonempty(s: Seq<char>, c: char)
    ensures
        split_on(s, c).len() >= 1,
    decreases s.len(),
{
    if s.len() > 0 {
        lemma_split_nonempty(s.drop_last(), c);
    }
}

/// `before_first(s, c)` is all of `s` when `s` has no `c`, and otherwise the
/// text before the first `c`, which `c` follows in `s`.
pub proof fn lemma_before_first(s: Seq<char>, c: char)
    ensures
        0 <= index_of_first(s, c) <= s.len(),
        !before_first(s, c).contains(c),
        before_first(s, c) == s || has_prefix(s, before_first(s, c).push(c)),
    decreases s.len(),
{
    if s.len() > 0 && s[0] != c {
        lemma_before_first(s.skip(1), c);
        let t = before_first(s.skip(1), c);
        let k = index_of_first(s.skip(1), c);
        assert(index_of_first(s, c) == 1 + k);
        assert forall|j: int| 0 <= j < 1 + k implies #[trigger] s.take(1 + k)[j] == (seq![s[0]]
            + t)[j] by {
            if j > 0 {
                assert(s.skip(1)[j - 1] == s[j]);
            }
        }
        assert(before_first(s, c) =~= seq![s[0]] + t);
        if t == s.skip(1) {
            assert(before_first(s, c) =~= s);
        } else {
            assert(s.take(t.len() as int + 2) =~= seq![s[0]] + s.skip(1).take(t.len() as int + 1));
            assert(s.take(t.len() as int + 2) =~= (seq![s[0]] + t).push(c));
        }
        assert forall|j: int| 0 <= j < before_first(s, c).len() implies before_first(s, c)[j]
            != c by {
            if j > 0 {
                assert(before_first(s, c)[j] == t[j - 1]);
            }
        }
    } else if s.len() > 0 {
        assert(before_first(s, c) =~= Seq::<char>::empty());
        assert(s.take(1) =~= seq![c]);
    } else {
        assert(before_first(s, c) =~= s);
    }
}

proof fn lemma_index_of_first(s: Seq<char>, c: char, i: int)
    requires
        0 <= i <= s.len(),
        forall|j: int| 0 <= j < i ==> s[j] != c,
        i == s.len() || s[i] == c,
    ensures
        index_of_first(s, c) == i,
    decreases s.len(),
{
    if s.len() > 0 && s[0] != c {
        lemma_index_of_first(s.skip(1), c, i - 1);
    }
}

/// The characters of `s`, in order.
pub fn chars_of(s: &str) -> (v: Vec<char>)
    ensures
        v@ == s@,
{
    let n = s.unicode_len();
    let mut v: Vec<char> = Vec::new();
    let mut i: usize = 0;
    while i < n
        invariant
            n == s@.len(),
            i <= n,
            v@ == s@.take(i as int),
        decreases n - i,
    {
        v.push(s.get_char(i));
        i = i + 1;
        assert(v@ =~= s@.take(i as int));
    }
    assert(v@ =~= s@);
    v
}

/// The part of `s` from character `from` up to character `to`.
pub fn substring(s: &str, from: usize, to: usize) -> (r: String)
    requires
        from <= to <= s@.len(),
    ensures
        r@ == s@.subrange(from as int, to as int),
{
    String::from_str(s.substring_char(from, to))
}

/// The pieces of `s.split(c)`.
pub fn split_char(s: &str, c: char) -> (parts: Vec<String>)
    ensures
        views(parts@) == split_on(s@, c),
{
    let cs = chars_of(s);
    let n = cs.len();
    let mut parts: Vec<String> = Vec::new();
    let mut start: usize = 0;
    let mut i: usize = 0;
    assert(views(parts@) =~= Seq::<Seq<char>>::empty());
    assert(s@.take(0) =~= Seq::<char>::empty());
    assert(s@.subrange(0, 0) =~= Seq::<char>::empty());
    while i < n
        invariant
            n == cs@.len(),
            cs@ == s@,
            start <= i <= n,
            views(parts@).push(s@.subrange(start as int, i as int)) == split_on(
                s@.take(i as int),
                c,
            ),
        decreases n - i,
    {
        let ghost old_parts = views(parts@);
        let ghost prev = split_on(s@.take(i as int), c);
        assert(s@.take(i + 1).drop_last() =~= s@.take(i as int));
        assert(s@.take(i + 1).last() == cs@[i as int]);
        assert(split_on(s@.take(i + 1), c) == (if cs@[i as int] == c {
            prev.push(Seq::<char>::empty())
        } else {
            prev.update(prev.len() - 1, prev.last().push(cs@[i as int]))
        }));
        if cs[i] == c {
            let piece = substring(s, start, i);
            parts.push(piece);
            assert(views(parts@) =~= old_parts.push(piece@));
            start = i + 1;
            assert(s@.subrange(start as int, i + 1) =~= Seq::<char>::empty());
            assert(views(parts@).push(s@.subrange(start as int, i + 1)) =~= split_on(
                s@.take(i + 1),
                c,
            ));
        } else {
            assert(s@.subrange(start as int, i + 1) =~= s@.subrange(start as int, i as int).push(
                cs@[i as int],
            ));
            assert(views(parts@).push(s@.subrange(start as int, i + 1)) =~= split_on(
                s@.take(i + 1),
                c,
            ));
        }
        i = i + 1;
    }
    let last = substring(s, start, n);
    let ghost before = views(parts@);
    parts.push(last);
    assert(views(parts@) =~= before.push(last@));
    assert(s@.take(n as int) =~= s@);
    parts
}

/// The index of the first `c` in `s`, or the length of `s` when there is none.
pub fn find_char(s: &str, c: char) -> (i: usize)
    ensures
        i == index_of_first(s@, c),
        i <= s@.len(),
{
    let cs = chars_of(s);
    let n = cs.len();
    let mut i: usize = 0;
    while i < n && cs[i] != c
        invariant
            n == cs@.len(),
            cs@ == s@,
            i <= n,
            forall|j: int| 0 <= j < i ==> s@[j] != c,
        decreases n - i,
    {
        i = i + 1;
    }
    proof {
        lemma_index_of_first(s@, c, i as int);
    }
    i
}

/// The text of `s` before its first `c`; `s.split(c).next().unwrap_or(s)`.
pub fn text_before(s: &str, c: char) -> (r: String)
    ensures
        r@ == before_first(s@, c),
{
    let i = find_char(s, c);
    substring(s, 0, i)
}

/// Whether `a` and `b` are the same text.
pub fn same_text(a: &str, b: &str) -> (r: bool)
    ensures
        r == (a@ == b@),
{
    let x = String::from_str(a);
    let y = String::from_str(b);
    x == y
}

/// Whether `s` ends with `suffix`.
pub fn ends_with(s: &str, suffix: &str) -> (b: bool)
    ensures
        b == has_suffix(s@, suffix@),
{
    let cs = chars_of(s);
    let ss = chars_of(suffix);
    if ss.len() > cs.len() {
        return false;
    }
    let n = cs.len();
    let off = n - ss.len();
    let mut i: usize = 0;
    while i < ss.len()
        invariant
            n == cs@.len(),
            cs@ == s@,
            ss@ == suffix@,
            off + ss@.len() == cs@.len(),
            i <= ss@.len(),
            forall|j: int| 0 <= j < i ==> s@[off + j] == suffix@[j],
        decreases ss@.len() - i,
    {
        if cs[off + i] != ss[i] {
            assert(s@.subrange(off as int, s@.len() as int)[i as int] != suffix@[i as int]);
            return false;
        }
        i = i + 1;
    }
    assert(s@.subrange(off as int, s@.len() as int) =~= suffix@);
    true
}

/// Whether `s` starts with `prefix`.
pub fn starts_with(s: &str, prefix: &str) -> (b: bool)
    ensures
        b == has_prefix(s@, prefix@),
{
    let cs = chars_of(s);
    let ps = chars_of(prefix);
    if ps.len() > cs.len() {
        return false;
    }
    let mut i: usize = 0;
    while i < ps.len()
        invariant
            cs@ == s@,
            ps@ == prefix@,
            ps@.len() <= cs@.len(),
            i <= ps@.len(),
            forall|j: int| 0 <= j < i ==> s@[j] == prefix@[j],
        decreases ps@.len() - i,
    {
        if cs[i] != ps[i] {
            assert(s@.take(prefix@.len() as int)[i as int] != prefix@[i as int]);
            return false;
        }
        i = i + 1;
    }
    assert(s@.take(prefix@.len() as int) =~= prefix@);
    true
}

/// Whether `needle` occurs in `s`.
pub fn contains_str(s: &str, needle: &str) -> (b: bool)
    ensures
        b == occurs_in(s@, needle@),
{
    let cs = chars_of(s);
    let ns = chars_of(needle);
    let n = cs.len();
    let m = ns.len();
    if m > n {
        assert forall|i: int| 0 <= i && i + m <= n implies #[trigger] s@.subrange(i, i + m) != needle@ by {}
        return false;
    }
    let mut i: usize = 0;
    while i <= n - m
        invariant
            cs@ == s@,
            ns@ == needle@,
            n == s@.len(),
            m == needle@.len(),
            m <= n,
            i <= n - m + 1,
            forall|k: int| 0 <= k < i ==> #[trigger] s@.subrange(k, k + m) != needle@,
        decreases n - m + 1 - i,
    {
        let mut j: usize = 0;
        let mut same = true;
        while j < m
            invariant
                cs@ == s@,
                ns@ == needle@,
                n == s@.len(),
                m == needle@.len(),
                i + m <= n,
                j <= m,
                same == (forall|t: int| 0 <= t < j ==> s@[i + t] == needle@[t]),
            decreases m - j,
        {
            if cs[i + j] != ns[j] {
                same = false;
            }
            j = j + 1;
        }
        if same {
            assert(s@.subrange(i as int, i + m) =~= needle@);
            return true;
        }
        assert(s@.subrange(i as int, i + m) != needle@) by {
            let t = choose|t: int| 0 <= t < m && s@[i + t] != needle@[t];
            assert(s@.subrange(i as int, i + m)[t] != needle@[t]);
        }
        i = i + 1;
    }
    false
}

/// The lower-case form of `s` that `str::to_lowercase` gives (Unicode case
/// mapping).
pub uninterp spec fn lowercase(s: Seq<char>) -> Seq<char>;

/// Calls `str::to_lowercase`. The contract claims that the result is the
/// value named by `lowercase` for this text, and that for ASCII text it is
/// the ASCII lower-casing (`A`-`Z` to `a`-`z`, all else unchanged), as the
/// Unicode lower-case mapping is on ASCII. It also claims that the result is
/// empty exactly when `s` is: each character lower-cases to one or more
/// characters (`char::to_lowercase`).
#[verifier::external_body]
pub(crate) fn to_lowercase(s: &str) -> (r: String)
    ensures
        r@ == lowercase(s@),
        vstd::utf8::is_ascii_chars(s@) ==> r@ == s@.map_values(|c: char| ascii_lower(c)),
        (r@.len() == 0) == (s@.len() == 0),
{
    s.to_lowercase()
}

/// Calls `String::push`: `c` is appended to `s`.
#[verifier::external_body]
pub(crate) fn push_char(s: &mut String, c: char)
    ensures
        final(s)@ == old(s)@.push(c),
{
    s.push(c);
}

/// Calls `String::pop`: the last character of `s`, if any, is removed.
#[verifier::external_body]
pub(crate) fn pop_char(s: &mut String)
    ensures
        final(s)@ == (if old(s)@.len() > 0 {
            old(s)@.drop_last()
        } else {
            old(s)@
        }),
{
    s.pop();
}

/// `c` has the Unicode `White_Space` property (`char::is_whitespace`).
pub open spec fn is_white_space(c: char) -> bool {
    ||| ('\u{9}' <= c && c <= '\u{d}')
    ||| c == ' '
    ||| c == '\u{85}'
    ||| c == '\u{a0}'
    ||| c == '\u{1680}'
    ||| ('\u{2000}' <= c && c <= '\u{200a}')
    ||| c == '\u{2028}'
    ||| c == '\u{2029}'
    ||| c == '\u{202f}'
    ||| c == '\u{205f}'
    ||| c == '\u{3000}'
}

/// `s` without leading and trailing white space.
pub open spec fn trimmed(s: Seq<char>) -> Seq<char>
    decreases s.len(),
{
    if s.len() > 0 && is_white_space(s[0]) {
        trimmed(s.skip(1))
    } else if s.len() > 0 && is_white_space(s.last()) {
        trimmed(s.drop_last())
    } else {
        s
    }
}

/// Calls `str::trim` and copies the result. The contract restates the
/// documented behaviour: leading and trailing characters with the Unicode
/// `White_Space` property are removed.
#[verifier::external_body]
pub(crate) fn trim(s: &str) -> (r: String)
    ensures
        r@ == trimmed(s@),
{
    s.trim().to_string()
}

/// A copy of an optional string.
pub fn clone_opt(o: &Option<String>) -> (r: Option<String>)
    ensures
        r == *o,
{
    match o {
        Some(s) => Some(s.clone()),
        None => None,
    }
}

/// `s` with every `from` replaced by `to`.
pub fn replace_char_in(s: &str, from: char, to: &str) -> (r: String)
    requires
        to@.len() == 1,
    ensures
        r@ == replace_char(s@, from, to@[0]),
{
    let cs = chars_of(s);
    let n = cs.len();
    let mut r = String::new();
    let mut start: usize = 0;
    let mut i: usize = 0;
    while i < n
        invariant
            cs@ == s@,
            n == s@.len(),
            to@.len() == 1,
            start <= i <= n,
            r@ + s@.subrange(start as int, i as int) == replace_char(s@.take(i as int), from, to@[0]),
        decreases n - i,
    {
        let ghost done = replace_char(s@.take(i as int), from, to@[0]);
        assert(replace_char(s@.take(i + 1), from, to@[0]) =~= done.push(
            if cs@[i as int] == from { to@[0] } else { cs@[i as int] },
        ));
        if cs[i] == from {
            let piece = s.substring_char(start, i);
            r.append(piece);
            r.append(to);
            start = i + 1;
        }
        i = i + 1;
        assert(r@ + s@.subrange(start as int, i as int) =~= replace_char(s@.take(i as int), from, to@[0]));
    }
    let piece = s.substring_char(start, n);
    r.append(piece);
    assert(s@.take(n as int) =~= s@);
    r
}

} // verus!
