//! Predicates and helpers on strings.
use vstd::prelude::*;
use vstd::string::StrSliceExecFns;

verus! {

/// Longest enum literal kept by the string policy.
pub const STRING_ENUM_MAX_LEN: usize = 16;

pub open spec fn starts_with(s: Seq<char>, p: Seq<char>) -> bool {
    p.len() <= s.len() && s.subrange(0, p.len() as int) == p
}

pub open spec fn uri_prefixes() -> Seq<Seq<char>> {
    seq![
        seq!['h', 't', 't', 'p', ':', '/', '/'],
        seq!['h', 't', 't', 'p', 's', ':', '/', '/'],
        seq!['m', 'a', 'i', 'l', 't', 'o', ':'],
        seq!['t', 'e', 'l', ':'],
    ]
}

/// The string starts with `http://`, `https://`, `mailto:` or `tel:`.
pub open spec fn uri_prefixed(s: Seq<char>) -> bool {
    exists|i: int| 0 <= i < uri_prefixes().len() && starts_with(s, #[trigger] uri_prefixes()[i])
}

pub open spec fn humanish_char(c: char) -> bool {
    ('a' <= c <= 'z') || ('A' <= c <= 'Z') || ('0' <= c <= '9') || c == ' ' || c == '-' || c == '_'
}

/// Short, and made of ASCII letters, digits, space, dash and underscore.
pub open spec fn humanish(s: Seq<char>) -> bool {
    s.len() <= STRING_ENUM_MAX_LEN && forall|i: int| 0 <= i < s.len() ==> humanish_char(#[trigger] s[i])
}

fn has_prefix(s: &str, p: &str) -> (r: bool)
    ensures
        r == starts_with(s@, p@),
{
    let n = p.unicode_len();
    if n > s.unicode_len() {
        return false;
    }
    let mut i: usize = 0;
    while i < n
        invariant
            n == p@.len(),
            n <= s@.len(),
            i <= n,
            forall|k: int| 0 <= k < i ==> s@[k] == p@[k],
        decreases n - i,
    {
        if s.get_char(i) != p.get_char(i) {
            assert(s@.subrange(0, n as int)[i as int] != p@[i as int]);
            return false;
        }
        i = i + 1;
    }
    assert(s@.subrange(0, n as int) =~= p@);
    true
}

/// Whether the string starts with one of the URI prefixes.
pub fn looks_like_uri(s: &str) -> (r: bool)
    ensures
        r == uri_prefixed(s@),
{
    proof {
        reveal_strlit("http://");
        reveal_strlit("https://");
        reveal_strlit("mailto:");
        reveal_strlit("tel:");
        assert("http://"@ =~= uri_prefixes()[0]);
        assert("https://"@ =~= uri_prefixes()[1]);
        assert("mailto:"@ =~= uri_prefixes()[2]);
        assert("tel:"@ =~= uri_prefixes()[3]);
    }
    let r = has_prefix(s, "http://") || has_prefix(s, "https://") || has_prefix(s, "mailto:")
        || has_prefix(s, "tel:");
    proof {
        if r {
            if starts_with(s@, uri_prefixes()[0]) {
            } else if starts_with(s@, uri_prefixes()[1]) {
            } else if starts_with(s@, uri_prefixes()[2]) {
            } else {
                assert(starts_with(s@, uri_prefixes()[3]));
            }
        } else {
            assert forall|i: int| 0 <= i < uri_prefixes().len() implies !starts_with(s@, #[trigger] uri_prefixes()[i]) by {
                if i == 0 {
                } else if i == 1 {
                } else if i == 2 {
                } else {
                }
            }
        }
    }
    r
}

fn is_humanish_char(c: char) -> (r: bool)
    ensures
        r == humanish_char(c),
{
    ('a' <= c && c <= 'z') || ('A' <= c && c <= 'Z') || ('0' <= c && c <= '9') || c == ' ' || c == '-'
        || c == '_'
}

/// Whether the string would read well as an enum value.
pub fn looks_humanish(s: &str) -> (r: bool)
    ensures
        r == humanish(s@),
{
    let n = s.unicode_len();
    if n > STRING_ENUM_MAX_LEN {
        return false;
    }
    let mut i: usize = 0;
    while i < n
        invariant
            n == s@.len(),
            i <= n,
            forall|k: int| 0 <= k < i ==> humanish_char(#[trigger] s@[k]),
        decreases n - i,
    {
        if !is_humanish_char(s.get_char(i)) {
            return false;
        }
        i = i + 1;
    }
    true
}

/// Longest common prefix of two character sequences.
pub open spec fn common_prefix(a: Seq<char>, b: Seq<char>) -> Seq<char>
    decreases a.len(),
{
    if a.len() == 0 || b.len() == 0 || a[0] != b[0] {
        Seq::empty()
    } else {
        seq![a[0]] + common_prefix(a.drop_first(), b.drop_first())
    }
}

proof fn lemma_common_prefix(a: Seq<char>, b: Seq<char>, i: int)
    requires
        0 <= i <= a.len(),
        i <= b.len(),
        a.subrange(0, i) == b.subrange(0, i),
        i == a.len() || i == b.len() || a[i] != b[i],
    ensures
        common_prefix(a, b) == a.subrange(0, i),
    decreases a.len(),
{
    if i > 0 {
        assert(a[0] == a.subrange(0, i)[0]);
        assert(b[0] == b.subrange(0, i)[0]);
        assert(a.drop_first().subrange(0, i - 1) =~= a.subrange(0, i).drop_first());
        assert(b.drop_first().subrange(0, i - 1) =~= b.subrange(0, i).drop_first());
        lemma_common_prefix(a.drop_first(), b.drop_first(), i - 1);
        assert(a.subrange(0, i) =~= seq![a[0]] + a.drop_first().subrange(0, i - 1));
    } else {
        assert(a.subrange(0, 0) =~= Seq::<char>::empty());
    }
}

fn common_prefix_of(x: &str, y: &str) -> (r: String)
    ensures
        r@ == common_prefix(x@, y@),
{
    let nx = x.unicode_len();
    let ny = y.unicode_len();
    let mut i: usize = 0;
    while i < nx && i < ny && x.get_char(i) == y.get_char(i)
        invariant
            nx == x@.len(),
            ny == y@.len(),
            i <= nx,
            i <= ny,
            x@.subrange(0, i as int) == y@.subrange(0, i as int),
        decreases nx - i,
    {
        i = i + 1;
        assert(x@.subrange(0, i as int) =~= y@.subrange(0, i as int));
    }
    proof {
        lemma_common_prefix(x@, y@, i as int);
    }
    x.substring_char(0, i).to_owned()
}

pub open spec fn opt_view(s: Option<&str>) -> Option<Seq<char>> {
    match s {
        Some(x) => Some(x@),
        None => None,
    }
}

pub open spec fn lcp_join_spec(a: Option<Seq<char>>, b: Option<Seq<char>>) -> Option<Seq<char>> {
    match (a, b) {
        (Some(x), Some(y)) => if common_prefix(x, y).len() == 0 {
            None
        } else {
            Some(common_prefix(x, y))
        },
        (Some(x), None) => Some(x),
        (None, Some(y)) => Some(y),
        (None, None) => None,
    }
}

/// Longest common prefix of two optional strings; an empty prefix is `None`.
pub fn lcp_join(a: Option<&str>, b: Option<&str>) -> (r: Option<String>)
    ensures
        match r {
            Some(s) => lcp_join_spec(opt_view(a), opt_view(b)) == Some(s@),
            None => lcp_join_spec(opt_view(a), opt_view(b)) is None,
        },
{
    match (a, b) {
        (Some(x), Some(y)) => {
            let p = common_prefix_of(x, y);
            if p.as_str().unicode_len() == 0 {
                None
            } else {
                Some(p)
            }
        },
        (Some(x), None) => Some(x.to_owned()),
        (None, Some(y)) => Some(y.to_owned()),
        (None, None) => None,
    }
}

/// Longest prefix shared by all of the strings.
pub open spec fn common_prefix_all(s: Seq<Seq<char>>) -> Seq<char>
    decreases s.len(),
{
    if s.len() <= 1 {
        if s.len() == 1 {
            s[0]
        } else {
            Seq::empty()
        }
    } else {
        common_prefix(common_prefix_all(s.drop_last()), s.last())
    }
}

/// The longest prefix shared by all the strings; `None` for no strings.
pub fn lcp_set(items: &Vec<String>) -> (r: Option<String>)
    ensures
        items@.len() == 0 <==> r is None,
        r matches Some(p) ==> p@ == common_prefix_all(items@.map_values(|x: String| x@)),
{
    if items.len() == 0 {
        return None;
    }
    let ghost sv = items@.map_values(|x: String| x@);
    let mut acc = items[0].clone();
    let mut i: usize = 1;
    assert(sv.subrange(0, 1).len() == 1);
    while i < items.len()
        invariant
            1 <= i <= items@.len(),
            sv == items@.map_values(|x: String| x@),
            acc@ == common_prefix_all(sv.subrange(0, i as int)),
        decreases items@.len() - i,
    {
        acc = common_prefix_of(acc.as_str(), items[i].as_str());
        assert(sv.subrange(0, i + 1).drop_last() =~= sv.subrange(0, i as int));
        i = i + 1;
    }
    assert(sv.subrange(0, i as int) =~= sv);
    Some(acc)
}

/// Lexicographic order by code point (the order of Rust's `str`).
pub open spec fn str_lt(a: Seq<char>, b: Seq<char>) -> bool
    decreases a.len(),
{
    if a.len() == 0 {
        b.len() > 0
    } else if b.len() == 0 {
        false
    } else if a[0] != b[0] {
        (a[0] as u32) < (b[0] as u32)
    } else {
        str_lt(a.drop_first(), b.drop_first())
    }
}

pub proof fn lemma_str_lt_transitive(a: Seq<char>, b: Seq<char>, c: Seq<char>)
    requires
        str_lt(a, b),
        str_lt(b, c),
    ensures
        str_lt(a, c),
    decreases a.len(),
{
    if a.len() > 0 && b.len() > 0 && c.len() > 0 && a[0] == b[0] && b[0] == c[0] {
        lemma_str_lt_transitive(a.drop_first(), b.drop_first(), c.drop_first());
    }
}

pub proof fn lemma_str_lt_irreflexive(a: Seq<char>)
    ensures
        !str_lt(a, a),
    decreases a.len(),
{
    if a.len() > 0 {
        lemma_str_lt_irreflexive(a.drop_first());
    }
}

/// Whether `a` comes before `b` in code point order.
pub fn str_less(a: &str, b: &str) -> (r: bool)
    ensures
        r == str_lt(a@, b@),
{
    let na = a.unicode_len();
    let nb = b.unicode_len();
    let mut i: usize = 0;
    assert(a@.subrange(0, na as int) =~= a@);
    assert(b@.subrange(0, nb as int) =~= b@);
    while i < na && i < nb
        invariant
            na == a@.len(),
            nb == b@.len(),
            i <= na,
            i <= nb,
            str_lt(a@, b@) == str_lt(a@.subrange(i as int, na as int), b@.subrange(i as int, nb as int)),
        decreases na - i,
    {
        let ca = a.get_char(i);
        let cb = b.get_char(i);
        let ghost sa = a@.subrange(i as int, na as int);
        let ghost sb = b@.subrange(i as int, nb as int);
        assert(sa[0] == ca && sb[0] == cb);
        if ca != cb {
            return (ca as u32) < (cb as u32);
        }
        assert(sa.drop_first() =~= a@.subrange(i + 1, na as int));
        assert(sb.drop_first() =~= b@.subrange(i + 1, nb as int));
        i = i + 1;
    }
    i < nb && i == na
}

pub proof fn lemma_str_lt_total(a: Seq<char>, b: Seq<char>)
    ensures
        a == b || str_lt(a, b) || str_lt(b, a),
    decreases a.len(),
{
    if a.len() > 0 && b.len() > 0 && a[0] == b[0] {
        lemma_str_lt_total(a.drop_first(), b.drop_first());
        if a.drop_first() == b.drop_first() {
            assert(a =~= seq![a[0]] + a.drop_first());
            assert(b =~= seq![b[0]] + b.drop_first());
        }
    } else if a.len() == 0 && b.len() == 0 {
        assert(a =~= b);
    } else if a.len() > 0 && b.len() > 0 {
        lemma_char_code_injective(a[0], b[0]);
    }
}

proof fn lemma_char_code_injective(x: char, y: char)
    requires
        x != y,
    ensures
        (x as u32) != (y as u32),
{
}

} // verus!
