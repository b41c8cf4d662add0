//! The string policy's helpers: ordering literal lists, the cache key of the
//! literal set, and regex synthesis with its guardrails.
use crate::lattice::strings_view;
use crate::text::{lemma_str_lt_transitive, str_less, str_lt};
use std::collections::hash_map::DefaultHasher;
use std::hash::Hasher;
use vstd::prelude::*;
use vstd::std_specs::hash::DefaultHasherAdditionalSpecFns;
use vstd::utf8::encode_utf8;

verus! {

/// Fewest distinct non-empty literals that regex synthesis learns from.
pub const GREX_MIN_SAMPLES: usize = 3;

/// Longest synthesized pattern kept, in bytes.
pub const GREX_MAX_PATTERN_LEN: usize = 512;

/// Most `|` bytes a synthesized pattern may hold.
pub const GREX_MAX_ALTS: usize = 64;

/// The pattern that grex learns from these test cases.
pub uninterp spec fn grex_regex(cases: Seq<Seq<char>>) -> Seq<char>;

/// The string with leading and trailing whitespace removed.
pub uninterp spec fn trimmed(s: Seq<char>) -> Seq<char>;

/// Relies on `str::trim`: the result depends on the characters alone.
#[verifier::external_body]
fn trim_str<'a>(s: &'a str) -> (r: &'a str)
    ensures
        r@ == trimmed(s@),
{
    s.trim()
}

/// Relies on `grex::RegExpBuilder::from(..).build()`, which panics on no
/// test cases and otherwise returns the regex learned from them.
#[verifier::external_body]
fn grex_build(cases: &Vec<String>) -> (r: String)
    requires
        cases@.len() > 0,
    ensures
        r@ == grex_regex(strings_view(cases@)),
{
    grex::RegExpBuilder::from(cases.as_slice()).build()
}

// ------------------------------ sorted lists ------------------------------

/// Position before the first element greater than `x`.
pub open spec fn insert_pos(s: Seq<Seq<char>>, x: Seq<char>) -> int
    decreases s.len(),
{
    if s.len() == 0 {
        0
    } else if str_lt(x, s[0]) {
        0
    } else {
        1 + insert_pos(s.drop_first(), x)
    }
}

/// Insertion sort in code point order.
pub open spec fn sort_strings(s: Seq<Seq<char>>) -> Seq<Seq<char>>
    decreases s.len(),
{
    if s.len() == 0 {
        s
    } else {
        let t = sort_strings(s.drop_last());
        t.insert(insert_pos(t, s.last()), s.last())
    }
}

pub open spec fn sorted_strings(s: Seq<Seq<char>>) -> bool {
    forall|i: int, j: int| 0 <= i < j < s.len() ==> !str_lt(#[trigger] s[j], #[trigger] s[i])
}

proof fn lemma_insert_pos(s: Seq<Seq<char>>, x: Seq<char>)
    ensures
        0 <= insert_pos(s, x) <= s.len(),
        forall|k: int| 0 <= k < insert_pos(s, x) ==> !str_lt(x, #[trigger] s[k]),
        insert_pos(s, x) < s.len() ==> str_lt(x, s[insert_pos(s, x)]),
    decreases s.len(),
{
    if s.len() > 0 && !str_lt(x, s[0]) {
        lemma_insert_pos(s.drop_first(), x);
        assert forall|k: int| 0 <= k < insert_pos(s, x) implies !str_lt(x, #[trigger] s[k]) by {
            if k > 0 {
                assert(s[k] == s.drop_first()[k - 1]);
            }
        }
    }
}

pub proof fn lemma_sort_strings(s: Seq<Seq<char>>)
    ensures
        sorted_strings(sort_strings(s)),
        sort_strings(s).len() == s.len(),
    decreases s.len(),
{
    if s.len() > 0 {
        let t = sort_strings(s.drop_last());
        lemma_sort_strings(s.drop_last());
        let x = s.last();
        let p = insert_pos(t, x);
        lemma_insert_pos(t, x);
        let r = t.insert(p, x);
        assert forall|i: int, j: int| 0 <= i < j < r.len() implies !str_lt(#[trigger] r[j], #[trigger] r[i]) by {
            if j < p {
                assert(r[i] == t[i] && r[j] == t[j]);
            } else if j == p {
                assert(r[i] == t[i]);
            } else if i == p {
                assert(r[j] == t[j - 1] && r[i] == x);
                if str_lt(t[j - 1], x) {
                    lemma_str_lt_transitive(t[j - 1], x, t[p]);
                    if j - 1 > p {
                        assert(!str_lt(t[j - 1], t[p]));
                    } else {
                        crate::text::lemma_str_lt_irreflexive(t[p]);
                    }
                }
            } else if i < p {
                assert(r[i] == t[i] && r[j] == t[j - 1]);
            } else {
                assert(r[i] == t[i - 1] && r[j] == t[j - 1]);
            }
        }
    }
}

fn insert_position(s: &Vec<String>, x: &String) -> (r: usize)
    ensures
        r as int == insert_pos(strings_view(s@), x@),
{
    let ghost sv = strings_view(s@);
    let mut i: usize = 0;
    assert(sv.subrange(0, sv.len() as int) =~= sv);
    while i < s.len()
        invariant
            i <= s@.len(),
            sv == strings_view(s@),
            insert_pos(sv, x@) == i + insert_pos(sv.subrange(i as int, sv.len() as int), x@),
        decreases s@.len() - i,
    {
        let ghost rest = sv.subrange(i as int, sv.len() as int);
        assert(rest[0] == s@[i as int]@);
        if str_less(x.as_str(), s[i].as_str()) {
            return i;
        }
        assert(rest.drop_first() =~= sv.subrange(i + 1, sv.len() as int));
        i = i + 1;
    }
    i
}

/// The strings in code point order.
pub fn sorted_copy(s: &Vec<String>) -> (r: Vec<String>)
    ensures
        strings_view(r@) == sort_strings(strings_view(s@)),
{
    let ghost sv = strings_view(s@);
    let mut out: Vec<String> = Vec::new();
    let mut i: usize = 0;
    while i < s.len()
        invariant
            i <= s@.len(),
            sv == strings_view(s@),
            strings_view(out@) == sort_strings(sv.subrange(0, i as int)),
        decreases s@.len() - i,
    {
        let x = s[i].clone();
        let p = insert_position(&out, &x);
        let ghost before = strings_view(out@);
        proof {
            lemma_insert_pos(before, x@);
        }
        out.insert(p, x);
        assert(strings_view(out@) =~= before.insert(p as int, x@));
        assert(sv.subrange(0, i + 1).drop_last() =~= sv.subrange(0, i as int));
        i = i + 1;
    }
    assert(sv.subrange(0, i as int) =~= sv);
    out
}

// ------------------------------ cache key ------------------------------

pub open spec fn total_chars(s: Seq<Seq<char>>) -> nat
    decreases s.len(),
{
    if s.len() == 0 {
        0
    } else {
        total_chars(s.drop_last()) + s.last().len()
    }
}

/// What the cache key hashes: each literal, trimmed, then a separator.
pub open spec fn key_writes(s: Seq<Seq<char>>) -> Seq<Seq<u8>>
    decreases s.len(),
{
    if s.len() == 0 {
        Seq::empty()
    } else {
        key_writes(s.drop_last()).push(encode_utf8(trimmed(s.last()))).push(seq![0xffu8, 0xffu8])
    }
}

pub open spec fn cache_key_spec(s: Seq<Seq<char>>) -> (usize, usize, u64) {
    (
        s.len() as usize,
        if total_chars(s) > usize::MAX {
            usize::MAX
        } else {
            total_chars(s) as usize
        },
        DefaultHasher::spec_finish(key_writes(s)),
    )
}

/// Fingerprint of a literal list: how many, how many characters in all
/// (saturating), and a hash of the trimmed literals in order.
pub fn grex_cache_key(samples: &Vec<String>) -> (r: (usize, usize, u64))
    ensures
        r == cache_key_spec(strings_view(samples@)),
{
    let ghost sv = strings_view(samples@);
    let mut total: usize = 0;
    let mut h = DefaultHasher::new();
    let sep: [u8; 2] = [0xff, 0xff];
    let mut i: usize = 0;
    while i < samples.len()
        invariant
            i <= samples@.len(),
            sv == strings_view(samples@),
            sep@ == seq![0xffu8, 0xffu8],
            total == (if total_chars(sv.subrange(0, i as int)) > usize::MAX {
                usize::MAX
            } else {
                total_chars(sv.subrange(0, i as int)) as usize
            }),
            h@ == key_writes(sv.subrange(0, i as int)),
        decreases samples@.len() - i,
    {
        let s = samples[i].as_str();
        let n = s.unicode_len();
        total = if total > usize::MAX - n {
            usize::MAX
        } else {
            total + n
        };
        let t = trim_str(s);
        h.write(t.as_bytes());
        h.write(sep.as_slice());
        assert(sv.subrange(0, i + 1).drop_last() =~= sv.subrange(0, i as int));
        i = i + 1;
    }
    assert(sv.subrange(0, i as int) =~= sv);
    (samples.len(), total, h.finish())
}

// ------------------------------ synthesis ------------------------------

pub open spec fn count_byte(b: Seq<u8>, x: u8) -> nat
    decreases b.len(),
{
    if b.len() == 0 {
        0
    } else {
        count_byte(b.drop_last(), x) + if b.last() == x {
            1nat
        } else {
            0nat
        }
    }
}

/// More than `GREX_MAX_ALTS` `|` bytes.
pub open spec fn too_many_alts_spec(rx: Seq<char>) -> bool {
    count_byte(encode_utf8(rx), 0x7c) > GREX_MAX_ALTS
}

/// Coarse guard against giant alternations: counts `|` bytes.
pub fn too_many_alternations(rx: &str) -> (r: bool)
    ensures
        r == too_many_alts_spec(rx@),
{
    let b = rx.as_bytes();
    let mut n: usize = 0;
    let mut i: usize = 0;
    while i < b.len()
        invariant
            i <= b@.len(),
            b@ == encode_utf8(rx@),
            n == count_byte(b@.subrange(0, i as int), 0x7c),
            n <= i,
        decreases b@.len() - i,
    {
        assert(b@.subrange(0, i + 1).drop_last() =~= b@.subrange(0, i as int));
        if b[i] == 0x7c {
            n = n + 1;
        }
        i = i + 1;
    }
    assert(b@.subrange(0, i as int) =~= b@);
    n > GREX_MAX_ALTS
}

/// Trimmed literals, the empty ones left out.
pub open spec fn trimmed_nonempty(s: Seq<Seq<char>>) -> Seq<Seq<char>>
    decreases s.len(),
{
    if s.len() == 0 {
        Seq::empty()
    } else if trimmed(s.last()).len() == 0 {
        trimmed_nonempty(s.drop_last())
    } else {
        trimmed_nonempty(s.drop_last()).push(trimmed(s.last()))
    }
}

/// Starts with `^` and ends with `$`.
pub open spec fn anchored(rx: Seq<char>) -> bool {
    rx.len() >= 2 && rx[0] == '^' && rx[rx.len() - 1] == '$'
}

/// A pattern that passes the guardrails.
pub open spec fn pattern_ok(rx: Seq<char>) -> bool {
    anchored(rx) && encode_utf8(rx).len() <= GREX_MAX_PATTERN_LEN && !too_many_alts_spec(rx)
}

/// The pattern synthesized from a literal list, if one passes the guardrails.
pub open spec fn synth_spec(s: Seq<Seq<char>>) -> Option<Seq<char>> {
    if s.len() < GREX_MIN_SAMPLES {
        None
    } else {
        let t = trimmed_nonempty(s);
        if t.len() < GREX_MIN_SAMPLES {
            None
        } else {
            let rx = grex_regex(sort_strings(t));
            if pattern_ok(rx) {
                Some(rx)
            } else {
                None
            }
        }
    }
}

pub open spec fn opt_view(s: Option<String>) -> Option<Seq<char>> {
    match s {
        Some(x) => Some(x@),
        None => None,
    }
}

/// Learn an anchored regex from the literals (trimmed, empties dropped,
/// sorted); `None` below the sample minimum or past the guardrails.
pub fn synth_regex_with_grex(samples: &Vec<String>) -> (r: Option<String>)
    ensures
        opt_view(r) == synth_spec(strings_view(samples@)),
        r matches Some(p) ==> pattern_ok(p@),
{
    let ghost sv = strings_view(samples@);
    if samples.len() < GREX_MIN_SAMPLES {
        return None;
    }
    let mut lits: Vec<String> = Vec::new();
    let mut i: usize = 0;
    while i < samples.len()
        invariant
            i <= samples@.len(),
            sv == strings_view(samples@),
            strings_view(lits@) == trimmed_nonempty(sv.subrange(0, i as int)),
        decreases samples@.len() - i,
    {
        let t = trim_str(samples[i].as_str());
        assert(sv.subrange(0, i + 1).drop_last() =~= sv.subrange(0, i as int));
        if t.unicode_len() > 0 {
            let ghost before = strings_view(lits@);
            let o = t.to_owned();
            lits.push(o);
            assert(strings_view(lits@) =~= before.push(o@));
        }
        i = i + 1;
    }
    assert(sv.subrange(0, i as int) =~= sv);
    if lits.len() < GREX_MIN_SAMPLES {
        return None;
    }
    let sorted = sorted_copy(&lits);
    proof {
        lemma_sort_strings(strings_view(lits@));
    }
    let rx = grex_build(&sorted);
    let n = rx.as_str().unicode_len();
    assert(strings_view(lits@).len() == lits@.len());
    let rs = rx.as_str();
    let bytes = rs.as_bytes();
    let ok = n >= 2 && rs.get_char(0) == '^' && rs.get_char(n - 1) == '$' && bytes.len()
        <= GREX_MAX_PATTERN_LEN && !too_many_alternations(rs);
    assert(ok == pattern_ok(rx@));
    assert(rx@ == grex_regex(sort_strings(trimmed_nonempty(sv))));
    if ok {
        Some(rx)
    } else {
        None
    }
}

} // verus!
