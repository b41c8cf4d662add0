use json_osi::json::{Double, Json, JsonNumber};
use json_osi::lattice::{StrC, U};
use json_osi::normalize::normalize2_mut;
use json_osi::number::{i64_to_double, integral_to_i64, is_integral, min_double, max_double};
use json_osi::nty::{decide_tuple, tuple_min_items_arr};
use json_osi::observe::observe_value;
use json_osi::policy::Policy;
use json_osi::strings::{grex_cache_key, synth_regex_with_grex, too_many_alternations};
use json_osi::text::{lcp_join, lcp_set, looks_humanish, looks_like_uri};
use json_osi::join_str;

fn num_i(i: i64) -> Json {
    Json::Number(JsonNumber::Int(i))
}

fn arr(xs: Vec<Json>) -> Json {
    Json::Array(xs)
}

fn strings(xs: &[&str]) -> Vec<String> {
    xs.iter().map(|s| s.to_string()).collect()
}

#[test]
fn integers_convert_to_nearest_double() {
    for x in [0i64, 1, -1, 42, -7, 1 << 53, i64::MAX, i64::MIN, 9007199254740993, -9007199254740995] {
        assert_eq!(i64_to_double(x), (x as f64).to_bits(), "{}", x);
    }
    for u in [u64::MAX, (1u64 << 63) + 1025, 12345] {
        assert_eq!(JsonNumber::UInt(u).to_double(), (u as f64).to_bits(), "{}", u);
    }
}

#[test]
fn integral_doubles() {
    assert!(is_integral(3.0f64.to_bits()));
    assert!(is_integral((-0.0f64).to_bits()));
    assert!(!is_integral(2.5f64.to_bits()));
    assert!(!is_integral(f64::INFINITY.to_bits()));
    assert_eq!(integral_to_i64((-12.0f64).to_bits()), -12);
    assert_eq!(integral_to_i64(1e300f64.to_bits()), i64::MAX);
    assert_eq!(integral_to_i64((-1e300f64).to_bits()), i64::MIN);
}

#[test]
fn doubles_order_totally() {
    let a = (-3.5f64).to_bits();
    let b = 2.0f64.to_bits();
    assert_eq!(min_double(a, b), a);
    assert_eq!(min_double(b, a), a);
    assert_eq!(max_double(a, b), b);
    assert_eq!(max_double(b, a), b);
}

#[test]
fn nan_is_rejected() {
    assert!(Double::from_bits(f64::NAN.to_bits()).is_none());
    assert!(Double::from_bits(1.0f64.to_bits()).is_some());
}

#[test]
fn uri_prefixes() {
    assert!(looks_like_uri("http://x"));
    assert!(looks_like_uri("https://x"));
    assert!(looks_like_uri("mailto:a@b"));
    assert!(looks_like_uri("tel:1"));
    assert!(!looks_like_uri("ftp://x"));
    assert!(!looks_like_uri("http:/x"));
    assert!(!looks_like_uri(""));
}

#[test]
fn humanish_strings() {
    assert!(looks_humanish("on_off-2 x"));
    assert!(looks_humanish(""));
    assert!(!looks_humanish("a.b"));
    assert!(!looks_humanish("é"));
    assert!(looks_humanish("abcdefghijklmnop"));
    assert!(!looks_humanish("abcdefghijklmnopq"));
}

#[test]
fn longest_common_prefixes() {
    assert_eq!(lcp_join(Some("prefix-a"), Some("prefix-b")), Some("prefix-".to_string()));
    assert_eq!(lcp_join(Some("abc"), Some("xyz")), None);
    assert_eq!(lcp_join(Some("abc"), None), Some("abc".to_string()));
    assert_eq!(lcp_join(None, None), None);
    assert_eq!(lcp_join(Some("ñandú"), Some("ñame")), Some("ña".to_string()));
    assert_eq!(lcp_set(&strings(&["flower", "flow", "flight"])), Some("fl".to_string()));
    assert_eq!(lcp_set(&strings(&["dog", "car"])), Some(String::new()));
    assert_eq!(lcp_set(&Vec::new()), None);
}

#[test]
fn string_join_unions_and_ands() {
    let a = StrC { lits: strings(&["a", "b"]), is_uri: true, pattern_synth: Some("^x$".to_string()), grex_cache_key: None };
    let b = StrC { lits: strings(&["b", "c"]), is_uri: false, pattern_synth: None, grex_cache_key: None };
    let j = join_str(&a, &b);
    assert_eq!(j.lits, strings(&["a", "b", "c"]));
    assert!(!j.is_uri);
    assert!(j.pattern_synth.is_none());
}

#[test]
fn cache_key_counts_and_hashes() {
    let (n, chars, h) = grex_cache_key(&strings(&["ab", " c ", "dé"]));
    assert_eq!(n, 3);
    assert_eq!(chars, 7);
    let (_, _, h2) = grex_cache_key(&strings(&["ab", "c", "dé"]));
    assert_eq!(h, h2);
    let (_, _, h3) = grex_cache_key(&strings(&["a", "bc", "dé"]));
    assert_ne!(h, h3);
}

#[test]
fn alternation_guard() {
    let many = "|".repeat(65);
    assert!(too_many_alternations(&many));
    assert!(!too_many_alternations(&"|".repeat(64)));
}

#[test]
fn synthesis_needs_three_trimmed_samples() {
    assert!(synth_regex_with_grex(&strings(&["a", "b"])).is_none());
    assert!(synth_regex_with_grex(&strings(&["a", "b", "  "])).is_none());
    let trimmed = synth_regex_with_grex(&strings(&[" x1", "x2 ", "x3"])).unwrap();
    let plain = synth_regex_with_grex(&strings(&["x1", "x2", "x3"])).unwrap();
    assert_eq!(trimmed, plain);
    assert!(plain.starts_with('^') && plain.ends_with('$'));
}

#[test]
fn tuple_decision_and_min_items() {
    let same = U::join(&observe_value(&arr(vec![num_i(1), num_i(2)])), &observe_value(&arr(vec![num_i(3), num_i(4)])));
    let a = same.arr.as_ref().unwrap();
    assert!(decide_tuple(a));
    assert_eq!(tuple_min_items_arr(a), 2);

    let padded = U::join(
        &observe_value(&arr(vec![num_i(1), Json::Null, num_i(5)])),
        &observe_value(&arr(vec![num_i(2), Json::Null])),
    );
    let p = padded.arr.as_ref().unwrap();
    assert!(decide_tuple(p));
    assert_eq!(p.present, vec![2, 2, 1]);
    assert_eq!(p.non_null, vec![2, 0, 1]);
    assert_eq!(tuple_min_items_arr(p), 2);

    let varying = U::join(&observe_value(&arr(vec![num_i(1)])), &observe_value(&arr(vec![num_i(2), num_i(3)])));
    assert!(!decide_tuple(varying.arr.as_ref().unwrap()));

    let single = observe_value(&arr(vec![num_i(1), num_i(2)]));
    assert!(!decide_tuple(single.arr.as_ref().unwrap()));
}

#[test]
fn normalize_in_place_drops_literals() {
    let mut u = U::join(&observe_value(&num_i(1)), &observe_value(&Json::String("t".to_string())));
    u = U::join(&u, &observe_value(&arr(vec![num_i(1)])));
    normalize2_mut(&mut u, &Policy::standard());
    assert!(u.num.as_ref().unwrap().lits.is_empty());
    assert!(u.str_.as_ref().unwrap().lits.is_empty());
    let a = u.arr.as_ref().unwrap();
    assert!(a.cols.is_empty() && a.present.is_empty() && a.non_null.is_empty());
}

#[test]
fn normalize_in_place_caches_synthesis() {
    let policy = Policy { enable_grex: true, ..Policy::standard() };
    let mut u = U::empty();
    for s in ["id-1", "id-2", "id-3"] {
        u = U::join(&u, &observe_value(&Json::String(s.to_string())));
    }
    normalize2_mut(&mut u, &policy);
    let s = u.str_.as_ref().unwrap();
    assert!(s.pattern_synth.is_some());
    assert_eq!(s.grex_cache_key.unwrap().0, 3);
    assert!(s.lits.is_empty());
}

#[test]
fn duplicate_member_keeps_last_value() {
    let o = Json::Object(vec![("k".to_string(), num_i(1)), ("k".to_string(), Json::Null)]);
    let u = observe_value(&o);
    let obj = u.obj.as_ref().unwrap();
    assert_eq!(obj.fields.len(), 1);
    assert!(obj.fields[0].1.ty.is_exact_null());
    assert_eq!(obj.fields[0].1.non_null_in, 0);
}

#[test]
fn bottom_and_exact_null() {
    assert!(U::empty().is_bottom());
    assert!(!U::empty().is_exact_null());
    let n = observe_value(&Json::Null);
    assert!(n.is_exact_null());
    assert!(!n.is_bottom());
}
