use json_osi::emit::schema_from_u;
use json_osi::json::{Double, Json, JsonNumber};
use json_osi::lattice::U;
use json_osi::nty::{normalize_to_norm_consume, NTy};
use json_osi::observe::observe_value;
use json_osi::policy::Policy;

fn render(j: &Json) -> String {
    match j {
        Json::Null => "null".to_string(),
        Json::Bool(b) => b.to_string(),
        Json::Number(JsonNumber::Int(i)) => i.to_string(),
        Json::Number(JsonNumber::UInt(u)) => u.to_string(),
        Json::Number(JsonNumber::Float(d)) => format!("{}", f64::from_bits(d.to_bits())),
        Json::String(s) => format!("{:?}", s),
        Json::Array(xs) => {
            let parts: Vec<String> = xs.iter().map(render).collect();
            format!("[{}]", parts.join(","))
        }
        Json::Object(ms) => {
            let parts: Vec<String> = ms.iter().map(|(k, v)| format!("{:?}:{}", k, render(v))).collect();
            format!("{{{}}}", parts.join(","))
        }
    }
}

fn num_i(i: i64) -> Json {
    Json::Number(JsonNumber::Int(i))
}

fn float(f: f64) -> Json {
    Json::Number(JsonNumber::Float(Double::from_bits(f.to_bits()).unwrap()))
}

fn st(s: &str) -> Json {
    Json::String(s.to_string())
}

fn arr(xs: Vec<Json>) -> Json {
    Json::Array(xs)
}

fn obj(ms: Vec<(&str, Json)>) -> Json {
    Json::Object(ms.into_iter().map(|(k, v)| (k.to_string(), v)).collect())
}

fn fold(values: &[Json]) -> U {
    let mut u = U::empty();
    for v in values {
        u = U::join(&u, &observe_value(v));
    }
    u
}

fn infer(values: &[Json], policy: Policy) -> String {
    render(&schema_from_u(fold(values), policy))
}

fn enums_on() -> Policy {
    Policy { enable_string_enums: true, ..Policy::standard() }
}

#[test]
fn integer_interval() {
    let got = infer(&[num_i(1), num_i(5), num_i(3)], Policy::standard());
    assert_eq!(got, r#"{"type":"integer","minimum":1,"maximum":5}"#);
}

#[test]
fn token_strings_plain() {
    let vals = [st("0ahUKE-abc123"), st("0ahUKE-xyz456"), st("0ahUKE-uvw789")];
    assert_eq!(infer(&vals, Policy::standard()), r#"{"type":"string"}"#);
}

#[test]
fn tiny_human_enum_sorted() {
    let got = infer(&[st("on"), st("off")], enums_on());
    assert_eq!(got, r#"{"type":"string","enum":["off","on"]}"#);
}

#[test]
fn mixed_requiredness() {
    let vals = [obj(vec![("x", num_i(1)), ("y", st("a"))]), obj(vec![("x", num_i(2)), ("y", Json::Null)])];
    let got = infer(&vals, Policy::standard());
    assert_eq!(
        got,
        r#"{"type":"object","properties":{"x":{"type":"integer","minimum":1,"maximum":2},"y":{"oneOf":[{"type":"string"},{"type":"null"}]}},"required":["x"]}"#
    );
}

#[test]
fn tuple_with_null_pad() {
    let vals = [arr(vec![num_i(1), Json::Null, st("x")]), arr(vec![num_i(2), Json::Null])];
    let got = infer(&vals, Policy::standard());
    assert_eq!(
        got,
        r#"{"type":"array","prefixItems":[{"type":"integer","minimum":1,"maximum":2},{"type":"null"},{"oneOf":[{"type":"string"},{"type":"null"}]}],"minItems":2,"maxItems":3}"#
    );
}

#[test]
fn fixed_arity_tuple() {
    let vals = [arr(vec![num_i(1), st("x"), Json::Null]), arr(vec![num_i(3), st("y"), Json::Null])];
    let got = infer(&vals, Policy::standard());
    assert_eq!(
        got,
        r#"{"type":"array","prefixItems":[{"type":"integer","minimum":1,"maximum":3},{"type":"string"},{"type":"null"}],"minItems":3,"maxItems":3}"#
    );
}

#[test]
fn varying_lengths_make_a_list() {
    let vals = [arr(vec![num_i(1), num_i(2)]), arr(vec![num_i(3)]), arr(vec![])];
    let got = infer(&vals, Policy::standard());
    assert_eq!(got, r#"{"type":"array","items":{"type":"integer","minimum":1,"maximum":3},"minItems":0,"maxItems":2}"#);
}

#[test]
fn single_array_is_a_list() {
    let got = infer(&[arr(vec![num_i(1), st("a")])], Policy::standard());
    assert_eq!(
        got,
        r#"{"type":"array","items":{"oneOf":[{"type":"integer","minimum":1,"maximum":1},{"type":"string"}]},"minItems":2,"maxItems":2}"#
    );
}

#[test]
fn empty_corpus_is_null() {
    assert_eq!(infer(&[], Policy::standard()), r#"{"type":"null"}"#);
}

#[test]
fn only_nulls_is_null() {
    assert_eq!(infer(&[Json::Null, Json::Null], Policy::standard()), r#"{"type":"null"}"#);
}

#[test]
fn floats_make_a_number_with_integer_literal_bounds() {
    let got = infer(&[float(1.5), num_i(-2)], Policy::standard());
    assert_eq!(got, r#"{"type":"number","minimum":-2,"maximum":1.5}"#);
}

#[test]
fn integral_float_is_still_number() {
    let got = infer(&[float(2.0), float(4.0)], Policy::standard());
    assert_eq!(got, r#"{"type":"number","minimum":2,"maximum":4}"#);
}

#[test]
fn large_unsigned_saturates_integer_bound() {
    let got = infer(&[Json::Number(JsonNumber::UInt(u64::MAX)), num_i(0)], Policy::standard());
    assert_eq!(got, r#"{"type":"integer","minimum":0,"maximum":9223372036854775807}"#);
}

#[test]
fn union_of_kinds_in_fixed_order() {
    let vals = [st("a"), num_i(1), Json::Bool(true), arr(vec![]), obj(vec![]), Json::Null];
    let got = infer(&vals, Policy::standard());
    assert_eq!(
        got,
        r#"{"oneOf":[{"oneOf":[{"type":"array","items":{"type":"null"},"minItems":0,"maxItems":0},{"type":"object","properties":{}},{"type":"integer","minimum":1,"maximum":1},{"type":"string"},{"type":"boolean"}]},{"type":"null"}]}"#
    );
}

#[test]
fn fields_sorted_by_name() {
    let vals = [obj(vec![("zeta", num_i(1)), ("alpha", num_i(2)), ("mid", num_i(3))])];
    let got = infer(&vals, Policy::standard());
    assert_eq!(
        got,
        r#"{"type":"object","properties":{"alpha":{"type":"integer","minimum":2,"maximum":2},"mid":{"type":"integer","minimum":3,"maximum":3},"zeta":{"type":"integer","minimum":1,"maximum":1}},"required":["alpha","mid","zeta"]}"#
    );
}

#[test]
fn field_missing_in_some_object_is_optional() {
    let vals = [obj(vec![("a", num_i(1)), ("b", num_i(2))]), obj(vec![("a", num_i(3))])];
    let n = normalize_to_norm_consume(fold(&vals), Policy::standard());
    match n {
        NTy::Object { fields } => {
            assert_eq!(fields.len(), 2);
            assert_eq!(fields[0].name, "a");
            assert!(fields[0].required);
            assert_eq!(fields[1].name, "b");
            assert!(!fields[1].required);
        }
        other => panic!("unexpected {:?}", other),
    }
}

#[test]
fn uri_strings_get_format() {
    let vals = [st("https://a.example"), st("mailto:x@y.z"), st("tel:+1")];
    assert_eq!(infer(&vals, Policy::standard()), r#"{"type":"string","format":"uri"}"#);
    let mixed = [st("https://a.example"), st("nope")];
    assert_eq!(infer(&mixed, Policy::standard()), r#"{"type":"string"}"#);
}

#[test]
fn enum_needs_humanish_literals() {
    assert_eq!(infer(&[st("a.b"), st("c")], enums_on()), r#"{"type":"string"}"#);
    let long = "abcdefghijklmnopq";
    assert_eq!(infer(&[st(long)], enums_on()), r#"{"type":"string"}"#);
}

#[test]
fn enum_limit_is_eight() {
    let eight: Vec<Json> = (0..8).map(|i| st(&format!("v{}", i))).collect();
    assert!(infer(&eight, enums_on()).contains("enum"));
    let nine: Vec<Json> = (0..9).map(|i| st(&format!("v{}", i))).collect();
    assert_eq!(infer(&nine, enums_on()), r#"{"type":"string"}"#);
}

#[test]
fn literal_cap_drops_literals() {
    let many: Vec<Json> = (0..65).map(|i| st(&format!("v{}", i))).collect();
    let u = fold(&many);
    assert_eq!(u.str_.as_ref().unwrap().lits.len(), 0);
    let some: Vec<Json> = (0..64).map(|i| st(&format!("v{}", i))).collect();
    assert_eq!(fold(&some).str_.as_ref().unwrap().lits.len(), 64);
}

#[test]
fn grex_pattern_is_anchored() {
    let policy = Policy { enable_grex: true, ..Policy::standard() };
    let vals = [st("a1"), st("a2"), st("a3")];
    let n = normalize_to_norm_consume(fold(&vals), policy);
    match n {
        NTy::String { enum_, pattern, format_uri } => {
            assert!(enum_.is_empty());
            assert!(!format_uri);
            let p = pattern.expect("a pattern");
            assert!(p.starts_with('^') && p.ends_with('$'));
            let re = regex::Regex::new(&p).unwrap();
            assert!(re.is_match("a1") && re.is_match("a2") && re.is_match("a3"));
        }
        other => panic!("unexpected {:?}", other),
    }
}

#[test]
fn no_pattern_without_grex() {
    let vals = [st("a1"), st("a2"), st("a3")];
    match normalize_to_norm_consume(fold(&vals), Policy::standard()) {
        NTy::String { pattern, .. } => assert!(pattern.is_none()),
        other => panic!("unexpected {:?}", other),
    }
}

#[test]
fn join_order_does_not_change_schema() {
    let a = observe_value(&obj(vec![("x", num_i(1)), ("y", arr(vec![st("p"), Json::Null]))]));
    let b = observe_value(&obj(vec![("y", arr(vec![st("q")])), ("z", float(0.5))]));
    let ab = render(&schema_from_u(U::join(&a, &b), enums_on()));
    let ba = render(&schema_from_u(U::join(&b, &a), enums_on()));
    assert_eq!(ab, ba);
}

#[test]
fn grouping_does_not_change_schema() {
    let a = observe_value(&num_i(4));
    let b = observe_value(&st("k"));
    let c = observe_value(&arr(vec![num_i(1), num_i(2)]));
    let left = U::join(&U::join(&a, &b), &c);
    let right = U::join(&a, &U::join(&b, &c));
    assert_eq!(render(&schema_from_u(left, Policy::standard())), render(&schema_from_u(right, Policy::standard())));
}

#[test]
fn joining_twice_keeps_schema() {
    let vals = [arr(vec![num_i(1), st("x")]), arr(vec![num_i(2), st("y")])];
    let u = fold(&vals);
    let once = render(&schema_from_u(u.copy(), Policy::standard()));
    let twice = render(&schema_from_u(U::join(&u, &u), Policy::standard()));
    assert_eq!(once, twice);
}

#[test]
fn joining_the_empty_point_keeps_schema() {
    let u = observe_value(&obj(vec![("k", st("v"))]));
    let plain = render(&schema_from_u(u.copy(), Policy::standard()));
    let joined = render(&schema_from_u(U::join(&U::empty(), &u), Policy::standard()));
    assert_eq!(plain, joined);
}

#[test]
fn permuted_corpus_gives_same_schema() {
    let vals = vec![num_i(3), float(2.5), st("on"), Json::Null, arr(vec![num_i(1)]), obj(vec![("a", Json::Bool(false))])];
    let forward = infer(&vals, enums_on());
    let mut rev = Vec::new();
    for v in vals.iter().rev() {
        rev.push(match v {
            Json::Number(n) => Json::Number(*n),
            Json::String(s) => Json::String(s.clone()),
            Json::Null => Json::Null,
            Json::Bool(b) => Json::Bool(*b),
            Json::Array(_) => arr(vec![num_i(1)]),
            Json::Object(_) => obj(vec![("a", Json::Bool(false))]),
        });
    }
    assert_eq!(forward, infer(&rev, enums_on()));
}
