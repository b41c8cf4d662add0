use json_osi::ir::{lower_from_norm, lower_to_ir, normalize_and_lower, simplify_unions, Ty};
use json_osi::json::{Json, JsonNumber};
use json_osi::lattice::U;
use json_osi::nty::{normalize_to_norm_consume, simplify_norm_unions, NTy};
use json_osi::observe::observe_value;
use json_osi::policy::Policy;

fn num_i(i: i64) -> Json {
    Json::Number(JsonNumber::Int(i))
}

fn fold(values: &[Json]) -> U {
    let mut u = U::empty();
    for v in values {
        u = U::join(&u, &observe_value(v));
    }
    u
}

#[test]
fn lowering_keeps_the_tree() {
    let vals = [
        Json::Object(vec![("b".to_string(), num_i(1)), ("a".to_string(), Json::Null)]),
        Json::Object(vec![("b".to_string(), num_i(7))]),
    ];
    let n = normalize_to_norm_consume(fold(&vals), Policy::standard());
    let t = lower_from_norm(&n);
    assert_eq!(format!("{:?}", n).replace("NField", "Field"), format!("{:?}", t));
    let t2 = normalize_and_lower(fold(&vals), Policy::standard());
    assert_eq!(format!("{:?}", t), format!("{:?}", t2));
}

#[test]
fn direct_lowering_treats_columns_as_tuple() {
    let u = observe_value(&Json::Array(vec![num_i(1), Json::String("a".to_string())]));
    match lower_to_ir(&u) {
        Ty::ArrayTuple { elems, min_items, max_items } => {
            assert_eq!(elems.len(), 2);
            assert_eq!(min_items, 2);
            assert_eq!(max_items, 2);
        }
        other => panic!("unexpected {:?}", other),
    }
}

#[test]
fn direct_lowering_keeps_string_literals() {
    let u = fold(&[Json::String("b".to_string()), Json::String("a".to_string())]);
    match lower_to_ir(&u) {
        Ty::String { enum_, pattern, format_uri } => {
            assert_eq!(enum_, vec!["a".to_string(), "b".to_string()]);
            assert!(pattern.is_none());
            assert!(!format_uri);
        }
        other => panic!("unexpected {:?}", other),
    }
}

#[test]
fn direct_lowering_wraps_nullable() {
    let u = fold(&[num_i(2), Json::Null]);
    match lower_to_ir(&u) {
        Ty::Nullable(inner) => assert!(matches!(*inner, Ty::Integer { min: Some(2), max: Some(2) })),
        other => panic!("unexpected {:?}", other),
    }
    assert!(matches!(lower_to_ir(&observe_value(&Json::Null)), Ty::Null));
}

#[test]
fn unions_hoist_null() {
    let t = simplify_unions(vec![Ty::Bool, Ty::Null, Ty::Integer { min: None, max: None }]);
    match t {
        Ty::Nullable(inner) => match *inner {
            Ty::OneOf(arms) => assert_eq!(arms.len(), 2),
            other => panic!("unexpected {:?}", other),
        },
        other => panic!("unexpected {:?}", other),
    }
    assert!(matches!(simplify_norm_unions(vec![NTy::Null, NTy::Bool]), NTy::Nullable(_)));
    assert!(matches!(simplify_norm_unions(vec![NTy::Null, NTy::Null]), NTy::Nullable(_)));
}
