//! Observation: a single JSON value as a point of the lattice.
use crate::join::find_field;
use crate::json::{json_members_view, json_seq_view, number_double, Json, JsonModel, JsonNumber};
use crate::lattice::{
    cols_view, empty_model, exact_null_model, field_index, field_view, fields_view, join_model,
    strings_view, ArrC, ArrModel, FieldC, FieldModel, NumC, NumModel, ObjC, ObjModel, StrC,
    StrModel, U, UModel,
};
use crate::text::{looks_like_uri, uri_prefixed};
use vstd::prelude::*;

verus! {

/// A number observed alone: its double, as literal and as both bounds.
pub open spec fn num_point(n: JsonNumber) -> NumModel {
    let d = number_double(n);
    NumModel {
        lits: seq![d],
        min: d,
        max: d,
        saw_int: match n {
            JsonNumber::Int(_) => true,
            JsonNumber::UInt(u) => u <= i64::MAX,
            JsonNumber::Float(_) => false,
        },
        saw_uint: match n {
            JsonNumber::UInt(u) => u > i64::MAX,
            _ => false,
        },
        saw_float: n is Float,
    }
}

pub open spec fn str_point(s: Seq<char>) -> StrModel {
    StrModel { lits: seq![s], is_uri: uri_prefixed(s), pattern_synth: None, grex_cache_key: None }
}

/// Left fold of `join_model` over the points, from the bottom.
pub open spec fn join_all(s: Seq<UModel>) -> UModel
    decreases s.len(),
{
    if s.len() == 0 {
        empty_model()
    } else {
        join_model(join_all(s.drop_last()), s.last())
    }
}

pub open spec fn observe_all(xs: Seq<JsonModel>) -> Seq<UModel>
    decreases xs,
{
    Seq::new(xs.len(), |i: int| if 0 <= i < xs.len() { observe_model(xs[i]) } else { empty_model() })
}

/// An array observed alone, given its elements' points: one sample, every
/// position present once.
pub open spec fn array_point(xs: Seq<JsonModel>, obs: Seq<UModel>) -> ArrModel {
    ArrModel {
        len_min: #[verifier::truncate] (xs.len() as u32),
        len_max: #[verifier::truncate] (xs.len() as u32),
        item: Box::new(join_all(obs)),
        cols: obs,
        present: Seq::new(xs.len(), |i: int| 1u64),
        non_null: Seq::new(xs.len(), |i: int| if xs[i] is Null { 0u64 } else { 1u64 }),
        samples: 1,
    }
}

/// The fields of an object observed alone. A repeated name replaces the
/// earlier member's evidence in place.
pub open spec fn observe_members(ms: Seq<(Seq<char>, JsonModel)>) -> Seq<(Seq<char>, FieldModel)>
    decreases ms,
{
    if ms.len() == 0 {
        Seq::empty()
    } else {
        let prev = observe_members(ms.subrange(0, ms.len() - 1));
        let k = ms[ms.len() - 1].0;
        let v = ms[ms.len() - 1].1;
        let f = FieldModel {
            ty: observe_model(v),
            present_in: 1,
            non_null_in: if v is Null {
                0
            } else {
                1
            },
        };
        let at = field_index(prev, k);
        if at >= 0 {
            prev.update(at, (k, f))
        } else {
            prev.push((k, f))
        }
    }
}

/// A single value as a point of the lattice.
pub open spec fn observe_model(j: JsonModel) -> UModel
    decreases j,
{
    match j {
        JsonModel::Null => exact_null_model(),
        JsonModel::Bool(_) => UModel { has_bool: true, ..empty_model() },
        JsonModel::Number(n) => UModel { num: Some(num_point(n)), ..empty_model() },
        JsonModel::String(s) => UModel { str_: Some(str_point(s)), ..empty_model() },
        JsonModel::Array(xs) => UModel { arr: Some(array_point(xs, observe_all(xs))), ..empty_model() },
        JsonModel::Object(ms) => UModel {
            obj: Some(ObjModel { fields: observe_members(ms), seen_objects: 1 }),
            ..empty_model()
        },
    }
}

fn observe_number(n: &JsonNumber) -> (r: NumC)
    ensures
        r.view() == num_point(*n),
{
    let d = n.to_double();
    let mut lits: Vec<u64> = Vec::new();
    lits.push(d);
    assert(lits@ =~= seq![d]);
    NumC {
        lits,
        min: d,
        max: d,
        saw_int: match n {
            JsonNumber::Int(_) => true,
            JsonNumber::UInt(u) => *u <= i64::MAX as u64,
            JsonNumber::Float(_) => false,
        },
        saw_uint: match n {
            JsonNumber::UInt(u) => *u > i64::MAX as u64,
            _ => false,
        },
        saw_float: match n {
            JsonNumber::Float(_) => true,
            _ => false,
        },
    }
}

fn observe_string(s: &String) -> (r: StrC)
    ensures
        r.view() == str_point(s@),
{
    let mut lits: Vec<String> = Vec::new();
    lits.push(s.clone());
    assert(strings_view(lits@) =~= seq![s@]);
    StrC { lits, is_uri: looks_like_uri(s.as_str()), pattern_synth: None, grex_cache_key: None }
}

fn observe_array(xs: &Vec<Json>) -> (r: ArrC)
    ensures
        r.view() == array_point(json_seq_view(xs@), observe_all(json_seq_view(xs@))),
    decreases xs,
{
    let ghost xv = json_seq_view(xs@);
    let ghost obs = observe_all(xv);
    let mut item = U::empty();
    let mut cols: Vec<U> = Vec::new();
    let mut present: Vec<u64> = Vec::new();
    let mut non_null: Vec<u64> = Vec::new();
    let mut i: usize = 0;
    while i < xs.len()
        invariant
            i <= xs@.len(),
            xv == json_seq_view(xs@),
            obs == observe_all(xv),
            item@ == join_all(obs.subrange(0, i as int)),
            cols_view(cols@) == obs.subrange(0, i as int),
            present@ == Seq::new(xv.len(), |k: int| 1u64).subrange(0, i as int),
            non_null@ == Seq::new(xv.len(), |k: int| if xv[k] is Null { 0u64 } else { 1u64 }).subrange(0, i as int),
        decreases xs@.len() - i,
    {
        proof {
            vstd::std_specs::vec::axiom_vec_index_decreases(*xs, i as int);
        }
        assert(xv[i as int] == xs@[i as int]@);
        let o = observe_value(&xs[i]);
        let c = observe_value(&xs[i]);
        item = U::join(&item, &o);
        assert(obs.subrange(0, i + 1).drop_last() =~= obs.subrange(0, i as int));
        let ghost before = cols@;
        cols.push(c);
        assert(cols_view(cols@) =~= cols_view(before).push(c@));
        present.push(1);
        let nn: u64 = match &xs[i] {
            Json::Null => 0,
            _ => 1,
        };
        non_null.push(nn);
        i = i + 1;
        assert(cols_view(cols@) =~= obs.subrange(0, i as int));
        assert(present@ =~= Seq::new(xv.len(), |k: int| 1u64).subrange(0, i as int));
        assert(non_null@ =~= Seq::new(xv.len(), |k: int| if xv[k] is Null { 0u64 } else { 1u64 }).subrange(0, i as int));
    }
    assert(obs.subrange(0, i as int) =~= obs);
    assert(present@ =~= Seq::new(xv.len(), |k: int| 1u64));
    assert(non_null@ =~= Seq::new(xv.len(), |k: int| if xv[k] is Null { 0u64 } else { 1u64 }));
    let len = #[verifier::truncate] (xs.len() as u32);
    ArrC { len_min: len, len_max: len, item: Box::new(item), cols, present, non_null, samples: 1 }
}

fn observe_object(ms: &Vec<(String, Json)>) -> (r: ObjC)
    ensures
        r.view() == (ObjModel { fields: observe_members(json_members_view(ms@)), seen_objects: 1 }),
    decreases ms,
{
    let ghost mv = json_members_view(ms@);
    let mut fields: Vec<(String, FieldC)> = Vec::new();
    let mut i: usize = 0;
    while i < ms.len()
        invariant
            i <= ms@.len(),
            mv == json_members_view(ms@),
            fields_view(fields@) == observe_members(mv.subrange(0, i as int)),
        decreases ms@.len() - i,
    {
        proof {
            vstd::std_specs::vec::axiom_vec_index_decreases(*ms, i as int);
            assert(decreases_to!(ms@[i as int] => ms@[i as int].1));
        }
        let m = &ms[i];
        let ty = observe_value(&m.1);
        let nn: u64 = match &m.1 {
            Json::Null => 0,
            _ => 1,
        };
        let entry = (m.0.clone(), FieldC { ty, present_in: 1, non_null_in: nn });
        let ghost before = fields_view(fields@);
        assert(mv.subrange(0, i + 1).subrange(0, i as int) =~= mv.subrange(0, i as int));
        assert(mv.subrange(0, i + 1)[i as int] == (m.0@, m.1@));
        match find_field(&fields, &m.0) {
            Some(j) => {
                fields.set(j, entry);
                assert(fields_view(fields@) =~= before.update(j as int, (entry.0@, field_view(entry.1))));
            },
            None => {
                fields.push(entry);
                assert(fields_view(fields@) =~= before.push((entry.0@, field_view(entry.1))));
            },
        }
        i = i + 1;
    }
    assert(mv.subrange(0, i as int) =~= mv);
    ObjC { fields, seen_objects: 1 }
}

/// Observe a single JSON value.
pub fn observe_value(v: &Json) -> (r: U)
    ensures
        r@ == observe_model(v@),
    decreases v,
{
    let mut u = U::empty();
    match v {
        Json::Null => {
            u.nullable = true;
        },
        Json::Bool(_) => {
            u.has_bool = true;
        },
        Json::Number(n) => {
            u.num = Some(observe_number(n));
        },
        Json::String(s) => {
            u.str_ = Some(observe_string(s));
        },
        Json::Array(xs) => {
            proof {
                assert(decreases_to!(*v => v->Array_0));
            }
            u.arr = Some(observe_array(xs));
        },
        Json::Object(ms) => {
            proof {
                assert(decreases_to!(*v => v->Object_0));
            }
            u.obj = Some(observe_object(ms));
        },
    }
    u
}

} // verus!
