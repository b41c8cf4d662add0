//! In-place canonicalization of a lattice point.
use crate::lattice::{
    arr_view, cols_view, field_view, fields_view, obj_view, strings_view, ArrC, ArrModel, FieldC,
    FieldModel, NumC, NumModel, ObjC, ObjModel, StrC, StrModel, U, UModel,
};
use crate::number::{is_finite, is_finite_bits, order_key, total_order_key};
use crate::nty::{decide_tuple, decide_tuple_spec, tiny_enum};
use crate::policy::{Policy, STRING_ENUM_MAX};
use crate::strings::{cache_key_spec, grex_cache_key, synth_regex_with_grex, synth_spec};
use crate::text::{humanish, looks_humanish};
use vstd::prelude::*;

verus! {

/// The literals outside `[min, max]` in `totalOrder`.
pub open spec fn outside_interval(s: Seq<u64>, min: u64, max: u64) -> Seq<u64>
    decreases s.len(),
{
    if s.len() == 0 {
        Seq::empty()
    } else if order_key(min) <= order_key(s.last()) && order_key(s.last()) <= order_key(max) {
        outside_interval(s.drop_last(), min, max)
    } else {
        outside_interval(s.drop_last(), min, max).push(s.last())
    }
}

/// With both bounds finite the interval subsumes the literals: they are
/// dropped, or only those outside it kept when the policy asks.
pub open spec fn normalize_num_model(n: NumModel, p: Policy) -> NumModel {
    if is_finite_bits(n.min) && is_finite_bits(n.max) {
        NumModel {
            lits: if p.keep_num_atoms_outside_interval {
                outside_interval(n.lits, n.min, n.max)
            } else {
                Seq::empty()
            },
            ..n
        }
    } else {
        n
    }
}

/// Tiny enums keep their literals; other strings drop them, after a fresh
/// synthesis when enabled and the cache key no longer matches.
pub open spec fn normalize_str_model(s: StrModel, p: Policy) -> StrModel {
    if tiny_enum(s.lits, p) {
        s
    } else if !s.is_uri {
        if p.enable_grex {
            let key_now = cache_key_spec(s.lits);
            if s.grex_cache_key != Some(key_now) {
                StrModel {
                    lits: Seq::empty(),
                    pattern_synth: synth_spec(s.lits),
                    grex_cache_key: Some(key_now),
                    ..s
                }
            } else {
                StrModel { lits: Seq::empty(), ..s }
            }
        } else {
            StrModel { lits: Seq::empty(), pattern_synth: None, ..s }
        }
    } else {
        StrModel { lits: Seq::empty(), ..s }
    }
}

pub open spec fn normalize_arr_model(a: ArrModel, p: Policy) -> ArrModel
    decreases a,
{
    let item = Box::new(normalize_model(*a.item, p));
    if decide_tuple_spec(a) {
        ArrModel {
            item,
            cols: Seq::new(
                a.cols.len(),
                |i: int|
                    if 0 <= i < a.cols.len() {
                        normalize_model(a.cols[i], p)
                    } else {
                        a.cols[0]
                    },
            ),
            ..a
        }
    } else {
        ArrModel { item, cols: Seq::empty(), present: Seq::empty(), non_null: Seq::empty(), ..a }
    }
}

pub open spec fn normalize_obj_model(o: ObjModel, p: Policy) -> ObjModel
    decreases o,
{
    ObjModel {
        fields: Seq::new(
            o.fields.len(),
            |i: int|
                if 0 <= i < o.fields.len() {
                    (
                        o.fields[i].0,
                        FieldModel { ty: normalize_model(o.fields[i].1.ty, p), ..o.fields[i].1 },
                    )
                } else {
                    o.fields[0]
                },
        ),
        ..o
    }
}

/// The canonical form of a point: every record normalized, arrays decided
/// before their children are visited.
pub open spec fn normalize_model(u: UModel, p: Policy) -> UModel
    decreases u,
{
    UModel {
        num: match u.num {
            Some(n) => Some(normalize_num_model(n, p)),
            None => None,
        },
        str_: match u.str_ {
            Some(s) => Some(normalize_str_model(s, p)),
            None => None,
        },
        arr: match u.arr {
            Some(a) => Some(normalize_arr_model(a, p)),
            None => None,
        },
        obj: match u.obj {
            Some(o) => Some(normalize_obj_model(o, p)),
            None => None,
        },
        ..u
    }
}

fn normalized_num(n: &NumC, p: &Policy) -> (r: NumC)
    ensures
        r.view() == normalize_num_model(n.view(), *p),
{
    let mut lits: Vec<u64> = Vec::new();
    if is_finite(n.min) && is_finite(n.max) {
        if p.keep_num_atoms_outside_interval {
            let lo = total_order_key(n.min);
            let hi = total_order_key(n.max);
            let mut i: usize = 0;
            while i < n.lits.len()
                invariant
                    i <= n.lits@.len(),
                    lo == order_key(n.min),
                    hi == order_key(n.max),
                    lits@ == outside_interval(n.lits@.subrange(0, i as int), n.min, n.max),
                decreases n.lits@.len() - i,
            {
                let x = n.lits[i];
                let k = total_order_key(x);
                assert(n.lits@.subrange(0, i + 1).drop_last() =~= n.lits@.subrange(0, i as int));
                if !(lo <= k && k <= hi) {
                    lits.push(x);
                }
                i = i + 1;
            }
            assert(n.lits@.subrange(0, i as int) =~= n.lits@);
        }
        assert(lits@ =~= normalize_num_model(n.view(), *p).lits);
    } else {
        let c = n.copy();
        lits = c.lits;
    }
    NumC { lits, min: n.min, max: n.max, saw_int: n.saw_int, saw_uint: n.saw_uint, saw_float: n.saw_float }
}

fn normalized_str(s: &StrC, p: &Policy) -> (r: StrC)
    ensures
        r.view() == normalize_str_model(s.view(), *p),
{
    let mut out = s.copy();
    let tiny = if !p.enable_string_enums || s.lits.len() > STRING_ENUM_MAX {
        false
    } else {
        let mut ok = true;
        let mut i: usize = 0;
        while i < s.lits.len()
            invariant
                i <= s.lits@.len(),
                ok == forall|k: int| 0 <= k < i ==> humanish(#[trigger] strings_view(s.lits@)[k]),
            decreases s.lits@.len() - i,
        {
            assert(strings_view(s.lits@)[i as int] == s.lits@[i as int]@);
            if !looks_humanish(s.lits[i].as_str()) {
                ok = false;
            }
            i = i + 1;
        }
        ok
    };
    assert(strings_view(s.lits@).len() == s.lits@.len());
    assert(tiny == tiny_enum(strings_view(s.lits@), *p));
    if tiny {
        return out;
    }
    let empty: Vec<String> = Vec::new();
    assert(strings_view(empty@) =~= Seq::<Seq<char>>::empty());
    if !s.is_uri {
        if p.enable_grex {
            let key_now = grex_cache_key(&s.lits);
            let cached = match s.grex_cache_key {
                Some(k) => k.0 == key_now.0 && k.1 == key_now.1 && k.2 == key_now.2,
                None => false,
            };
            if !cached {
                out.pattern_synth = synth_regex_with_grex(&s.lits);
                out.grex_cache_key = Some(key_now);
            }
        } else {
            out.pattern_synth = None;
        }
    }
    out.lits = empty;
    out
}

fn normalized_arr(a: &ArrC, p: &Policy) -> (r: ArrC)
    ensures
        arr_view(r) == normalize_arr_model(arr_view(*a), *p),
    decreases *a,
{
    let ghost av = arr_view(*a);
    let is_tuple = decide_tuple(a);
    proof {
        assert(decreases_to!(*a => a.item));
    }
    let item = normalized(&a.item, p);
    if !is_tuple {
        let cols: Vec<U> = Vec::new();
        assert(cols_view(cols@) =~= Seq::<UModel>::empty());
        let present: Vec<u64> = Vec::new();
        let non_null: Vec<u64> = Vec::new();
        assert(present@ =~= Seq::<u64>::empty());
        assert(non_null@ =~= Seq::<u64>::empty());
        return ArrC {
            len_min: a.len_min,
            len_max: a.len_max,
            item: Box::new(item),
            cols,
            present,
            non_null,
            samples: a.samples,
        };
    }
    let ghost target = normalize_arr_model(av, *p).cols;
    let mut cols: Vec<U> = Vec::new();
    let mut i: usize = 0;
    while i < a.cols.len()
        invariant
            i <= a.cols@.len(),
            av == arr_view(*a),
            decide_tuple_spec(av),
            target == normalize_arr_model(av, *p).cols,
            cols_view(cols@) == target.subrange(0, i as int),
        decreases a.cols@.len() - i,
    {
        proof {
            vstd::std_specs::vec::axiom_vec_index_decreases(a.cols, i as int);
            assert(decreases_to!(*a => a.cols));
        }
        let c = normalized(&a.cols[i], p);
        let ghost before = cols_view(cols@);
        cols.push(c);
        assert(cols_view(cols@) =~= before.push(c@));
        i = i + 1;
        assert(cols_view(cols@) =~= target.subrange(0, i as int));
    }
    assert(cols_view(cols@) =~= target);
    let c = a.copy();
    ArrC {
        len_min: a.len_min,
        len_max: a.len_max,
        item: Box::new(item),
        cols,
        present: c.present,
        non_null: c.non_null,
        samples: a.samples,
    }
}

fn normalized_obj(o: &ObjC, p: &Policy) -> (r: ObjC)
    ensures
        obj_view(r) == normalize_obj_model(obj_view(*o), *p),
    decreases *o,
{
    let ghost target = normalize_obj_model(obj_view(*o), *p).fields;
    let mut fields: Vec<(String, FieldC)> = Vec::new();
    let mut i: usize = 0;
    while i < o.fields.len()
        invariant
            i <= o.fields@.len(),
            target == normalize_obj_model(obj_view(*o), *p).fields,
            fields_view(fields@) == target.subrange(0, i as int),
        decreases o.fields@.len() - i,
    {
        proof {
            vstd::std_specs::vec::axiom_vec_index_decreases(o.fields, i as int);
            assert(decreases_to!(*o => o.fields));
            assert(decreases_to!(o.fields@[i as int] => o.fields@[i as int].1.ty));
        }
        let f = &o.fields[i];
        let ty = normalized(&f.1.ty, p);
        let entry = (f.0.clone(), FieldC { ty, present_in: f.1.present_in, non_null_in: f.1.non_null_in });
        let ghost before = fields_view(fields@);
        fields.push(entry);
        assert(fields_view(fields@) =~= before.push((entry.0@, field_view(entry.1))));
        i = i + 1;
        assert(fields_view(fields@) =~= target.subrange(0, i as int));
    }
    assert(fields_view(fields@) =~= target);
    ObjC { fields, seen_objects: o.seen_objects }
}

/// The canonical form of a point, as a new point.
pub fn normalized(u: &U, p: &Policy) -> (r: U)
    ensures
        r@ == normalize_model(u@, *p),
    decreases *u,
{
    U {
        nullable: u.nullable,
        has_bool: u.has_bool,
        num: match &u.num {
            Some(n) => Some(normalized_num(n, p)),
            None => None,
        },
        str_: match &u.str_ {
            Some(s) => Some(normalized_str(s, p)),
            None => None,
        },
        arr: match &u.arr {
            Some(a) => {
                proof {
                    assert(decreases_to!(*u => u.arr));
                }
                Some(normalized_arr(a, p))
            },
            None => None,
        },
        obj: match &u.obj {
            Some(o) => {
                proof {
                    assert(decreases_to!(*u => u.obj));
                }
                Some(normalized_obj(o, p))
            },
            None => None,
        },
    }
}

/// Canonicalize a point in place.
pub fn normalize2_mut(u: &mut U, p: &Policy)
    ensures
        final(u)@ == normalize_model(old(u)@, *p),
{
    let n = normalized(u, p);
    *u = n;
}

} // verus!
