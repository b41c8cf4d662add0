//! The normalized IR and its construction from a lattice point.
use crate::json::Double;
use crate::lattice::{
    arr_view, cols_view, count_at, fields_view, obj_view, strings_view, ArrC, ArrModel, NumC,
    NumModel, ObjC, ObjModel, StrC, StrModel, U, UModel,
};
use crate::number::{integral_to_i64, integral_value, is_finite, is_finite_bits, is_integral, is_integral_bits, saturate_i64};
use crate::policy::{Policy, STRING_ENUM_MAX};
use crate::strings::{cache_key_spec, grex_cache_key, opt_view, sort_strings, sorted_copy, synth_regex_with_grex, synth_spec};
use crate::text::{humanish, looks_humanish, str_less, str_lt};
use vstd::prelude::*;

verus! {

/// The canonical shape of a corpus after normalization.
#[derive(Debug)]
#[allow(inconsistent_fields)]
pub enum NTy {
    Null,
    Bool,
    Integer { min: Option<i64>, max: Option<i64> },
    Number { min: Option<Double>, max: Option<Double> },
    String { enum_: Vec<String>, pattern: Option<String>, format_uri: bool },
    ArrayList { item: Box<NTy>, min_items: Option<u32>, max_items: Option<u32> },
    ArrayTuple { elems: Vec<NTy>, min_items: u32, max_items: u32 },
    Object { fields: Vec<NField> },
    Nullable(Box<NTy>),
    OneOf(Vec<NTy>),
}

#[derive(Debug)]
pub struct NField {
    pub name: String,
    pub ty: NTy,
    pub required: bool,
}

/// The mathematical form of [`NTy`].
#[allow(inconsistent_fields)]
pub enum NModel {
    Null,
    Bool,
    Integer { min: Option<i64>, max: Option<i64> },
    Number { min: Option<Double>, max: Option<Double> },
    String { enum_: Seq<Seq<char>>, pattern: Option<Seq<char>>, format_uri: bool },
    ArrayList { item: Box<NModel>, min_items: Option<u32>, max_items: Option<u32> },
    ArrayTuple { elems: Seq<NModel>, min_items: u32, max_items: u32 },
    Object { fields: Seq<NFieldModel> },
    Nullable(Box<NModel>),
    OneOf(Seq<NModel>),
}

pub struct NFieldModel {
    pub name: Seq<char>,
    pub ty: NModel,
    pub required: bool,
}

pub open spec fn ntys_view(s: Seq<NTy>) -> Seq<NModel>
    decreases s,
{
    Seq::new(s.len(), |i: int| if 0 <= i < s.len() { s[i].view() } else { NModel::Null })
}

pub open spec fn nfields_view(s: Seq<NField>) -> Seq<NFieldModel>
    decreases s,
{
    Seq::new(
        s.len(),
        |i: int|
            if 0 <= i < s.len() {
                NFieldModel { name: s[i].name@, ty: s[i].ty.view(), required: s[i].required }
            } else {
                NFieldModel { name: Seq::empty(), ty: NModel::Null, required: false }
            },
    )
}

impl NTy {
    pub open spec fn view(&self) -> NModel
        decreases self,
    {
        match self {
            NTy::Null => NModel::Null,
            NTy::Bool => NModel::Bool,
            NTy::Integer { min, max } => NModel::Integer { min: *min, max: *max },
            NTy::Number { min, max } => NModel::Number { min: *min, max: *max },
            NTy::String { enum_, pattern, format_uri } => NModel::String {
                enum_: strings_view(enum_@),
                pattern: opt_view(*pattern),
                format_uri: *format_uri,
            },
            NTy::ArrayList { item, min_items, max_items } => NModel::ArrayList {
                item: Box::new(item.view()),
                min_items: *min_items,
                max_items: *max_items,
            },
            NTy::ArrayTuple { elems, min_items, max_items } => NModel::ArrayTuple {
                elems: ntys_view(elems@),
                min_items: *min_items,
                max_items: *max_items,
            },
            NTy::Object { fields } => NModel::Object { fields: nfields_view(fields@) },
            NTy::Nullable(inner) => NModel::Nullable(Box::new(inner.view())),
            NTy::OneOf(arms) => NModel::OneOf(ntys_view(arms@)),
        }
    }
}

// ------------------------------ tuple decision ------------------------------

/// Some column was present in every array and always null.
pub open spec fn has_null_pad(a: ArrModel) -> bool {
    exists|i: int|
        0 <= i < a.cols.len() && #[trigger] count_at(a.present, i) == a.samples && count_at(
            a.non_null,
            i,
        ) == 0
}

/// Tuple iff at least two samples, some columns, and either one length for
/// every array or a null pad column.
pub open spec fn decide_tuple_spec(a: ArrModel) -> bool {
    a.samples >= 2 && a.cols.len() > 0 && ((a.len_min == a.len_max && a.len_max > 0) || has_null_pad(a))
}

/// Largest index below `n` whose column was present in every array, or -1.
pub open spec fn last_required(a: ArrModel, n: int) -> int
    decreases n,
{
    if n <= 0 {
        -1
    } else if count_at(a.present, n - 1) == a.samples {
        n - 1
    } else {
        last_required(a, n - 1)
    }
}

pub open spec fn tuple_min_items_spec(a: ArrModel) -> u32 {
    #[verifier::truncate] ((last_required(a, a.cols.len() as int) + 1) as u32)
}

/// Whether the array evidence proves a tuple.
pub fn decide_tuple(arr: &ArrC) -> (r: bool)
    ensures
        r == decide_tuple_spec(arr.view()),
{
    let ghost a = arr.view();
    if arr.samples < 2 {
        return false;
    }
    if arr.cols.len() == 0 {
        return false;
    }
    if arr.len_min == arr.len_max && arr.len_max > 0 {
        return true;
    }
    let n = arr.cols.len();
    let mut i: usize = 0;
    while i < n
        invariant
            n == a.cols.len(),
            a == arr.view(),
            i <= n,
            a.samples >= 2,
            n > 0,
            !(a.len_min == a.len_max && a.len_max > 0),
            forall|k: int| 0 <= k < i ==> !(#[trigger] count_at(a.present, k) == a.samples && count_at(a.non_null, k) == 0),
        decreases n - i,
    {
        let present = if i < arr.present.len() {
            arr.present[i]
        } else {
            0
        };
        let non_null = if i < arr.non_null.len() {
            arr.non_null[i]
        } else {
            0
        };
        if present == arr.samples && non_null == 0 {
            assert(count_at(a.present, i as int) == a.samples && count_at(a.non_null, i as int) == 0);
            assert(has_null_pad(a));
            return true;
        }
        i = i + 1;
    }
    false
}

/// One more than the last column present in every array (0 if none).
pub fn tuple_min_items_arr(arr: &ArrC) -> (r: u32)
    ensures
        r == tuple_min_items_spec(arr.view()),
{
    let ghost a = arr.view();
    let mut last: Option<usize> = None;
    let mut i: usize = 0;
    while i < arr.cols.len()
        invariant
            a == arr.view(),
            i <= a.cols.len(),
            last_required(a, i as int) == match last {
                Some(l) => l as int,
                None => -1,
            },
            last matches Some(l) ==> l < i,
        decreases a.cols.len() - i,
    {
        let present = if i < arr.present.len() {
            arr.present[i]
        } else {
            0
        };
        if present == arr.samples {
            last = Some(i);
        }
        i = i + 1;
    }
    match last {
        Some(l) => #[verifier::truncate] ((l as u64 + 1) as u32),
        None => 0,
    }
}

// ------------------------------ normalization, as mathematics ------------------------------

/// Integer-shaped evidence: only integers seen, both bounds integral.
pub open spec fn integerish(n: NumModel) -> bool {
    (n.saw_int || n.saw_uint) && !n.saw_float && is_integral_bits(n.min) && is_integral_bits(n.max)
}

pub open spec fn num_arm(n: NumModel) -> NModel {
    if integerish(n) {
        NModel::Integer {
            min: Some(saturate_i64(integral_value(n.min))),
            max: Some(saturate_i64(integral_value(n.max))),
        }
    } else {
        NModel::Number {
            min: if is_finite_bits(n.min) {
                Some(Double::of_bits(n.min))
            } else {
                None
            },
            max: if is_finite_bits(n.max) {
                Some(Double::of_bits(n.max))
            } else {
                None
            },
        }
    }
}

/// Few, short, human-readable literals, with enums enabled.
pub open spec fn tiny_enum(lits: Seq<Seq<char>>, p: Policy) -> bool {
    p.enable_string_enums && lits.len() <= STRING_ENUM_MAX && forall|i: int|
        0 <= i < lits.len() ==> humanish(#[trigger] lits[i])
}

/// The pattern a string node gets: the cached one if the cache key still
/// matches the literals, else a fresh synthesis.
pub open spec fn pattern_for(s: StrModel, p: Policy) -> Option<Seq<char>> {
    if !p.enable_grex {
        None
    } else if s.grex_cache_key == Some(cache_key_spec(s.lits)) {
        s.pattern_synth
    } else {
        synth_spec(s.lits)
    }
}

pub open spec fn str_arm(s: StrModel, p: Policy) -> NModel {
    if tiny_enum(s.lits, p) && s.lits.len() > 0 {
        NModel::String { enum_: sort_strings(s.lits), pattern: None, format_uri: s.is_uri }
    } else if !s.is_uri {
        NModel::String { enum_: Seq::empty(), pattern: pattern_for(s, p), format_uri: false }
    } else {
        NModel::String { enum_: Seq::empty(), pattern: None, format_uri: true }
    }
}

/// Position after the fields named no later than `x`.
pub open spec fn field_insert_pos(s: Seq<NFieldModel>, x: NFieldModel) -> int
    decreases s.len(),
{
    if s.len() == 0 {
        0
    } else if str_lt(x.name, s[0].name) {
        0
    } else {
        1 + field_insert_pos(s.drop_first(), x)
    }
}

/// Stable insertion sort by name.
pub open spec fn sort_fields(s: Seq<NFieldModel>) -> Seq<NFieldModel>
    decreases s.len(),
{
    if s.len() == 0 {
        s
    } else {
        let t = sort_fields(s.drop_last());
        t.insert(field_insert_pos(t, s.last()), s.last())
    }
}

pub open spec fn arr_arm(a: ArrModel, p: Policy) -> NModel
    decreases a, 0int,
{
    if decide_tuple_spec(a) {
        let max_items = #[verifier::truncate] (a.cols.len() as u32);
        NModel::ArrayTuple {
            elems: Seq::new(
                a.cols.len(),
                |i: int|
                    if 0 <= i < a.cols.len() {
                        norm_model(a.cols[i], p)
                    } else {
                        NModel::Null
                    },
            ),
            min_items: if a.len_min == a.len_max && a.len_max > 0 {
                max_items
            } else {
                tuple_min_items_spec(a)
            },
            max_items,
        }
    } else {
        NModel::ArrayList {
            item: Box::new(norm_model(*a.item, p)),
            min_items: Some(a.len_min),
            max_items: Some(a.len_max),
        }
    }
}

/// The fields of an object node, before sorting.
pub open spec fn field_models(o: ObjModel, p: Policy) -> Seq<NFieldModel>
    decreases o, 0int,
{
    Seq::new(
        o.fields.len(),
        |i: int|
            if 0 <= i < o.fields.len() {
                NFieldModel {
                    name: o.fields[i].0,
                    ty: norm_model(o.fields[i].1.ty, p),
                    required: o.fields[i].1.non_null_in == o.seen_objects,
                }
            } else {
                NFieldModel { name: Seq::empty(), ty: NModel::Null, required: false }
            },
    )
}

pub open spec fn obj_arm(o: ObjModel, p: Policy) -> NModel
    decreases o, 1int,
{
    NModel::Object { fields: sort_fields(field_models(o, p)) }
}

/// A union with its null arms taken out and hoisted into `Nullable`.
/// The arms that are not `Null`, in order.
pub open spec fn drop_nulls(s: Seq<NModel>) -> Seq<NModel>
    decreases s.len(),
{
    if s.len() == 0 {
        Seq::empty()
    } else if s.last() is Null {
        drop_nulls(s.drop_last())
    } else {
        drop_nulls(s.drop_last()).push(s.last())
    }
}

pub open spec fn simplify_model(arms: Seq<NModel>) -> NModel {
    let kept = drop_nulls(arms);
    let core = if kept.len() == 0 {
        NModel::Null
    } else if kept.len() == 1 {
        kept[0]
    } else {
        NModel::OneOf(kept)
    };
    if kept.len() < arms.len() {
        NModel::Nullable(Box::new(core))
    } else {
        core
    }
}

/// The arms of a point, in the order arrays, objects, numbers, strings, bool.
pub open spec fn arms_model(u: UModel, p: Policy) -> Seq<NModel>
    decreases u, 0int,
{
    (match u.arr {
        Some(a) => seq![arr_arm(a, p)],
        None => Seq::empty(),
    }) + (match u.obj {
        Some(o) => seq![obj_arm(o, p)],
        None => Seq::empty(),
    }) + (match u.num {
        Some(n) => seq![num_arm(n)],
        None => Seq::empty(),
    }) + (match u.str_ {
        Some(s) => seq![str_arm(s, p)],
        None => Seq::empty(),
    }) + (if u.has_bool {
        seq![NModel::Bool]
    } else {
        Seq::empty()
    })
}

/// The normalized IR of a point.
pub open spec fn norm_model(u: UModel, p: Policy) -> NModel
    decreases u, 1int,
{
    if u.nullable && !u.has_bool && u.num is None && u.str_ is None && u.arr is None && u.obj is None {
        NModel::Null
    } else {
        let arms = arms_model(u, p);
        let core = if arms.len() == 0 {
            NModel::Null
        } else if arms.len() == 1 {
            arms[0]
        } else {
            simplify_model(arms)
        };
        if u.nullable && !(core is Null) {
            NModel::Nullable(Box::new(core))
        } else {
            core
        }
    }
}

// ------------------------------ normalization ------------------------------

pub(crate) fn num_arm_exec(n: &NumC) -> (r: NTy)
    ensures
        r@ == num_arm(n.view()),
{
    if (n.saw_int || n.saw_uint) && !n.saw_float && is_integral(n.min) && is_integral(n.max) {
        NTy::Integer { min: Some(integral_to_i64(n.min)), max: Some(integral_to_i64(n.max)) }
    } else {
        let min = if is_finite(n.min) {
            Double::from_bits(n.min)
        } else {
            None
        };
        let max = if is_finite(n.max) {
            Double::from_bits(n.max)
        } else {
            None
        };
        NTy::Number { min, max }
    }
}

fn is_tiny_enum(lits: &Vec<String>, p: &Policy) -> (r: bool)
    ensures
        r == tiny_enum(strings_view(lits@), *p),
{
    if !p.enable_string_enums || lits.len() > STRING_ENUM_MAX {
        return false;
    }
    let mut i: usize = 0;
    while i < lits.len()
        invariant
            i <= lits@.len(),
            forall|k: int| 0 <= k < i ==> humanish(#[trigger] strings_view(lits@)[k]),
        decreases lits@.len() - i,
    {
        assert(strings_view(lits@)[i as int] == lits@[i as int]@);
        if !looks_humanish(lits[i].as_str()) {
            return false;
        }
        i = i + 1;
    }
    true
}

fn str_arm_exec(s: &StrC, p: &Policy) -> (r: NTy)
    ensures
        r@ == str_arm(s.view(), *p),
{
    assert(strings_view(s.lits@).len() == s.lits@.len());
    if is_tiny_enum(&s.lits, p) && s.lits.len() > 0 {
        NTy::String { enum_: sorted_copy(&s.lits), pattern: None, format_uri: s.is_uri }
    } else if !s.is_uri {
        let pattern = if !p.enable_grex {
            None
        } else {
            let key_now = grex_cache_key(&s.lits);
            let cached = match s.grex_cache_key {
                Some(k) => k.0 == key_now.0 && k.1 == key_now.1 && k.2 == key_now.2,
                None => false,
            };
            if cached {
                match &s.pattern_synth {
                    Some(x) => Some(x.clone()),
                    None => None,
                }
            } else {
                synth_regex_with_grex(&s.lits)
            }
        };
        let empty: Vec<String> = Vec::new();
        assert(strings_view(empty@) =~= Seq::<Seq<char>>::empty());
        NTy::String { enum_: empty, pattern, format_uri: false }
    } else {
        let empty: Vec<String> = Vec::new();
        assert(strings_view(empty@) =~= Seq::<Seq<char>>::empty());
        NTy::String { enum_: empty, pattern: None, format_uri: true }
    }
}

proof fn lemma_field_insert_pos(s: Seq<NFieldModel>, x: NFieldModel)
    ensures
        0 <= field_insert_pos(s, x) <= s.len(),
    decreases s.len(),
{
    if s.len() > 0 {
        lemma_field_insert_pos(s.drop_first(), x);
    }
}

pub(crate) fn field_position(s: &Vec<NField>, x: &NField) -> (r: usize)
    ensures
        r <= s@.len(),
        r as int == field_insert_pos(
            nfields_view(s@),
            NFieldModel { name: x.name@, ty: x.ty@, required: x.required },
        ),
{
    let ghost sv = nfields_view(s@);
    let ghost xv = NFieldModel { name: x.name@, ty: x.ty@, required: x.required };
    proof {
        lemma_field_insert_pos(sv, xv);
    }
    let mut i: usize = 0;
    assert(sv.subrange(0, sv.len() as int) =~= sv);
    while i < s.len()
        invariant
            i <= s@.len(),
            sv == nfields_view(s@),
            xv == (NFieldModel { name: x.name@, ty: x.ty@, required: x.required }),
            field_insert_pos(sv, xv) == i + field_insert_pos(sv.subrange(i as int, sv.len() as int), xv),
            field_insert_pos(sv, xv) <= sv.len(),
        decreases s@.len() - i,
    {
        let ghost rest = sv.subrange(i as int, sv.len() as int);
        assert(rest[0].name == s@[i as int].name@);
        if str_less(x.name.as_str(), s[i].name.as_str()) {
            return i;
        }
        assert(rest.drop_first() =~= sv.subrange(i + 1, sv.len() as int));
        i = i + 1;
    }
    i
}

fn arr_arm_exec(a: &ArrC, p: &Policy) -> (r: NTy)
    ensures
        r@ == arr_arm(arr_view(*a), *p),
    decreases *a, 0int,
{
    let ghost av = arr_view(*a);
    if decide_tuple(a) {
        let ghost target = Seq::new(
            av.cols.len(),
            |i: int|
                if 0 <= i < av.cols.len() {
                    norm_model(av.cols[i], *p)
                } else {
                    NModel::Null
                },
        );
        let mut elems: Vec<NTy> = Vec::new();
        let mut i: usize = 0;
        while i < a.cols.len()
            invariant
                i <= a.cols@.len(),
                av == arr_view(*a),
                av.cols == cols_view(a.cols@),
                target == Seq::new(
                    av.cols.len(),
                    |i: int|
                        if 0 <= i < av.cols.len() {
                            norm_model(av.cols[i], *p)
                        } else {
                            NModel::Null
                        },
                ),
                ntys_view(elems@) == target.subrange(0, i as int),
            decreases a.cols@.len() - i,
        {
            proof {
                vstd::std_specs::vec::axiom_vec_index_decreases(a.cols, i as int);
                assert(decreases_to!(*a => a.cols));
            }
            let e = normalize_ref(&a.cols[i], p);
            let ghost before = ntys_view(elems@);
            elems.push(e);
            assert(ntys_view(elems@) =~= before.push(e@));
            i = i + 1;
            assert(ntys_view(elems@) =~= target.subrange(0, i as int));
        }
        assert(ntys_view(elems@) =~= target);
        assert(elems@.len() == av.cols.len());
        assert(ntys_view(elems@) =~= arr_arm(av, *p)->ArrayTuple_elems);
        let max_items = #[verifier::truncate] (elems.len() as u32);
        let min_items = if a.len_min == a.len_max && a.len_max > 0 {
            max_items
        } else {
            tuple_min_items_arr(a)
        };
        NTy::ArrayTuple { elems, min_items, max_items }
    } else {
        proof {
            assert(decreases_to!(*a => a.item));
        }
        let item = normalize_ref(&a.item, p);
        NTy::ArrayList { item: Box::new(item), min_items: Some(a.len_min), max_items: Some(a.len_max) }
    }
}

fn obj_arm_exec(o: &ObjC, p: &Policy) -> (r: NTy)
    ensures
        r@ == obj_arm(obj_view(*o), *p),
    decreases *o, 1int,
{
    let ghost ov = obj_view(*o);
    let ghost unsorted = field_models(ov, *p);
    let mut fields: Vec<NField> = Vec::new();
    let mut i: usize = 0;
    while i < o.fields.len()
        invariant
            i <= o.fields@.len(),
            ov == obj_view(*o),
            ov.fields == fields_view(o.fields@),
            unsorted == field_models(ov, *p),
            nfields_view(fields@) == sort_fields(unsorted.subrange(0, i as int)),
        decreases o.fields@.len() - i,
    {
        proof {
            vstd::std_specs::vec::axiom_vec_index_decreases(o.fields, i as int);
            assert(decreases_to!(*o => o.fields));
            assert(decreases_to!(o.fields@[i as int] => o.fields@[i as int].1.ty));
        }
        let f = &o.fields[i];
        let ty = normalize_ref(&f.1.ty, p);
        let nf = NField { name: f.0.clone(), ty, required: f.1.non_null_in == o.seen_objects };
        let ghost nfv = NFieldModel { name: nf.name@, ty: nf.ty@, required: nf.required };
        assert(unsorted.subrange(0, i + 1).drop_last() =~= unsorted.subrange(0, i as int));
        assert(unsorted.subrange(0, i + 1).last() == nfv);
        let pos = field_position(&fields, &nf);
        let ghost before = nfields_view(fields@);
        fields.insert(pos, nf);
        assert(nfields_view(fields@) =~= before.insert(pos as int, nfv));
        i = i + 1;
    }
    assert(unsorted.subrange(0, i as int) =~= unsorted);
    NTy::Object { fields }
}

/// Take the null arms out of a union and hoist them into `Nullable`.
pub fn simplify_norm_unions(arms: Vec<NTy>) -> (r: NTy)
    ensures
        r@ == simplify_model(ntys_view(arms@)),
{
    let ghost all = ntys_view(arms@);
    let mut rest = arms;
    let mut kept: Vec<NTy> = Vec::new();
    let mut i: usize = 0;
    let n = rest.len();
    while i < n
        invariant
            i <= n,
            n == all.len(),
            rest@.len() == n - i,
            ntys_view(rest@) == all.subrange(i as int, n as int),
            ntys_view(kept@) == drop_nulls(all.subrange(0, i as int)),
        decreases n - i,
    {
        let ghost before_rest = ntys_view(rest@);
        let t = rest.remove(0);
        assert(t@ == before_rest[0]);
        assert(ntys_view(rest@) =~= before_rest.drop_first());
        assert(all.subrange(0, i + 1).drop_last() =~= all.subrange(0, i as int));
        assert(all.subrange(0, i + 1).last() == t@);
        let is_null = match t {
            NTy::Null => true,
            _ => false,
        };
        if !is_null {
            let ghost before = ntys_view(kept@);
            kept.push(t);
            assert(ntys_view(kept@) =~= before.push(t@));
        }
        i = i + 1;
        assert(all.subrange(i as int, n as int) =~= before_rest.drop_first());
    }
    assert(all.subrange(0, n as int) =~= all);
    let had_null = kept.len() < n;
    let core = if kept.len() == 0 {
        NTy::Null
    } else if kept.len() == 1 {
        kept.remove(0)
    } else {
        NTy::OneOf(kept)
    };
    if had_null {
        NTy::Nullable(Box::new(core))
    } else {
        core
    }
}

fn collect_arms(u: &U, p: &Policy) -> (r: Vec<NTy>)
    ensures
        ntys_view(r@) == arms_model(u@, *p),
    decreases *u, 0int,
{
    let ghost uv = u@;
    let mut arms: Vec<NTy> = Vec::new();
    let ghost a0: Seq<NModel> = match uv.arr {
        Some(a) => seq![arr_arm(a, *p)],
        None => Seq::empty(),
    };
    let ghost a1: Seq<NModel> = match uv.obj {
        Some(o) => seq![obj_arm(o, *p)],
        None => Seq::empty(),
    };
    let ghost a2: Seq<NModel> = match uv.num {
        Some(n) => seq![num_arm(n)],
        None => Seq::empty(),
    };
    let ghost a3: Seq<NModel> = match uv.str_ {
        Some(s) => seq![str_arm(s, *p)],
        None => Seq::empty(),
    };
    if let Some(a) = &u.arr {
        proof {
            assert(decreases_to!(*u => u.arr));
        }
        let x = arr_arm_exec(a, p);
        arms.push(x);
    }
    assert(ntys_view(arms@) =~= a0);
    if let Some(o) = &u.obj {
        proof {
            assert(decreases_to!(*u => u.obj));
        }
        let x = obj_arm_exec(o, p);
        let ghost before = ntys_view(arms@);
        arms.push(x);
        assert(ntys_view(arms@) =~= before.push(x@));
    }
    assert(ntys_view(arms@) =~= a0 + a1);
    if let Some(n) = &u.num {
        let x = num_arm_exec(n);
        let ghost before = ntys_view(arms@);
        arms.push(x);
        assert(ntys_view(arms@) =~= before.push(x@));
    }
    assert(ntys_view(arms@) =~= a0 + a1 + a2);
    if let Some(s) = &u.str_ {
        let x = str_arm_exec(s, p);
        let ghost before = ntys_view(arms@);
        arms.push(x);
        assert(ntys_view(arms@) =~= before.push(x@));
    }
    assert(ntys_view(arms@) =~= a0 + a1 + a2 + a3);
    if u.has_bool {
        let ghost before = ntys_view(arms@);
        arms.push(NTy::Bool);
        assert(ntys_view(arms@) =~= before.push(NModel::Bool));
    }
    assert(ntys_view(arms@) =~= arms_model(uv, *p));
    arms
}

/// The normalized IR of a point, under the given policy.
pub fn normalize_ref(u: &U, p: &Policy) -> (r: NTy)
    ensures
        r@ == norm_model(u@, *p),
    decreases *u, 1int,
{
    if u.is_exact_null() {
        return NTy::Null;
    }
    let mut arms = collect_arms(u, p);
    let ghost av = ntys_view(arms@);
    let core = if arms.len() == 0 {
        NTy::Null
    } else if arms.len() == 1 {
        let x = arms.remove(0);
        assert(x@ == av[0]);
        x
    } else {
        simplify_norm_unions(arms)
    };
    let core_is_null = match core {
        NTy::Null => true,
        _ => false,
    };
    if u.nullable && !core_is_null {
        NTy::Nullable(Box::new(core))
    } else {
        core
    }
}

/// Normalize a point into the IR, consuming it.
pub fn normalize_to_norm_consume(u: U, policy: Policy) -> (r: NTy)
    ensures
        r@ == norm_model(u@, policy),
{
    normalize_ref(&u, &policy)
}

} // verus!
