//! The typed IR handed to code generators, and the direct lowering of a
//! lattice point that predates normalization.
use crate::json::Double;
use crate::lattice::{arr_view, cols_view, obj_view, strings_view, ArrC, ArrModel, ObjC, ObjModel, StrModel, U, UModel};
use crate::nty::{
    drop_nulls, field_insert_pos, nfields_view, ntys_view, num_arm, num_arm_exec, simplify_model,
    sort_fields, tuple_min_items_arr, tuple_min_items_spec, NFieldModel, NModel, NTy,
};
use crate::text::str_less;
use crate::strings::{opt_view, sort_strings, sorted_copy};
use vstd::prelude::*;

verus! {

/// The typed IR. `Never` is the type without values.
#[derive(Debug)]
#[allow(inconsistent_fields)]
pub enum Ty {
    Never,
    Null,
    Bool,
    Integer { min: Option<i64>, max: Option<i64> },
    Number { min: Option<Double>, max: Option<Double> },
    String { enum_: Vec<String>, pattern: Option<String>, format_uri: bool },
    ArrayList { item: Box<Ty>, min_items: Option<u32>, max_items: Option<u32> },
    ArrayTuple { elems: Vec<Ty>, min_items: u32, max_items: u32 },
    Object { fields: Vec<Field> },
    OneOf(Vec<Ty>),
    Nullable(Box<Ty>),
}

#[derive(Debug)]
pub struct Field {
    pub name: String,
    pub ty: Ty,
    pub required: bool,
}

pub open spec fn tys_view(s: Seq<Ty>) -> Seq<NModel>
    decreases s,
{
    Seq::new(s.len(), |i: int| if 0 <= i < s.len() { s[i].view() } else { NModel::Null })
}

pub open spec fn ty_fields_view(s: Seq<Field>) -> Seq<NFieldModel>
    decreases s,
{
    Seq::new(
        s.len(),
        |i: int|
            if 0 <= i < s.len() {
                NFieldModel { name: s[i].name@, ty: s[i].ty.view(), required: s[i].required }
            } else {
                NFieldModel { name: Seq::empty(), ty: NModel::Null, required: false }
            },
    )
}

impl Ty {
    /// Seen as the normalized IR's model; `Never` is the empty union.
    pub open spec fn view(&self) -> NModel
        decreases self,
    {
        match self {
            Ty::Never => NModel::OneOf(Seq::empty()),
            Ty::Null => NModel::Null,
            Ty::Bool => NModel::Bool,
            Ty::Integer { min, max } => NModel::Integer { min: *min, max: *max },
            Ty::Number { min, max } => NModel::Number { min: *min, max: *max },
            Ty::String { enum_, pattern, format_uri } => NModel::String {
                enum_: strings_view(enum_@),
                pattern: opt_view(*pattern),
                format_uri: *format_uri,
            },
            Ty::ArrayList { item, min_items, max_items } => NModel::ArrayList {
                item: Box::new(item.view()),
                min_items: *min_items,
                max_items: *max_items,
            },
            Ty::ArrayTuple { elems, min_items, max_items } => NModel::ArrayTuple {
                elems: tys_view(elems@),
                min_items: *min_items,
                max_items: *max_items,
            },
            Ty::Object { fields } => NModel::Object { fields: ty_fields_view(fields@) },
            Ty::OneOf(arms) => NModel::OneOf(tys_view(arms@)),
            Ty::Nullable(inner) => NModel::Nullable(Box::new(inner.view())),
        }
    }
}

/// Adapt the normalized IR to the typed IR, node for node.
pub fn lower_from_norm(n: &NTy) -> (r: Ty)
    ensures
        r@ == n@,
    decreases n, 1int,
{
    match n {
        NTy::Null => Ty::Null,
        NTy::Bool => Ty::Bool,
        NTy::Integer { min, max } => Ty::Integer { min: *min, max: *max },
        NTy::Number { min, max } => Ty::Number { min: *min, max: *max },
        NTy::String { enum_, pattern, format_uri } => {
            let mut e: Vec<String> = Vec::new();
            let mut i: usize = 0;
            while i < enum_.len()
                invariant
                    i <= enum_@.len(),
                    strings_view(e@) == strings_view(enum_@).subrange(0, i as int),
                decreases enum_@.len() - i,
            {
                let s = enum_[i].clone();
                let ghost before = strings_view(e@);
                e.push(s);
                assert(strings_view(e@) =~= before.push(s@));
                i = i + 1;
                assert(strings_view(e@) =~= strings_view(enum_@).subrange(0, i as int));
            }
            assert(strings_view(e@) =~= strings_view(enum_@));
            let p = match pattern {
                Some(x) => Some(x.clone()),
                None => None,
            };
            Ty::String { enum_: e, pattern: p, format_uri: *format_uri }
        },
        NTy::ArrayList { item, min_items, max_items } => {
            proof {
                assert(decreases_to!(*n => n->ArrayList_item));
            }
            Ty::ArrayList { item: Box::new(lower_from_norm(item)), min_items: *min_items, max_items: *max_items }
        },
        NTy::ArrayTuple { elems, min_items, max_items } => {
            let out = lower_all(n, elems);
            Ty::ArrayTuple { elems: out, min_items: *min_items, max_items: *max_items }
        },
        NTy::Object { fields } => {
            let mut out: Vec<Field> = Vec::new();
            let mut i: usize = 0;
            while i < fields.len()
                invariant
                    i <= fields@.len(),
                    *n == (NTy::Object { fields: *fields }),
                    ty_fields_view(out@) == nfields_view(fields@).subrange(0, i as int),
                decreases fields@.len() - i,
            {
                proof {
                    vstd::std_specs::vec::axiom_vec_index_decreases(*fields, i as int);
                    assert(decreases_to!(*n => n->Object_fields));
                    assert(decreases_to!(fields@[i as int] => fields@[i as int].ty));
                }
                let f = &fields[i];
                let g = Field { name: f.name.clone(), ty: lower_from_norm(&f.ty), required: f.required };
                let ghost before = ty_fields_view(out@);
                out.push(g);
                assert(ty_fields_view(out@) =~= before.push(NFieldModel { name: g.name@, ty: g.ty@, required: g.required }));
                i = i + 1;
                assert(ty_fields_view(out@) =~= nfields_view(fields@).subrange(0, i as int));
            }
            assert(ty_fields_view(out@) =~= nfields_view(fields@));
            Ty::Object { fields: out }
        },
        NTy::Nullable(inner) => {
            proof {
                assert(decreases_to!(*n => n->Nullable_0));
            }
            Ty::Nullable(Box::new(lower_from_norm(inner)))
        },
        NTy::OneOf(arms) => Ty::OneOf(lower_all(n, arms)),
    }
}

fn lower_all(parent: &NTy, xs: &Vec<NTy>) -> (r: Vec<Ty>)
    requires
        *parent == (NTy::ArrayTuple { elems: *xs, min_items: parent->ArrayTuple_min_items, max_items: parent->ArrayTuple_max_items })
        || *parent == NTy::OneOf(*xs),
    ensures
        tys_view(r@) == ntys_view(xs@),
    decreases parent, 0int,
{
    let mut out: Vec<Ty> = Vec::new();
    let mut i: usize = 0;
    while i < xs.len()
        invariant
            i <= xs@.len(),
            tys_view(out@) == ntys_view(xs@).subrange(0, i as int),
            *parent == (NTy::ArrayTuple { elems: *xs, min_items: parent->ArrayTuple_min_items, max_items: parent->ArrayTuple_max_items })
            || *parent == NTy::OneOf(*xs),
        decreases xs@.len() - i,
    {
        proof {
            vstd::std_specs::vec::axiom_vec_index_decreases(*xs, i as int);
            if parent is OneOf {
                assert(decreases_to!(*parent => parent->OneOf_0));
            } else {
                assert(decreases_to!(*parent => parent->ArrayTuple_elems));
            }
        }
        let t = lower_from_norm(&xs[i]);
        let ghost before = tys_view(out@);
        out.push(t);
        assert(tys_view(out@) =~= before.push(t@));
        i = i + 1;
        assert(tys_view(out@) =~= ntys_view(xs@).subrange(0, i as int));
    }
    assert(tys_view(out@) =~= ntys_view(xs@));
    out
}

/// Normalize a point and lower it to the typed IR.
pub fn normalize_and_lower(u: U, policy: crate::policy::Policy) -> (r: Ty)
    ensures
        r@ == crate::nty::norm_model(u@, policy),
{
    let n = crate::nty::normalize_ref(&u, &policy);
    lower_from_norm(&n)
}

// ------------------------------ direct lowering ------------------------------

pub open spec fn lower_arr_model(a: ArrModel) -> NModel
    decreases a, 0int,
{
    if a.cols.len() > 0 {
        let max_items = #[verifier::truncate] (a.cols.len() as u32);
        NModel::ArrayTuple {
            elems: Seq::new(
                a.cols.len(),
                |i: int|
                    if 0 <= i < a.cols.len() {
                        lower_model(a.cols[i])
                    } else {
                        NModel::Null
                    },
            ),
            min_items: if a.len_min == a.len_max && a.len_max > 0 {
                max_items
            } else {
                tuple_min_items_spec(a)
            },
            max_items,
        }
    } else {
        NModel::ArrayList {
            item: Box::new(lower_model(*a.item)),
            min_items: Some(a.len_min),
            max_items: Some(a.len_max),
        }
    }
}

pub open spec fn lower_field_models(o: ObjModel) -> Seq<NFieldModel>
    decreases o, 0int,
{
    Seq::new(
        o.fields.len(),
        |i: int|
            if 0 <= i < o.fields.len() {
                NFieldModel {
                    name: o.fields[i].0,
                    ty: lower_model(o.fields[i].1.ty),
                    required: o.fields[i].1.non_null_in == o.seen_objects,
                }
            } else {
                NFieldModel { name: Seq::empty(), ty: NModel::Null, required: false }
            },
    )
}

pub open spec fn lower_obj_model(o: ObjModel) -> NModel
    decreases o, 1int,
{
    NModel::Object { fields: sort_fields(lower_field_models(o)) }
}

/// Strings keep every literal (sorted) and any synthesized pattern.
pub open spec fn lower_str_model(s: StrModel) -> NModel {
    NModel::String { enum_: sort_strings(s.lits), pattern: s.pattern_synth, format_uri: s.is_uri }
}

pub open spec fn lower_arms_model(u: UModel) -> Seq<NModel>
    decreases u, 0int,
{
    (match u.arr {
        Some(a) => seq![lower_arr_model(a)],
        None => Seq::empty(),
    }) + (match u.obj {
        Some(o) => seq![lower_obj_model(o)],
        None => Seq::empty(),
    }) + (match u.num {
        Some(n) => seq![num_arm(n)],
        None => Seq::empty(),
    }) + (match u.str_ {
        Some(s) => seq![lower_str_model(s)],
        None => Seq::empty(),
    }) + (if u.has_bool {
        seq![NModel::Bool]
    } else {
        Seq::empty()
    })
}

/// Direct lowering: an array with columns is a tuple, objects as in
/// normalization, then the arms assembled and wrapped when nullable.
pub open spec fn lower_model(u: UModel) -> NModel
    decreases u, 1int,
{
    if u.nullable && !u.has_bool && u.num is None && u.str_ is None && u.arr is None && u.obj is None {
        NModel::Null
    } else {
        let arms = lower_arms_model(u);
        let base = if arms.len() == 0 {
            NModel::Null
        } else if arms.len() == 1 {
            arms[0]
        } else {
            simplify_model(arms)
        };
        if u.nullable {
            NModel::Nullable(Box::new(base))
        } else {
            base
        }
    }
}

fn lower_arr(a: &ArrC) -> (r: Ty)
    ensures
        r@ == lower_arr_model(arr_view(*a)),
    decreases *a, 0int,
{
    let ghost av = arr_view(*a);
    if a.cols.len() > 0 {
        let ghost target = Seq::new(
            av.cols.len(),
            |i: int|
                if 0 <= i < av.cols.len() {
                    lower_model(av.cols[i])
                } else {
                    NModel::Null
                },
        );
        let mut elems: Vec<Ty> = Vec::new();
        let mut i: usize = 0;
        while i < a.cols.len()
            invariant
                i <= a.cols@.len(),
                av == arr_view(*a),
                av.cols == cols_view(a.cols@),
                target == Seq::new(
                    av.cols.len(),
                    |i: int|
                        if 0 <= i < av.cols.len() {
                            lower_model(av.cols[i])
                        } else {
                            NModel::Null
                        },
                ),
                tys_view(elems@) == target.subrange(0, i as int),
            decreases a.cols@.len() - i,
        {
            proof {
                vstd::std_specs::vec::axiom_vec_index_decreases(a.cols, i as int);
                assert(decreases_to!(*a => a.cols));
            }
            let e = lower_to_ir(&a.cols[i]);
            let ghost before = tys_view(elems@);
            elems.push(e);
            assert(tys_view(elems@) =~= before.push(e@));
            i = i + 1;
            assert(tys_view(elems@) =~= target.subrange(0, i as int));
        }
        assert(tys_view(elems@) =~= target);
        assert(elems@.len() == av.cols.len());
        assert(tys_view(elems@) =~= lower_arr_model(av)->ArrayTuple_elems);
        let max_items = #[verifier::truncate] (elems.len() as u32);
        let min_items = if a.len_min == a.len_max && a.len_max > 0 {
            max_items
        } else {
            tuple_min_items_arr(a)
        };
        Ty::ArrayTuple { elems, min_items, max_items }
    } else {
        proof {
            assert(decreases_to!(*a => a.item));
        }
        let item = lower_to_ir(&a.item);
        Ty::ArrayList { item: Box::new(item), min_items: Some(a.len_min), max_items: Some(a.len_max) }
    }
}

proof fn lemma_field_insert_pos_bound(s: Seq<NFieldModel>, x: NFieldModel)
    ensures
        0 <= field_insert_pos(s, x) <= s.len(),
    decreases s.len(),
{
    if s.len() > 0 {
        lemma_field_insert_pos_bound(s.drop_first(), x);
    }
}

fn ty_field_position(s: &Vec<Field>, x: &Field) -> (r: usize)
    ensures
        r <= s@.len(),
        r as int == field_insert_pos(
            ty_fields_view(s@),
            NFieldModel { name: x.name@, ty: x.ty@, required: x.required },
        ),
{
    let ghost sv = ty_fields_view(s@);
    let ghost xv = NFieldModel { name: x.name@, ty: x.ty@, required: x.required };
    proof {
        lemma_field_insert_pos_bound(sv, xv);
    }
    let mut i: usize = 0;
    assert(sv.subrange(0, sv.len() as int) =~= sv);
    while i < s.len()
        invariant
            i <= s@.len(),
            sv == ty_fields_view(s@),
            xv == (NFieldModel { name: x.name@, ty: x.ty@, required: x.required }),
            field_insert_pos(sv, xv) == i + field_insert_pos(sv.subrange(i as int, sv.len() as int), xv),
            field_insert_pos(sv, xv) <= sv.len(),
        decreases s@.len() - i,
    {
        let ghost rest = sv.subrange(i as int, sv.len() as int);
        assert(rest[0].name == s@[i as int].name@);
        if str_less(x.name.as_str(), s[i].name.as_str()) {
            return i;
        }
        assert(rest.drop_first() =~= sv.subrange(i + 1, sv.len() as int));
        i = i + 1;
    }
    i
}

fn lower_obj(o: &ObjC) -> (r: Ty)
    ensures
        r@ == lower_obj_model(obj_view(*o)),
    decreases *o, 1int,
{
    let ghost ov = obj_view(*o);
    let ghost unsorted = lower_field_models(ov);
    let mut fields: Vec<Field> = Vec::new();
    let mut i: usize = 0;
    while i < o.fields.len()
        invariant
            i <= o.fields@.len(),
            ov == obj_view(*o),
            unsorted == lower_field_models(ov),
            ty_fields_view(fields@) == sort_fields(unsorted.subrange(0, i as int)),
        decreases o.fields@.len() - i,
    {
        proof {
            vstd::std_specs::vec::axiom_vec_index_decreases(o.fields, i as int);
            assert(decreases_to!(*o => o.fields));
            assert(decreases_to!(o.fields@[i as int] => o.fields@[i as int].1.ty));
        }
        let f = &o.fields[i];
        let ty = lower_to_ir(&f.1.ty);
        let nf = Field { name: f.0.clone(), ty, required: f.1.non_null_in == o.seen_objects };
        let ghost nfv = NFieldModel { name: nf.name@, ty: nf.ty@, required: nf.required };
        assert(unsorted.subrange(0, i + 1).drop_last() =~= unsorted.subrange(0, i as int));
        assert(unsorted.subrange(0, i + 1).last() == nfv);
        let pos = ty_field_position(&fields, &nf);
        let ghost before = ty_fields_view(fields@);
        fields.insert(pos, nf);
        assert(ty_fields_view(fields@) =~= before.insert(pos as int, nfv));
        i = i + 1;
    }
    assert(unsorted.subrange(0, i as int) =~= unsorted);
    Ty::Object { fields }
}

fn lower_arms(u: &U) -> (r: Vec<Ty>)
    ensures
        tys_view(r@) == lower_arms_model(u@),
    decreases *u, 0int,
{
    let ghost uv = u@;
    let mut arms: Vec<Ty> = Vec::new();
    let ghost a0: Seq<NModel> = match uv.arr {
        Some(a) => seq![lower_arr_model(a)],
        None => Seq::empty(),
    };
    let ghost a1: Seq<NModel> = match uv.obj {
        Some(o) => seq![lower_obj_model(o)],
        None => Seq::empty(),
    };
    let ghost a2: Seq<NModel> = match uv.num {
        Some(n) => seq![num_arm(n)],
        None => Seq::empty(),
    };
    let ghost a3: Seq<NModel> = match uv.str_ {
        Some(s) => seq![lower_str_model(s)],
        None => Seq::empty(),
    };
    if let Some(a) = &u.arr {
        proof {
            assert(decreases_to!(*u => u.arr));
        }
        let x = lower_arr(a);
        arms.push(x);
    }
    assert(tys_view(arms@) =~= a0);
    if let Some(o) = &u.obj {
        proof {
            assert(decreases_to!(*u => u.obj));
        }
        let x = lower_obj(o);
        let ghost before = tys_view(arms@);
        arms.push(x);
        assert(tys_view(arms@) =~= before.push(x@));
    }
    assert(tys_view(arms@) =~= a0 + a1);
    if let Some(n) = &u.num {
        let x = match num_arm_exec(n) {
            NTy::Integer { min, max } => Ty::Integer { min, max },
            NTy::Number { min, max } => Ty::Number { min, max },
            _ => Ty::Never,
        };
        let ghost before = tys_view(arms@);
        arms.push(x);
        assert(tys_view(arms@) =~= before.push(x@));
    }
    assert(tys_view(arms@) =~= a0 + a1 + a2);
    if let Some(s) = &u.str_ {
        let p = match &s.pattern_synth {
            Some(x) => Some(x.clone()),
            None => None,
        };
        let x = Ty::String { enum_: sorted_copy(&s.lits), pattern: p, format_uri: s.is_uri };
        let ghost before = tys_view(arms@);
        arms.push(x);
        assert(tys_view(arms@) =~= before.push(x@));
    }
    assert(tys_view(arms@) =~= a0 + a1 + a2 + a3);
    if u.has_bool {
        let ghost before = tys_view(arms@);
        arms.push(Ty::Bool);
        assert(tys_view(arms@) =~= before.push(NModel::Bool));
    }
    assert(tys_view(arms@) =~= lower_arms_model(uv));
    arms
}

/// Take the null arms out of a union and hoist them into `Nullable`.
pub fn simplify_unions(arms: Vec<Ty>) -> (r: Ty)
    ensures
        r@ == simplify_model(tys_view(arms@)),
{
    let ghost all = tys_view(arms@);
    let mut rest = arms;
    let mut kept: Vec<Ty> = Vec::new();
    let mut i: usize = 0;
    let n = rest.len();
    while i < n
        invariant
            i <= n,
            n == all.len(),
            rest@.len() == n - i,
            tys_view(rest@) == all.subrange(i as int, n as int),
            tys_view(kept@) == drop_nulls(all.subrange(0, i as int)),
        decreases n - i,
    {
        let ghost before_rest = tys_view(rest@);
        let t = rest.remove(0);
        assert(t@ == before_rest[0]);
        assert(tys_view(rest@) =~= before_rest.drop_first());
        assert(all.subrange(0, i + 1).drop_last() =~= all.subrange(0, i as int));
        assert(all.subrange(0, i + 1).last() == t@);
        let is_null = match t {
            Ty::Null => true,
            _ => false,
        };
        if !is_null {
            let ghost before = tys_view(kept@);
            kept.push(t);
            assert(tys_view(kept@) =~= before.push(t@));
        }
        i = i + 1;
        assert(all.subrange(i as int, n as int) =~= before_rest.drop_first());
    }
    assert(all.subrange(0, n as int) =~= all);
    let had_null = kept.len() < n;
    let core = if kept.len() == 0 {
        Ty::Null
    } else if kept.len() == 1 {
        kept.remove(0)
    } else {
        Ty::OneOf(kept)
    };
    if had_null {
        Ty::Nullable(Box::new(core))
    } else {
        core
    }
}

/// Lower a point's arms without its null flag.
fn lower_core(u: &U) -> (r: Ty)
    ensures
        ({
            let arms = lower_arms_model(u@);
            r@ == if arms.len() == 0 {
                NModel::Null
            } else if arms.len() == 1 {
                arms[0]
            } else {
                simplify_model(arms)
            }
        }),
    decreases *u, 1int,
{
    let mut arms = lower_arms(u);
    let ghost av = tys_view(arms@);
    if arms.len() == 0 {
        Ty::Null
    } else if arms.len() == 1 {
        let x = arms.remove(0);
        assert(x@ == av[0]);
        x
    } else {
        simplify_unions(arms)
    }
}

/// Lower a point directly, without normalization.
pub fn lower_to_ir(u: &U) -> (r: Ty)
    ensures
        r@ == lower_model(u@),
    decreases *u, 2int,
{
    if u.is_exact_null() {
        return Ty::Null;
    }
    let base = lower_core(u);
    if u.nullable {
        Ty::Nullable(Box::new(base))
    } else {
        base
    }
}

} // verus!
