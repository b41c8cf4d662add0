//! Properties of observation, join and normalization, proved over the models.
use crate::json::JsonModel;
use crate::join::lemma_field_index;
use crate::lattice::{
    capped_union, join_str_model, missing_from, count_at, empty_model, field_index, join_arr_model, join_cols_model, join_fields_model,
    join_model, join_num_model, join_obj_model, new_fields, with_null, ArrModel, FieldModel,
    NumModel, ObjModel, StrModel, UModel,
};
use crate::normalize::normalize_model;
use crate::number::{is_finite_bits, is_integral_bits, order_key};
use crate::nty::{
    arms_model, arr_arm, decide_tuple_spec, field_insert_pos, field_models, has_null_pad, last_required,
    norm_model, num_arm, obj_arm, sort_fields, str_arm, NFieldModel, NModel,
};
use crate::observe::{join_all, observe_all, observe_members, observe_model};
use crate::policy::Policy;
use crate::strings::{insert_pos, lemma_sort_strings, pattern_ok, sort_strings, sorted_strings};
use crate::text::{lemma_str_lt_irreflexive, lemma_str_lt_total, lemma_str_lt_transitive, str_lt, uri_prefixed};
use vstd::prelude::*;

verus! {

/// Joining with the bottom point changes nothing, so neither does the
/// normalized form.
pub proof fn lemma_join_identity(u: UModel, p: Policy)
    ensures
        join_model(empty_model(), u) == u,
        norm_model(join_model(empty_model(), u), p) == norm_model(u, p),
{
}

/// Every point whose finite-interval numbers carry no literals, all the way down.
pub open spec fn interval_lits_dropped(u: UModel) -> bool
    decreases u,
{
    &&& (u.num matches Some(n) ==> (is_finite_bits(n.min) && is_finite_bits(n.max) ==> n.lits.len() == 0))
    &&& (u.arr matches Some(a) ==> {
        &&& interval_lits_dropped(*a.item)
        &&& forall|i: int| 0 <= i < a.cols.len() ==> interval_lits_dropped(#[trigger] a.cols[i])
    })
    &&& (u.obj matches Some(o) ==> forall|i: int|
        0 <= i < o.fields.len() ==> interval_lits_dropped(#[trigger] o.fields[i].1.ty))
}

/// After normalization no number node with finite bounds keeps literals,
/// unless the policy keeps those outside the interval.
pub proof fn lemma_normalize_drops_interval_lits(u: UModel, p: Policy)
    requires
        !p.keep_num_atoms_outside_interval,
    ensures
        interval_lits_dropped(normalize_model(u, p)),
    decreases u,
{
    let r = normalize_model(u, p);
    if let Some(a) = u.arr {
        lemma_normalize_drops_interval_lits(*a.item, p);
        let ra = r.arr->0;
        assert forall|i: int| 0 <= i < ra.cols.len() implies interval_lits_dropped(#[trigger] ra.cols[i]) by {
            lemma_normalize_drops_interval_lits(a.cols[i], p);
        }
    }
    if let Some(o) = u.obj {
        let ro = r.obj->0;
        assert forall|i: int| 0 <= i < ro.fields.len() implies interval_lits_dropped(#[trigger] ro.fields[i].1.ty) by {
            lemma_normalize_drops_interval_lits(o.fields[i].1.ty, p);
        }
    }
}

/// A number node is `Integer` only if no non-integer was seen and both
/// bounds are integral (hence finite).
pub proof fn lemma_integer_only_when_integral(n: NumModel)
    ensures
        num_arm(n) is Integer ==> !n.saw_float && is_integral_bits(n.min) && is_integral_bits(n.max),
{
}

/// With string enums disabled, no string node has an enum.
pub proof fn lemma_no_enum_when_disabled(s: StrModel, p: Policy)
    requires
        !p.enable_string_enums,
    ensures
        str_arm(s, p)->String_enum_.len() == 0,
{
}

/// With regex synthesis disabled, no string node has a pattern.
pub proof fn lemma_no_pattern_when_disabled(s: StrModel, p: Policy)
    requires
        !p.enable_grex,
    ensures
        str_arm(s, p)->String_pattern is None,
{
}

/// Every pattern of a string node is anchored and within the guardrails,
/// given that a pattern carried over from an earlier normalization was.
pub proof fn lemma_pattern_guarded(s: StrModel, p: Policy)
    requires
        s.pattern_synth matches Some(q) ==> pattern_ok(q),
    ensures
        str_arm(s, p)->String_pattern matches Some(x) ==> pattern_ok(x),
{
}

pub open spec fn string_points(xs: Seq<Seq<char>>) -> Seq<UModel> {
    Seq::new(xs.len(), |i: int| observe_model(JsonModel::String(xs[i])))
}

/// A string node is marked as URI exactly when every observed string had
/// a URI prefix.
pub proof fn lemma_uri_conjunctive(xs: Seq<Seq<char>>, p: Policy)
    requires
        xs.len() > 0,
    ensures
        join_all(string_points(xs)).str_ is Some,
        str_arm(join_all(string_points(xs)).str_->0, p)->String_format_uri
            <==> (forall|i: int| 0 <= i < xs.len() ==> uri_prefixed(#[trigger] xs[i])),
    decreases xs.len(),
{
    let s = string_points(xs);
    let u = join_all(s);
    if xs.len() == 1 {
        assert(s.drop_last() =~= Seq::<UModel>::empty());
        assert(join_all(s.drop_last()) == empty_model());
        assert(u == join_model(empty_model(), s[0]));
        assert(u.str_->0.is_uri == uri_prefixed(xs[0]));
        assert(str_arm(u.str_->0, p)->String_format_uri == u.str_->0.is_uri);
    } else {
        let ys = xs.drop_last();
        assert(s.drop_last() =~= string_points(ys));
        lemma_uri_conjunctive(ys, p);
        let prev = join_all(string_points(ys));
        assert(u == join_model(prev, s.last()));
        assert(u.str_->0.is_uri == (prev.str_->0.is_uri && uri_prefixed(xs.last())));
        assert(str_arm(u.str_->0, p)->String_format_uri == u.str_->0.is_uri);
        assert(str_arm(prev.str_->0, p)->String_format_uri == prev.str_->0.is_uri);
        if u.str_->0.is_uri {
            assert forall|i: int| 0 <= i < xs.len() implies uri_prefixed(#[trigger] xs[i]) by {
                if i < xs.len() - 1 {
                    assert(xs[i] == ys[i]);
                }
            }
        } else if prev.str_->0.is_uri {
            assert(!uri_prefixed(xs[xs.len() - 1]));
        } else {
            let i = choose|i: int| 0 <= i < ys.len() && !uri_prefixed(#[trigger] ys[i]);
            assert(xs[i] == ys[i]);
        }
    }
}

proof fn lemma_last_required_below(a: ArrModel, n: int)
    ensures
        -1 <= last_required(a, n) < (if n > 0 { n } else { 0 }),
    decreases n,
{
    if n > 0 {
        lemma_last_required_below(a, n - 1);
    }
}

/// A tuple node lists exactly `max_items` elements, and `min_items` does
/// not exceed it (for arities that `u32` holds).
pub proof fn lemma_tuple_arity(a: ArrModel, p: Policy)
    requires
        a.cols.len() <= u32::MAX,
    ensures
        arr_arm(a, p) matches NModel::ArrayTuple { elems, min_items, max_items } ==> {
            &&& max_items == elems.len()
            &&& min_items <= max_items
        },
{
    lemma_last_required_below(a, a.cols.len() as int);
}

/// Arrays of one common non-zero length, seen at least twice, form a tuple
/// whose `min_items` equals its `max_items`.
pub proof fn lemma_same_length_is_tuple(a: ArrModel, p: Policy)
    requires
        a.samples >= 2,
        a.cols.len() > 0,
        a.len_min == a.len_max,
        a.len_max > 0,
    ensures
        arr_arm(a, p) matches NModel::ArrayTuple { min_items, max_items, .. } && min_items == max_items,
{
}

/// A column present in every array and always null makes a tuple.
pub proof fn lemma_null_pad_is_tuple(a: ArrModel, p: Policy, i: int)
    requires
        a.samples >= 2,
        0 <= i < a.cols.len(),
        i < a.present.len() && a.present[i] == a.samples,
        i < a.non_null.len() && a.non_null[i] == 0,
    ensures
        arr_arm(a, p) is ArrayTuple,
{
    assert(crate::lattice::count_at(a.present, i) == a.samples);
    assert(has_null_pad(a));
}

/// Arrays of varying lengths without a null pad column form a list.
pub proof fn lemma_varying_lengths_is_list(a: ArrModel, p: Policy)
    requires
        a.len_min != a.len_max,
        !has_null_pad(a),
    ensures
        arr_arm(a, p) is ArrayList,
{
}

pub open spec fn sorted_by_name(s: Seq<NFieldModel>) -> bool {
    forall|i: int, j: int| 0 <= i < j < s.len() ==> !str_lt(#[trigger] s[j].name, #[trigger] s[i].name)
}

proof fn lemma_field_insert_pos_facts(s: Seq<NFieldModel>, x: NFieldModel)
    ensures
        0 <= field_insert_pos(s, x) <= s.len(),
        forall|k: int| 0 <= k < field_insert_pos(s, x) ==> !str_lt(x.name, #[trigger] s[k].name),
        field_insert_pos(s, x) < s.len() ==> str_lt(x.name, s[field_insert_pos(s, x)].name),
    decreases s.len(),
{
    if s.len() > 0 && !str_lt(x.name, s[0].name) {
        lemma_field_insert_pos_facts(s.drop_first(), x);
        assert forall|k: int| 0 <= k < field_insert_pos(s, x) implies !str_lt(x.name, #[trigger] s[k].name) by {
            if k > 0 {
                assert(s[k] == s.drop_first()[k - 1]);
            }
        }
    }
}

/// Sorting fields gives them in name order, and takes each from the input.
pub proof fn lemma_sort_fields(s: Seq<NFieldModel>)
    ensures
        sorted_by_name(sort_fields(s)),
        sort_fields(s).len() == s.len(),
        forall|k: int| 0 <= k < s.len() ==> exists|i: int| 0 <= i < s.len() && #[trigger] sort_fields(s)[k] == s[i],
    decreases s.len(),
{
    if s.len() > 0 {
        let t = sort_fields(s.drop_last());
        lemma_sort_fields(s.drop_last());
        let x = s.last();
        let q = field_insert_pos(t, x);
        lemma_field_insert_pos_facts(t, x);
        let r = t.insert(q, x);
        assert(r == sort_fields(s));
        assert forall|i: int, j: int| 0 <= i < j < r.len() implies !str_lt(#[trigger] r[j].name, #[trigger] r[i].name) by {
            if j < q {
                assert(r[i] == t[i] && r[j] == t[j]);
            } else if j == q {
                assert(r[i] == t[i]);
            } else if i == q {
                assert(r[j] == t[j - 1] && r[i] == x);
                if str_lt(t[j - 1].name, x.name) {
                    lemma_str_lt_transitive(t[j - 1].name, x.name, t[q].name);
                    if j - 1 > q {
                        assert(!str_lt(t[j - 1].name, t[q].name));
                    } else {
                        lemma_str_lt_irreflexive(t[q].name);
                    }
                }
            } else if i < q {
                assert(r[i] == t[i] && r[j] == t[j - 1]);
            } else {
                assert(r[i] == t[i - 1] && r[j] == t[j - 1]);
            }
        }
        assert forall|k: int| 0 <= k < s.len() implies exists|i: int| 0 <= i < s.len() && #[trigger] sort_fields(s)[k] == s[i] by {
            if k == q {
                assert(sort_fields(s)[k] == s[s.len() - 1]);
            } else {
                let k2 = if k < q { k } else { k - 1 };
                assert(sort_fields(s)[k] == t[k2]);
                let i = choose|i: int| 0 <= i < s.len() - 1 && #[trigger] t[k2] == s.drop_last()[i];
                assert(s.drop_last()[i] == s[i]);
            }
        }
    }
}

/// Object fields come out sorted by name.
pub proof fn lemma_object_fields_sorted(o: ObjModel, p: Policy)
    ensures
        sorted_by_name(obj_arm(o, p)->Object_fields),
{
    lemma_sort_fields(field_models(o, p));
}

/// A field is required iff it was non-null in every observed object: each
/// output field comes from an input field with that count.
pub proof fn lemma_required_iff_always_non_null(o: ObjModel, p: Policy)
    ensures
        forall|k: int|
            0 <= k < obj_arm(o, p)->Object_fields.len() ==> exists|i: int|
                0 <= i < o.fields.len() && (#[trigger] obj_arm(o, p)->Object_fields[k]).name == o.fields[i].0
                    && obj_arm(o, p)->Object_fields[k].required == (o.fields[i].1.non_null_in
                    == o.seen_objects),
{
    let fm = field_models(o, p);
    lemma_sort_fields(fm);
    assert forall|k: int| 0 <= k < obj_arm(o, p)->Object_fields.len() implies exists|i: int|
        0 <= i < o.fields.len() && (#[trigger] obj_arm(o, p)->Object_fields[k]).name == o.fields[i].0
            && obj_arm(o, p)->Object_fields[k].required == (o.fields[i].1.non_null_in == o.seen_objects) by {
        let i = choose|i: int| 0 <= i < fm.len() && #[trigger] sort_fields(fm)[k] == fm[i];
        assert(fm[i].name == o.fields[i].0);
    }
}

proof fn lemma_order_key_injective(x: u64, y: u64)
    ensures
        order_key(x) == order_key(y) ==> x == y,
{
}

/// The number node of a join does not depend on the order, grouping or
/// repetition of the joined records.
pub proof fn lemma_num_join_laws(a: NumModel, b: NumModel, c: NumModel)
    ensures
        num_arm(join_num_model(a, b)) == num_arm(join_num_model(b, a)),
        num_arm(join_num_model(join_num_model(a, b), c)) == num_arm(join_num_model(a, join_num_model(b, c))),
        num_arm(join_num_model(a, a)) == num_arm(a),
{
    lemma_order_key_injective(a.min, b.min);
    lemma_order_key_injective(a.max, b.max);
    let ab = join_num_model(a, b);
    let ba = join_num_model(b, a);
    assert(ab.min == ba.min && ab.max == ba.max);
    let l = join_num_model(ab, c);
    let r = join_num_model(a, join_num_model(b, c));
    assert(l.min == r.min && l.max == r.max);
}

/// Policies under which a string node depends only on URI-ness.
pub open spec fn plain_strings(p: Policy) -> bool {
    !p.enable_string_enums && !p.enable_grex
}

proof fn lemma_plain_str_arm(s: StrModel, t: StrModel, p: Policy)
    requires
        plain_strings(p),
        s.is_uri == t.is_uri,
    ensures
        str_arm(s, p) == str_arm(t, p),
{
    assert(str_arm(s, p)->String_enum_ =~= str_arm(t, p)->String_enum_);
}

proof fn lemma_last_required_counts(x: ArrModel, y: ArrModel, n: int)
    requires
        x.present == y.present,
        x.samples == y.samples,
    ensures
        last_required(x, n) == last_required(y, n),
    decreases n,
{
    if n > 0 {
        lemma_last_required_counts(x, y, n - 1);
    }
}

// ------------------------------ commutativity with objects ------------------------------

pub open spec fn names_distinct(s: Seq<(Seq<char>, FieldModel)>) -> bool {
    forall|i: int, j: int| 0 <= i < j < s.len() ==> #[trigger] s[i].0 != #[trigger] s[j].0
}

pub open spec fn nf_names_distinct(s: Seq<NFieldModel>) -> bool {
    forall|i: int, j: int| 0 <= i < j < s.len() ==> #[trigger] s[i].name != #[trigger] s[j].name
}

pub open spec fn strictly_sorted_by_name(s: Seq<NFieldModel>) -> bool {
    forall|i: int, j: int| 0 <= i < j < s.len() ==> str_lt(#[trigger] s[i].name, #[trigger] s[j].name)
}

proof fn lemma_new_fields(b: Seq<(Seq<char>, FieldModel)>, a: Seq<(Seq<char>, FieldModel)>)
    ensures
        forall|m: int| 0 <= m < new_fields(b, a).len() ==> exists|j: int|
            0 <= j < b.len() && #[trigger] new_fields(b, a)[m] == b[j] && field_index(a, b[j].0) < 0,
        forall|j: int| 0 <= j < b.len() && field_index(a, b[j].0) < 0 ==> new_fields(b, a).contains(#[trigger] b[j]),
        names_distinct(b) ==> names_distinct(new_fields(b, a)),
    decreases b.len(),
{
    if b.len() > 0 {
        let c = b.drop_last();
        lemma_new_fields(c, a);
        let nc = new_fields(c, a);
        let n = new_fields(b, a);
        assert forall|m: int| 0 <= m < n.len() implies exists|j: int|
            0 <= j < b.len() && #[trigger] n[m] == b[j] && field_index(a, b[j].0) < 0 by {
            if m < nc.len() {
                assert(n[m] == nc[m]);
                let j = choose|j: int| 0 <= j < c.len() && #[trigger] nc[m] == c[j] && field_index(a, c[j].0) < 0;
                assert(c[j] == b[j]);
            } else {
                assert(n[m] == b.last());
            }
        }
        assert forall|j: int| 0 <= j < b.len() && field_index(a, b[j].0) < 0 implies n.contains(#[trigger] b[j]) by {
            if j < c.len() {
                assert(c[j] == b[j]);
                let m = choose|m: int| 0 <= m < nc.len() && nc[m] == c[j];
                assert(n[m] == nc[m]);
            } else {
                assert(n[nc.len() as int] == b[j]);
            }
        }
        if names_distinct(b) {
            assert(names_distinct(c)) by {
                assert forall|i: int, j: int| 0 <= i < j < c.len() implies #[trigger] c[i].0 != #[trigger] c[j].0 by {
                    assert(c[i] == b[i] && c[j] == b[j]);
                }
            }
            assert forall|i: int, j: int| 0 <= i < j < n.len() implies #[trigger] n[i].0 != #[trigger] n[j].0 by {
                let ji = choose|ji: int| 0 <= ji < b.len() && #[trigger] n[i] == b[ji] && field_index(a, b[ji].0) < 0;
                if j < nc.len() {
                    assert(n[i] == nc[i] && n[j] == nc[j]);
                } else {
                    assert(n[j] == b.last());
                    let ci = choose|ci: int| 0 <= ci < c.len() && #[trigger] nc[i] == c[ci] && field_index(a, c[ci].0) < 0;
                    assert(n[i] == nc[i]);
                    assert(c[ci] == b[ci]);
                }
            }
        }
    }
}

proof fn lemma_join_fields_distinct(a: Seq<(Seq<char>, FieldModel)>, b: Seq<(Seq<char>, FieldModel)>)
    requires
        names_distinct(a),
        names_distinct(b),
    ensures
        names_distinct(join_fields_model(a, b)),
        join_fields_model(a, b).len() == a.len() + new_fields(b, a).len(),
{
    let j = join_fields_model(a, b);
    let nf = new_fields(b, a);
    lemma_new_fields(b, a);
    assert forall|x: int, y: int| 0 <= x < y < j.len() implies #[trigger] j[x].0 != #[trigger] j[y].0 by {
        if y < a.len() {
            assert(j[x].0 == a[x].0 && j[y].0 == a[y].0);
        } else if x < a.len() {
            assert(j[x].0 == a[x].0);
            assert(j[y] == nf[y - a.len()]);
            let bj = choose|bj: int| 0 <= bj < b.len() && #[trigger] nf[y - a.len()] == b[bj] && field_index(a, b[bj].0) < 0;
            lemma_field_index(a, b[bj].0);
        } else {
            assert(j[x] == nf[x - a.len()] && j[y] == nf[y - a.len()]);
        }
    }
}

/// The field of the normalized IR made from one field of the evidence.
#[verifier::opaque]
pub open spec fn field_model_of(f: (Seq<char>, FieldModel), seen: u64, p: Policy) -> NFieldModel {
    NFieldModel { name: f.0, ty: norm_model(f.1.ty, p), required: f.1.non_null_in == seen }
}

proof fn lemma_join_fields_half_at(
    a: Seq<(Seq<char>, FieldModel)>,
    b: Seq<(Seq<char>, FieldModel)>,
    seen: u64,
    p: Policy,
    i: int,
)
    requires
        names_distinct(a),
        names_distinct(b),
        forall|k: int, j: int|
            0 <= k < a.len() && 0 <= j < b.len() && a[k].0 == b[j].0 ==> norm_model(
                join_model(#[trigger] a[k].1.ty, #[trigger] b[j].1.ty),
                p,
            ) == norm_model(join_model(b[j].1.ty, a[k].1.ty), p),
        0 <= i < join_fields_model(a, b).len(),
    ensures
        exists|m: int|
            0 <= m < join_fields_model(b, a).len() && field_model_of(join_fields_model(a, b)[i], seen, p)
                == field_model_of(join_fields_model(b, a)[m], seen, p),
{
    reveal(field_model_of);
    let j1 = join_fields_model(a, b);
    let j2 = join_fields_model(b, a);
    lemma_join_fields_distinct(a, b);
    lemma_join_fields_distinct(b, a);
    if i < a.len() {
        let n = a[i].0;
        lemma_field_index(b, n);
        lemma_field_index(a, n);
        let jb = field_index(b, n);
        if jb >= 0 {
            assert(field_index(a, n) == i);
            assert(j2[jb] == (b[jb].0, crate::lattice::join_field_model(b[jb].1, a[i].1)));
            assert(field_model_of(j1[i], seen, p) == field_model_of(j2[jb], seen, p));
        } else {
            lemma_new_fields(a, b);
            let nf = new_fields(a, b);
            assert(nf.contains(a[i]));
            let m = choose|m: int| 0 <= m < nf.len() && nf[m] == a[i];
            assert(j2[b.len() + m] == nf[m]);
            assert(field_model_of(j1[i], seen, p) == field_model_of(j2[b.len() + m], seen, p));
        }
    } else {
        lemma_new_fields(b, a);
        let nf = new_fields(b, a);
        assert(j1[i] == nf[i - a.len()]);
        let jb = choose|jb: int| 0 <= jb < b.len() && #[trigger] nf[i - a.len()] == b[jb] && field_index(a, b[jb].0) < 0;
        lemma_field_index(a, b[jb].0);
        assert(j2[jb] == b[jb]);
        assert(field_model_of(j1[i], seen, p) == field_model_of(j2[jb], seen, p));
    }
}

proof fn lemma_sort_fields_perm(s: Seq<NFieldModel>)
    ensures
        forall|x: NFieldModel| sort_fields(s).contains(x) <==> s.contains(x),
        nf_names_distinct(s) ==> nf_names_distinct(sort_fields(s)),
        sort_fields(s).len() == s.len(),
    decreases s.len(),
{
    if s.len() > 0 {
        let c = s.drop_last();
        let t = sort_fields(c);
        lemma_sort_fields_perm(c);
        lemma_field_insert_pos_facts(t, s.last());
        let q = field_insert_pos(t, s.last());
        let r = t.insert(q, s.last());
        t.insert_ensures(q, s.last());
        assert(r == sort_fields(s));
        assert forall|x: NFieldModel| r.contains(x) <==> s.contains(x) by {
            if r.contains(x) {
                let k = choose|k: int| 0 <= k < r.len() && r[k] == x;
                if k == q {
                    assert(s[s.len() - 1] == x);
                } else {
                    let k2 = if k < q { k } else { k - 1 };
                    assert(r[k] == t[k2]);
                    assert(t.contains(x));
                    assert(c.contains(x));
                    let i = choose|i: int| 0 <= i < c.len() && c[i] == x;
                    assert(s[i] == x);
                }
            }
            if s.contains(x) {
                let i = choose|i: int| 0 <= i < s.len() && s[i] == x;
                if i == s.len() - 1 {
                    assert(r[q] == x);
                } else {
                    assert(c[i] == x);
                    assert(c.contains(x));
                    let k = choose|k: int| 0 <= k < t.len() && t[k] == x;
                    if k < q {
                        assert(r[k] == x);
                    } else {
                        assert(r[k + 1] == x);
                    }
                }
            }
        }
        if nf_names_distinct(s) {
            assert(nf_names_distinct(c)) by {
                assert forall|i: int, j: int| 0 <= i < j < c.len() implies #[trigger] c[i].name != #[trigger] c[j].name by {
                    assert(c[i] == s[i] && c[j] == s[j]);
                }
            }
            assert forall|i: int, j: int| 0 <= i < j < r.len() implies #[trigger] r[i].name != #[trigger] r[j].name by {
                if i != q && j != q {
                    let i2 = if i < q { i } else { i - 1 };
                    let j2 = if j < q { j } else { j - 1 };
                    assert(r[i] == t[i2] && r[j] == t[j2]);
                } else {
                    let o = if i == q { j } else { i };
                    let o2 = if o < q { o } else { o - 1 };
                    assert(r[o] == t[o2]);
                    assert(t.contains(t[o2]));
                    assert(c.contains(t[o2]));
                    let ci = choose|ci: int| 0 <= ci < c.len() && c[ci] == t[o2];
                    assert(s[ci] == c[ci]);
                    assert(r[q] == s[s.len() - 1]);
                }
            }
        }
    }
}

proof fn lemma_strictly_sorted(s: Seq<NFieldModel>)
    requires
        sorted_by_name(s),
        nf_names_distinct(s),
    ensures
        strictly_sorted_by_name(s),
{
    assert forall|i: int, j: int| 0 <= i < j < s.len() implies str_lt(#[trigger] s[i].name, #[trigger] s[j].name) by {
        lemma_str_lt_total(s[i].name, s[j].name);
    }
}

proof fn lemma_sorted_eq(s1: Seq<NFieldModel>, s2: Seq<NFieldModel>)
    requires
        strictly_sorted_by_name(s1),
        strictly_sorted_by_name(s2),
        forall|x: NFieldModel| s1.contains(x) <==> s2.contains(x),
    ensures
        s1 == s2,
    decreases s1.len(),
{
    if s1.len() == 0 {
        if s2.len() > 0 {
            assert(s2.contains(s2[0]));
        }
        assert(s1 =~= s2);
    } else {
        assert(s1.contains(s1[0]));
        let k = choose|k: int| 0 <= k < s2.len() && s2[k] == s1[0];
        assert(s2.contains(s2[0]));
        let m = choose|m: int| 0 <= m < s1.len() && s1[m] == s2[0];
        if k > 0 {
            if m > 0 {
                lemma_str_lt_transitive(s1[0].name, s1[m].name, s2[k].name);
                lemma_str_lt_irreflexive(s1[0].name);
            } else {
                lemma_str_lt_irreflexive(s2[0].name);
            }
        }
        assert(s1[0] == s2[0]);
        let t1 = s1.drop_first();
        let t2 = s2.drop_first();
        assert forall|x: NFieldModel| t1.contains(x) <==> t2.contains(x) by {
            if t1.contains(x) {
                let i = choose|i: int| 0 <= i < t1.len() && t1[i] == x;
                assert(s1[i + 1] == x);
                assert(s1.contains(x));
                let i2 = choose|i2: int| 0 <= i2 < s2.len() && s2[i2] == x;
                if i2 == 0 {
                    assert(str_lt(s1[0].name, s1[i + 1].name));
                    lemma_str_lt_irreflexive(x.name);
                }
                assert(t2[i2 - 1] == x);
            }
            if t2.contains(x) {
                let i = choose|i: int| 0 <= i < t2.len() && t2[i] == x;
                assert(s2[i + 1] == x);
                assert(s2.contains(x));
                let i1 = choose|i1: int| 0 <= i1 < s1.len() && s1[i1] == x;
                if i1 == 0 {
                    assert(str_lt(s2[0].name, s2[i + 1].name));
                    lemma_str_lt_irreflexive(x.name);
                }
                assert(t1[i1 - 1] == x);
            }
        }
        lemma_sorted_eq(t1, t2);
        assert(s1 =~= seq![s1[0]] + t1);
        assert(s2 =~= seq![s2[0]] + t2);
    }
}

proof fn lemma_field_models_index(o: ObjModel, p: Policy)
    ensures
        field_models(o, p).len() == o.fields.len(),
        forall|i: int|
            0 <= i < o.fields.len() ==> #[trigger] field_models(o, p)[i] == field_model_of(
                o.fields[i],
                o.seen_objects,
                p,
            ) && field_models(o, p)[i].name == o.fields[i].0,
{
    reveal(field_model_of);
}

proof fn lemma_sort_fields_eq(f1: Seq<NFieldModel>, f2: Seq<NFieldModel>)
    requires
        nf_names_distinct(f1),
        nf_names_distinct(f2),
        forall|z: NFieldModel| f1.contains(z) <==> f2.contains(z),
    ensures
        sort_fields(f1) == sort_fields(f2),
{
    lemma_sort_fields_perm(f1);
    lemma_sort_fields_perm(f2);
    lemma_sort_fields(f1);
    lemma_sort_fields(f2);
    lemma_strictly_sorted(sort_fields(f1));
    lemma_strictly_sorted(sort_fields(f2));
    assert forall|z: NFieldModel| sort_fields(f1).contains(z) <==> sort_fields(f2).contains(z) by {
        assert(sort_fields(f1).contains(z) <==> f1.contains(z));
        assert(sort_fields(f2).contains(z) <==> f2.contains(z));
    }
    lemma_sorted_eq(sort_fields(f1), sort_fields(f2));
}

proof fn lemma_sorted_field_models_eq(x: ObjModel, y: ObjModel, p: Policy)
    requires
        names_distinct(x.fields),
        names_distinct(y.fields),
        x.seen_objects == y.seen_objects,
        forall|i: int| 0 <= i < x.fields.len() ==> exists|m: int|
            0 <= m < y.fields.len() && field_model_of(#[trigger] x.fields[i], x.seen_objects, p)
                == field_model_of(y.fields[m], y.seen_objects, p),
        forall|i: int| 0 <= i < y.fields.len() ==> exists|m: int|
            0 <= m < x.fields.len() && field_model_of(#[trigger] y.fields[i], y.seen_objects, p)
                == field_model_of(x.fields[m], x.seen_objects, p),
    ensures
        obj_arm(x, p) == obj_arm(y, p),
{
    let f1 = field_models(x, p);
    let f2 = field_models(y, p);
    lemma_field_models_index(x, p);
    lemma_field_models_index(y, p);
    assert forall|z: NFieldModel| f1.contains(z) <==> f2.contains(z) by {
        if f1.contains(z) {
            let i = choose|i: int| 0 <= i < f1.len() && f1[i] == z;
            assert(f1[i] == field_model_of(x.fields[i], x.seen_objects, p));
            let m = choose|m: int|
                0 <= m < y.fields.len() && field_model_of(x.fields[i], x.seen_objects, p) == field_model_of(
                    y.fields[m],
                    y.seen_objects,
                    p,
                );
            assert(f2[m] == z);
        }
        if f2.contains(z) {
            let i = choose|i: int| 0 <= i < f2.len() && f2[i] == z;
            assert(f2[i] == field_model_of(y.fields[i], y.seen_objects, p));
            let m = choose|m: int|
                0 <= m < x.fields.len() && field_model_of(y.fields[i], y.seen_objects, p) == field_model_of(
                    x.fields[m],
                    x.seen_objects,
                    p,
                );
            assert(f1[m] == z);
        }
    }
    assert forall|i: int, j: int| 0 <= i < j < f1.len() implies #[trigger] f1[i].name != #[trigger] f1[j].name by {
        assert(f1[i].name == x.fields[i].0 && f1[j].name == x.fields[j].0);
    }
    assert forall|i: int, j: int| 0 <= i < j < f2.len() implies #[trigger] f2[i].name != #[trigger] f2[j].name by {
        assert(f2[i].name == y.fields[i].0 && f2[j].name == y.fields[j].0);
    }
    lemma_sort_fields_eq(f1, f2);
}

proof fn lemma_arr_arm_commutes(aa: ArrModel, bb: ArrModel, p: Policy)
    requires
        norm_model(join_model(*aa.item, *bb.item), p) == norm_model(join_model(*bb.item, *aa.item), p),
        forall|i: int|
            0 <= i < aa.cols.len() && i < bb.cols.len() ==> norm_model(
                #[trigger] join_model(aa.cols[i], bb.cols[i]),
                p,
            ) == norm_model(join_model(bb.cols[i], aa.cols[i]), p),
    ensures
        arr_arm(join_arr_model(aa, bb), p) == arr_arm(join_arr_model(bb, aa), p),
{
    let xa = join_arr_model(aa, bb);
    let ya = join_arr_model(bb, aa);
    assert(xa.present =~= ya.present);
    assert(xa.non_null =~= ya.non_null);
    assert(xa.cols.len() == ya.cols.len());
    assert(decide_tuple_spec(xa) == decide_tuple_spec(ya));
    lemma_last_required_counts(xa, ya, xa.cols.len() as int);
    let ex = arr_arm(xa, p);
    let ey = arr_arm(ya, p);
    if decide_tuple_spec(xa) {
        assert(ex->ArrayTuple_elems =~= ey->ArrayTuple_elems) by {
            assert forall|i: int| 0 <= i < xa.cols.len() implies norm_model(#[trigger] xa.cols[i], p)
                == norm_model(ya.cols[i], p) by {
                if i < aa.cols.len() && i < bb.cols.len() {
                    assert(xa.cols[i] == join_model(aa.cols[i], bb.cols[i]));
                }
            }
        }
    }
}

#[verifier::rlimit(60)]
proof fn lemma_obj_arm_commutes(oa: ObjModel, ob: ObjModel, p: Policy)
    requires
        names_distinct(oa.fields),
        names_distinct(ob.fields),
        forall|k: int, j: int|
            0 <= k < oa.fields.len() && 0 <= j < ob.fields.len() && oa.fields[k].0 == ob.fields[j].0
                ==> norm_model(join_model(#[trigger] oa.fields[k].1.ty, #[trigger] ob.fields[j].1.ty), p)
                == norm_model(join_model(ob.fields[j].1.ty, oa.fields[k].1.ty), p),
    ensures
        obj_arm(join_obj_model(oa, ob), p) == obj_arm(join_obj_model(ob, oa), p),
{
    let xo = join_obj_model(oa, ob);
    let yo = join_obj_model(ob, oa);
    let seen = xo.seen_objects;
    assert(yo.seen_objects == seen);
    assert(xo.fields == join_fields_model(oa.fields, ob.fields));
    assert(yo.fields == join_fields_model(ob.fields, oa.fields));
    lemma_join_fields_distinct(oa.fields, ob.fields);
    lemma_join_fields_distinct(ob.fields, oa.fields);
    assert forall|k: int, j: int|
        0 <= k < ob.fields.len() && 0 <= j < oa.fields.len() && ob.fields[k].0 == oa.fields[j].0 implies norm_model(
        join_model(#[trigger] ob.fields[k].1.ty, #[trigger] oa.fields[j].1.ty),
        p,
    ) == norm_model(join_model(oa.fields[j].1.ty, ob.fields[k].1.ty), p) by {}
    assert forall|i: int| 0 <= i < xo.fields.len() implies exists|m: int|
        0 <= m < yo.fields.len() && field_model_of(#[trigger] xo.fields[i], xo.seen_objects, p)
            == field_model_of(yo.fields[m], yo.seen_objects, p) by {
        lemma_join_fields_half_at(oa.fields, ob.fields, seen, p, i);
    }
    assert forall|i: int| 0 <= i < yo.fields.len() implies exists|m: int|
        0 <= m < xo.fields.len() && field_model_of(#[trigger] yo.fields[i], yo.seen_objects, p)
            == field_model_of(xo.fields[m], xo.seen_objects, p) by {
        lemma_join_fields_half_at(ob.fields, oa.fields, seen, p, i);
    }
    lemma_sorted_field_models_eq(xo, yo, p);
}

#[verifier::rlimit(60)]
proof fn lemma_commutes_from_arms(a: UModel, b: UModel, p: Policy)
    requires
        a.str_ is Some && b.str_ is Some ==> str_arm(join_str_model(a.str_->0, b.str_->0), p) == str_arm(
            join_str_model(b.str_->0, a.str_->0),
            p,
        ),
        a.arr is Some && b.arr is Some ==> arr_arm(join_arr_model(a.arr->0, b.arr->0), p) == arr_arm(
            join_arr_model(b.arr->0, a.arr->0),
            p,
        ),
        a.obj is Some && b.obj is Some ==> obj_arm(join_obj_model(a.obj->0, b.obj->0), p) == obj_arm(
            join_obj_model(b.obj->0, a.obj->0),
            p,
        ),
    ensures
        norm_model(join_model(a, b), p) == norm_model(join_model(b, a), p),
{
    let x = join_model(a, b);
    let y = join_model(b, a);
    if a.num is Some && b.num is Some {
        lemma_num_join_laws(a.num->0, b.num->0, a.num->0);
    }
    assert(arms_model(x, p) =~= arms_model(y, p));
}

/// With regex synthesis off, the normalized join of well-formed points does
/// not depend on the order of its arguments.
#[verifier::rlimit(80)]
pub proof fn lemma_join_commutes(a: UModel, b: UModel, p: Policy)
    requires
        well_formed(a),
        well_formed(b),
        !p.enable_grex,
    ensures
        norm_model(join_model(a, b), p) == norm_model(join_model(b, a), p),
    decreases a,
{
    lemma_well_formed_parts(a);
    lemma_well_formed_parts(b);
    if a.str_ is Some && b.str_ is Some {
        lemma_str_arm_commutes(a.str_->0, b.str_->0, p);
    }
    if a.arr is Some && b.arr is Some {
        let aa = a.arr->0;
        let bb = b.arr->0;
        assert(decreases_to!(a => a.arr));
        assert(decreases_to!(a.arr => aa));
        assert(decreases_to!(aa => aa.item));
        lemma_join_commutes(*aa.item, *bb.item, p);
        assert forall|i: int| 0 <= i < aa.cols.len() && i < bb.cols.len() implies norm_model(
            #[trigger] join_model(aa.cols[i], bb.cols[i]),
            p,
        ) == norm_model(join_model(bb.cols[i], aa.cols[i]), p) by {
            assert(decreases_to!(aa => aa.cols));
            assert(decreases_to!(aa.cols => aa.cols[i]));
            assert(decreases_to!(a => aa.cols[i]));
            lemma_join_commutes(aa.cols[i], bb.cols[i], p);
        }
        lemma_arr_arm_commutes(aa, bb, p);
    }
    if a.obj is Some && b.obj is Some {
        let oa = a.obj->0;
        let ob = b.obj->0;
        assert(decreases_to!(a => a.obj));
        assert(decreases_to!(a.obj => oa));
        assert forall|k: int, j: int|
            0 <= k < oa.fields.len() && 0 <= j < ob.fields.len() && oa.fields[k].0 == ob.fields[j].0 implies norm_model(
            join_model(#[trigger] oa.fields[k].1.ty, #[trigger] ob.fields[j].1.ty),
            p,
        ) == norm_model(join_model(ob.fields[j].1.ty, oa.fields[k].1.ty), p) by {
            assert(decreases_to!(oa => oa.fields));
            assert(decreases_to!(oa.fields => oa.fields[k]));
            assert(decreases_to!(oa.fields[k] => oa.fields[k].1));
            assert(decreases_to!(oa.fields[k].1 => oa.fields[k].1.ty));
            assert(decreases_to!(a => oa.fields[k].1.ty));
            lemma_join_commutes(oa.fields[k].1.ty, ob.fields[j].1.ty, p);
        }
        lemma_obj_arm_commutes(oa, ob, p);
    }
    lemma_commutes_from_arms(a, b, p);
}

// ------------------------------ idempotence ------------------------------

/// Joining the point with itself changes no decision: every array was seen
/// other than exactly once, objects name each field once, string literal
/// lists hold no duplicates, and no count is near saturation.
pub open spec fn doubling_safe(u: UModel) -> bool
    decreases u,
{
    &&& (u.str_ matches Some(s) ==> s.lits.no_duplicates())
    &&& (u.arr matches Some(a) ==> {
        &&& a.samples != 1
        &&& a.samples < 0x8000_0000_0000_0000
        &&& doubling_safe(*a.item)
        &&& forall|i: int| 0 <= i < a.cols.len() ==> doubling_safe(#[trigger] a.cols[i])
    })
    &&& (u.obj matches Some(o) ==> {
        &&& names_distinct(o.fields)
        &&& o.seen_objects < 0x8000_0000_0000_0000
        &&& forall|i: int| 0 <= i < o.fields.len() ==> doubling_safe(#[trigger] o.fields[i].1.ty)
    })
}

proof fn lemma_doubling_safe_parts(u: UModel)
    requires
        doubling_safe(u),
    ensures
        u.arr is Some ==> doubling_safe(*u.arr->0.item),
        u.arr is Some ==> forall|i: int|
            0 <= i < u.arr->0.cols.len() ==> doubling_safe(#[trigger] u.arr->0.cols[i]),
        u.obj is Some ==> forall|i: int|
            0 <= i < u.obj->0.fields.len() ==> doubling_safe(#[trigger] u.obj->0.fields[i].1.ty),
{
    if u.arr is Some {
        let a = u.arr->0;
        assert(decreases_to!(u => u.arr));
        assert(decreases_to!(u.arr => a));
        assert(decreases_to!(a => a.item));
        assert forall|i: int| 0 <= i < a.cols.len() implies doubling_safe(#[trigger] a.cols[i]) by {
            assert(decreases_to!(a => a.cols));
            assert(decreases_to!(a.cols => a.cols[i]));
            assert(decreases_to!(u => a.cols[i]));
        }
    }
    if u.obj is Some {
        let o = u.obj->0;
        assert(decreases_to!(u => u.obj));
        assert(decreases_to!(u.obj => o));
        assert forall|i: int| 0 <= i < o.fields.len() implies doubling_safe(#[trigger] o.fields[i].1.ty) by {
            assert(decreases_to!(o => o.fields));
            assert(decreases_to!(o.fields => o.fields[i]));
            assert(decreases_to!(o.fields[i] => o.fields[i].1));
            assert(decreases_to!(o.fields[i].1 => o.fields[i].1.ty));
            assert(decreases_to!(u => o.fields[i].1.ty));
        }
    }
}

proof fn lemma_last_required_doubled(x: ArrModel, a: ArrModel, n: int)
    requires
        a.samples < 0x8000_0000_0000_0000,
        x.samples == crate::lattice::sat_add(a.samples, a.samples),
        forall|i: int| 0 <= i < n ==> #[trigger] crate::lattice::count_at(x.present, i) == crate::lattice::sat_add(
            crate::lattice::count_at(a.present, i),
            crate::lattice::count_at(a.present, i),
        ),
    ensures
        last_required(x, n) == last_required(a, n),
    decreases n,
{
    if n > 0 {
        lemma_last_required_doubled(x, a, n - 1);
    }
}

proof fn lemma_arr_arm_idempotent(aa: ArrModel, p: Policy)
    requires
        aa.samples != 1,
        aa.samples < 0x8000_0000_0000_0000,
        norm_model(join_model(*aa.item, *aa.item), p) == norm_model(*aa.item, p),
        forall|i: int|
            0 <= i < aa.cols.len() ==> norm_model(#[trigger] join_model(aa.cols[i], aa.cols[i]), p)
                == norm_model(aa.cols[i], p),
    ensures
        arr_arm(join_arr_model(aa, aa), p) == arr_arm(aa, p),
{
    let xa = join_arr_model(aa, aa);
    assert(xa.cols.len() == aa.cols.len());
    assert forall|i: int| 0 <= i < aa.cols.len() implies #[trigger] crate::lattice::count_at(xa.present, i)
        == crate::lattice::sat_add(crate::lattice::count_at(aa.present, i), crate::lattice::count_at(aa.present, i)) by {}
    assert(has_null_pad(xa) == has_null_pad(aa)) by {
        if has_null_pad(aa) {
            let i = choose|i: int|
                0 <= i < aa.cols.len() && #[trigger] crate::lattice::count_at(aa.present, i) == aa.samples
                    && crate::lattice::count_at(aa.non_null, i) == 0;
            assert(crate::lattice::count_at(xa.present, i) == xa.samples);
            assert(crate::lattice::count_at(xa.non_null, i) == 0);
        }
        if has_null_pad(xa) {
            let i = choose|i: int|
                0 <= i < xa.cols.len() && #[trigger] crate::lattice::count_at(xa.present, i) == xa.samples
                    && crate::lattice::count_at(xa.non_null, i) == 0;
            assert(crate::lattice::count_at(aa.present, i) == aa.samples);
        }
    }
    assert(decide_tuple_spec(xa) == decide_tuple_spec(aa));
    lemma_last_required_doubled(xa, aa, aa.cols.len() as int);
    if decide_tuple_spec(aa) {
        assert(arr_arm(xa, p)->ArrayTuple_elems =~= arr_arm(aa, p)->ArrayTuple_elems) by {
            assert forall|i: int| 0 <= i < aa.cols.len() implies norm_model(#[trigger] xa.cols[i], p)
                == norm_model(aa.cols[i], p) by {
                assert(xa.cols[i] == join_model(aa.cols[i], aa.cols[i]));
            }
        }
    }
}

proof fn lemma_obj_arm_idempotent(oa: ObjModel, p: Policy)
    requires
        names_distinct(oa.fields),
        oa.seen_objects < 0x8000_0000_0000_0000,
        forall|k: int|
            0 <= k < oa.fields.len() ==> norm_model(join_model(#[trigger] oa.fields[k].1.ty, oa.fields[k].1.ty), p)
                == norm_model(oa.fields[k].1.ty, p),
    ensures
        obj_arm(join_obj_model(oa, oa), p) == obj_arm(oa, p),
{
    let f = oa.fields;
    let xo = join_obj_model(oa, oa);
    lemma_new_fields(f, f);
    assert(new_fields(f, f).len() == 0) by {
        if new_fields(f, f).len() > 0 {
            let j = choose|j: int| 0 <= j < f.len() && #[trigger] new_fields(f, f)[0] == f[j] && field_index(f, f[j].0) < 0;
            lemma_field_index(f, f[j].0);
        }
    }
    assert forall|i: int| 0 <= i < f.len() implies #[trigger] xo.fields[i] == (f[i].0, crate::lattice::join_field_model(f[i].1, f[i].1)) by {
        lemma_field_index(f, f[i].0);
        assert(field_index(f, f[i].0) == i);
    }
    assert(field_models(xo, p) =~= field_models(oa, p)) by {
        assert forall|i: int| 0 <= i < f.len() implies #[trigger] field_models(xo, p)[i] == field_models(oa, p)[i] by {
            assert(xo.fields[i] == (f[i].0, crate::lattice::join_field_model(f[i].1, f[i].1)));
        }
    }
}

proof fn lemma_missing_none<A>(b: Seq<A>, a: Seq<A>)
    requires
        forall|i: int| 0 <= i < b.len() ==> a.contains(#[trigger] b[i]),
    ensures
        missing_from(b, a).len() == 0,
    decreases b.len(),
{
    if b.len() > 0 {
        assert forall|i: int| 0 <= i < b.drop_last().len() implies a.contains(#[trigger] b.drop_last()[i]) by {
            assert(b.drop_last()[i] == b[i]);
        }
        lemma_missing_none(b.drop_last(), a);
        assert(a.contains(b[b.len() - 1]));
    }
}

proof fn lemma_str_arm_idempotent(x: StrModel, p: Policy)
    requires
        !p.enable_grex,
        x.lits.no_duplicates(),
    ensures
        str_arm(join_str_model(x, x), p) == str_arm(x, p),
{
    lemma_missing_from(x.lits, x.lits);
    let m = missing_from(x.lits, x.lits);
    assert forall|i: int| 0 <= i < x.lits.len() implies x.lits.contains(#[trigger] x.lits[i]) by {}
    lemma_missing_none(x.lits, x.lits);
    assert(x.lits + m =~= x.lits);
    let l = join_str_model(x, x).lits;
    if x.lits.len() > crate::lattice::MAX_STR_LITS {
        assert(l.len() == 0);
    }
    assert(str_arm(join_str_model(x, x), p)->String_enum_ =~= str_arm(x, p)->String_enum_);
}

proof fn lemma_idempotent_from_arms(u: UModel, p: Policy)
    requires
        u.str_ is Some ==> str_arm(join_str_model(u.str_->0, u.str_->0), p) == str_arm(u.str_->0, p),
        u.arr is Some ==> arr_arm(join_arr_model(u.arr->0, u.arr->0), p) == arr_arm(u.arr->0, p),
        u.obj is Some ==> obj_arm(join_obj_model(u.obj->0, u.obj->0), p) == obj_arm(u.obj->0, p),
    ensures
        norm_model(join_model(u, u), p) == norm_model(u, p),
{
    let x = join_model(u, u);
    if u.num is Some {
        lemma_num_join_laws(u.num->0, u.num->0, u.num->0);
    }
    assert(arms_model(x, p) =~= arms_model(u, p));
}

/// With regex synthesis off, joining a point with itself leaves its
/// normalized form unchanged (for points where doubling the counts changes
/// no decision).
pub proof fn lemma_join_idempotent(u: UModel, p: Policy)
    requires
        doubling_safe(u),
        !p.enable_grex,
    ensures
        norm_model(join_model(u, u), p) == norm_model(u, p),
    decreases u,
{
    lemma_doubling_safe_parts(u);
    if u.str_ is Some {
        lemma_str_arm_idempotent(u.str_->0, p);
    }
    if u.arr is Some {
        let aa = u.arr->0;
        assert(decreases_to!(u => u.arr));
        assert(decreases_to!(u.arr => aa));
        assert(decreases_to!(aa => aa.item));
        lemma_join_idempotent(*aa.item, p);
        assert forall|i: int| 0 <= i < aa.cols.len() implies norm_model(
            #[trigger] join_model(aa.cols[i], aa.cols[i]),
            p,
        ) == norm_model(aa.cols[i], p) by {
            assert(decreases_to!(aa => aa.cols));
            assert(decreases_to!(aa.cols => aa.cols[i]));
            assert(decreases_to!(u => aa.cols[i]));
            lemma_join_idempotent(aa.cols[i], p);
        }
        lemma_arr_arm_idempotent(aa, p);
    }
    if u.obj is Some {
        let oa = u.obj->0;
        assert(decreases_to!(u => u.obj));
        assert(decreases_to!(u.obj => oa));
        assert forall|k: int| 0 <= k < oa.fields.len() implies norm_model(
            join_model(#[trigger] oa.fields[k].1.ty, oa.fields[k].1.ty),
            p,
        ) == norm_model(oa.fields[k].1.ty, p) by {
            assert(decreases_to!(oa => oa.fields));
            assert(decreases_to!(oa.fields => oa.fields[k]));
            assert(decreases_to!(oa.fields[k] => oa.fields[k].1));
            assert(decreases_to!(oa.fields[k].1 => oa.fields[k].1.ty));
            assert(decreases_to!(u => oa.fields[k].1.ty));
            lemma_join_idempotent(oa.fields[k].1.ty, p);
        }
        lemma_obj_arm_idempotent(oa, p);
    }
    lemma_idempotent_from_arms(u, p);
}

// ------------------------------ associativity ------------------------------

pub open spec fn has_field(s: Seq<(Seq<char>, FieldModel)>, n: Seq<char>) -> bool {
    field_index(s, n) >= 0
}

pub open spec fn lookup(s: Seq<(Seq<char>, FieldModel)>, n: Seq<char>) -> FieldModel {
    s[field_index(s, n)].1
}

/// What a join of field lists holds under each name.
proof fn lemma_join_lookup(a: Seq<(Seq<char>, FieldModel)>, b: Seq<(Seq<char>, FieldModel)>, n: Seq<char>)
    requires
        names_distinct(a),
        names_distinct(b),
    ensures
        has_field(join_fields_model(a, b), n) == (has_field(a, n) || has_field(b, n)),
        has_field(join_fields_model(a, b), n) ==> lookup(join_fields_model(a, b), n) == (if has_field(a, n)
            && has_field(b, n) {
            crate::lattice::join_field_model(lookup(a, n), lookup(b, n))
        } else if has_field(a, n) {
            lookup(a, n)
        } else {
            lookup(b, n)
        }),
{
    let j = join_fields_model(a, b);
    let nf = new_fields(b, a);
    lemma_join_fields_distinct(a, b);
    lemma_new_fields(b, a);
    lemma_field_index(a, n);
    lemma_field_index(b, n);
    lemma_field_index(j, n);
    if has_field(a, n) {
        let i = field_index(a, n);
        assert(j[i].0 == n);
        if field_index(j, n) != i {
            assert(j[field_index(j, n)].0 == n);
        }
    } else if has_field(b, n) {
        let jb = field_index(b, n);
        assert(nf.contains(b[jb]));
        let m = choose|m: int| 0 <= m < nf.len() && nf[m] == b[jb];
        assert(j[a.len() + m] == b[jb]);
        if field_index(j, n) != a.len() + m {
            assert(j[field_index(j, n)].0 == n);
        }
    } else {
        if field_index(j, n) >= 0 {
            let k = field_index(j, n);
            if k < a.len() {
                assert(j[k].0 == a[k].0);
            } else {
                assert(j[k] == nf[k - a.len()]);
                let jb = choose|jb: int| 0 <= jb < b.len() && #[trigger] nf[k - a.len()] == b[jb] && field_index(a, b[jb].0) < 0;
            }
        }
    }
}

proof fn lemma_distinct_index(s: Seq<(Seq<char>, FieldModel)>, i: int)
    requires
        names_distinct(s),
        0 <= i < s.len(),
    ensures
        field_index(s, s[i].0) == i,
        has_field(s, s[i].0),
        lookup(s, s[i].0) == s[i].1,
{
    lemma_field_index(s, s[i].0);
    if field_index(s, s[i].0) != i {
        assert(s[field_index(s, s[i].0)].0 == s[i].0);
    }
}

proof fn lemma_sat_add_assoc(x: u64, y: u64, z: u64)
    ensures
        crate::lattice::sat_add(crate::lattice::sat_add(x, y), z) == crate::lattice::sat_add(x, crate::lattice::sat_add(y, z)),
        crate::lattice::sat_add(x, y) == crate::lattice::sat_add(y, x),
{
}

proof fn lemma_obj_arm_associates(oa: ObjModel, ob: ObjModel, oc: ObjModel, p: Policy)
    requires
        names_distinct(oa.fields),
        names_distinct(ob.fields),
        names_distinct(oc.fields),
        forall|n: Seq<char>|
            has_field(oa.fields, n) && has_field(ob.fields, n) && has_field(oc.fields, n) ==> norm_model(
                join_model(join_model(#[trigger] lookup(oa.fields, n).ty, lookup(ob.fields, n).ty), lookup(oc.fields, n).ty),
                p,
            ) == norm_model(join_model(lookup(oa.fields, n).ty, join_model(lookup(ob.fields, n).ty, lookup(oc.fields, n).ty)), p),
    ensures
        obj_arm(join_obj_model(join_obj_model(oa, ob), oc), p) == obj_arm(join_obj_model(oa, join_obj_model(ob, oc)), p),
{
    let ab = join_obj_model(oa, ob);
    let bc = join_obj_model(ob, oc);
    let l = join_obj_model(ab, oc);
    let r = join_obj_model(oa, bc);
    lemma_sat_add_assoc(oa.seen_objects, ob.seen_objects, oc.seen_objects);
    let seen = l.seen_objects;
    assert(r.seen_objects == seen);
    lemma_join_fields_distinct(oa.fields, ob.fields);
    lemma_join_fields_distinct(ob.fields, oc.fields);
    lemma_join_fields_distinct(ab.fields, oc.fields);
    lemma_join_fields_distinct(oa.fields, bc.fields);
    assert forall|n: Seq<char>| #![auto] has_field(l.fields, n) == has_field(r.fields, n) && (has_field(l.fields, n)
        ==> field_model_of((n, lookup(l.fields, n)), seen, p) == field_model_of((n, lookup(r.fields, n)), seen, p)) by {
        lemma_join_lookup(oa.fields, ob.fields, n);
        lemma_join_lookup(ob.fields, oc.fields, n);
        lemma_join_lookup(ab.fields, oc.fields, n);
        lemma_join_lookup(oa.fields, bc.fields, n);
        reveal(field_model_of);
        if has_field(l.fields, n) {
            let fa = lookup(oa.fields, n);
            let fb = lookup(ob.fields, n);
            let fc = lookup(oc.fields, n);
            if has_field(oa.fields, n) && has_field(ob.fields, n) && has_field(oc.fields, n) {
                lemma_sat_add_assoc(fa.present_in, fb.present_in, fc.present_in);
                lemma_sat_add_assoc(fa.non_null_in, fb.non_null_in, fc.non_null_in);
            }
        }
    }
    assert forall|i: int| 0 <= i < l.fields.len() implies exists|m: int|
        0 <= m < r.fields.len() && field_model_of(#[trigger] l.fields[i], l.seen_objects, p)
            == field_model_of(r.fields[m], r.seen_objects, p) by {
        let n = l.fields[i].0;
        lemma_distinct_index(l.fields, i);
        assert(has_field(r.fields, n));
        let m = field_index(r.fields, n);
        lemma_field_index(r.fields, n);
        assert(r.fields[m] == (n, lookup(r.fields, n)));
        assert(l.fields[i] == (n, lookup(l.fields, n)));
    }
    assert forall|i: int| 0 <= i < r.fields.len() implies exists|m: int|
        0 <= m < l.fields.len() && field_model_of(#[trigger] r.fields[i], r.seen_objects, p)
            == field_model_of(l.fields[m], l.seen_objects, p) by {
        let n = r.fields[i].0;
        lemma_distinct_index(r.fields, i);
        assert(has_field(l.fields, n));
        let m = field_index(l.fields, n);
        lemma_field_index(l.fields, n);
        assert(l.fields[m] == (n, lookup(l.fields, n)));
        assert(r.fields[i] == (n, lookup(r.fields, n)));
    }
    lemma_sorted_field_models_eq(l, r, p);
}

/// Object nodes name each field once, string literal lists hold no
/// duplicates, and per-position counts never run past the columns, all the
/// way down (as observation and join guarantee).
pub open spec fn well_formed(u: UModel) -> bool
    decreases u,
{
    &&& (u.str_ matches Some(s) ==> s.lits.no_duplicates())
    &&& (u.arr matches Some(a) ==> {
        &&& a.present.len() <= a.cols.len()
        &&& a.non_null.len() <= a.cols.len()
        &&& well_formed(*a.item)
        &&& forall|i: int| 0 <= i < a.cols.len() ==> well_formed(#[trigger] a.cols[i])
    })
    &&& (u.obj matches Some(o) ==> {
        &&& names_distinct(o.fields)
        &&& forall|i: int| 0 <= i < o.fields.len() ==> well_formed(#[trigger] o.fields[i].1.ty)
    })
}

proof fn lemma_well_formed_parts(u: UModel)
    requires
        well_formed(u),
    ensures
        u.arr is Some ==> well_formed(*u.arr->0.item),
        u.arr is Some ==> forall|i: int|
            0 <= i < u.arr->0.cols.len() ==> well_formed(#[trigger] u.arr->0.cols[i]),
        u.obj is Some ==> forall|i: int|
            0 <= i < u.obj->0.fields.len() ==> well_formed(#[trigger] u.obj->0.fields[i].1.ty),
{
    if u.arr is Some {
        let a = u.arr->0;
        assert(decreases_to!(u => u.arr));
        assert(decreases_to!(u.arr => a));
        assert(decreases_to!(a => a.item));
        assert forall|i: int| 0 <= i < a.cols.len() implies well_formed(#[trigger] a.cols[i]) by {
            assert(decreases_to!(a => a.cols));
            assert(decreases_to!(a.cols => a.cols[i]));
            assert(decreases_to!(u => a.cols[i]));
        }
    }
    if u.obj is Some {
        let o = u.obj->0;
        assert(decreases_to!(u => u.obj));
        assert(decreases_to!(u.obj => o));
        assert forall|i: int| 0 <= i < o.fields.len() implies well_formed(#[trigger] o.fields[i].1.ty) by {
            assert(decreases_to!(o => o.fields));
            assert(decreases_to!(o.fields => o.fields[i]));
            assert(decreases_to!(o.fields[i] => o.fields[i].1));
            assert(decreases_to!(o.fields[i].1 => o.fields[i].1.ty));
            assert(decreases_to!(u => o.fields[i].1.ty));
        }
    }
}

proof fn lemma_with_null_join(x: UModel, y: UModel)
    ensures
        join_model(with_null(x), y) == with_null(join_model(x, y)),
        join_model(x, with_null(y)) == with_null(join_model(x, y)),
        with_null(with_null(x)) == with_null(x),
{
}

proof fn lemma_counts_associate(a: Seq<u64>, b: Seq<u64>, c: Seq<u64>, na: nat, nb: nat, nc: nat)
    requires
        a.len() <= na,
        b.len() <= nb,
        c.len() <= nc,
    ensures
        crate::lattice::join_counts_model(
            crate::lattice::join_counts_model(a, b, crate::lattice::max_nat(na, nb)),
            c,
            crate::lattice::max_nat(crate::lattice::max_nat(na, nb), nc),
        ) == crate::lattice::join_counts_model(
            a,
            crate::lattice::join_counts_model(b, c, crate::lattice::max_nat(nb, nc)),
            crate::lattice::max_nat(na, crate::lattice::max_nat(nb, nc)),
        ),
{
    let l = crate::lattice::join_counts_model(
        crate::lattice::join_counts_model(a, b, crate::lattice::max_nat(na, nb)),
        c,
        crate::lattice::max_nat(crate::lattice::max_nat(na, nb), nc),
    );
    let r = crate::lattice::join_counts_model(
        a,
        crate::lattice::join_counts_model(b, c, crate::lattice::max_nat(nb, nc)),
        crate::lattice::max_nat(na, crate::lattice::max_nat(nb, nc)),
    );
    assert forall|i: int| 0 <= i < l.len() implies l[i] == r[i] by {
        lemma_sat_add_assoc(count_at(a, i), count_at(b, i), count_at(c, i));
    }
    assert(l =~= r);
}

proof fn lemma_arr_arm_associates(aa: ArrModel, bb: ArrModel, cc: ArrModel, p: Policy)
    requires
        aa.present.len() <= aa.cols.len() && aa.non_null.len() <= aa.cols.len(),
        bb.present.len() <= bb.cols.len() && bb.non_null.len() <= bb.cols.len(),
        cc.present.len() <= cc.cols.len() && cc.non_null.len() <= cc.cols.len(),
        norm_model(join_model(join_model(*aa.item, *bb.item), *cc.item), p) == norm_model(
            join_model(*aa.item, join_model(*bb.item, *cc.item)),
            p,
        ),
        forall|i: int|
            0 <= i < aa.cols.len() && i < bb.cols.len() && i < cc.cols.len() ==> norm_model(
                #[trigger] join_model(join_model(aa.cols[i], bb.cols[i]), cc.cols[i]),
                p,
            ) == norm_model(join_model(aa.cols[i], join_model(bb.cols[i], cc.cols[i])), p),
    ensures
        arr_arm(join_arr_model(join_arr_model(aa, bb), cc), p) == arr_arm(
            join_arr_model(aa, join_arr_model(bb, cc)),
            p,
        ),
{
    let ab = join_arr_model(aa, bb);
    let bc = join_arr_model(bb, cc);
    let l = join_arr_model(ab, cc);
    let r = join_arr_model(aa, bc);
    lemma_sat_add_assoc(aa.samples, bb.samples, cc.samples);
    lemma_counts_associate(aa.present, bb.present, cc.present, aa.cols.len(), bb.cols.len(), cc.cols.len());
    lemma_counts_associate(aa.non_null, bb.non_null, cc.non_null, aa.cols.len(), bb.cols.len(), cc.cols.len());
    assert(l.present == r.present);
    assert(l.non_null == r.non_null);
    assert(l.cols.len() == r.cols.len());
    assert(decide_tuple_spec(l) == decide_tuple_spec(r));
    lemma_last_required_counts(l, r, l.cols.len() as int);
    if decide_tuple_spec(l) {
        assert(arr_arm(l, p)->ArrayTuple_elems =~= arr_arm(r, p)->ArrayTuple_elems) by {
            assert forall|i: int| 0 <= i < l.cols.len() implies norm_model(#[trigger] l.cols[i], p)
                == norm_model(r.cols[i], p) by {
                let ina = i < aa.cols.len();
                let inb = i < bb.cols.len();
                let inc = i < cc.cols.len();
                let ghost x = if ina { aa.cols[i] } else { empty_model() };
                let ghost y = if inb { bb.cols[i] } else { empty_model() };
                let ghost z = if inc { cc.cols[i] } else { empty_model() };
                lemma_with_null_join(x, y);
                lemma_with_null_join(y, z);
                lemma_with_null_join(x, z);
                lemma_with_null_join(join_model(x, y), z);
                lemma_with_null_join(x, join_model(y, z));
                if ina && inb && inc {
                    assert(ab.cols[i] == join_model(x, y));
                    assert(bc.cols[i] == join_model(y, z));
                    assert(l.cols[i] == join_model(join_model(x, y), z));
                    assert(r.cols[i] == join_model(x, join_model(y, z)));
                } else if ina && inb {
                    assert(ab.cols[i] == join_model(x, y));
                    assert(bc.cols[i] == with_null(y));
                    assert(l.cols[i] == with_null(join_model(x, y)));
                    assert(r.cols[i] == join_model(x, with_null(y)));
                } else if ina && inc {
                    assert(ab.cols[i] == with_null(x));
                    assert(bc.cols[i] == with_null(z));
                    assert(l.cols[i] == join_model(with_null(x), z));
                    assert(r.cols[i] == join_model(x, with_null(z)));
                } else if inb && inc {
                    assert(ab.cols[i] == with_null(y));
                    assert(bc.cols[i] == join_model(y, z));
                    assert(l.cols[i] == join_model(with_null(y), z));
                    assert(r.cols[i] == with_null(join_model(y, z)));
                } else if ina {
                    assert(ab.cols[i] == with_null(x));
                    assert(l.cols[i] == with_null(with_null(x)));
                    assert(r.cols[i] == with_null(x));
                } else if inb {
                    assert(ab.cols[i] == with_null(y));
                    assert(bc.cols[i] == with_null(y));
                    assert(l.cols[i] == with_null(with_null(y)));
                    assert(r.cols[i] == with_null(with_null(y)));
                } else {
                    assert(bc.cols[i] == with_null(z));
                    assert(l.cols[i] == with_null(z));
                    assert(r.cols[i] == with_null(with_null(z)));
                }
            }
        }
    }
}

proof fn lemma_associates_arr_part(a: UModel, b: UModel, c: UModel, p: Policy)
    requires
        a.arr is Some && b.arr is Some && c.arr is Some ==> arr_arm(
            join_arr_model(join_arr_model(a.arr->0, b.arr->0), c.arr->0),
            p,
        ) == arr_arm(join_arr_model(a.arr->0, join_arr_model(b.arr->0, c.arr->0)), p),
    ensures
        join_model(join_model(a, b), c).arr is Some == join_model(a, join_model(b, c)).arr is Some,
        join_model(join_model(a, b), c).arr is Some ==> arr_arm(join_model(join_model(a, b), c).arr->0, p)
            == arr_arm(join_model(a, join_model(b, c)).arr->0, p),
{
}

proof fn lemma_associates_obj_part(a: UModel, b: UModel, c: UModel, p: Policy)
    requires
        a.obj is Some && b.obj is Some && c.obj is Some ==> obj_arm(
            join_obj_model(join_obj_model(a.obj->0, b.obj->0), c.obj->0),
            p,
        ) == obj_arm(join_obj_model(a.obj->0, join_obj_model(b.obj->0, c.obj->0)), p),
    ensures
        join_model(join_model(a, b), c).obj is Some == join_model(a, join_model(b, c)).obj is Some,
        join_model(join_model(a, b), c).obj is Some ==> obj_arm(join_model(join_model(a, b), c).obj->0, p)
            == obj_arm(join_model(a, join_model(b, c)).obj->0, p),
{
}

proof fn lemma_associates_scalar_parts(a: UModel, b: UModel, c: UModel, p: Policy)
    requires
        plain_strings(p),
    ensures
        join_model(join_model(a, b), c).num is Some == join_model(a, join_model(b, c)).num is Some,
        join_model(join_model(a, b), c).num is Some ==> num_arm(join_model(join_model(a, b), c).num->0)
            == num_arm(join_model(a, join_model(b, c)).num->0),
        join_model(join_model(a, b), c).str_ is Some == join_model(a, join_model(b, c)).str_ is Some,
        join_model(join_model(a, b), c).str_ is Some ==> str_arm(join_model(join_model(a, b), c).str_->0, p)
            == str_arm(join_model(a, join_model(b, c)).str_->0, p),
        join_model(join_model(a, b), c).nullable == join_model(a, join_model(b, c)).nullable,
        join_model(join_model(a, b), c).has_bool == join_model(a, join_model(b, c)).has_bool,
{
    let l = join_model(join_model(a, b), c);
    let r = join_model(a, join_model(b, c));
    if a.num is Some && b.num is Some && c.num is Some {
        lemma_num_join_laws(a.num->0, b.num->0, c.num->0);
    }
    if l.str_ is Some {
        lemma_plain_str_arm(l.str_->0, r.str_->0, p);
    }
}

#[verifier::rlimit(60)]
proof fn lemma_associates_from_arms(a: UModel, b: UModel, c: UModel, p: Policy)
    requires
        plain_strings(p),
        a.arr is Some && b.arr is Some && c.arr is Some ==> arr_arm(
            join_arr_model(join_arr_model(a.arr->0, b.arr->0), c.arr->0),
            p,
        ) == arr_arm(join_arr_model(a.arr->0, join_arr_model(b.arr->0, c.arr->0)), p),
        a.obj is Some && b.obj is Some && c.obj is Some ==> obj_arm(
            join_obj_model(join_obj_model(a.obj->0, b.obj->0), c.obj->0),
            p,
        ) == obj_arm(join_obj_model(a.obj->0, join_obj_model(b.obj->0, c.obj->0)), p),
    ensures
        norm_model(join_model(join_model(a, b), c), p) == norm_model(join_model(a, join_model(b, c)), p),
{
    let l = join_model(join_model(a, b), c);
    let r = join_model(a, join_model(b, c));
    lemma_associates_arr_part(a, b, c, p);
    lemma_associates_obj_part(a, b, c, p);
    lemma_associates_scalar_parts(a, b, c, p);
    assert(arms_model(l, p) =~= arms_model(r, p));
}

/// With enums and regex synthesis off, the normalized join does not depend
/// on how the joins are grouped.
#[verifier::rlimit(80)]
pub proof fn lemma_join_associates(a: UModel, b: UModel, c: UModel, p: Policy)
    requires
        well_formed(a),
        well_formed(b),
        well_formed(c),
        plain_strings(p),
    ensures
        norm_model(join_model(join_model(a, b), c), p) == norm_model(join_model(a, join_model(b, c)), p),
    decreases a,
{
    lemma_well_formed_parts(a);
    lemma_well_formed_parts(b);
    lemma_well_formed_parts(c);
    if a.arr is Some && b.arr is Some && c.arr is Some {
        let aa = a.arr->0;
        let bb = b.arr->0;
        let cc = c.arr->0;
        assert(decreases_to!(a => a.arr));
        assert(decreases_to!(a.arr => aa));
        assert(decreases_to!(aa => aa.item));
        lemma_join_associates(*aa.item, *bb.item, *cc.item, p);
        assert forall|i: int| 0 <= i < aa.cols.len() && i < bb.cols.len() && i < cc.cols.len() implies norm_model(
            #[trigger] join_model(join_model(aa.cols[i], bb.cols[i]), cc.cols[i]),
            p,
        ) == norm_model(join_model(aa.cols[i], join_model(bb.cols[i], cc.cols[i])), p) by {
            assert(decreases_to!(aa => aa.cols));
            assert(decreases_to!(aa.cols => aa.cols[i]));
            assert(decreases_to!(a => aa.cols[i]));
            lemma_join_associates(aa.cols[i], bb.cols[i], cc.cols[i], p);
        }
        lemma_arr_arm_associates(aa, bb, cc, p);
    }
    if a.obj is Some && b.obj is Some && c.obj is Some {
        let oa = a.obj->0;
        let ob = b.obj->0;
        let oc = c.obj->0;
        assert(decreases_to!(a => a.obj));
        assert(decreases_to!(a.obj => oa));
        assert forall|n: Seq<char>|
            has_field(oa.fields, n) && has_field(ob.fields, n) && has_field(oc.fields, n) implies norm_model(
            join_model(join_model(#[trigger] lookup(oa.fields, n).ty, lookup(ob.fields, n).ty), lookup(oc.fields, n).ty),
            p,
        ) == norm_model(join_model(lookup(oa.fields, n).ty, join_model(lookup(ob.fields, n).ty, lookup(oc.fields, n).ty)), p) by {
            let k = field_index(oa.fields, n);
            lemma_field_index(oa.fields, n);
            lemma_field_index(ob.fields, n);
            lemma_field_index(oc.fields, n);
            assert(decreases_to!(oa => oa.fields));
            assert(decreases_to!(oa.fields => oa.fields[k]));
            assert(decreases_to!(oa.fields[k] => oa.fields[k].1));
            assert(decreases_to!(oa.fields[k].1 => oa.fields[k].1.ty));
            assert(decreases_to!(a => oa.fields[k].1.ty));
            lemma_join_associates(lookup(oa.fields, n).ty, lookup(ob.fields, n).ty, lookup(oc.fields, n).ty, p);
        }
        lemma_obj_arm_associates(oa, ob, oc, p);
    }
    lemma_associates_from_arms(a, b, c, p);
}
// ------------------------------ reachable points ------------------------------

proof fn lemma_with_null_well_formed(x: UModel)
    ensures
        well_formed(with_null(x)) == well_formed(x),
{
    assert(with_null(x).arr == x.arr && with_null(x).obj == x.obj);
}

/// The join of well-formed points is well formed.
pub proof fn lemma_join_well_formed(a: UModel, b: UModel)
    requires
        well_formed(a),
        well_formed(b),
    ensures
        well_formed(join_model(a, b)),
    decreases a,
{
    lemma_well_formed_parts(a);
    lemma_well_formed_parts(b);
    let x = join_model(a, b);
    if a.str_ is Some && b.str_ is Some {
        lemma_union_facts(a.str_->0.lits, b.str_->0.lits);
        assert(x.str_->0.lits.no_duplicates());
    }
    if a.arr is Some && b.arr is Some {
        let aa = a.arr->0;
        let bb = b.arr->0;
        let xa = x.arr->0;
        assert(xa == join_arr_model(aa, bb));
        assert(xa.cols == join_cols_model(aa.cols, bb.cols));
        assert(xa.cols.len() == crate::lattice::max_nat(aa.cols.len(), bb.cols.len()));
        assert(decreases_to!(a => a.arr));
        assert(decreases_to!(a.arr => aa));
        assert(decreases_to!(aa => aa.item));
        lemma_join_well_formed(*aa.item, *bb.item);
        assert forall|i: int| 0 <= i < xa.cols.len() implies well_formed(#[trigger] xa.cols[i]) by {
            if i < aa.cols.len() && i < bb.cols.len() {
                assert(decreases_to!(aa => aa.cols));
                assert(decreases_to!(aa.cols => aa.cols[i]));
                assert(decreases_to!(a => aa.cols[i]));
                lemma_join_well_formed(aa.cols[i], bb.cols[i]);
                assert(xa.cols[i] == join_model(aa.cols[i], bb.cols[i]));
            } else if i < aa.cols.len() {
                lemma_with_null_well_formed(aa.cols[i]);
                assert(xa.cols[i] == with_null(aa.cols[i]));
            } else {
                assert(i < bb.cols.len());
                lemma_with_null_well_formed(bb.cols[i]);
                assert(xa.cols[i] == with_null(bb.cols[i]));
            }
        }
    }
    if a.obj is Some && b.obj is Some {
        let oa = a.obj->0;
        let ob = b.obj->0;
        let xo = x.obj->0;
        assert(xo == join_obj_model(oa, ob));
        assert(xo.fields == join_fields_model(oa.fields, ob.fields));
        assert(decreases_to!(a => a.obj));
        assert(decreases_to!(a.obj => oa));
        lemma_join_fields_distinct(oa.fields, ob.fields);
        lemma_new_fields(ob.fields, oa.fields);
        assert forall|i: int| 0 <= i < xo.fields.len() implies well_formed(#[trigger] xo.fields[i].1.ty) by {
            if i < oa.fields.len() {
                let j = field_index(ob.fields, oa.fields[i].0);
                lemma_field_index(ob.fields, oa.fields[i].0);
                if j >= 0 {
                    assert(decreases_to!(oa => oa.fields));
                    assert(decreases_to!(oa.fields => oa.fields[i]));
                    assert(decreases_to!(oa.fields[i] => oa.fields[i].1));
                    assert(decreases_to!(oa.fields[i].1 => oa.fields[i].1.ty));
                    assert(decreases_to!(a => oa.fields[i].1.ty));
                    lemma_join_well_formed(oa.fields[i].1.ty, ob.fields[j].1.ty);
                    assert(xo.fields[i].1.ty == join_model(oa.fields[i].1.ty, ob.fields[j].1.ty));
                } else {
                    assert(xo.fields[i] == oa.fields[i]);
                }
            } else {
                let nf = new_fields(ob.fields, oa.fields);
                assert(xo.fields[i] == nf[i - oa.fields.len()]);
                let jb = choose|jb: int| 0 <= jb < ob.fields.len() && #[trigger] nf[i - oa.fields.len()] == ob.fields[jb] && field_index(oa.fields, ob.fields[jb].0) < 0;
                assert(well_formed(ob.fields[jb].1.ty));
            }
        }
        assert(names_distinct(xo.fields));
    }
}

/// A left fold of joins over well-formed points is well formed.
pub proof fn lemma_join_all_well_formed(s: Seq<UModel>)
    requires
        forall|i: int| 0 <= i < s.len() ==> well_formed(#[trigger] s[i]),
    ensures
        well_formed(join_all(s)),
    decreases s.len(),
{
    if s.len() > 0 {
        assert forall|i: int| 0 <= i < s.drop_last().len() implies well_formed(#[trigger] s.drop_last()[i]) by {
            assert(s.drop_last()[i] == s[i]);
        }
        lemma_join_all_well_formed(s.drop_last());
        lemma_join_well_formed(join_all(s.drop_last()), s.last());
    }
}

proof fn lemma_observe_members_well_formed(ms: Seq<(Seq<char>, JsonModel)>)
    requires
        forall|m: int| 0 <= m < ms.len() ==> well_formed(observe_model(#[trigger] ms[m].1)),
    ensures
        names_distinct(observe_members(ms)),
        forall|i: int| 0 <= i < observe_members(ms).len() ==> well_formed(#[trigger] observe_members(ms)[i].1.ty),
    decreases ms.len(),
{
    if ms.len() > 0 {
        let c = ms.subrange(0, ms.len() - 1);
        assert forall|m: int| 0 <= m < c.len() implies well_formed(observe_model(#[trigger] c[m].1)) by {
            assert(c[m] == ms[m]);
        }
        lemma_observe_members_well_formed(c);
        let prev = observe_members(c);
        let k = ms[ms.len() - 1].0;
        assert(well_formed(observe_model(ms[ms.len() - 1].1)));
        lemma_field_index(prev, k);
    }
}

/// Observing a value gives a well-formed point.
pub proof fn lemma_observe_well_formed(j: JsonModel)
    ensures
        well_formed(observe_model(j)),
    decreases j,
{
    match j {
        JsonModel::Array(xs) => {
            let obs = observe_all(xs);
            assert forall|i: int| 0 <= i < obs.len() implies well_formed(#[trigger] obs[i]) by {
                assert(decreases_to!(j => xs));
                assert(decreases_to!(xs => xs[i]));
                lemma_observe_well_formed(xs[i]);
            }
            lemma_join_all_well_formed(obs);
        },
        JsonModel::Object(ms) => {
            assert forall|m: int| 0 <= m < ms.len() implies well_formed(observe_model(#[trigger] ms[m].1)) by {
                assert(decreases_to!(j => ms));
                assert(decreases_to!(ms => ms[m]));
                assert(decreases_to!(ms[m] => ms[m].1));
                lemma_observe_well_formed(ms[m].1);
            }
            lemma_observe_members_well_formed(ms);
        },
        _ => {},
    }
}


pub open spec fn array_points(xs: Seq<Seq<JsonModel>>) -> Seq<UModel> {
    Seq::new(xs.len(), |i: int| observe_model(JsonModel::Array(xs[i])))
}

proof fn lemma_same_length_evidence(xs: Seq<Seq<JsonModel>>, len: nat)
    requires
        xs.len() >= 1,
        0 < len <= u32::MAX,
        forall|i: int| 0 <= i < xs.len() ==> (#[trigger] xs[i]).len() == len,
    ensures
        join_all(array_points(xs)).arr is Some,
        join_all(array_points(xs)).arr->0.len_min == len,
        join_all(array_points(xs)).arr->0.len_max == len,
        join_all(array_points(xs)).arr->0.cols.len() == len,
        join_all(array_points(xs)).arr->0.samples >= (if xs.len() >= 2 { 2u64 } else { 1u64 }),
    decreases xs.len(),
{
    let s = array_points(xs);
    let last = xs[xs.len() - 1];
    assert(s.last() == observe_model(JsonModel::Array(last)));
    assert(last.len() == len);
    assert(observe_all(last).len() == len);
    assert(s.last().arr->0.cols.len() == len);
    if xs.len() == 1 {
        assert(s.drop_last() =~= Seq::<UModel>::empty());
        assert(join_all(s.drop_last()) == empty_model());
        assert(join_all(s) == join_model(empty_model(), s.last()));
    } else {
        let ys = xs.drop_last();
        assert forall|i: int| 0 <= i < ys.len() implies (#[trigger] ys[i]).len() == len by {
            assert(ys[i] == xs[i]);
        }
        assert(s.drop_last() =~= array_points(ys));
        lemma_same_length_evidence(ys, len);
        let prev = join_all(array_points(ys));
        assert(join_all(s) == join_model(prev, s.last()));
        let pa = prev.arr->0;
        let la = s.last().arr->0;
        assert(join_all(s).arr->0 == join_arr_model(pa, la));
        assert(join_cols_model(pa.cols, la.cols).len() == len);
    }
}

/// A corpus of at least two arrays, all of one non-zero length, gives a
/// tuple whose `min_items` and `max_items` are that length.
pub proof fn lemma_same_length_corpus_is_tuple(xs: Seq<Seq<JsonModel>>, len: nat, p: Policy)
    requires
        xs.len() >= 2,
        0 < len <= u32::MAX,
        forall|i: int| 0 <= i < xs.len() ==> (#[trigger] xs[i]).len() == len,
    ensures
        arr_arm(join_all(array_points(xs)).arr->0, p) matches NModel::ArrayTuple { min_items, max_items, .. }
            && min_items == len && max_items == len,
{
    lemma_same_length_evidence(xs, len);
}

// ------------------------------ literal lists ------------------------------

proof fn lemma_missing_from<A>(b: Seq<A>, a: Seq<A>)
    ensures
        forall|x: A| missing_from(b, a).contains(x) <==> (b.contains(x) && !a.contains(x)),
        b.no_duplicates() ==> missing_from(b, a).no_duplicates(),
    decreases b.len(),
{
    if b.len() > 0 {
        let c = b.drop_last();
        lemma_missing_from(c, a);
        let mc = missing_from(c, a);
        let m = missing_from(b, a);
        assert forall|x: A| m.contains(x) <==> (b.contains(x) && !a.contains(x)) by {
            if m.contains(x) {
                let k = choose|k: int| 0 <= k < m.len() && m[k] == x;
                if k < mc.len() {
                    assert(mc[k] == x);
                    assert(mc.contains(x));
                    assert(c.contains(x));
                    let i = choose|i: int| 0 <= i < c.len() && c[i] == x;
                    assert(b[i] == x);
                } else {
                    assert(b[b.len() - 1] == x);
                }
            }
            if b.contains(x) && !a.contains(x) {
                let i = choose|i: int| 0 <= i < b.len() && b[i] == x;
                if i < c.len() {
                    assert(c[i] == x);
                    assert(c.contains(x));
                    assert(mc.contains(x));
                    let k = choose|k: int| 0 <= k < mc.len() && mc[k] == x;
                    assert(m[k] == x);
                } else {
                    assert(m[mc.len() as int] == x);
                }
            }
        }
        if b.no_duplicates() {
            assert(c.no_duplicates()) by {
                assert forall|i: int, j: int| 0 <= i < c.len() && 0 <= j < c.len() && i != j implies c[i] != c[j] by {
                    assert(c[i] == b[i] && c[j] == b[j]);
                }
            }
            assert forall|i: int, j: int| 0 <= i < m.len() && 0 <= j < m.len() && i != j implies m[i] != m[j] by {
                if i < mc.len() && j < mc.len() {
                    assert(m[i] == mc[i] && m[j] == mc[j]);
                } else if i < mc.len() {
                    assert(m[i] == mc[i]);
                    assert(mc.contains(mc[i]));
                    assert(c.contains(mc[i]));
                    let ci = choose|ci: int| 0 <= ci < c.len() && c[ci] == mc[i];
                    assert(b[ci] == c[ci]);
                } else if j < mc.len() {
                    assert(m[j] == mc[j]);
                    assert(mc.contains(mc[j]));
                    assert(c.contains(mc[j]));
                    let cj = choose|cj: int| 0 <= cj < c.len() && c[cj] == mc[j];
                    assert(b[cj] == c[cj]);
                }
            }
        }
    }
}

proof fn lemma_union_facts<A>(a: Seq<A>, b: Seq<A>)
    requires
        a.no_duplicates(),
        b.no_duplicates(),
    ensures
        (a + missing_from(b, a)).no_duplicates(),
        forall|x: A| (a + missing_from(b, a)).contains(x) <==> (a.contains(x) || b.contains(x)),
{
    lemma_missing_from(b, a);
    let m = missing_from(b, a);
    let u = a + m;
    assert forall|x: A| u.contains(x) <==> (a.contains(x) || b.contains(x)) by {
        if u.contains(x) {
            let k = choose|k: int| 0 <= k < u.len() && u[k] == x;
            if k >= a.len() {
                assert(m[k - a.len()] == x);
            }
        }
        if a.contains(x) {
            let k = choose|k: int| 0 <= k < a.len() && a[k] == x;
            assert(u[k] == x);
        } else if b.contains(x) {
            let k = choose|k: int| 0 <= k < m.len() && m[k] == x;
            assert(u[a.len() + k] == x);
        }
    }
    assert forall|i: int, j: int| 0 <= i < u.len() && 0 <= j < u.len() && i != j implies u[i] != u[j] by {
        if i >= a.len() && j < a.len() {
            assert(m.contains(u[i]));
            assert(a.contains(u[j]));
        } else if i < a.len() && j >= a.len() {
            assert(m.contains(u[j]));
            assert(a.contains(u[i]));
        } else if i >= a.len() {
            assert(u[i] == m[i - a.len()] && u[j] == m[j - a.len()]);
        }
    }
}

proof fn lemma_same_set_len<A>(a: Seq<A>, b: Seq<A>)
    requires
        a.no_duplicates(),
        b.no_duplicates(),
        forall|x: A| a.contains(x) <==> b.contains(x),
    ensures
        a.len() == b.len(),
{
    a.unique_seq_to_set();
    b.unique_seq_to_set();
    assert(a.to_set() =~= b.to_set());
}

proof fn lemma_sort_strings_perm(s: Seq<Seq<char>>)
    ensures
        forall|x: Seq<char>| sort_strings(s).contains(x) <==> s.contains(x),
        s.no_duplicates() ==> sort_strings(s).no_duplicates(),
        sort_strings(s).len() == s.len(),
    decreases s.len(),
{
    lemma_sort_strings(s);
    if s.len() > 0 {
        let c = s.drop_last();
        let t = sort_strings(c);
        lemma_sort_strings_perm(c);
        let x0 = s.last();
        let q = insert_pos(t, x0);
        lemma_insert_pos_bound(t, x0);
        let r = t.insert(q, x0);
        t.insert_ensures(q, x0);
        assert(r == sort_strings(s));
        assert forall|x: Seq<char>| r.contains(x) <==> s.contains(x) by {
            if r.contains(x) {
                let k = choose|k: int| 0 <= k < r.len() && r[k] == x;
                if k == q {
                    assert(s[s.len() - 1] == x);
                } else {
                    let k2 = if k < q { k } else { k - 1 };
                    assert(r[k] == t[k2]);
                    assert(t.contains(x));
                    assert(c.contains(x));
                    let i = choose|i: int| 0 <= i < c.len() && c[i] == x;
                    assert(s[i] == x);
                }
            }
            if s.contains(x) {
                let i = choose|i: int| 0 <= i < s.len() && s[i] == x;
                if i == s.len() - 1 {
                    assert(r[q] == x);
                } else {
                    assert(c[i] == x);
                    assert(c.contains(x));
                    let k = choose|k: int| 0 <= k < t.len() && t[k] == x;
                    if k < q {
                        assert(r[k] == x);
                    } else {
                        assert(r[k + 1] == x);
                    }
                }
            }
        }
        if s.no_duplicates() {
            assert(c.no_duplicates()) by {
                assert forall|i: int, j: int| 0 <= i < c.len() && 0 <= j < c.len() && i != j implies c[i] != c[j] by {
                    assert(c[i] == s[i] && c[j] == s[j]);
                }
            }
            assert forall|i: int, j: int| 0 <= i < r.len() && 0 <= j < r.len() && i != j implies r[i] != r[j] by {
                if i != q && j != q {
                    let i2 = if i < q { i } else { i - 1 };
                    let j2 = if j < q { j } else { j - 1 };
                    assert(r[i] == t[i2] && r[j] == t[j2]);
                } else {
                    let o = if i == q { j } else { i };
                    let o2 = if o < q { o } else { o - 1 };
                    assert(r[o] == t[o2]);
                    assert(t.contains(t[o2]));
                    assert(c.contains(t[o2]));
                    let ci = choose|ci: int| 0 <= ci < c.len() && c[ci] == t[o2];
                    assert(s[ci] == c[ci]);
                    assert(r[q] == s[s.len() - 1]);
                }
            }
        }
    }
}

proof fn lemma_insert_pos_bound(s: Seq<Seq<char>>, x: Seq<char>)
    ensures
        0 <= insert_pos(s, x) <= s.len(),
    decreases s.len(),
{
    if s.len() > 0 {
        lemma_insert_pos_bound(s.drop_first(), x);
    }
}

proof fn lemma_sorted_strings_eq(s1: Seq<Seq<char>>, s2: Seq<Seq<char>>)
    requires
        forall|i: int, j: int| 0 <= i < j < s1.len() ==> str_lt(#[trigger] s1[i], #[trigger] s1[j]),
        forall|i: int, j: int| 0 <= i < j < s2.len() ==> str_lt(#[trigger] s2[i], #[trigger] s2[j]),
        forall|x: Seq<char>| s1.contains(x) <==> s2.contains(x),
    ensures
        s1 == s2,
    decreases s1.len(),
{
    if s1.len() == 0 {
        if s2.len() > 0 {
            assert(s2.contains(s2[0]));
        }
        assert(s1 =~= s2);
    } else {
        assert(s1.contains(s1[0]));
        let k = choose|k: int| 0 <= k < s2.len() && s2[k] == s1[0];
        assert(s2.contains(s2[0]));
        let m = choose|m: int| 0 <= m < s1.len() && s1[m] == s2[0];
        if k > 0 {
            if m > 0 {
                lemma_str_lt_transitive(s1[0], s1[m], s2[k]);
                lemma_str_lt_irreflexive(s1[0]);
            } else {
                lemma_str_lt_irreflexive(s2[0]);
            }
        }
        assert(s1[0] == s2[0]);
        let t1 = s1.drop_first();
        let t2 = s2.drop_first();
        assert forall|x: Seq<char>| t1.contains(x) <==> t2.contains(x) by {
            if t1.contains(x) {
                let i = choose|i: int| 0 <= i < t1.len() && t1[i] == x;
                assert(s1[i + 1] == x);
                assert(s1.contains(x));
                let i2 = choose|i2: int| 0 <= i2 < s2.len() && s2[i2] == x;
                if i2 == 0 {
                    assert(str_lt(s1[0], s1[i + 1]));
                    lemma_str_lt_irreflexive(x);
                }
                assert(t2[i2 - 1] == x);
            }
            if t2.contains(x) {
                let i = choose|i: int| 0 <= i < t2.len() && t2[i] == x;
                assert(s2[i + 1] == x);
                assert(s2.contains(x));
                let i1 = choose|i1: int| 0 <= i1 < s1.len() && s1[i1] == x;
                if i1 == 0 {
                    assert(str_lt(s2[0], s2[i + 1]));
                    lemma_str_lt_irreflexive(x);
                }
                assert(t1[i1 - 1] == x);
            }
        }
        lemma_sorted_strings_eq(t1, t2);
        assert(s1 =~= seq![s1[0]] + t1);
        assert(s2 =~= seq![s2[0]] + t2);
    }
}

/// Sorting two duplicate-free lists of the same strings gives one list.
proof fn lemma_sort_strings_eq(l1: Seq<Seq<char>>, l2: Seq<Seq<char>>)
    requires
        l1.no_duplicates(),
        l2.no_duplicates(),
        forall|x: Seq<char>| l1.contains(x) <==> l2.contains(x),
    ensures
        sort_strings(l1) == sort_strings(l2),
{
    lemma_sort_strings_perm(l1);
    lemma_sort_strings_perm(l2);
    lemma_sort_strings(l1);
    lemma_sort_strings(l2);
    let s1 = sort_strings(l1);
    let s2 = sort_strings(l2);
    assert forall|i: int, j: int| 0 <= i < j < s1.len() implies str_lt(#[trigger] s1[i], #[trigger] s1[j]) by {
        lemma_str_lt_total(s1[i], s1[j]);
    }
    assert forall|i: int, j: int| 0 <= i < j < s2.len() implies str_lt(#[trigger] s2[i], #[trigger] s2[j]) by {
        lemma_str_lt_total(s2[i], s2[j]);
    }
    assert forall|x: Seq<char>| s1.contains(x) <==> s2.contains(x) by {
        assert(s1.contains(x) <==> l1.contains(x));
        assert(s2.contains(x) <==> l2.contains(x));
    }
    lemma_sorted_strings_eq(s1, s2);
}

/// With regex synthesis off, the string node of a join does not depend on
/// the order of its arguments (for duplicate-free literal lists).
proof fn lemma_str_arm_commutes(x: StrModel, y: StrModel, p: Policy)
    requires
        !p.enable_grex,
        x.lits.no_duplicates(),
        y.lits.no_duplicates(),
    ensures
        str_arm(join_str_model(x, y), p) == str_arm(join_str_model(y, x), p),
{
    let u1 = x.lits + missing_from(y.lits, x.lits);
    let u2 = y.lits + missing_from(x.lits, y.lits);
    lemma_union_facts(x.lits, y.lits);
    lemma_union_facts(y.lits, x.lits);
    assert forall|z: Seq<char>| u1.contains(z) <==> u2.contains(z) by {
        assert(u1.contains(z) <==> (x.lits.contains(z) || y.lits.contains(z)));
        assert(u2.contains(z) <==> (y.lits.contains(z) || x.lits.contains(z)));
    }
    lemma_same_set_len(u1, u2);
    let l1 = join_str_model(x, y).lits;
    let l2 = join_str_model(y, x).lits;
    if u1.len() <= crate::lattice::MAX_STR_LITS {
        assert(l1 == u1 && l2 == u2);
        assert(crate::nty::tiny_enum(l1, p) == crate::nty::tiny_enum(l2, p)) by {
            if crate::nty::tiny_enum(l1, p) {
                assert forall|i: int| 0 <= i < l2.len() implies crate::text::humanish(#[trigger] l2[i]) by {
                    assert(l2.contains(l2[i]));
                    let k = choose|k: int| 0 <= k < l1.len() && l1[k] == l2[i];
                }
            }
            if crate::nty::tiny_enum(l2, p) {
                assert forall|i: int| 0 <= i < l1.len() implies crate::text::humanish(#[trigger] l1[i]) by {
                    assert(l1.contains(l1[i]));
                    let k = choose|k: int| 0 <= k < l2.len() && l2[k] == l1[i];
                }
            }
        }
        lemma_sort_strings_eq(l1, l2);
    } else {
        assert(l1 =~= l2);
    }
    assert(str_arm(join_str_model(x, y), p)->String_enum_ =~= str_arm(join_str_model(y, x), p)->String_enum_);
}

} // verus!
