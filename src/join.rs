//! Executable join of lattice points, and deep copies.
use crate::lattice::{
    arr_view, capped_union, cols_view, count_at, empty_model, field_index,
    field_view, fields_view, is_bottom_model, is_exact_null_model, join_arr_model, join_cols_model,
    join_counts_model, join_fields_model, join_model, join_num_model,
    join_obj_model, join_str_model, max_nat, missing_from, new_fields, obj_view, sat_add,
    strings_view, with_null, ArrC, FieldC, NumC, ObjC, StrC, U, MAX_NUM_LITS, MAX_STR_LITS,
};
use crate::number::{max_double, min_double};
use vstd::prelude::*;

verus! {

pub fn sat_add_u64(a: u64, b: u64) -> (r: u64)
    ensures
        r == sat_add(a, b),
{
    if a > u64::MAX - b {
        u64::MAX
    } else {
        a + b
    }
}

fn contains_u64(v: &Vec<u64>, x: u64) -> (r: bool)
    ensures
        r == v@.contains(x),
{
    let mut i: usize = 0;
    while i < v.len()
        invariant
            i <= v@.len(),
            forall|k: int| 0 <= k < i ==> v@[k] != x,
        decreases v@.len() - i,
    {
        if v[i] == x {
            return true;
        }
        i = i + 1;
    }
    false
}

pub fn contains_string(v: &Vec<String>, x: &String) -> (r: bool)
    ensures
        r == strings_view(v@).contains(x@),
{
    let mut i: usize = 0;
    while i < v.len()
        invariant
            i <= v@.len(),
            forall|k: int| 0 <= k < i ==> v@[k]@ != x@,
        decreases v@.len() - i,
    {
        if v[i] == *x {
            assert(strings_view(v@)[i as int] == x@);
            return true;
        }
        i = i + 1;
    }
    assert forall|k: int| 0 <= k < strings_view(v@).len() implies strings_view(v@)[k] != x@ by {
        assert(strings_view(v@)[k] == v@[k]@);
    }
    false
}

fn union_u64(a: &Vec<u64>, b: &Vec<u64>, cap: usize) -> (r: Vec<u64>)
    ensures
        r@ == capped_union(a@, b@, cap as nat),
{
    let mut out: Vec<u64> = Vec::new();
    let mut i: usize = 0;
    while i < a.len()
        invariant
            i <= a@.len(),
            out@ == a@.subrange(0, i as int),
        decreases a@.len() - i,
    {
        out.push(a[i]);
        i = i + 1;
        assert(out@ =~= a@.subrange(0, i as int));
    }
    assert(out@ =~= a@);
    let mut j: usize = 0;
    while j < b.len()
        invariant
            j <= b@.len(),
            out@ == a@ + missing_from(b@.subrange(0, j as int), a@),
        decreases b@.len() - j,
    {
        let x = b[j];
        let ghost before = out@;
        assert(b@.subrange(0, j + 1).drop_last() =~= b@.subrange(0, j as int));
        if !contains_u64(a, x) {
            out.push(x);
        }
        j = j + 1;
        assert(out@ =~= a@ + missing_from(b@.subrange(0, j as int), a@));
    }
    assert(b@.subrange(0, b@.len() as int) =~= b@);
    if out.len() > cap {
        Vec::new()
    } else {
        out
    }
}

fn copy_strings(a: &Vec<String>) -> (r: Vec<String>)
    ensures
        strings_view(r@) == strings_view(a@),
{
    let mut out: Vec<String> = Vec::new();
    let mut i: usize = 0;
    while i < a.len()
        invariant
            i <= a@.len(),
            strings_view(out@) == strings_view(a@.subrange(0, i as int)),
        decreases a@.len() - i,
    {
        let ghost before = out@;
        let c = a[i].clone();
        out.push(c);
        assert(strings_view(out@) =~= strings_view(before).push(c@));
        assert(strings_view(a@.subrange(0, i + 1)) =~= strings_view(a@.subrange(0, i as int)).push(a@[i as int]@));
        i = i + 1;
    }
    assert(a@.subrange(0, a@.len() as int) =~= a@);
    out
}

fn union_strings(a: &Vec<String>, b: &Vec<String>, cap: usize) -> (r: Vec<String>)
    ensures
        strings_view(r@) == capped_union(strings_view(a@), strings_view(b@), cap as nat),
{
    let mut out = copy_strings(a);
    let ghost av = strings_view(a@);
    let ghost bv = strings_view(b@);
    let mut j: usize = 0;
    while j < b.len()
        invariant
            j <= b@.len(),
            av == strings_view(a@),
            bv == strings_view(b@),
            strings_view(out@) == av + missing_from(bv.subrange(0, j as int), av),
        decreases b@.len() - j,
    {
        assert(bv.subrange(0, j + 1).drop_last() =~= bv.subrange(0, j as int));
        assert(bv.subrange(0, j + 1).last() == b@[j as int]@);
        let ghost before = out@;
        if !contains_string(a, &b[j]) {
            let c = b[j].clone();
            out.push(c);
            assert(strings_view(out@) =~= strings_view(before).push(c@));
        }
        j = j + 1;
        assert(strings_view(out@) =~= av + missing_from(bv.subrange(0, j as int), av));
    }
    assert(bv.subrange(0, bv.len() as int) =~= bv);
    if out.len() > cap {
        Vec::new()
    } else {
        out
    }
}

pub fn join_num(a: &NumC, b: &NumC) -> (r: NumC)
    ensures
        r.view() == join_num_model(a.view(), b.view()),
{
    NumC {
        lits: union_u64(&a.lits, &b.lits, MAX_NUM_LITS),
        min: min_double(a.min, b.min),
        max: max_double(a.max, b.max),
        saw_int: a.saw_int || b.saw_int,
        saw_uint: a.saw_uint || b.saw_uint,
        saw_float: a.saw_float || b.saw_float,
    }
}

/// Join of string evidence: literal union (dropped past the cap), URI-ness
/// by "and"; no synthesized pattern survives a join.
pub fn join_str(a: &StrC, b: &StrC) -> (r: StrC)
    ensures
        r.view() == join_str_model(a.view(), b.view()),
{
    StrC {
        lits: union_strings(&a.lits, &b.lits, MAX_STR_LITS),
        is_uri: a.is_uri && b.is_uri,
        pattern_synth: None,
        grex_cache_key: None,
    }
}

impl NumC {
    pub fn copy(&self) -> (r: NumC)
        ensures
            r.view() == self.view(),
    {
        let mut lits: Vec<u64> = Vec::new();
        let mut i: usize = 0;
        while i < self.lits.len()
            invariant
                i <= self.lits@.len(),
                lits@ == self.lits@.subrange(0, i as int),
            decreases self.lits@.len() - i,
        {
            lits.push(self.lits[i]);
            i = i + 1;
            assert(lits@ =~= self.lits@.subrange(0, i as int));
        }
        assert(lits@ =~= self.lits@);
        NumC {
            lits,
            min: self.min,
            max: self.max,
            saw_int: self.saw_int,
            saw_uint: self.saw_uint,
            saw_float: self.saw_float,
        }
    }
}

impl StrC {
    pub fn copy(&self) -> (r: StrC)
        ensures
            r.view() == self.view(),
    {
        StrC {
            lits: copy_strings(&self.lits),
            is_uri: self.is_uri,
            pattern_synth: match &self.pattern_synth {
                Some(p) => Some(p.clone()),
                None => None,
            },
            grex_cache_key: self.grex_cache_key,
        }
    }
}

fn copy_counts(a: &Vec<u64>) -> (r: Vec<u64>)
    ensures
        r@ == a@,
{
    let mut out: Vec<u64> = Vec::new();
    let mut i: usize = 0;
    while i < a.len()
        invariant
            i <= a@.len(),
            out@ == a@.subrange(0, i as int),
        decreases a@.len() - i,
    {
        out.push(a[i]);
        i = i + 1;
        assert(out@ =~= a@.subrange(0, i as int));
    }
    assert(out@ =~= a@);
    out
}

impl ArrC {
    pub fn copy(&self) -> (r: ArrC)
        ensures
            arr_view(r) == arr_view(*self),
        decreases *self,
    {
        let mut cols: Vec<U> = Vec::new();
        let mut i: usize = 0;
        while i < self.cols.len()
            invariant
                i <= self.cols@.len(),
                cols_view(cols@) == cols_view(self.cols@.subrange(0, i as int)),
            decreases self.cols@.len() - i,
        {
            proof {
                vstd::std_specs::vec::axiom_vec_index_decreases(self.cols, i as int);
                assert(decreases_to!(*self => self.cols));
            }
            let c = self.cols[i].copy();
            let ghost before = cols@;
            cols.push(c);
            assert(cols_view(cols@) =~= cols_view(before).push(c@));
            assert(cols_view(self.cols@.subrange(0, i + 1)) =~= cols_view(self.cols@.subrange(0, i as int)).push(self.cols@[i as int]@));
            i = i + 1;
        }
        assert(self.cols@.subrange(0, self.cols@.len() as int) =~= self.cols@);
        proof {
            assert(decreases_to!(*self => self.item));
        }
        let item = self.item.copy();
        ArrC {
            len_min: self.len_min,
            len_max: self.len_max,
            item: Box::new(item),
            cols,
            present: copy_counts(&self.present),
            non_null: copy_counts(&self.non_null),
            samples: self.samples,
        }
    }
}

impl ObjC {
    pub fn copy(&self) -> (r: ObjC)
        ensures
            obj_view(r) == obj_view(*self),
        decreases *self,
    {
        let mut fields: Vec<(String, FieldC)> = Vec::new();
        let mut i: usize = 0;
        while i < self.fields.len()
            invariant
                i <= self.fields@.len(),
                fields_view(fields@) == fields_view(self.fields@.subrange(0, i as int)),
            decreases self.fields@.len() - i,
        {
            proof {
                vstd::std_specs::vec::axiom_vec_index_decreases(self.fields, i as int);
                assert(decreases_to!(*self => self.fields));
                assert(decreases_to!(self.fields@[i as int] => self.fields@[i as int].1.ty));
            }
            let f = &self.fields[i];
            let ty = f.1.ty.copy();
            let entry = (f.0.clone(), FieldC { ty, present_in: f.1.present_in, non_null_in: f.1.non_null_in });
            let ghost before = fields@;
            fields.push(entry);
            assert(fields_view(fields@) =~= fields_view(before).push((entry.0@, field_view(entry.1))));
            assert(fields_view(self.fields@.subrange(0, i + 1)) =~= fields_view(self.fields@.subrange(0, i as int)).push((self.fields@[i as int].0@, field_view(self.fields@[i as int].1))));
            i = i + 1;
        }
        assert(self.fields@.subrange(0, self.fields@.len() as int) =~= self.fields@);
        ObjC { fields, seen_objects: self.seen_objects }
    }
}

impl U {
    /// The bottom point: nothing observed.
    pub fn empty() -> (r: U)
        ensures
            r@ == empty_model(),
    {
        U { nullable: false, has_bool: false, num: None, str_: None, arr: None, obj: None }
    }

    pub fn is_bottom(&self) -> (r: bool)
        ensures
            r == is_bottom_model(self@),
    {
        !self.nullable && !self.has_bool && self.num.is_none() && self.str_.is_none()
            && self.arr.is_none() && self.obj.is_none()
    }

    /// Only null was observed.
    pub fn is_exact_null(&self) -> (r: bool)
        ensures
            r == is_exact_null_model(self@),
    {
        self.nullable && !self.has_bool && self.num.is_none() && self.str_.is_none()
            && self.arr.is_none() && self.obj.is_none()
    }

    pub fn copy(&self) -> (r: U)
        ensures
            r@ == self@,
        decreases *self,
    {
        U {
            nullable: self.nullable,
            has_bool: self.has_bool,
            num: match &self.num {
                Some(n) => Some(n.copy()),
                None => None,
            },
            str_: match &self.str_ {
                Some(s) => Some(s.copy()),
                None => None,
            },
            arr: match &self.arr {
                Some(a) => {
                    proof {
                        assert(decreases_to!(*self => self.arr));
                    }
                    Some(a.copy())
                },
                None => None,
            },
            obj: match &self.obj {
                Some(o) => {
                    proof {
                        assert(decreases_to!(*self => self.obj));
                    }
                    Some(o.copy())
                },
                None => None,
            },
        }
    }
}

fn with_null_copy(u: &U) -> (r: U)
    ensures
        r@ == with_null(u@),
{
    let mut c = u.copy();
    c.nullable = true;
    c
}

fn count_get(v: &Vec<u64>, i: usize) -> (r: u64)
    ensures
        r == count_at(v@, i as int),
{
    if i < v.len() {
        v[i]
    } else {
        0
    }
}

fn join_counts(a: &Vec<u64>, b: &Vec<u64>, n: usize) -> (r: Vec<u64>)
    ensures
        r@ == join_counts_model(a@, b@, n as nat),
{
    let mut out: Vec<u64> = Vec::new();
    let mut i: usize = 0;
    while i < n
        invariant
            i <= n,
            out@ == join_counts_model(a@, b@, n as nat).subrange(0, i as int),
        decreases n - i,
    {
        let c = sat_add_u64(count_get(a, i), count_get(b, i));
        out.push(c);
        i = i + 1;
        assert(out@ =~= join_counts_model(a@, b@, n as nat).subrange(0, i as int));
    }
    assert(out@ =~= join_counts_model(a@, b@, n as nat));
    out
}

/// `field_index` finds the first field of that name.
pub proof fn lemma_field_index(s: Seq<(Seq<char>, crate::lattice::FieldModel)>, k: Seq<char>)
    ensures
        field_index(s, k) == -1 <==> (forall|m: int| 0 <= m < s.len() ==> s[m].0 != k),
        field_index(s, k) >= 0 ==> {
            &&& field_index(s, k) < s.len()
            &&& s[field_index(s, k)].0 == k
            &&& forall|m: int| 0 <= m < field_index(s, k) ==> s[m].0 != k
        },
        field_index(s, k) >= -1,
    decreases s.len(),
{
    if s.len() > 0 {
        lemma_field_index(s.drop_last(), k);
        assert forall|m: int| 0 <= m < s.len() - 1 implies s[m] == s.drop_last()[m] by {}
    }
}

pub(crate) fn find_field(s: &Vec<(String, FieldC)>, k: &String) -> (r: Option<usize>)
    ensures
        match r {
            Some(j) => j as int == field_index(fields_view(s@), k@) && j < s@.len(),
            None => field_index(fields_view(s@), k@) == -1,
        },
{
    let ghost sv = fields_view(s@);
    proof {
        lemma_field_index(sv, k@);
    }
    let mut i: usize = 0;
    while i < s.len()
        invariant
            i <= s@.len(),
            sv == fields_view(s@),
            forall|m: int| 0 <= m < i ==> sv[m].0 != k@,
        decreases s@.len() - i,
    {
        assert(sv[i as int].0 == s@[i as int].0@);
        if s[i].0 == *k {
            proof {
                lemma_field_index(sv, k@);
            }
            return Some(i);
        }
        i = i + 1;
    }
    None
}

impl ArrC {
    pub fn join(a: &ArrC, b: &ArrC) -> (r: ArrC)
        ensures
            arr_view(r) == join_arr_model(arr_view(*a), arr_view(*b)),
        decreases *a,
    {
        let n: usize = if a.cols.len() >= b.cols.len() {
            a.cols.len()
        } else {
            b.cols.len()
        };
        let ghost av = cols_view(a.cols@);
        let ghost bv = cols_view(b.cols@);
        let ghost target = join_cols_model(av, bv);
        let mut cols: Vec<U> = Vec::new();
        let mut i: usize = 0;
        while i < n
            invariant
                i <= n,
                n as nat == max_nat(av.len(), bv.len()),
                av == cols_view(a.cols@),
                bv == cols_view(b.cols@),
                target == join_cols_model(av, bv),
                cols_view(cols@) == target.subrange(0, i as int),
            decreases n - i,
        {
            let c = if i < a.cols.len() && i < b.cols.len() {
                proof {
                    vstd::std_specs::vec::axiom_vec_index_decreases(a.cols, i as int);
                    assert(decreases_to!(*a => a.cols));
                }
                U::join(&a.cols[i], &b.cols[i])
            } else if i < a.cols.len() {
                with_null_copy(&a.cols[i])
            } else {
                with_null_copy(&b.cols[i])
            };
            let ghost before = cols@;
            cols.push(c);
            assert(cols_view(cols@) =~= cols_view(before).push(c@));
            i = i + 1;
            assert(cols_view(cols@) =~= target.subrange(0, i as int));
        }
        assert(cols_view(cols@) =~= target);
        proof {
            assert(decreases_to!(*a => a.item));
        }
        let item = U::join(&a.item, &b.item);
        ArrC {
            len_min: if a.len_min <= b.len_min {
                a.len_min
            } else {
                b.len_min
            },
            len_max: if a.len_max >= b.len_max {
                a.len_max
            } else {
                b.len_max
            },
            item: Box::new(item),
            cols,
            present: join_counts(&a.present, &b.present, n),
            non_null: join_counts(&a.non_null, &b.non_null, n),
            samples: sat_add_u64(a.samples, b.samples),
        }
    }
}

impl ObjC {
    pub fn join(a: &ObjC, b: &ObjC) -> (r: ObjC)
        ensures
            obj_view(r) == join_obj_model(obj_view(*a), obj_view(*b)),
        decreases *a,
    {
        let ghost av = fields_view(a.fields@);
        let ghost bv = fields_view(b.fields@);
        let ghost target = join_fields_model(av, bv);
        let mut fields: Vec<(String, FieldC)> = Vec::new();
        let mut i: usize = 0;
        while i < a.fields.len()
            invariant
                i <= a.fields@.len(),
                av == fields_view(a.fields@),
                bv == fields_view(b.fields@),
                target == join_fields_model(av, bv),
                fields_view(fields@) == target.subrange(0, i as int),
            decreases a.fields@.len() - i,
        {
            let fa = &a.fields[i];
            let found = find_field(&b.fields, &fa.0);
            let entry = match found {
                Some(j) => {
                    proof {
                        vstd::std_specs::vec::axiom_vec_index_decreases(a.fields, i as int);
                        assert(decreases_to!(*a => a.fields));
                        assert(decreases_to!(a.fields@[i as int] => a.fields@[i as int].1.ty));
                    }
                    let fb = &b.fields[j];
                    let ty = U::join(&fa.1.ty, &fb.1.ty);
                    (
                        fa.0.clone(),
                        FieldC {
                            ty,
                            present_in: sat_add_u64(fa.1.present_in, fb.1.present_in),
                            non_null_in: sat_add_u64(fa.1.non_null_in, fb.1.non_null_in),
                        },
                    )
                },
                None => {
                    let ty = fa.1.ty.copy();
                    (
                        fa.0.clone(),
                        FieldC { ty, present_in: fa.1.present_in, non_null_in: fa.1.non_null_in },
                    )
                },
            };
            let ghost before = fields@;
            fields.push(entry);
            assert(fields_view(fields@) =~= fields_view(before).push((entry.0@, field_view(entry.1))));
            i = i + 1;
            assert(fields_view(fields@) =~= target.subrange(0, i as int));
        }
        let ghost first = fields_view(fields@);
        let mut j: usize = 0;
        while j < b.fields.len()
            invariant
                j <= b.fields@.len(),
                av == fields_view(a.fields@),
                bv == fields_view(b.fields@),
                target == join_fields_model(av, bv),
                first == target.subrange(0, av.len() as int),
                fields_view(fields@) == first + new_fields(bv.subrange(0, j as int), av),
            decreases b.fields@.len() - j,
        {
            assert(bv.subrange(0, j + 1).drop_last() =~= bv.subrange(0, j as int));
            assert(bv.subrange(0, j + 1).last() == (b.fields@[j as int].0@, field_view(b.fields@[j as int].1)));
            let fb = &b.fields[j];
            let ghost before = fields@;
            if find_field(&a.fields, &fb.0).is_none() {
                let entry = (
                    fb.0.clone(),
                    FieldC { ty: fb.1.ty.copy(), present_in: fb.1.present_in, non_null_in: fb.1.non_null_in },
                );
                fields.push(entry);
                assert(fields_view(fields@) =~= fields_view(before).push((entry.0@, field_view(entry.1))));
            }
            j = j + 1;
            assert(fields_view(fields@) =~= first + new_fields(bv.subrange(0, j as int), av));
        }
        assert(bv.subrange(0, bv.len() as int) =~= bv);
        assert(fields_view(fields@) =~= target);
        ObjC { fields, seen_objects: sat_add_u64(a.seen_objects, b.seen_objects) }
    }
}

impl U {
    /// The join of two points (see `join_model`).
    pub fn join(a: &U, b: &U) -> (r: U)
        ensures
            r@ == join_model(a@, b@),
        decreases *a,
    {
        let num = match (&a.num, &b.num) {
            (Some(x), Some(y)) => Some(join_num(x, y)),
            (Some(x), None) => Some(x.copy()),
            (None, Some(y)) => Some(y.copy()),
            (None, None) => None,
        };
        let str_ = match (&a.str_, &b.str_) {
            (Some(x), Some(y)) => Some(join_str(x, y)),
            (Some(x), None) => Some(x.copy()),
            (None, Some(y)) => Some(y.copy()),
            (None, None) => None,
        };
        let arr = match (&a.arr, &b.arr) {
            (Some(x), Some(y)) => {
                proof {
                    assert(decreases_to!(*a => a.arr));
                }
                Some(ArrC::join(x, y))
            },
            (Some(x), None) => Some(x.copy()),
            (None, Some(y)) => Some(y.copy()),
            (None, None) => None,
        };
        let obj = match (&a.obj, &b.obj) {
            (Some(x), Some(y)) => {
                proof {
                    assert(decreases_to!(*a => a.obj));
                }
                Some(ObjC::join(x, y))
            },
            (Some(x), None) => Some(x.copy()),
            (None, Some(y)) => Some(y.copy()),
            (None, None) => None,
        };
        U { nullable: a.nullable || b.nullable, has_bool: a.has_bool || b.has_bool, num, str_, arr, obj }
    }
}

} // verus!
