//! The evidence lattice: one optional constraint record per kind of JSON value,
//! plus the null and boolean flags, and the join that merges two of them.
use crate::number::order_key;
use vstd::prelude::*;

verus! {

/// Literal sets larger than this are dropped (numbers).
pub const MAX_NUM_LITS: usize = 64;

/// Literal sets larger than this are dropped (strings).
pub const MAX_STR_LITS: usize = 64;

/// Numeric evidence: observed doubles (as bits), their range, and which
/// numeric forms appeared.
pub struct NumC {
    pub lits: Vec<u64>,
    pub min: u64,
    pub max: u64,
    pub saw_int: bool,
    pub saw_uint: bool,
    pub saw_float: bool,
}

/// String evidence: observed literals, whether all of them looked like URIs,
/// and the pattern synthesized for them by normalization (with its cache key).
pub struct StrC {
    pub lits: Vec<String>,
    pub is_uri: bool,
    pub pattern_synth: Option<String>,
    pub grex_cache_key: Option<(usize, usize, u64)>,
}

/// Array evidence under the list hypothesis (`item`) and the tuple hypothesis
/// (`cols`, with per-position presence counts).
pub struct ArrC {
    pub len_min: u32,
    pub len_max: u32,
    pub item: Box<U>,
    pub cols: Vec<U>,
    pub present: Vec<u64>,
    pub non_null: Vec<u64>,
    pub samples: u64,
}

/// Object evidence: per-field evidence, in order of first appearance.
pub struct ObjC {
    pub fields: Vec<(String, FieldC)>,
    pub seen_objects: u64,
}

pub struct FieldC {
    pub ty: U,
    pub present_in: u64,
    pub non_null_in: u64,
}

/// A point of the evidence lattice.
pub struct U {
    pub nullable: bool,
    pub has_bool: bool,
    pub num: Option<NumC>,
    pub str_: Option<StrC>,
    pub arr: Option<ArrC>,
    pub obj: Option<ObjC>,
}

// ------------------------------ models ------------------------------

pub struct NumModel {
    pub lits: Seq<u64>,
    pub min: u64,
    pub max: u64,
    pub saw_int: bool,
    pub saw_uint: bool,
    pub saw_float: bool,
}

pub struct StrModel {
    pub lits: Seq<Seq<char>>,
    pub is_uri: bool,
    pub pattern_synth: Option<Seq<char>>,
    pub grex_cache_key: Option<(usize, usize, u64)>,
}

pub struct ArrModel {
    pub len_min: u32,
    pub len_max: u32,
    pub item: Box<UModel>,
    pub cols: Seq<UModel>,
    pub present: Seq<u64>,
    pub non_null: Seq<u64>,
    pub samples: u64,
}

pub struct ObjModel {
    pub fields: Seq<(Seq<char>, FieldModel)>,
    pub seen_objects: u64,
}

pub struct FieldModel {
    pub ty: UModel,
    pub present_in: u64,
    pub non_null_in: u64,
}

pub struct UModel {
    pub nullable: bool,
    pub has_bool: bool,
    pub num: Option<NumModel>,
    pub str_: Option<StrModel>,
    pub arr: Option<ArrModel>,
    pub obj: Option<ObjModel>,
}

pub open spec fn empty_model() -> UModel {
    UModel { nullable: false, has_bool: false, num: None, str_: None, arr: None, obj: None }
}

/// The point that only null was observed at.
pub open spec fn exact_null_model() -> UModel {
    UModel { nullable: true, ..empty_model() }
}

pub open spec fn is_exact_null_model(u: UModel) -> bool {
    u.nullable && !u.has_bool && u.num is None && u.str_ is None && u.arr is None && u.obj is None
}

pub open spec fn is_bottom_model(u: UModel) -> bool {
    !u.nullable && !u.has_bool && u.num is None && u.str_ is None && u.arr is None && u.obj is None
}

impl NumC {
    pub open spec fn view(&self) -> NumModel {
        NumModel {
            lits: self.lits@,
            min: self.min,
            max: self.max,
            saw_int: self.saw_int,
            saw_uint: self.saw_uint,
            saw_float: self.saw_float,
        }
    }
}

pub open spec fn strings_view(s: Seq<String>) -> Seq<Seq<char>> {
    s.map_values(|x: String| x@)
}

pub open spec fn opt_string_view(s: Option<String>) -> Option<Seq<char>> {
    match s {
        Some(x) => Some(x@),
        None => None,
    }
}

impl StrC {
    pub open spec fn view(&self) -> StrModel {
        StrModel {
            lits: strings_view(self.lits@),
            is_uri: self.is_uri,
            pattern_synth: opt_string_view(self.pattern_synth),
            grex_cache_key: self.grex_cache_key,
        }
    }
}

pub open spec fn cols_view(s: Seq<U>) -> Seq<UModel>
    decreases s,
{
    Seq::new(s.len(), |i: int| if 0 <= i < s.len() { s[i].view() } else { empty_model() })
}

pub open spec fn fields_view(s: Seq<(String, FieldC)>) -> Seq<(Seq<char>, FieldModel)>
    decreases s,
{
    Seq::new(
        s.len(),
        |i: int|
            if 0 <= i < s.len() {
                (s[i].0@, field_view(s[i].1))
            } else {
                (Seq::empty(), FieldModel { ty: empty_model(), present_in: 0, non_null_in: 0 })
            },
    )
}

pub open spec fn field_view(f: FieldC) -> FieldModel
    decreases f,
{
    FieldModel { ty: f.ty.view(), present_in: f.present_in, non_null_in: f.non_null_in }
}

pub open spec fn arr_view(a: ArrC) -> ArrModel
    decreases a,
{
    ArrModel {
        len_min: a.len_min,
        len_max: a.len_max,
        item: Box::new(a.item.view()),
        cols: cols_view(a.cols@),
        present: a.present@,
        non_null: a.non_null@,
        samples: a.samples,
    }
}

pub open spec fn obj_view(o: ObjC) -> ObjModel
    decreases o,
{
    ObjModel { fields: fields_view(o.fields@), seen_objects: o.seen_objects }
}

impl U {
    pub open spec fn view(&self) -> UModel
        decreases self,
    {
        UModel {
            nullable: self.nullable,
            has_bool: self.has_bool,
            num: match self.num {
                Some(n) => Some(n.view()),
                None => None,
            },
            str_: match self.str_ {
                Some(s) => Some(s.view()),
                None => None,
            },
            arr: match self.arr {
                Some(a) => Some(arr_view(a)),
                None => None,
            },
            obj: match self.obj {
                Some(o) => Some(obj_view(o)),
                None => None,
            },
        }
    }
}

impl ArrC {
    pub open spec fn view(&self) -> ArrModel {
        arr_view(*self)
    }
}

impl ObjC {
    pub open spec fn view(&self) -> ObjModel {
        obj_view(*self)
    }
}

// ------------------------------ join, as mathematics ------------------------------

pub open spec fn sat_add(a: u64, b: u64) -> u64 {
    if a + b > u64::MAX {
        u64::MAX
    } else {
        (a + b) as u64
    }
}

/// `b`'s elements that `a` lacks, in `b`'s order.
pub open spec fn missing_from<A>(b: Seq<A>, a: Seq<A>) -> Seq<A>
    decreases b.len(),
{
    if b.len() == 0 {
        Seq::empty()
    } else {
        missing_from(b.drop_last(), a) + if a.contains(b.last()) {
            Seq::empty()
        } else {
            seq![b.last()]
        }
    }
}

/// Union of literal lists (`a`'s order, then what `b` adds), dropped when
/// it outgrows `cap`.
pub open spec fn capped_union<A>(a: Seq<A>, b: Seq<A>, cap: nat) -> Seq<A> {
    let u = a + missing_from(b, a);
    if u.len() > cap {
        Seq::empty()
    } else {
        u
    }
}

pub open spec fn min_double_spec(a: u64, b: u64) -> u64 {
    if order_key(a) <= order_key(b) {
        a
    } else {
        b
    }
}

pub open spec fn max_double_spec(a: u64, b: u64) -> u64 {
    if order_key(a) >= order_key(b) {
        a
    } else {
        b
    }
}

pub open spec fn join_num_model(a: NumModel, b: NumModel) -> NumModel {
    NumModel {
        lits: capped_union(a.lits, b.lits, MAX_NUM_LITS as nat),
        min: min_double_spec(a.min, b.min),
        max: max_double_spec(a.max, b.max),
        saw_int: a.saw_int || b.saw_int,
        saw_uint: a.saw_uint || b.saw_uint,
        saw_float: a.saw_float || b.saw_float,
    }
}

pub open spec fn join_str_model(a: StrModel, b: StrModel) -> StrModel {
    StrModel {
        lits: capped_union(a.lits, b.lits, MAX_STR_LITS as nat),
        is_uri: a.is_uri && b.is_uri,
        pattern_synth: None,
        grex_cache_key: None,
    }
}

pub open spec fn count_at(s: Seq<u64>, i: int) -> u64 {
    if 0 <= i < s.len() {
        s[i]
    } else {
        0
    }
}

/// `u` joined with the exact null.
pub open spec fn with_null(u: UModel) -> UModel {
    UModel { nullable: true, ..u }
}

pub open spec fn max_nat(a: nat, b: nat) -> nat {
    if a >= b {
        a
    } else {
        b
    }
}

pub open spec fn join_cols_model(a: Seq<UModel>, b: Seq<UModel>) -> Seq<UModel>
    decreases a,
{
    Seq::new(
        max_nat(a.len(), b.len()),
        |i: int|
            if 0 <= i < a.len() && i < b.len() {
                join_model(a[i], b[i])
            } else if 0 <= i < a.len() {
                with_null(a[i])
            } else if 0 <= i < b.len() {
                with_null(b[i])
            } else {
                empty_model()
            },
    )
}

pub open spec fn join_counts_model(a: Seq<u64>, b: Seq<u64>, n: nat) -> Seq<u64> {
    Seq::new(n, |i: int| sat_add(count_at(a, i), count_at(b, i)))
}

pub open spec fn join_arr_model(a: ArrModel, b: ArrModel) -> ArrModel
    decreases a,
{
    let n = max_nat(a.cols.len(), b.cols.len());
    ArrModel {
        len_min: if a.len_min <= b.len_min {
            a.len_min
        } else {
            b.len_min
        },
        len_max: if a.len_max >= b.len_max {
            a.len_max
        } else {
            b.len_max
        },
        item: Box::new(join_model(*a.item, *b.item)),
        cols: join_cols_model(a.cols, b.cols),
        present: join_counts_model(a.present, b.present, n),
        non_null: join_counts_model(a.non_null, b.non_null, n),
        samples: sat_add(a.samples, b.samples),
    }
}

/// Index of the first field named `k`, or -1.
pub open spec fn field_index(s: Seq<(Seq<char>, FieldModel)>, k: Seq<char>) -> int
    decreases s.len(),
{
    if s.len() == 0 {
        -1
    } else if field_index(s.drop_last(), k) >= 0 {
        field_index(s.drop_last(), k)
    } else if s.last().0 == k {
        s.len() - 1
    } else {
        -1
    }
}

pub open spec fn join_field_model(a: FieldModel, b: FieldModel) -> FieldModel
    decreases a,
{
    FieldModel {
        ty: join_model(a.ty, b.ty),
        present_in: sat_add(a.present_in, b.present_in),
        non_null_in: sat_add(a.non_null_in, b.non_null_in),
    }
}

/// `b`'s fields whose names `a` lacks, in `b`'s order.
pub open spec fn new_fields(
    b: Seq<(Seq<char>, FieldModel)>,
    a: Seq<(Seq<char>, FieldModel)>,
) -> Seq<(Seq<char>, FieldModel)>
    decreases b.len(),
{
    if b.len() == 0 {
        Seq::empty()
    } else {
        new_fields(b.drop_last(), a) + if field_index(a, b.last().0) >= 0 {
            Seq::empty()
        } else {
            seq![b.last()]
        }
    }
}

pub open spec fn join_fields_model(
    a: Seq<(Seq<char>, FieldModel)>,
    b: Seq<(Seq<char>, FieldModel)>,
) -> Seq<(Seq<char>, FieldModel)>
    decreases a,
{
    Seq::new(
        a.len(),
        |i: int|
            if 0 <= i < a.len() {
                let j = field_index(b, a[i].0);
                if 0 <= j < b.len() {
                    (a[i].0, join_field_model(a[i].1, b[j].1))
                } else {
                    a[i]
                }
            } else {
                a[0]
            },
    ) + new_fields(b, a)
}

pub open spec fn join_obj_model(a: ObjModel, b: ObjModel) -> ObjModel
    decreases a,
{
    ObjModel {
        fields: join_fields_model(a.fields, b.fields),
        seen_objects: sat_add(a.seen_objects, b.seen_objects),
    }
}

/// The join of two points: flags by "or", and per kind the record of
/// whichever side has one, merged where both do.
pub open spec fn join_model(a: UModel, b: UModel) -> UModel
    decreases a,
{
    UModel {
        nullable: a.nullable || b.nullable,
        has_bool: a.has_bool || b.has_bool,
        num: match (a.num, b.num) {
            (Some(x), Some(y)) => Some(join_num_model(x, y)),
            (Some(x), None) => Some(x),
            (None, y) => y,
        },
        str_: match (a.str_, b.str_) {
            (Some(x), Some(y)) => Some(join_str_model(x, y)),
            (Some(x), None) => Some(x),
            (None, y) => y,
        },
        arr: match (a.arr, b.arr) {
            (Some(x), Some(y)) => Some(join_arr_model(x, y)),
            (Some(x), None) => Some(x),
            (None, y) => y,
        },
        obj: match (a.obj, b.obj) {
            (Some(x), Some(y)) => Some(join_obj_model(x, y)),
            (Some(x), None) => Some(x),
            (None, y) => y,
        },
    }
}

} // verus!
