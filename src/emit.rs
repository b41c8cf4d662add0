//! JSON Schema emission from the normalized IR.
use crate::json::{json_members_view, json_seq_view, Double, Json, JsonModel, JsonNumber};
use crate::lattice::{strings_view, U};
use crate::nty::{nfields_view, norm_model, normalize_ref, ntys_view, NFieldModel, NModel, NTy};
use crate::number::{integral_fits_i64, integral_fits_i64_spec, integral_to_i64, integral_value, is_integral};
use crate::policy::Policy;
use vstd::prelude::*;
use vstd::string::StringExecFns;

verus! {

pub open spec fn jstr(s: Seq<char>) -> JsonModel {
    JsonModel::String(s)
}

pub open spec fn jint(i: i64) -> JsonModel {
    JsonModel::Number(JsonNumber::Int(i))
}

pub open spec fn type_member(t: Seq<char>) -> (Seq<char>, JsonModel) {
    ("type"@, jstr(t))
}

/// `{"type":"null"}`
pub open spec fn null_schema() -> JsonModel {
    JsonModel::Object(seq![type_member("null"@)])
}

/// A bound as JSON: integer literal when integral and in `i64` range.
pub open spec fn number_json(d: Double) -> JsonModel {
    if integral_fits_i64_spec(d.spec_bits()) {
        jint(integral_value(d.spec_bits()) as i64)
    } else {
        JsonModel::Number(JsonNumber::Float(d))
    }
}

pub open spec fn opt_member(k: Seq<char>, v: Option<JsonModel>) -> Seq<(Seq<char>, JsonModel)> {
    match v {
        Some(x) => seq![(k, x)],
        None => Seq::empty(),
    }
}

pub open spec fn opt_int(v: Option<i64>) -> Option<JsonModel> {
    match v {
        Some(x) => Some(jint(x)),
        None => None,
    }
}

pub open spec fn opt_count(v: Option<u32>) -> Option<JsonModel> {
    match v {
        Some(x) => Some(jint(x as i64)),
        None => None,
    }
}

pub open spec fn opt_number(v: Option<Double>) -> Option<JsonModel> {
    match v {
        Some(x) => Some(number_json(x)),
        None => None,
    }
}

pub open spec fn string_values(s: Seq<Seq<char>>) -> Seq<JsonModel> {
    Seq::new(s.len(), |i: int| jstr(s[i]))
}

/// Names of the required fields, in order.
pub open spec fn required_names(fs: Seq<NFieldModel>) -> Seq<JsonModel>
    decreases fs.len(),
{
    if fs.len() == 0 {
        Seq::empty()
    } else if fs.last().required {
        required_names(fs.drop_last()).push(jstr(fs.last().name))
    } else {
        required_names(fs.drop_last())
    }
}

pub open spec fn schemas_model(s: Seq<NModel>) -> Seq<JsonModel>
    decreases s,
{
    Seq::new(s.len(), |i: int| if 0 <= i < s.len() { schema_model(s[i]) } else { null_schema() })
}

pub open spec fn properties_model(fs: Seq<NFieldModel>) -> Seq<(Seq<char>, JsonModel)>
    decreases fs,
{
    Seq::new(
        fs.len(),
        |i: int| if 0 <= i < fs.len() { (fs[i].name, schema_model(fs[i].ty)) } else { type_member("null"@) },
    )
}

/// The JSON Schema fragment of a node.
pub open spec fn schema_model(n: NModel) -> JsonModel
    decreases n,
{
    match n {
        NModel::Null => null_schema(),
        NModel::Bool => JsonModel::Object(seq![type_member("boolean"@)]),
        NModel::Integer { min, max } => JsonModel::Object(
            seq![type_member("integer"@)] + opt_member("minimum"@, opt_int(min)) + opt_member(
                "maximum"@,
                opt_int(max),
            ),
        ),
        NModel::Number { min, max } => JsonModel::Object(
            seq![type_member("number"@)] + opt_member("minimum"@, opt_number(min)) + opt_member(
                "maximum"@,
                opt_number(max),
            ),
        ),
        NModel::String { enum_, pattern, format_uri } => JsonModel::Object(
            seq![type_member("string"@)] + (if enum_.len() > 0 {
                seq![("enum"@, JsonModel::Array(string_values(enum_)))]
            } else {
                match pattern {
                    Some(p) => seq![("pattern"@, jstr(p))],
                    None => Seq::empty(),
                }
            }) + (if format_uri {
                seq![("format"@, jstr("uri"@))]
            } else {
                Seq::empty()
            }),
        ),
        NModel::ArrayList { item, min_items, max_items } => JsonModel::Object(
            seq![type_member("array"@), ("items"@, schema_model(*item))] + opt_member(
                "minItems"@,
                opt_count(min_items),
            ) + opt_member("maxItems"@, opt_count(max_items)),
        ),
        NModel::ArrayTuple { elems, min_items, max_items } => JsonModel::Object(
            seq![
                type_member("array"@),
                ("prefixItems"@, JsonModel::Array(schemas_model(elems))),
                ("minItems"@, jint(min_items as i64)),
                ("maxItems"@, jint(max_items as i64)),
            ],
        ),
        NModel::Object { fields } => JsonModel::Object(
            seq![
                type_member("object"@),
                ("properties"@, JsonModel::Object(properties_model(fields))),
            ] + (if required_names(fields).len() > 0 {
                seq![("required"@, JsonModel::Array(required_names(fields)))]
            } else {
                Seq::empty()
            }),
        ),
        NModel::Nullable(inner) => {
            let s = schema_model(*inner);
            if s == null_schema() {
                s
            } else {
                JsonModel::Object(seq![("oneOf"@, JsonModel::Array(seq![s, null_schema()]))])
            }
        },
        NModel::OneOf(arms) => JsonModel::Object(seq![("oneOf"@, JsonModel::Array(schemas_model(arms)))]),
    }
}

fn text(s: &str) -> (r: String)
    ensures
        r@ == s@,
{
    String::from_str(s)
}

fn object_of(members: Vec<(String, Json)>) -> (r: Json)
    ensures
        r@ == JsonModel::Object(json_members_view(members@)),
{
    Json::Object(members)
}

fn push_member(ms: &mut Vec<(String, Json)>, k: &str, v: Json)
    ensures
        json_members_view(final(ms)@) == json_members_view(old(ms)@).push((k@, v@)),
{
    let ghost before = json_members_view(ms@);
    let key = text(k);
    ms.push((key, v));
    assert(json_members_view(ms@) =~= before.push((k@, v@)));
}

fn type_schema(t: &str) -> (r: Vec<(String, Json)>)
    ensures
        json_members_view(r@) == seq![type_member(t@)],
{
    let mut ms: Vec<(String, Json)> = Vec::new();
    assert(json_members_view(ms@) =~= Seq::<(Seq<char>, JsonModel)>::empty());
    push_member(&mut ms, "type", Json::String(text(t)));
    assert(json_members_view(ms@) =~= seq![type_member(t@)]);
    ms
}

fn null_schema_exec() -> (r: Json)
    ensures
        r@ == null_schema(),
{
    object_of(type_schema("null"))
}

fn number_exec(d: Double) -> (r: Json)
    ensures
        r@ == number_json(d),
{
    let b = d.to_bits();
    if is_integral(b) && integral_fits_i64(b) {
        let i = integral_to_i64(b);
        Json::Number(JsonNumber::Int(i))
    } else {
        Json::Number(JsonNumber::Float(d))
    }
}

fn is_null_schema(j: &Json) -> (r: bool)
    ensures
        r == (j@ == null_schema()),
{
    proof {
        reveal_strlit("type");
        reveal_strlit("null");
    }
    match j {
        Json::Object(ms) => {
            if ms.len() != 1 {
                assert(json_members_view(ms@).len() != 1);
                return false;
            }
            let k = text("type");
            let v = text("null");
            let same = ms[0].0 == k && match &ms[0].1 {
                Json::String(s) => *s == v,
                _ => false,
            };
            assert(json_members_view(ms@)[0] == (ms@[0].0@, ms@[0].1@));
            if same {
                assert(json_members_view(ms@) =~= seq![type_member("null"@)]);
            } else {
                assert(json_members_view(ms@)[0] != type_member("null"@));
            }
            same
        },
        _ => false,
    }
}

/// The JSON Schema fragment of a node.
pub fn schema_from_norm(n: &NTy) -> (r: Json)
    ensures
        r@ == schema_model(n@),
    decreases n, 1int,
{
    match n {
        NTy::Null => null_schema_exec(),
        NTy::Bool => object_of(type_schema("boolean")),
        NTy::Integer { min, max } => {
            let mut ms = type_schema("integer");
            let ghost m0 = json_members_view(ms@);
            if let Some(m) = min {
                push_member(&mut ms, "minimum", Json::Number(JsonNumber::Int(*m)));
            }
            assert(json_members_view(ms@) =~= m0 + opt_member("minimum"@, opt_int(*min)));
            let ghost m1 = json_members_view(ms@);
            if let Some(m) = max {
                push_member(&mut ms, "maximum", Json::Number(JsonNumber::Int(*m)));
            }
            assert(json_members_view(ms@) =~= m1 + opt_member("maximum"@, opt_int(*max)));
            object_of(ms)
        },
        NTy::Number { min, max } => {
            let mut ms = type_schema("number");
            let ghost m0 = json_members_view(ms@);
            if let Some(m) = min {
                push_member(&mut ms, "minimum", number_exec(*m));
            }
            assert(json_members_view(ms@) =~= m0 + opt_member("minimum"@, opt_number(*min)));
            let ghost m1 = json_members_view(ms@);
            if let Some(m) = max {
                push_member(&mut ms, "maximum", number_exec(*m));
            }
            assert(json_members_view(ms@) =~= m1 + opt_member("maximum"@, opt_number(*max)));
            object_of(ms)
        },
        NTy::String { enum_, pattern, format_uri } => {
            let mut ms = type_schema("string");
            let ghost m0 = json_members_view(ms@);
            let ghost ev = strings_view(enum_@);
            if enum_.len() > 0 {
                let mut vals: Vec<Json> = Vec::new();
                let mut i: usize = 0;
                while i < enum_.len()
                    invariant
                        i <= enum_@.len(),
                        ev == strings_view(enum_@),
                        json_seq_view(vals@) == string_values(ev).subrange(0, i as int),
                    decreases enum_@.len() - i,
                {
                    let v = Json::String(enum_[i].clone());
                    let ghost before = json_seq_view(vals@);
                    vals.push(v);
                    assert(json_seq_view(vals@) =~= before.push(v@));
                    i = i + 1;
                    assert(json_seq_view(vals@) =~= string_values(ev).subrange(0, i as int));
                }
                assert(json_seq_view(vals@) =~= string_values(ev));
                push_member(&mut ms, "enum", Json::Array(vals));
            } else if let Some(p) = pattern {
                push_member(&mut ms, "pattern", Json::String(p.clone()));
            }
            let ghost m1 = json_members_view(ms@);
            assert(m1 =~= m0 + (if ev.len() > 0 {
                seq![("enum"@, JsonModel::Array(string_values(ev)))]
            } else {
                match crate::strings::opt_view(*pattern) {
                    Some(p) => seq![("pattern"@, jstr(p))],
                    None => Seq::empty(),
                }
            }));
            if *format_uri {
                push_member(&mut ms, "format", Json::String(text("uri")));
            }
            assert(json_members_view(ms@) =~= m1 + (if *format_uri {
                seq![("format"@, jstr("uri"@))]
            } else {
                Seq::empty()
            }));
            object_of(ms)
        },
        NTy::ArrayList { item, min_items, max_items } => {
            let mut ms = type_schema("array");
            proof {
                assert(decreases_to!(*n => n->ArrayList_item));
            }
            let inner = schema_from_norm(item);
            let ghost iv = inner@;
            push_member(&mut ms, "items", inner);
            let ghost m0 = json_members_view(ms@);
            assert(m0 =~= seq![type_member("array"@), ("items"@, iv)]);
            if let Some(m) = min_items {
                push_member(&mut ms, "minItems", Json::Number(JsonNumber::Int(*m as i64)));
            }
            assert(json_members_view(ms@) =~= m0 + opt_member("minItems"@, opt_count(*min_items)));
            let ghost m1 = json_members_view(ms@);
            if let Some(m) = max_items {
                push_member(&mut ms, "maxItems", Json::Number(JsonNumber::Int(*m as i64)));
            }
            assert(json_members_view(ms@) =~= m1 + opt_member("maxItems"@, opt_count(*max_items)));
            object_of(ms)
        },
        NTy::ArrayTuple { elems, min_items, max_items } => {
            let mut ms = type_schema("array");
            let items = schemas_exec(n, elems);
            push_member(&mut ms, "prefixItems", Json::Array(items));
            push_member(&mut ms, "minItems", Json::Number(JsonNumber::Int(*min_items as i64)));
            push_member(&mut ms, "maxItems", Json::Number(JsonNumber::Int(*max_items as i64)));
            assert(json_members_view(ms@) =~= seq![
                type_member("array"@),
                ("prefixItems"@, JsonModel::Array(schemas_model(ntys_view(elems@)))),
                ("minItems"@, jint(*min_items as i64)),
                ("maxItems"@, jint(*max_items as i64)),
            ]);
            object_of(ms)
        },
        NTy::Object { fields } => {
            let mut ms = type_schema("object");
            let ghost fv = nfields_view(fields@);
            let mut props: Vec<(String, Json)> = Vec::new();
            let mut req: Vec<Json> = Vec::new();
            let mut i: usize = 0;
            while i < fields.len()
                invariant
                    i <= fields@.len(),
                    *n == (NTy::Object { fields: *fields }),
                    fv == nfields_view(fields@),
                    json_members_view(props@) == properties_model(fv).subrange(0, i as int),
                    json_seq_view(req@) == required_names(fv.subrange(0, i as int)),
                decreases fields@.len() - i,
            {
                proof {
                    vstd::std_specs::vec::axiom_vec_index_decreases(*fields, i as int);
                    assert(decreases_to!(*n => n->Object_fields));
                    assert(decreases_to!(fields@[i as int] => fields@[i as int].ty));
                }
                let f = &fields[i];
                let s = schema_from_norm(&f.ty);
                let ghost before = json_members_view(props@);
                props.push((f.name.clone(), s));
                assert(json_members_view(props@) =~= before.push((f.name@, s@)));
                assert(fv.subrange(0, i + 1).drop_last() =~= fv.subrange(0, i as int));
                let ghost rbefore = json_seq_view(req@);
                if f.required {
                    let v = Json::String(f.name.clone());
                    req.push(v);
                    assert(json_seq_view(req@) =~= rbefore.push(v@));
                }
                i = i + 1;
                assert(json_members_view(props@) =~= properties_model(fv).subrange(0, i as int));
            }
            assert(json_members_view(props@) =~= properties_model(fv));
            assert(fv.subrange(0, i as int) =~= fv);
            push_member(&mut ms, "properties", object_of(props));
            let ghost m0 = json_members_view(ms@);
            assert(m0 =~= seq![
                type_member("object"@),
                ("properties"@, JsonModel::Object(properties_model(fv))),
            ]);
            let has_req = req.len() > 0;
            if has_req {
                push_member(&mut ms, "required", Json::Array(req));
            }
            assert(json_members_view(ms@) =~= m0 + (if required_names(fv).len() > 0 {
                seq![("required"@, JsonModel::Array(required_names(fv)))]
            } else {
                Seq::empty()
            }));
            object_of(ms)
        },
        NTy::Nullable(inner) => {
            proof {
                assert(decreases_to!(*n => n->Nullable_0));
            }
            let s = schema_from_norm(inner);
            if is_null_schema(&s) {
                s
            } else {
                let mut arr: Vec<Json> = Vec::new();
                let ghost sv = s@;
                arr.push(s);
                arr.push(null_schema_exec());
                assert(json_seq_view(arr@) =~= seq![sv, null_schema()]);
                let mut ms: Vec<(String, Json)> = Vec::new();
                assert(json_members_view(ms@) =~= Seq::<(Seq<char>, JsonModel)>::empty());
                push_member(&mut ms, "oneOf", Json::Array(arr));
                assert(json_members_view(ms@) =~= seq![("oneOf"@, JsonModel::Array(seq![sv, null_schema()]))]);
                object_of(ms)
            }
        },
        NTy::OneOf(arms) => {
            let items = schemas_exec(n, arms);
            let mut ms: Vec<(String, Json)> = Vec::new();
            assert(json_members_view(ms@) =~= Seq::<(Seq<char>, JsonModel)>::empty());
            push_member(&mut ms, "oneOf", Json::Array(items));
            object_of(ms)
        },
    }
}

/// The schemas of a node's children, in order.
fn schemas_exec(parent: &NTy, xs: &Vec<NTy>) -> (r: Vec<Json>)
    requires
        *parent == (NTy::ArrayTuple { elems: *xs, min_items: parent->ArrayTuple_min_items, max_items: parent->ArrayTuple_max_items })
        || *parent == NTy::OneOf(*xs),
    ensures
        json_seq_view(r@) == schemas_model(ntys_view(xs@)),
    decreases parent, 0int,
{
    let ghost xv = ntys_view(xs@);
    let mut out: Vec<Json> = Vec::new();
    let mut i: usize = 0;
    while i < xs.len()
        invariant
            i <= xs@.len(),
            xv == ntys_view(xs@),
            json_seq_view(out@) == schemas_model(xv).subrange(0, i as int),
            *parent == (NTy::ArrayTuple { elems: *xs, min_items: parent->ArrayTuple_min_items, max_items: parent->ArrayTuple_max_items })
            || *parent == NTy::OneOf(*xs),
        decreases xs@.len() - i,
    {
        proof {
            vstd::std_specs::vec::axiom_vec_index_decreases(*xs, i as int);
            if parent is OneOf {
                assert(decreases_to!(*parent => parent->OneOf_0));
            } else {
                assert(decreases_to!(*parent => parent->ArrayTuple_elems));
            }
        }
        let s = schema_from_norm(&xs[i]);
        let ghost before = json_seq_view(out@);
        out.push(s);
        assert(json_seq_view(out@) =~= before.push(s@));
        i = i + 1;
        assert(json_seq_view(out@) =~= schemas_model(xv).subrange(0, i as int));
    }
    assert(json_seq_view(out@) =~= schemas_model(xv));
    out
}

/// Normalize a point and emit its schema.
pub fn schema_from_u(u: U, policy: Policy) -> (r: Json)
    ensures
        r@ == schema_model(norm_model(u@, policy)),
{
    let n = normalize_ref(&u, &policy);
    schema_from_norm(&n)
}

} // verus!
