//! A JSON document as the engine reads it and as the schema emitter writes it.
use crate::number::{i64_to_double, int_double_bits, is_nan, is_nan_bits, nat_double_bits, nat_to_double};
use vstd::prelude::*;

verus! {

/// An IEEE-754 double other than NaN, held as its bits.
#[derive(Clone, Copy, Debug, PartialEq, Eq, Structural)]
pub struct Double {
    bits: u64,
}

impl Double {
    pub closed spec fn spec_bits(&self) -> u64 {
        self.bits
    }

    /// The double with bits `b` (meaningful where `b` is no NaN).
    pub closed spec fn of_bits(b: u64) -> Double {
        Double { bits: b }
    }

    #[verifier::type_invariant]
    spec fn not_nan(&self) -> bool {
        !is_nan_bits(self.bits)
    }

    /// The double with these bits; NaNs are rejected.
    pub fn from_bits(b: u64) -> (r: Option<Double>)
        ensures
            r is None <==> is_nan_bits(b),
            r matches Some(d) ==> d.spec_bits() == b && d == Double::of_bits(b),
    {
        if is_nan(b) {
            None
        } else {
            Some(Double { bits: b })
        }
    }

    pub fn to_bits(&self) -> (r: u64)
        ensures
            r == self.spec_bits(),
            !is_nan_bits(r),
    {
        proof {
            use_type_invariant(self);
        }
        self.bits
    }
}

/// A JSON number: an integer that JSON wrote without a fraction, or a double.
#[derive(Clone, Copy, Debug, PartialEq, Eq, Structural)]
pub enum JsonNumber {
    Int(i64),
    UInt(u64),
    Float(Double),
}

/// A JSON value. An object lists its members in document order.
#[derive(Debug)]
pub enum Json {
    Null,
    Bool(bool),
    Number(JsonNumber),
    String(String),
    Array(Vec<Json>),
    Object(Vec<(String, Json)>),
}

/// The mathematical form of a [`Json`] value.
pub enum JsonModel {
    Null,
    Bool(bool),
    Number(JsonNumber),
    String(Seq<char>),
    Array(Seq<JsonModel>),
    Object(Seq<(Seq<char>, JsonModel)>),
}

pub open spec fn json_null_model() -> JsonModel {
    JsonModel::Null
}

pub open spec fn json_seq_view(s: Seq<Json>) -> Seq<JsonModel>
    decreases s,
{
    Seq::new(s.len(), |i: int| if 0 <= i < s.len() { s[i].view() } else { json_null_model() })
}

pub open spec fn json_members_view(s: Seq<(String, Json)>) -> Seq<(Seq<char>, JsonModel)>
    decreases s,
{
    Seq::new(
        s.len(),
        |i: int|
            if 0 <= i < s.len() {
                (s[i].0@, s[i].1.view())
            } else {
                (Seq::empty(), json_null_model())
            },
    )
}

impl Json {
    pub open spec fn view(&self) -> JsonModel
        decreases self,
    {
        match self {
            Json::Null => JsonModel::Null,
            Json::Bool(b) => JsonModel::Bool(*b),
            Json::Number(n) => JsonModel::Number(*n),
            Json::String(s) => JsonModel::String(s@),
            Json::Array(xs) => JsonModel::Array(json_seq_view(xs@)),
            Json::Object(ms) => JsonModel::Object(json_members_view(ms@)),
        }
    }
}

/// The double that a number is observed as.
pub open spec fn number_double(n: JsonNumber) -> u64 {
    match n {
        JsonNumber::Int(i) => int_double_bits(i as int) as u64,
        JsonNumber::UInt(u) => nat_double_bits(u as nat) as u64,
        JsonNumber::Float(d) => d.spec_bits(),
    }
}

impl JsonNumber {
    /// The bits of the double this number is observed as.
    pub fn to_double(&self) -> (r: u64)
        ensures
            r == number_double(*self),
    {
        match self {
            JsonNumber::Int(i) => i64_to_double(*i),
            JsonNumber::UInt(u) => nat_to_double(*u),
            JsonNumber::Float(d) => d.to_bits(),
        }
    }
}

} // verus!
