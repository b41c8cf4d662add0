//! Evidence-driven inference of JSON schemas.
//!
//! Each JSON value is observed as a point of a lattice of sufficient
//! statistics; points are merged by a join; the result is normalized into a
//! compact IR ([`NTy`]) from which a JSON Schema document is emitted.
pub mod emit;
pub mod ir;
pub mod join;
pub mod json;
pub mod laws;
pub mod lattice;
pub mod normalize;
pub mod nty;
pub mod number;
pub mod observe;
pub mod policy;
pub mod strings;
pub mod text;

pub use emit::{schema_from_norm, schema_from_u};
pub use ir::{lower_from_norm, lower_to_ir, normalize_and_lower, Field, Ty};
pub use join::join_str;
pub use json::{Double, Json, JsonNumber};
pub use lattice::{ArrC, FieldC, NumC, ObjC, StrC, U};
pub use normalize::normalize2_mut;
pub use nty::{decide_tuple, normalize_to_norm_consume, tuple_min_items_arr, NField, NTy};
pub use observe::observe_value;
pub use policy::Policy;
pub use strings::{grex_cache_key, synth_regex_with_grex};
pub use text::{lcp_join, lcp_set, looks_humanish, looks_like_uri};
