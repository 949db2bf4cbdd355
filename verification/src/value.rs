//! Runtime values of the wire format that the generated encoders and
//! decoders implement, and their mathematical model.
//!
//! Floating-point payloads are carried as their IEEE-754 bit patterns,
//! and strings as their UTF-8 bytes, which is exactly what the wire
//! holds.

use vstd::prelude::*;
use crate::schema::{Field, Schema};

verus! {

/// A value of some schema: one constructor per schema shape.
#[derive(Debug, PartialEq, Eq)]
pub enum Value {
    VBool(bool),
    VInt32(i32),
    VInt64(i64),
    /// The bit pattern of a 4-byte IEEE-754 number.
    VFloat32(u32),
    /// The bit pattern of an 8-byte IEEE-754 number.
    VFloat64(u64),
    /// The UTF-8 bytes of a string.
    VStr(Vec<u8>),
    /// One value per field, in declared order.
    VStruct(Vec<Value>),
    /// The variant's zero-based discriminant and its payload fields.
    VOneOf(usize, Vec<Value>),
    /// The zero-based position of the enumeration member.
    VEnum(usize),
    VOptional(Option<Box<Value>>),
    VSequence(Vec<Value>),
    /// Entries in iteration order.
    VMapping(Vec<(Value, Value)>),
}

/// The mathematical model of a `Value`: collections become sequences.
pub enum GValue {
    GBool(bool),
    GInt32(i32),
    GInt64(i64),
    GFloat32(u32),
    GFloat64(u64),
    GStr(Seq<u8>),
    GStruct(Seq<GValue>),
    GOneOf(usize, Seq<GValue>),
    GEnum(usize),
    GOptional(Option<Box<GValue>>),
    GSequence(Seq<GValue>),
    GMapping(Seq<(GValue, GValue)>),
}

/// The model of a runtime value.
pub open spec fn vview(v: Value) -> GValue
    decreases v, 1nat, 0nat,
{
    match v {
        Value::VBool(b) => GValue::GBool(b),
        Value::VInt32(x) => GValue::GInt32(x),
        Value::VInt64(x) => GValue::GInt64(x),
        Value::VFloat32(bits) => GValue::GFloat32(bits),
        Value::VFloat64(bits) => GValue::GFloat64(bits),
        Value::VStr(bytes) => GValue::GStr(bytes@),
        Value::VStruct(vals) => GValue::GStruct(vviews(vals@, 0)),
        Value::VOneOf(idx, vals) => GValue::GOneOf(idx, vviews(vals@, 0)),
        Value::VEnum(idx) => GValue::GEnum(idx),
        Value::VOptional(o) => GValue::GOptional(
            match o {
                Some(bv) => Some(Box::new(vview(*bv))),
                None => None,
            },
        ),
        Value::VSequence(elems) => GValue::GSequence(vviews(elems@, 0)),
        Value::VMapping(entries) => GValue::GMapping(pviews(entries@, 0)),
    }
}

/// The models of the elements of a sequence of values, from position
/// `i` on.
pub open spec fn vviews(vals: Seq<Value>, i: int) -> Seq<GValue>
    decreases vals, 0nat, (if vals.len() >= i { (vals.len() - i) as nat } else { 0nat }),
{
    if i < 0 || i >= vals.len() {
        Seq::empty()
    } else {
        seq![vview(vals[i])] + vviews(vals, i + 1)
    }
}

/// The models of a sequence of entry pairs, from position `i` on.
pub open spec fn pviews(entries: Seq<(Value, Value)>, i: int) -> Seq<(GValue, GValue)>
    decreases entries, 0nat, (if entries.len() >= i { (entries.len() - i) as nat } else { 0nat }),
{
    if i < 0 || i >= entries.len() {
        Seq::empty()
    } else {
        seq![(vview(entries[i].0), vview(entries[i].1))] + pviews(entries, i + 1)
    }
}

/// `vviews` maps positionally: one model per element.
pub proof fn lemma_vviews(vals: Seq<Value>, i: int)
    requires
        0 <= i <= vals.len(),
    ensures
        vviews(vals, i).len() == vals.len() - i,
        forall|j: int| i <= j < vals.len() ==> vviews(vals, i)[j - i] == vview(vals[j]),
    decreases vals.len() - i,
{
    if i < vals.len() {
        lemma_vviews(vals, i + 1);
    }
}

/// Appending one value appends its model.
pub proof fn lemma_vviews_push(vals: Seq<Value>, v: Value, i: int)
    requires
        0 <= i <= vals.len(),
    ensures
        vviews(vals.push(v), i) == vviews(vals, i) + seq![vview(v)],
    decreases vals.len() - i,
{
    let w = vals.push(v);
    if i == vals.len() {
        assert(w[i] == v);
        assert(vviews(w, i + 1) =~= Seq::<GValue>::empty());
        assert(vviews(w, i) =~= vviews(vals, i) + seq![vview(v)]);
    } else {
        lemma_vviews_push(vals, v, i + 1);
        assert(w[i] == vals[i]);
        assert(seq![vview(vals[i])] + (vviews(vals, i + 1) + seq![vview(v)]) =~= (seq![
            vview(vals[i]),
        ] + vviews(vals, i + 1)) + seq![vview(v)]);
    }
}

/// `pviews` maps positionally: one model pair per entry.
pub proof fn lemma_pviews(entries: Seq<(Value, Value)>, i: int)
    requires
        0 <= i <= entries.len(),
    ensures
        pviews(entries, i).len() == entries.len() - i,
        forall|j: int| i <= j < entries.len() ==> pviews(entries, i)[j - i] == (
            vview(entries[j].0),
            vview(entries[j].1),
        ),
    decreases entries.len() - i,
{
    if i < entries.len() {
        lemma_pviews(entries, i + 1);
    }
}

/// Appending one entry appends its model pair.
pub proof fn lemma_pviews_push(entries: Seq<(Value, Value)>, e: (Value, Value), i: int)
    requires
        0 <= i <= entries.len(),
    ensures
        pviews(entries.push(e), i) == pviews(entries, i) + seq![(vview(e.0), vview(e.1))],
    decreases entries.len() - i,
{
    let w = entries.push(e);
    if i == entries.len() {
        assert(w[i] == e);
        assert(pviews(w, i + 1) =~= Seq::<(GValue, GValue)>::empty());
        assert(pviews(w, i) =~= pviews(entries, i) + seq![(vview(e.0), vview(e.1))]);
    } else {
        lemma_pviews_push(entries, e, i + 1);
        assert(w[i] == entries[i]);
        assert(seq![(vview(entries[i].0), vview(entries[i].1))] + (pviews(entries, i + 1) + seq![
            (vview(e.0), vview(e.1)),
        ]) =~= (seq![(vview(entries[i].0), vview(entries[i].1))] + pviews(entries, i + 1)) + seq![
            (vview(e.0), vview(e.1)),
        ]);
    }
}

/// Whether a value has the shape that a schema asks for, with every
/// length and discriminant small enough for a 4-byte signed count.
pub open spec fn valid_value(s: Schema, v: GValue) -> bool
    decreases s, 1nat, 0nat,
{
    match s {
        Schema::Bool => v is GBool,
        Schema::Int32 => v is GInt32,
        Schema::Int64 => v is GInt64,
        Schema::Float32 => v is GFloat32,
        Schema::Float64 => v is GFloat64,
        Schema::Str => match v {
            GValue::GStr(bytes) => bytes.len() <= 0x7fffffff,
            _ => false,
        },
        Schema::Struct(sd) => match v {
            GValue::GStruct(vals) => vals.len() == sd.fields@.len() && valid_fields(
                sd.fields@,
                vals,
                0,
            ),
            _ => false,
        },
        Schema::OneOf { variants, .. } => match v {
            GValue::GOneOf(idx, vals) => idx < variants@.len() && idx <= 0x7fffffff && vals.len()
                == variants@[idx as int].fields@.len() && valid_fields(
                variants@[idx as int].fields@,
                vals,
                0,
            ),
            _ => false,
        },
        Schema::Optional(inner) => match v {
            GValue::GOptional(o) => match o {
                Some(bv) => valid_value(*inner, *bv),
                None => true,
            },
            _ => false,
        },
        Schema::Sequence(_) => match v {
            GValue::GSequence(elems) => elems.len() <= 0x7fffffff && valid_list(s, elems, 0),
            _ => false,
        },
        Schema::Mapping(_, _) => match v {
            GValue::GMapping(entries) => entries.len() <= 0x7fffffff && valid_entries(
                s,
                entries,
                0,
            ),
            _ => false,
        },
        Schema::Enum { variants, .. } => match v {
            GValue::GEnum(idx) => idx < variants@.len() && idx <= 0x7fffffff,
            _ => false,
        },
    }
}

/// Each value from position `i` on matches the schema of the field at
/// the same position.
pub open spec fn valid_fields(fields: Seq<Field>, vals: Seq<GValue>, i: int) -> bool
    decreases fields, 0nat, (if fields.len() >= i { (fields.len() - i) as nat } else { 0nat }),
{
    if i < 0 || vals.len() != fields.len() {
        false
    } else if i >= fields.len() {
        true
    } else {
        valid_value(*fields[i].schema, vals[i]) && valid_fields(fields, vals, i + 1)
    }
}

/// Each element from position `i` on is valid for the inner schema of
/// the sequence schema `sq`.
pub open spec fn valid_list(sq: Schema, elems: Seq<GValue>, i: int) -> bool
    decreases sq, 0nat, (if elems.len() >= i { (elems.len() - i) as nat } else { 0nat }),
{
    match sq {
        Schema::Sequence(inner) => {
            if i < 0 {
                false
            } else if i >= elems.len() {
                true
            } else {
                valid_value(*inner, elems[i]) && valid_list(sq, elems, i + 1)
            }
        },
        _ => false,
    }
}

/// Each entry from position `i` on has a valid key and a valid value
/// for the mapping schema `m`.
pub open spec fn valid_entries(m: Schema, entries: Seq<(GValue, GValue)>, i: int) -> bool
    decreases m, 0nat, (if entries.len() >= i { (entries.len() - i) as nat } else { 0nat }),
{
    match m {
        Schema::Mapping(key, val) => {
            if i < 0 {
                false
            } else if i >= entries.len() {
                true
            } else {
                valid_value(*key, entries[i].0) && valid_value(*val, entries[i].1)
                    && valid_entries(m, entries, i + 1)
            }
        },
        _ => false,
    }
}

} // verus!
