//! The binary wire format that every generated encoder and decoder
//! implements: little-endian fixed-width integers, one-byte booleans
//! and presence flags, 4-byte signed counts before strings, sequences
//! and mappings, and 4-byte discriminants before tagged-union payloads
//! and as enumeration values.
//!
//! `enc` and `dec` are the mathematical write and read sequences; the
//! executable `encode` and `decode` are proved to implement them
//! exactly.

use vstd::prelude::*;
use crate::schema::{Field, Schema};
use crate::value::{lemma_pviews, lemma_pviews_push, lemma_vviews, lemma_vviews_push,
    valid_entries, valid_fields, valid_list, valid_value, pviews, vview, vviews, GValue, Value};

verus! {

/// The four little-endian bytes of a 32-bit word.
pub open spec fn le32(x: u32) -> Seq<u8> {
    seq![
        (x & 0xff) as u8,
        ((x >> 8) & 0xff) as u8,
        ((x >> 16) & 0xff) as u8,
        ((x >> 24) & 0xff) as u8,
    ]
}

/// The eight little-endian bytes of a 64-bit word.
pub open spec fn le64(x: u64) -> Seq<u8> {
    seq![
        (x & 0xff) as u8,
        ((x >> 8) & 0xff) as u8,
        ((x >> 16) & 0xff) as u8,
        ((x >> 24) & 0xff) as u8,
        ((x >> 32) & 0xff) as u8,
        ((x >> 40) & 0xff) as u8,
        ((x >> 48) & 0xff) as u8,
        ((x >> 56) & 0xff) as u8,
    ]
}

/// The one-byte encoding of a boolean.
pub open spec fn bool_byte(b: bool) -> u8 {
    if b {
        1
    } else {
        0
    }
}

/// The bytes of an optional magic sentinel: its 4-byte value when
/// present, nothing otherwise.
pub open spec fn magic_bytes(m: Option<i32>) -> Seq<u8> {
    match m {
        Some(x) => le32(x as u32),
        None => Seq::empty(),
    }
}

/// The complete binary representation of a valid value under a schema.
pub open spec fn enc(s: Schema, v: GValue) -> Seq<u8>
    decreases s, 1nat, 0nat,
{
    match s {
        Schema::Bool => match v {
            GValue::GBool(b) => seq![bool_byte(b)],
            _ => Seq::empty(),
        },
        Schema::Int32 => match v {
            GValue::GInt32(x) => le32(x as u32),
            _ => Seq::empty(),
        },
        Schema::Int64 => match v {
            GValue::GInt64(x) => le64(x as u64),
            _ => Seq::empty(),
        },
        Schema::Float32 => match v {
            GValue::GFloat32(bits) => le32(bits),
            _ => Seq::empty(),
        },
        Schema::Float64 => match v {
            GValue::GFloat64(bits) => le64(bits),
            _ => Seq::empty(),
        },
        Schema::Str => match v {
            GValue::GStr(bytes) => le32(bytes.len() as u32) + bytes,
            _ => Seq::empty(),
        },
        Schema::Struct(sd) => match v {
            GValue::GStruct(vals) => magic_bytes(sd.magic) + enc_fields(sd.fields@, vals, 0),
            _ => Seq::empty(),
        },
        Schema::OneOf { variants, .. } => match v {
            GValue::GOneOf(idx, vals) => if idx < variants@.len() {
                (le32(idx as u32) + magic_bytes(variants@[idx as int].magic)) + enc_fields(
                    variants@[idx as int].fields@,
                    vals,
                    0,
                )
            } else {
                Seq::empty()
            },
            _ => Seq::empty(),
        },
        Schema::Optional(inner) => match v {
            GValue::GOptional(o) => match o {
                Some(bv) => seq![1u8] + enc(*inner, *bv),
                None => seq![0u8],
            },
            _ => Seq::empty(),
        },
        Schema::Sequence(_) => match v {
            GValue::GSequence(elems) => le32(elems.len() as u32) + enc_list(s, elems, 0),
            _ => Seq::empty(),
        },
        Schema::Mapping(_, _) => match v {
            GValue::GMapping(entries) => le32(entries.len() as u32) + enc_entries(s, entries, 0),
            _ => Seq::empty(),
        },
        Schema::Enum { .. } => match v {
            GValue::GEnum(idx) => le32(idx as u32),
            _ => Seq::empty(),
        },
    }
}

/// The concatenated encodings of the field values from position `i` on.
pub open spec fn enc_fields(fields: Seq<Field>, vals: Seq<GValue>, i: int) -> Seq<u8>
    decreases fields, 0nat, (if fields.len() >= i { (fields.len() - i) as nat } else { 0nat }),
{
    if i < 0 || i >= fields.len() || vals.len() != fields.len() {
        Seq::empty()
    } else {
        enc(*fields[i].schema, vals[i]) + enc_fields(fields, vals, i + 1)
    }
}

/// The concatenated encodings of sequence elements from position `i`
/// on, under the sequence schema `sq`.
pub open spec fn enc_list(sq: Schema, elems: Seq<GValue>, i: int) -> Seq<u8>
    decreases sq, 0nat, (if elems.len() >= i { (elems.len() - i) as nat } else { 0nat }),
{
    match sq {
        Schema::Sequence(inner) => {
            if i < 0 || i >= elems.len() {
                Seq::empty()
            } else {
                enc(*inner, elems[i]) + enc_list(sq, elems, i + 1)
            }
        },
        _ => Seq::empty(),
    }
}

/// The concatenated key and value encodings of mapping entries from
/// position `i` on, under the mapping schema `m`.
pub open spec fn enc_entries(m: Schema, entries: Seq<(GValue, GValue)>, i: int) -> Seq<u8>
    decreases m, 0nat, (if entries.len() >= i { (entries.len() - i) as nat } else { 0nat }),
{
    match m {
        Schema::Mapping(key, val) => {
            if i < 0 || i >= entries.len() {
                Seq::empty()
            } else {
                (enc(*key, entries[i].0) + enc(*val, entries[i].1)) + enc_entries(
                    m,
                    entries,
                    i + 1,
                )
            }
        },
        _ => Seq::empty(),
    }
}

/// The 32-bit word whose little-endian bytes stand at `pos`.
pub open spec fn u32_at(b: Seq<u8>, pos: int) -> u32 {
    ((b[pos] as u32) | ((b[pos + 1] as u32) << 8)) | (((b[pos + 2] as u32) << 16) | ((b[pos
        + 3] as u32) << 24))
}

/// The 64-bit word whose little-endian bytes stand at `pos`.
pub open spec fn u64_at(b: Seq<u8>, pos: int) -> u64 {
    (((b[pos] as u64) | ((b[pos + 1] as u64) << 8)) | (((b[pos + 2] as u64) << 16) | ((b[pos
        + 3] as u64) << 24))) | ((((b[pos + 4] as u64) << 32) | ((b[pos + 5] as u64) << 40)) | (((
    b[pos + 6] as u64) << 48) | ((b[pos + 7] as u64) << 56)))
}

/// The read sequence: the value reconstructed from the bytes at `pos`
/// and the position after it, or nothing when the input is malformed.
/// A struct's magic sentinel is never read back, and a tagged union's
/// reader accepts exactly the declared discriminants.
pub open spec fn dec(s: Schema, b: Seq<u8>, pos: int) -> Option<(GValue, int)>
    decreases s, 1nat, 0nat,
{
    match s {
        Schema::Bool => if 0 <= pos && pos + 1 <= b.len() {
            Some((GValue::GBool(b[pos] != 0), pos + 1))
        } else {
            None
        },
        Schema::Int32 => if 0 <= pos && pos + 4 <= b.len() {
            Some((GValue::GInt32(u32_at(b, pos) as i32), pos + 4))
        } else {
            None
        },
        Schema::Int64 => if 0 <= pos && pos + 8 <= b.len() {
            Some((GValue::GInt64(u64_at(b, pos) as i64), pos + 8))
        } else {
            None
        },
        Schema::Float32 => if 0 <= pos && pos + 4 <= b.len() {
            Some((GValue::GFloat32(u32_at(b, pos)), pos + 4))
        } else {
            None
        },
        Schema::Float64 => if 0 <= pos && pos + 8 <= b.len() {
            Some((GValue::GFloat64(u64_at(b, pos)), pos + 8))
        } else {
            None
        },
        Schema::Str => if 0 <= pos && pos + 4 <= b.len() {
            let n = u32_at(b, pos) as i32;
            if n < 0 {
                None
            } else if pos + 4 + n <= b.len() {
                Some((GValue::GStr(b.subrange(pos + 4, pos + 4 + n)), pos + 4 + n))
            } else {
                None
            }
        } else {
            None
        },
        Schema::Struct(sd) => match dec_fields(sd.fields@, b, pos, 0) {
            Some(r) => Some((GValue::GStruct(r.0), r.1)),
            None => None,
        },
        Schema::OneOf { variants, .. } => if 0 <= pos && pos + 4 <= b.len() {
            let d = u32_at(b, pos) as i32;
            if 0 <= d && d < variants@.len() {
                match dec_fields(variants@[d as int].fields@, b, pos + 4, 0) {
                    Some(r) => Some((GValue::GOneOf(d as usize, r.0), r.1)),
                    None => None,
                }
            } else {
                None
            }
        } else {
            None
        },
        Schema::Optional(inner) => if 0 <= pos && pos + 1 <= b.len() {
            if b[pos] == 0 {
                Some((GValue::GOptional(None), pos + 1))
            } else {
                match dec(*inner, b, pos + 1) {
                    Some(r) => Some((GValue::GOptional(Some(Box::new(r.0))), r.1)),
                    None => None,
                }
            }
        } else {
            None
        },
        Schema::Sequence(_) => if 0 <= pos && pos + 4 <= b.len() {
            let n = u32_at(b, pos) as i32;
            if n < 0 {
                None
            } else {
                match dec_list(s, b, pos + 4, n as nat) {
                    Some(r) => Some((GValue::GSequence(r.0), r.1)),
                    None => None,
                }
            }
        } else {
            None
        },
        Schema::Mapping(_, _) => if 0 <= pos && pos + 4 <= b.len() {
            let n = u32_at(b, pos) as i32;
            if n < 0 {
                None
            } else {
                match dec_entries(s, b, pos + 4, n as nat) {
                    Some(r) => Some((GValue::GMapping(r.0), r.1)),
                    None => None,
                }
            }
        } else {
            None
        },
        Schema::Enum { variants, .. } => if 0 <= pos && pos + 4 <= b.len() {
            let x = u32_at(b, pos) as i32;
            if 0 <= x && x < variants@.len() {
                Some((GValue::GEnum(x as usize), pos + 4))
            } else {
                None
            }
        } else {
            None
        },
    }
}

/// Read one value per field from position `i` on.
pub open spec fn dec_fields(fields: Seq<Field>, b: Seq<u8>, pos: int, i: int) -> Option<
    (Seq<GValue>, int),
>
    decreases fields, 0nat, (if fields.len() >= i { (fields.len() - i) as nat } else { 0nat }),
{
    if i < 0 || i > fields.len() {
        None
    } else if i == fields.len() {
        Some((Seq::empty(), pos))
    } else {
        match dec(*fields[i].schema, b, pos) {
            Some(r) => match dec_fields(fields, b, r.1, i + 1) {
                Some(rs) => Some((seq![r.0] + rs.0, rs.1)),
                None => None,
            },
            None => None,
        }
    }
}

/// Read `n` elements of the inner schema of the sequence schema `sq`.
pub open spec fn dec_list(sq: Schema, b: Seq<u8>, pos: int, n: nat) -> Option<(Seq<GValue>, int)>
    decreases sq, 0nat, n,
{
    match sq {
        Schema::Sequence(inner) => {
            if n == 0 {
                Some((Seq::empty(), pos))
            } else {
                match dec(*inner, b, pos) {
                    Some(r) => match dec_list(sq, b, r.1, (n - 1) as nat) {
                        Some(rs) => Some((seq![r.0] + rs.0, rs.1)),
                        None => None,
                    },
                    None => None,
                }
            }
        },
        _ => None,
    }
}

/// Read `n` key-value pairs of the mapping schema `m`.
pub open spec fn dec_entries(m: Schema, b: Seq<u8>, pos: int, n: nat) -> Option<
    (Seq<(GValue, GValue)>, int),
>
    decreases m, 0nat, n,
{
    match m {
        Schema::Mapping(key, val) => {
            if n == 0 {
                Some((Seq::empty(), pos))
            } else {
                match dec(*key, b, pos) {
                    Some(rk) => match dec(*val, b, rk.1) {
                        Some(rv) => match dec_entries(m, b, rv.1, (n - 1) as nat) {
                            Some(rs) => Some((seq![(rk.0, rv.0)] + rs.0, rs.1)),
                            None => None,
                        },
                        None => None,
                    },
                    None => None,
                }
            }
        },
        _ => None,
    }
}

} // verus!

verus! {

fn push_le32(out: &mut Vec<u8>, x: u32)
    ensures
        final(out)@ == old(out)@ + le32(x),
{
    out.push(#[verifier::truncate] ((x & 0xff) as u8));
    out.push(#[verifier::truncate] (((x >> 8) & 0xff) as u8));
    out.push(#[verifier::truncate] (((x >> 16) & 0xff) as u8));
    out.push(#[verifier::truncate] (((x >> 24) & 0xff) as u8));
    proof {
        assert(out@ =~= old(out)@ + le32(x));
    }
}

fn push_le64(out: &mut Vec<u8>, x: u64)
    ensures
        final(out)@ == old(out)@ + le64(x),
{
    out.push(#[verifier::truncate] ((x & 0xff) as u8));
    out.push(#[verifier::truncate] (((x >> 8) & 0xff) as u8));
    out.push(#[verifier::truncate] (((x >> 16) & 0xff) as u8));
    out.push(#[verifier::truncate] (((x >> 24) & 0xff) as u8));
    out.push(#[verifier::truncate] (((x >> 32) & 0xff) as u8));
    out.push(#[verifier::truncate] (((x >> 40) & 0xff) as u8));
    out.push(#[verifier::truncate] (((x >> 48) & 0xff) as u8));
    out.push(#[verifier::truncate] (((x >> 56) & 0xff) as u8));
    proof {
        assert(out@ =~= old(out)@ + le64(x));
    }
}

fn push_bytes(out: &mut Vec<u8>, bytes: &Vec<u8>)
    ensures
        final(out)@ == old(out)@ + bytes@,
{
    let ghost base = out@;
    let mut i: usize = 0;
    proof {
        assert(base + bytes@.take(0) =~= base);
    }
    while i < bytes.len()
        invariant
            i <= bytes@.len(),
            out@ == base + bytes@.take(i as int),
        decreases bytes@.len() - i,
    {
        out.push(bytes[i]);
        proof {
            assert(bytes@.take(i + 1) =~= bytes@.take(i as int).push(bytes@[i as int]));
            assert((base + bytes@.take(i as int)).push(bytes@[i as int]) =~= base + bytes@.take(
                i + 1,
            ));
        }
        i = i + 1;
    }
    proof {
        assert(bytes@.take(bytes@.len() as int) =~= bytes@);
    }
}

/// Append the complete binary representation of `v` under `schema`.
#[verifier::loop_isolation(false)]
pub fn encode(schema: &Schema, v: &Value, out: &mut Vec<u8>)
    requires
        valid_value(*schema, vview(*v)),
    ensures
        final(out)@ == old(out)@ + enc(*schema, vview(*v)),
    decreases *schema,
{
    let ghost base = out@;
    let ghost gv = vview(*v);
    match schema {
        Schema::Bool => match v {
            Value::VBool(b) => {
                out.push(if *b { 1 } else { 0 });
                proof {
                    assert(out@ =~= base + enc(*schema, gv));
                }
            },
            _ => {
                proof {
                    assert(false);
                }
            },
        },
        Schema::Int32 => match v {
            Value::VInt32(x) => push_le32(out, #[verifier::truncate] (*x as u32)),
            _ => {
                proof {
                    assert(false);
                }
            },
        },
        Schema::Int64 => match v {
            Value::VInt64(x) => push_le64(out, #[verifier::truncate] (*x as u64)),
            _ => {
                proof {
                    assert(false);
                }
            },
        },
        Schema::Float32 => match v {
            Value::VFloat32(bits) => push_le32(out, *bits),
            _ => {
                proof {
                    assert(false);
                }
            },
        },
        Schema::Float64 => match v {
            Value::VFloat64(bits) => push_le64(out, *bits),
            _ => {
                proof {
                    assert(false);
                }
            },
        },
        Schema::Str => match v {
            Value::VStr(bytes) => {
                push_le32(out, bytes.len() as u32);
                push_bytes(out, bytes);
                proof {
                    assert((base + le32(bytes@.len() as u32)) + bytes@ =~= base + (le32(
                        bytes@.len() as u32,
                    ) + bytes@));
                }
            },
            _ => {
                proof {
                    assert(false);
                }
            },
        },
        Schema::Struct(sd) => match v {
            Value::VStruct(vals) => {
                match &sd.magic {
                    Some(m) => push_le32(out, #[verifier::truncate] (*m as u32)),
                    None => {},
                }
                let ghost mid = out@;
                let ghost gvals = vviews(vals@, 0);
                proof {
                    lemma_vviews(vals@, 0);
                }
                let mut i: usize = 0;
                while i < vals.len()
                    invariant
                        i <= vals@.len(),
                        vals@.len() == sd.fields@.len(),
                        valid_fields(sd.fields@, gvals, i as int),
                        gvals == vviews(vals@, 0),
                        gvals.len() == vals@.len(),
                        forall|j: int| 0 <= j < vals@.len() ==> gvals[j] == vview(vals@[j]),
                        mid + enc_fields(sd.fields@, gvals, 0) == out@ + enc_fields(
                            sd.fields@,
                            gvals,
                            i as int,
                        ),
                    decreases vals@.len() - i,
                {
                    let ghost pre = out@;
                    let f = &sd.fields[i];
                    proof {
                        assert(decreases_to!(sd.fields => sd.fields[i as int]));
                    }
                    encode(&f.schema, &vals[i], out);
                    proof {
                        assert(pre + (enc(*f.schema, gvals[i as int]) + enc_fields(
                            sd.fields@,
                            gvals,
                            i + 1,
                        )) =~= (pre + enc(*f.schema, gvals[i as int])) + enc_fields(
                            sd.fields@,
                            gvals,
                            i + 1,
                        ));
                    }
                    i = i + 1;
                }
                proof {
                    assert(out@ + enc_fields(sd.fields@, gvals, vals@.len() as int) =~= out@);
                    assert(base + (magic_bytes(sd.magic) + enc_fields(sd.fields@, gvals, 0)) =~= (
                    base + magic_bytes(sd.magic)) + enc_fields(sd.fields@, gvals, 0));
                }
            },
            _ => {
                proof {
                    assert(false);
                }
            },
        },
        Schema::OneOf { variants, .. } => match v {
            Value::VOneOf(idx, vals) => {
                push_le32(out, *idx as u32);
                let var = &variants[*idx];
                match &var.magic {
                    Some(m) => push_le32(out, #[verifier::truncate] (*m as u32)),
                    None => {},
                }
                let ghost mid = out@;
                let ghost gvals = vviews(vals@, 0);
                proof {
                    lemma_vviews(vals@, 0);
                }
                let mut i: usize = 0;
                while i < vals.len()
                    invariant
                        i <= vals@.len(),
                        vals@.len() == var.fields@.len(),
                        *idx < variants@.len(),
                        var == variants@[*idx as int],
                        valid_fields(var.fields@, gvals, i as int),
                        gvals == vviews(vals@, 0),
                        gvals.len() == vals@.len(),
                        forall|j: int| 0 <= j < vals@.len() ==> gvals[j] == vview(vals@[j]),
                        mid + enc_fields(var.fields@, gvals, 0) == out@ + enc_fields(
                            var.fields@,
                            gvals,
                            i as int,
                        ),
                    decreases vals@.len() - i,
                {
                    let ghost pre = out@;
                    let f = &var.fields[i];
                    proof {
                        assert(decreases_to!(variants => variants[*idx as int]));
                        assert(decreases_to!(var.fields => var.fields[i as int]));
                    }
                    encode(&f.schema, &vals[i], out);
                    proof {
                        assert(pre + (enc(*f.schema, gvals[i as int]) + enc_fields(
                            var.fields@,
                            gvals,
                            i + 1,
                        )) =~= (pre + enc(*f.schema, gvals[i as int])) + enc_fields(
                            var.fields@,
                            gvals,
                            i + 1,
                        ));
                    }
                    i = i + 1;
                }
                proof {
                    assert(out@ + enc_fields(var.fields@, gvals, vals@.len() as int) =~= out@);
                    assert(base + ((le32(*idx as u32) + magic_bytes(var.magic)) + enc_fields(
                        var.fields@,
                        gvals,
                        0,
                    )) =~= ((base + le32(*idx as u32)) + magic_bytes(var.magic)) + enc_fields(
                        var.fields@,
                        gvals,
                        0,
                    ));
                }
            },
            _ => {
                proof {
                    assert(false);
                }
            },
        },
        Schema::Optional(inner) => match v {
            Value::VOptional(o) => match o {
                Some(bv) => {
                    out.push(1);
                    encode(&**inner, &**bv, out);
                    proof {
                        assert(base.push(1u8) =~= base + seq![1u8]);
                        assert((base + seq![1u8]) + enc(**inner, vview(**bv)) =~= base + (seq![
                            1u8,
                        ] + enc(**inner, vview(**bv))));
                    }
                },
                None => {
                    out.push(0);
                    proof {
                        assert(base.push(0u8) =~= base + seq![0u8]);
                    }
                },
            },
            _ => {
                proof {
                    assert(false);
                }
            },
        },
        Schema::Sequence(inner) => match v {
            Value::VSequence(elems) => {
                push_le32(out, elems.len() as u32);
                let ghost mid = out@;
                let ghost gvals = vviews(elems@, 0);
                proof {
                    lemma_vviews(elems@, 0);
                }
                let mut i: usize = 0;
                while i < elems.len()
                    invariant
                        i <= elems@.len(),
                        valid_list(*schema, gvals, i as int),
                        schema is Sequence,
                        inner == schema->Sequence_0,
                        gvals == vviews(elems@, 0),
                        gvals.len() == elems@.len(),
                        forall|j: int| 0 <= j < elems@.len() ==> gvals[j] == vview(elems@[j]),
                        mid + enc_list(*schema, gvals, 0) == out@ + enc_list(
                            *schema,
                            gvals,
                            i as int,
                        ),
                    decreases elems@.len() - i,
                {
                    let ghost pre = out@;
                    encode(&**inner, &elems[i], out);
                    proof {
                        assert(pre + (enc(**inner, gvals[i as int]) + enc_list(
                            *schema,
                            gvals,
                            i + 1,
                        )) =~= (pre + enc(**inner, gvals[i as int])) + enc_list(
                            *schema,
                            gvals,
                            i + 1,
                        ));
                    }
                    i = i + 1;
                }
                proof {
                    assert(out@ + enc_list(*schema, gvals, elems@.len() as int) =~= out@);
                    assert(base + (le32(elems@.len() as u32) + enc_list(*schema, gvals, 0)) =~= (
                    base + le32(elems@.len() as u32)) + enc_list(*schema, gvals, 0));
                }
            },
            _ => {
                proof {
                    assert(false);
                }
            },
        },
        Schema::Mapping(key, val) => match v {
            Value::VMapping(entries) => {
                push_le32(out, entries.len() as u32);
                let ghost mid = out@;
                let ghost gpairs = pviews(entries@, 0);
                proof {
                    lemma_pviews(entries@, 0);
                }
                let mut i: usize = 0;
                while i < entries.len()
                    invariant
                        i <= entries@.len(),
                        valid_entries(*schema, gpairs, i as int),
                        schema is Mapping,
                        key == schema->Mapping_0,
                        val == schema->Mapping_1,
                        gpairs == pviews(entries@, 0),
                        gpairs.len() == entries@.len(),
                        forall|j: int| 0 <= j < entries@.len() ==> gpairs[j] == (
                            vview(entries@[j].0),
                            vview(entries@[j].1),
                        ),
                        mid + enc_entries(*schema, gpairs, 0) == out@ + enc_entries(
                            *schema,
                            gpairs,
                            i as int,
                        ),
                    decreases entries@.len() - i,
                {
                    let ghost pre = out@;
                    let e = &entries[i];
                    encode(&**key, &e.0, out);
                    encode(&**val, &e.1, out);
                    proof {
                        let ek = enc(**key, gpairs[i as int].0);
                        let ev = enc(**val, gpairs[i as int].1);
                        let rest = enc_entries(*schema, gpairs, i + 1);
                        assert((pre + ek) + ev =~= pre + (ek + ev));
                        assert(pre + ((ek + ev) + rest) =~= (pre + (ek + ev)) + rest);
                    }
                    i = i + 1;
                }
                proof {
                    assert(out@ + enc_entries(*schema, gpairs, entries@.len() as int) =~= out@);
                    assert(base + (le32(entries@.len() as u32) + enc_entries(*schema, gpairs, 0))
                        =~= (base + le32(entries@.len() as u32)) + enc_entries(
                        *schema,
                        gpairs,
                        0,
                    ));
                }
            },
            _ => {
                proof {
                    assert(false);
                }
            },
        },
        Schema::Enum { .. } => match v {
            Value::VEnum(idx) => push_le32(out, *idx as u32),
            _ => {
                proof {
                    assert(false);
                }
            },
        },
    }
}

} // verus!

verus! {

fn read_u32(bytes: &Vec<u8>, pos: usize) -> (r: Option<(u32, usize)>)
    ensures
        match r {
            Some(p) => pos + 4 <= bytes@.len() && p.0 == u32_at(bytes@, pos as int) && p.1 == pos
                + 4,
            None => pos + 4 > bytes@.len(),
        },
{
    if pos <= bytes.len() && bytes.len() - pos >= 4 {
        let b0 = bytes[pos];
        let b1 = bytes[pos + 1];
        let b2 = bytes[pos + 2];
        let b3 = bytes[pos + 3];
        let x = ((b0 as u32) | ((b1 as u32) << 8)) | (((b2 as u32) << 16) | ((b3 as u32) << 24));
        Some((x, pos + 4))
    } else {
        None
    }
}

fn read_u64(bytes: &Vec<u8>, pos: usize) -> (r: Option<(u64, usize)>)
    ensures
        match r {
            Some(p) => pos + 8 <= bytes@.len() && p.0 == u64_at(bytes@, pos as int) && p.1 == pos
                + 8,
            None => pos + 8 > bytes@.len(),
        },
{
    if pos <= bytes.len() && bytes.len() - pos >= 8 {
        let b0 = bytes[pos];
        let b1 = bytes[pos + 1];
        let b2 = bytes[pos + 2];
        let b3 = bytes[pos + 3];
        let b4 = bytes[pos + 4];
        let b5 = bytes[pos + 5];
        let b6 = bytes[pos + 6];
        let b7 = bytes[pos + 7];
        let x = (((b0 as u64) | ((b1 as u64) << 8)) | (((b2 as u64) << 16) | ((b3 as u64) << 24)))
            | ((((b4 as u64) << 32) | ((b5 as u64) << 40)) | (((b6 as u64) << 48) | ((b7
            as u64) << 56)));
        Some((x, pos + 8))
    } else {
        None
    }
}

fn copy_range(bytes: &Vec<u8>, from: usize, to: usize) -> (r: Vec<u8>)
    requires
        from <= to <= bytes@.len(),
    ensures
        r@ == bytes@.subrange(from as int, to as int),
{
    let mut r: Vec<u8> = Vec::new();
    let mut i: usize = from;
    proof {
        assert(r@ =~= bytes@.subrange(from as int, from as int));
    }
    while i < to
        invariant
            from <= i <= to <= bytes@.len(),
            r@ == bytes@.subrange(from as int, i as int),
        decreases to - i,
    {
        r.push(bytes[i]);
        proof {
            assert(bytes@.subrange(from as int, i as int).push(bytes@[i as int])
                =~= bytes@.subrange(from as int, i + 1));
        }
        i = i + 1;
    }
    r
}

/// Prefix a decoded tail with already-decoded values.
pub open spec fn opt_prepend(pre: Seq<GValue>, r: Option<(Seq<GValue>, int)>) -> Option<
    (Seq<GValue>, int),
> {
    match r {
        Some(p) => Some((pre + p.0, p.1)),
        None => None,
    }
}

/// Prefix a decoded tail with already-decoded entry pairs.
pub open spec fn opt_prepend_pairs(
    pre: Seq<(GValue, GValue)>,
    r: Option<(Seq<(GValue, GValue)>, int)>,
) -> Option<(Seq<(GValue, GValue)>, int)> {
    match r {
        Some(p) => Some((pre + p.0, p.1)),
        None => None,
    }
}

/// Read one value per field, in declared order.
#[verifier::loop_isolation(false)]
fn decode_fields(fields: &Vec<Field>, bytes: &Vec<u8>, pos: usize) -> (r: Option<
    (Vec<Value>, usize),
>)
    ensures
        match r {
            Some(p) => dec_fields(fields@, bytes@, pos as int, 0) == Some(
                (vviews(p.0@, 0), p.1 as int),
            ),
            None => dec_fields(fields@, bytes@, pos as int, 0) is None,
        },
    decreases *fields, 0nat,
{
    let mut vals: Vec<Value> = Vec::new();
    let mut cur: usize = pos;
    let mut i: usize = 0;
    proof {
        assert(vviews(vals@, 0) =~= Seq::<GValue>::empty());
    }
    while i < fields.len()
        invariant
            i <= fields@.len(),
            dec_fields(fields@, bytes@, pos as int, 0) == opt_prepend(
                vviews(vals@, 0),
                dec_fields(fields@, bytes@, cur as int, i as int),
            ),
        decreases fields@.len() - i,
    {
        let f = &fields[i];
        proof {
            assert(decreases_to!(fields => fields[i as int]));
        }
        match decode(&f.schema, bytes, cur) {
            Some(p) => {
                let (v, end) = p;
                proof {
                    let pre = vviews(vals@, 0);
                    let rest = dec_fields(fields@, bytes@, end as int, i + 1);
                    lemma_vviews_push(vals@, v, 0);
                    match rest {
                        Some(rs) => {
                            assert((pre + seq![vview(v)]) + rs.0 =~= pre + (seq![vview(v)]
                                + rs.0));
                        },
                        None => {},
                    }
                }
                vals.push(v);
                cur = end;
            },
            None => {
                return None;
            },
        }
        i = i + 1;
    }
    proof {
        assert(vviews(vals@, 0) + Seq::<GValue>::empty() =~= vviews(vals@, 0));
    }
    Some((vals, cur))
}

/// Read back one value of `schema` from `bytes` at `pos`: the exact
/// inverse of the write sequence, except that a magic sentinel is
/// never consumed.
#[verifier::loop_isolation(false)]
pub fn decode(schema: &Schema, bytes: &Vec<u8>, pos: usize) -> (r: Option<(Value, usize)>)
    ensures
        match r {
            Some(p) => dec(*schema, bytes@, pos as int) == Some((vview(p.0), p.1 as int)),
            None => dec(*schema, bytes@, pos as int) is None,
        },
    decreases *schema, 1nat,
{
    match schema {
        Schema::Bool => {
            if pos < bytes.len() {
                let flag = bytes[pos];
                Some((Value::VBool(flag != 0), pos + 1))
            } else {
                None
            }
        },
        Schema::Int32 => match read_u32(bytes, pos) {
            Some(p) => Some((Value::VInt32(p.0 as i32), p.1)),
            None => None,
        },
        Schema::Int64 => match read_u64(bytes, pos) {
            Some(p) => Some((Value::VInt64(p.0 as i64), p.1)),
            None => None,
        },
        Schema::Float32 => match read_u32(bytes, pos) {
            Some(p) => Some((Value::VFloat32(p.0), p.1)),
            None => None,
        },
        Schema::Float64 => match read_u64(bytes, pos) {
            Some(p) => Some((Value::VFloat64(p.0), p.1)),
            None => None,
        },
        Schema::Str => match read_u32(bytes, pos) {
            Some(p) => {
                let n = p.0 as i32;
                if n < 0 {
                    None
                } else {
                    let nn = n as usize;
                    if nn <= bytes.len() - p.1 {
                        let data = copy_range(bytes, p.1, p.1 + nn);
                        Some((Value::VStr(data), p.1 + nn))
                    } else {
                        None
                    }
                }
            },
            None => None,
        },
        Schema::Struct(sd) => match decode_fields(&sd.fields, bytes, pos) {
            Some(p) => Some((Value::VStruct(p.0), p.1)),
            None => None,
        },
        Schema::OneOf { variants, .. } => match read_u32(bytes, pos) {
            Some(p) => {
                let d = p.0 as i32;
                if 0 <= d && (d as usize) < variants.len() {
                    let var = &variants[d as usize];
                    proof {
                        assert(decreases_to!(variants => variants[d as int]));
                    }
                    match decode_fields(&var.fields, bytes, p.1) {
                        Some(q) => Some((Value::VOneOf(d as usize, q.0), q.1)),
                        None => None,
                    }
                } else {
                    None
                }
            },
            None => None,
        },
        Schema::Optional(inner) => {
            if pos < bytes.len() {
                let flag = bytes[pos];
                if flag == 0 {
                    Some((Value::VOptional(None), pos + 1))
                } else {
                    match decode(&**inner, bytes, pos + 1) {
                        Some(p) => Some((Value::VOptional(Some(Box::new(p.0))), p.1)),
                        None => None,
                    }
                }
            } else {
                None
            }
        },
        Schema::Sequence(inner) => match read_u32(bytes, pos) {
            Some(p) => {
                let n = p.0 as i32;
                if n < 0 {
                    None
                } else {
                    let count = n as usize;
                    let mut elems: Vec<Value> = Vec::new();
                    let mut cur: usize = p.1;
                    let mut j: usize = 0;
                    proof {
                        assert(vviews(elems@, 0) =~= Seq::<GValue>::empty());
                    }
                    while j < count
                        invariant
                            j <= count,
                            dec_list(*schema, bytes@, p.1 as int, count as nat) == opt_prepend(
                                vviews(elems@, 0),
                                dec_list(*schema, bytes@, cur as int, (count - j) as nat),
                            ),
                        decreases count - j,
                    {
                        match decode(&**inner, bytes, cur) {
                            Some(q) => {
                                proof {
                                    let pre = vviews(elems@, 0);
                                    let rest = dec_list(
                                        *schema,
                                        bytes@,
                                        q.1 as int,
                                        (count - j - 1) as nat,
                                    );
                                    lemma_vviews_push(elems@, q.0, 0);
                                    match rest {
                                        Some(rs) => {
                                            assert((pre + seq![vview(q.0)]) + rs.0 =~= pre + (
                                            seq![vview(q.0)] + rs.0));
                                        },
                                        None => {},
                                    }
                                }
                                elems.push(q.0);
                                cur = q.1;
                            },
                            None => {
                                return None;
                            },
                        }
                        j = j + 1;
                    }
                    proof {
                        assert(vviews(elems@, 0) + Seq::<GValue>::empty() =~= vviews(elems@, 0));
                    }
                    Some((Value::VSequence(elems), cur))
                }
            },
            None => None,
        },
        Schema::Mapping(key, val) => match read_u32(bytes, pos) {
            Some(p) => {
                let n = p.0 as i32;
                if n < 0 {
                    None
                } else {
                    let count = n as usize;
                    let mut entries: Vec<(Value, Value)> = Vec::new();
                    let mut cur: usize = p.1;
                    let mut j: usize = 0;
                    proof {
                        assert(pviews(entries@, 0) =~= Seq::<(GValue, GValue)>::empty());
                    }
                    while j < count
                        invariant
                            j <= count,
                            dec_entries(*schema, bytes@, p.1 as int, count as nat)
                                == opt_prepend_pairs(
                                pviews(entries@, 0),
                                dec_entries(*schema, bytes@, cur as int, (count - j) as nat),
                            ),
                        decreases count - j,
                    {
                        match decode(&**key, bytes, cur) {
                            Some(qk) => {
                                match decode(&**val, bytes, qk.1) {
                                    Some(qv) => {
                                        proof {
                                            let pre = pviews(entries@, 0);
                                            let rest = dec_entries(
                                                *schema,
                                                bytes@,
                                                qv.1 as int,
                                                (count - j - 1) as nat,
                                            );
                                            lemma_pviews_push(entries@, (qk.0, qv.0), 0);
                                            match rest {
                                                Some(rs) => {
                                                    assert((pre + seq![
                                                        (vview(qk.0), vview(qv.0)),
                                                    ]) + rs.0 =~= pre + (seq![
                                                        (vview(qk.0), vview(qv.0)),
                                                    ] + rs.0));
                                                },
                                                None => {},
                                            }
                                        }
                                        entries.push((qk.0, qv.0));
                                        cur = qv.1;
                                    },
                                    None => {
                                        return None;
                                    },
                                }
                            },
                            None => {
                                return None;
                            },
                        }
                        j = j + 1;
                    }
                    proof {
                        assert(pviews(entries@, 0) + Seq::<(GValue, GValue)>::empty() =~= pviews(
                            entries@,
                            0,
                        ));
                    }
                    Some((Value::VMapping(entries), cur))
                }
            },
            None => None,
        },
        Schema::Enum { variants, .. } => match read_u32(bytes, pos) {
            Some(p) => {
                let x = p.0 as i32;
                if 0 <= x && (x as usize) < variants.len() {
                    Some((Value::VEnum(x as usize), p.1))
                } else {
                    None
                }
            },
            None => None,
        },
    }
}

} // verus!
