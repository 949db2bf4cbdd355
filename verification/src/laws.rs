//! Laws of the wire format: decoding inverts encoding, and the tagged
//! union's reader accepts exactly the declared discriminants.

use vstd::prelude::*;
use crate::schema::{Field, Schema, StructDef};
use crate::value::{valid_entries, valid_fields, valid_list, valid_value, GValue};
use crate::codec::{bool_byte, dec, dec_entries, dec_fields, dec_list, enc, enc_entries,
    enc_fields, enc_list, le32, le64, magic_bytes, u32_at, u64_at};

verus! {

/// `data` stands in `b` at position `pos`.
pub open spec fn seg_at(b: Seq<u8>, pos: int, data: Seq<u8>) -> bool {
    0 <= pos && pos + data.len() <= b.len() && b.subrange(pos, pos + data.len()) == data
}

/// A segment of a concatenation splits into segments of its parts.
proof fn lemma_seg_split(b: Seq<u8>, pos: int, x: Seq<u8>, y: Seq<u8>)
    requires
        seg_at(b, pos, x + y),
    ensures
        seg_at(b, pos, x),
        seg_at(b, pos + x.len(), y),
{
    assert forall|j: int| 0 <= j < (x + y).len() implies b[pos + j] == (x + y)[j] by {
        assert(b.subrange(pos, pos + (x + y).len())[j] == (x + y)[j]);
    }
    assert(b.subrange(pos, pos + x.len()) =~= x);
    assert forall|i: int| 0 <= i < y.len() implies b.subrange(
        pos + x.len(),
        pos + x.len() + y.len(),
    )[i] == y[i] by {
        assert(b.subrange(pos, pos + (x + y).len())[x.len() + i] == (x + y)[x.len() + i]);
    }
    assert(b.subrange(pos + x.len(), pos + x.len() + y.len()) =~= y);
}

/// Reading four little-endian bytes gives back the written word.
proof fn lemma_le32_round(b: Seq<u8>, pos: int, x: u32)
    requires
        seg_at(b, pos, le32(x)),
    ensures
        pos + 4 <= b.len(),
        u32_at(b, pos) == x,
{
    assert(b[pos] == le32(x)[0]);
    assert(b[pos + 1] == le32(x)[1]);
    assert(b[pos + 2] == le32(x)[2]);
    assert(b[pos + 3] == le32(x)[3]);
    assert(((((x & 0xff) as u8) as u32) | ((((x >> 8) & 0xff) as u8) as u32) << 8) | (((((x
        >> 16) & 0xff) as u8) as u32) << 16 | ((((x >> 24) & 0xff) as u8) as u32) << 24) == x)
        by (bit_vector);
}

/// Reading eight little-endian bytes gives back the written word.
proof fn lemma_le64_round(b: Seq<u8>, pos: int, x: u64)
    requires
        seg_at(b, pos, le64(x)),
    ensures
        pos + 8 <= b.len(),
        u64_at(b, pos) == x,
{
    assert(b[pos] == le64(x)[0]);
    assert(b[pos + 1] == le64(x)[1]);
    assert(b[pos + 2] == le64(x)[2]);
    assert(b[pos + 3] == le64(x)[3]);
    assert(b[pos + 4] == le64(x)[4]);
    assert(b[pos + 5] == le64(x)[5]);
    assert(b[pos + 6] == le64(x)[6]);
    assert(b[pos + 7] == le64(x)[7]);
    assert(((((x & 0xff) as u8) as u64) | ((((x >> 8) & 0xff) as u8) as u64) << 8 | (((((x
        >> 16) & 0xff) as u8) as u64) << 16 | ((((x >> 24) & 0xff) as u8) as u64) << 24)) | (((((
    x >> 32) & 0xff) as u8) as u64) << 32 | ((((x >> 40) & 0xff) as u8) as u64) << 40 | (((((x
        >> 48) & 0xff) as u8) as u64) << 48 | ((((x >> 56) & 0xff) as u8) as u64) << 56)) == x)
        by (bit_vector);
}

proof fn lemma_i32_cast_round(x: i32)
    ensures
        ((x as u32) as i32) == x,
{
    assert(((x as u32) as i32) == x) by (bit_vector);
}

proof fn lemma_i64_cast_round(x: i64)
    ensures
        ((x as u64) as i64) == x,
{
    assert(((x as u64) as i64) == x) by (bit_vector);
}

/// Whether no struct reachable from `s` declares a magic sentinel.  A
/// magic sentinel is written but never read back, so only magic-free
/// schemas can round-trip.
pub open spec fn no_magic(s: Schema) -> bool
    decreases s, 1nat, 0nat,
{
    match s {
        Schema::Struct(sd) => sd.magic is None && no_magic_fields(sd.fields@, 0),
        Schema::OneOf { variants, .. } => no_magic_variants(variants@, 0),
        Schema::Optional(inner) => no_magic(*inner),
        Schema::Sequence(inner) => no_magic(*inner),
        Schema::Mapping(key, val) => no_magic(*key) && no_magic(*val),
        _ => true,
    }
}

/// No magic sentinel among the field schemas from position `i` on.
pub open spec fn no_magic_fields(fields: Seq<Field>, i: int) -> bool
    decreases fields, 0nat, (if fields.len() >= i { (fields.len() - i) as nat } else { 0nat }),
{
    if i < 0 || i >= fields.len() {
        true
    } else {
        no_magic(*fields[i].schema) && no_magic_fields(fields, i + 1)
    }
}

/// No magic sentinel among the variants from position `i` on.
pub open spec fn no_magic_variants(variants: Seq<StructDef>, i: int) -> bool
    decreases variants, 0nat, (if variants.len() >= i { (variants.len() - i) as nat } else { 0nat }),
{
    if i < 0 || i >= variants.len() {
        true
    } else {
        variants[i].magic is None && no_magic_fields(variants[i].fields@, 0) && no_magic_variants(
            variants,
            i + 1,
        )
    }
}

/// Round trip: decoding the encoding of any valid value of a
/// magic-free schema yields the value back and consumes exactly its
/// encoding, wherever the encoding stands in a larger buffer.
pub proof fn lemma_round_trip(s: Schema, v: GValue, b: Seq<u8>, pos: int)
    requires
        valid_value(s, v),
        no_magic(s),
        seg_at(b, pos, enc(s, v)),
    ensures
        dec(s, b, pos) == Some((v, pos + enc(s, v).len())),
    decreases s, 1nat, 0nat,
{
    match s {
        Schema::Bool => {
            let bb = v->GBool_0;
            assert(b[pos] == enc(s, v)[0]);
            assert(b[pos] == bool_byte(bb));
        },
        Schema::Int32 => {
            let x = v->GInt32_0;
            lemma_le32_round(b, pos, x as u32);
            lemma_i32_cast_round(x);
        },
        Schema::Int64 => {
            let x = v->GInt64_0;
            lemma_le64_round(b, pos, x as u64);
            lemma_i64_cast_round(x);
        },
        Schema::Float32 => {
            lemma_le32_round(b, pos, v->GFloat32_0);
        },
        Schema::Float64 => {
            lemma_le64_round(b, pos, v->GFloat64_0);
        },
        Schema::Str => {
            let bytes = v->GStr_0;
            lemma_seg_split(b, pos, le32(bytes.len() as u32), bytes);
            lemma_le32_round(b, pos, bytes.len() as u32);
            assert(u32_at(b, pos) as i32 == bytes.len());
            assert(b.subrange(pos + 4, pos + 4 + bytes.len()) == bytes);
        },
        Schema::Struct(sd) => {
            let vals = v->GStruct_0;
            assert(magic_bytes(sd.magic) + enc_fields(sd.fields@, vals, 0) =~= enc_fields(
                sd.fields@,
                vals,
                0,
            ));
            lemma_round_trip_fields(sd.fields@, vals, b, pos, 0);
            assert(vals.skip(0) =~= vals);
        },
        Schema::OneOf { variants, .. } => {
            let idx = v->GOneOf_0;
            let vals = v->GOneOf_1;
            let var = variants@[idx as int];
            lemma_no_magic_variants_at(variants@, 0, idx as int);
            assert(magic_bytes(var.magic) =~= Seq::<u8>::empty());
            assert(le32(idx as u32) + magic_bytes(var.magic) =~= le32(idx as u32));
            lemma_seg_split(b, pos, le32(idx as u32), enc_fields(var.fields@, vals, 0));
            lemma_le32_round(b, pos, idx as u32);
            assert(u32_at(b, pos) as i32 == idx);
            lemma_round_trip_fields(var.fields@, vals, b, pos + 4, 0);
            assert(vals.skip(0) =~= vals);
        },
        Schema::Optional(inner) => {
            let o = v->GOptional_0;
            match o {
                Some(bv) => {
                    lemma_seg_split(b, pos, seq![1u8], enc(*inner, *bv));
                    assert(b[pos] == seq![1u8][0]);
                    lemma_round_trip(*inner, *bv, b, pos + 1);
                },
                None => {
                    assert(b[pos] == seq![0u8][0]);
                },
            }
        },
        Schema::Sequence(_) => {
            let elems = v->GSequence_0;
            lemma_seg_split(b, pos, le32(elems.len() as u32), enc_list(s, elems, 0));
            lemma_le32_round(b, pos, elems.len() as u32);
            assert(u32_at(b, pos) as i32 == elems.len());
            lemma_round_trip_list(s, elems, b, pos + 4, 0);
            assert(elems.skip(0) =~= elems);
        },
        Schema::Mapping(_, _) => {
            let entries = v->GMapping_0;
            lemma_seg_split(b, pos, le32(entries.len() as u32), enc_entries(s, entries, 0));
            lemma_le32_round(b, pos, entries.len() as u32);
            assert(u32_at(b, pos) as i32 == entries.len());
            lemma_round_trip_entries(s, entries, b, pos + 4, 0);
            assert(entries.skip(0) =~= entries);
        },
        Schema::Enum { variants, .. } => {
            let idx = v->GEnum_0;
            lemma_le32_round(b, pos, idx as u32);
            assert(u32_at(b, pos) as i32 == idx);
        },
    }
}

/// Under `no_magic_variants`, each variant is itself magic-free.
proof fn lemma_no_magic_variants_at(variants: Seq<StructDef>, i: int, j: int)
    requires
        0 <= i <= j < variants.len(),
        no_magic_variants(variants, i),
    ensures
        variants[j].magic is None,
        no_magic_fields(variants[j].fields@, 0),
    decreases j - i,
{
    if i < j {
        lemma_no_magic_variants_at(variants, i + 1, j);
    }
}

/// Round trip for the fields of a struct, from position `i` on.
proof fn lemma_round_trip_fields(
    fields: Seq<Field>,
    vals: Seq<GValue>,
    b: Seq<u8>,
    pos: int,
    i: int,
)
    requires
        0 <= i <= fields.len(),
        valid_fields(fields, vals, i),
        no_magic_fields(fields, i),
        seg_at(b, pos, enc_fields(fields, vals, i)),
    ensures
        dec_fields(fields, b, pos, i) == Some((vals.skip(i), pos + enc_fields(
            fields,
            vals,
            i,
        ).len())),
    decreases fields, 0nat, (fields.len() - i) as nat,
{
    if i == fields.len() {
        assert(vals.skip(i) =~= Seq::<GValue>::empty());
    } else {
        let head = enc(*fields[i].schema, vals[i]);
        let tail = enc_fields(fields, vals, i + 1);
        lemma_seg_split(b, pos, head, tail);
        lemma_round_trip(*fields[i].schema, vals[i], b, pos);
        lemma_round_trip_fields(fields, vals, b, pos + head.len(), i + 1);
        assert(seq![vals[i]] + vals.skip(i + 1) =~= vals.skip(i));
    }
}

/// Round trip for sequence elements, from position `i` on.
proof fn lemma_round_trip_list(sq: Schema, elems: Seq<GValue>, b: Seq<u8>, pos: int, i: int)
    requires
        0 <= i <= elems.len(),
        sq is Sequence,
        valid_list(sq, elems, i),
        no_magic(sq),
        seg_at(b, pos, enc_list(sq, elems, i)),
    ensures
        dec_list(sq, b, pos, (elems.len() - i) as nat) == Some((elems.skip(i), pos + enc_list(
            sq,
            elems,
            i,
        ).len())),
    decreases sq, 0nat, (elems.len() - i) as nat,
{
    if i == elems.len() {
        assert(elems.skip(i) =~= Seq::<GValue>::empty());
    } else {
        let inner = sq->Sequence_0;
        let head = enc(*inner, elems[i]);
        let tail = enc_list(sq, elems, i + 1);
        lemma_seg_split(b, pos, head, tail);
        lemma_round_trip(*inner, elems[i], b, pos);
        lemma_round_trip_list(sq, elems, b, pos + head.len(), i + 1);
        assert(seq![elems[i]] + elems.skip(i + 1) =~= elems.skip(i));
    }
}

/// Round trip for mapping entries, from position `i` on.
proof fn lemma_round_trip_entries(
    m: Schema,
    entries: Seq<(GValue, GValue)>,
    b: Seq<u8>,
    pos: int,
    i: int,
)
    requires
        0 <= i <= entries.len(),
        m is Mapping,
        valid_entries(m, entries, i),
        no_magic(m),
        seg_at(b, pos, enc_entries(m, entries, i)),
    ensures
        dec_entries(m, b, pos, (entries.len() - i) as nat) == Some((entries.skip(i), pos
            + enc_entries(m, entries, i).len())),
    decreases m, 0nat, (entries.len() - i) as nat,
{
    if i == entries.len() {
        assert(entries.skip(i) =~= Seq::<(GValue, GValue)>::empty());
    } else {
        let key = m->Mapping_0;
        let val = m->Mapping_1;
        let hk = enc(*key, entries[i].0);
        let hv = enc(*val, entries[i].1);
        let tail = enc_entries(m, entries, i + 1);
        lemma_seg_split(b, pos, hk + hv, tail);
        lemma_seg_split(b, pos, hk, hv);
        lemma_round_trip(*key, entries[i].0, b, pos);
        lemma_round_trip(*val, entries[i].1, b, pos + hk.len());
        lemma_round_trip_entries(m, entries, b, pos + (hk + hv).len(), i + 1);
        assert(seq![entries[i]] + entries.skip(i + 1) =~= entries.skip(i));
        assert((entries[i].0, entries[i].1) == entries[i]);
    }
}

/// The variant payloads of a tagged union schema.
pub open spec fn oneof_variants(s: Schema) -> Seq<StructDef> {
    match s {
        Schema::OneOf { variants, .. } => variants@,
        _ => Seq::empty(),
    }
}

/// Discriminant stability: the union's reader succeeds only on the
/// discriminants `0 .. variant count`, and rejects every other 4-byte
/// integer with an explicit decode failure.
pub proof fn lemma_union_reader_discriminants(s: Schema, b: Seq<u8>, pos: int)
    requires
        s is OneOf,
    ensures
        ({
            let n = oneof_variants(s).len();
            let d = u32_at(b, pos) as i32;
            &&& (dec(s, b, pos) is Some ==> 0 <= d && d < n)
            &&& ((0 <= pos && pos + 4 <= b.len() && !(0 <= d && d < n)) ==> dec(s, b, pos)
                is None)
        }),
{
}

/// Enum wire value equals declaration-order index: the encoding of the
/// member at position `idx` is exactly the 4-byte little-endian
/// integer `idx`.
pub proof fn lemma_enum_wire_value(s: Schema, idx: usize)
    requires
        s is Enum,
        idx <= 0x7fffffff,
    ensures
        enc(s, GValue::GEnum(idx)) == le32(idx as u32),
{
}

/// Empty struct: the encoder emits only the magic sentinel, if any,
/// and with none it emits nothing; the decoder produces the empty
/// value without consuming any bytes.
pub proof fn lemma_empty_struct(sd: StructDef, b: Seq<u8>, pos: int)
    requires
        sd.fields@.len() == 0,
    ensures
        enc(Schema::Struct(sd), GValue::GStruct(Seq::empty())) == magic_bytes(sd.magic),
        dec(Schema::Struct(sd), b, pos) == Some((GValue::GStruct(Seq::<GValue>::empty()), pos)),
{
    assert(enc_fields(sd.fields@, Seq::empty(), 0) =~= Seq::<u8>::empty());
    assert(magic_bytes(sd.magic) + Seq::<u8>::empty() =~= magic_bytes(sd.magic));
    assert(dec_fields(sd.fields@, b, pos, 0) == Some((Seq::<GValue>::empty(), pos)));
}

/// A sequence of length zero writes exactly the 4-byte zero count, and
/// the reader reconstructs an empty sequence without reading further
/// bytes.
pub proof fn lemma_empty_sequence(s: Schema, b: Seq<u8>, pos: int)
    requires
        s is Sequence,
    ensures
        enc(s, GValue::GSequence(Seq::empty())) == le32(0u32),
        seg_at(b, pos, le32(0u32)) ==> dec(s, b, pos) == Some(
            (GValue::GSequence(Seq::<GValue>::empty()), pos + 4),
        ),
{
    assert(enc_list(s, Seq::empty(), 0) =~= Seq::<u8>::empty());
    assert(le32(0u32) + Seq::<u8>::empty() =~= le32(0u32));
    if seg_at(b, pos, le32(0u32)) {
        lemma_le32_round(b, pos, 0u32);
        assert((0u32 as i32) == 0) by (bit_vector);
        assert(dec_list(s, b, pos + 4, 0nat) == Some((Seq::<GValue>::empty(), pos + 4)));
    }
}

} // verus!
