//! The type-declaration and codec emitters: for a schema node they
//! render the F# type expression, and for a struct (plain or as a
//! tagged-union variant) the full declaration with its binary writer
//! and reader members.
//!
//! Every emitting function's contract states the exact text it appends
//! through the spec mirrors below, which compose `emit_text` /
//! `emitted_line` applications in emission order.

use vstd::prelude::*;
use crate::emitter::{emit_text, emitted_line, Writer};
use crate::name::{fs_name, render_name, Name};
use crate::schema::{fields_depth, sdepth, Field, Schema, StructDef};
use crate::textutil::{after_last_dot, dec_seq, int_dec_seq, i32_to_string, u64_to_string, var_name};

verus! {

/// The F# type expression of a schema node.
pub open spec fn type_name_spec(s: Schema) -> Seq<char>
    decreases s, 1nat,
{
    type_name_prearray_spec(s) + type_post_array_spec(s)
}

/// The part of the type expression before any array suffixes.
pub open spec fn type_name_prearray_spec(s: Schema) -> Seq<char>
    decreases s, 0nat,
{
    match s {
        Schema::Bool => "bool"@,
        Schema::Int32 => "int"@,
        Schema::Int64 => "long"@,
        Schema::Float32 => "single"@,
        Schema::Float64 => "double"@,
        Schema::Str => "string"@,
        Schema::Struct(sd) => fs_name(sd.name.parts_view()),
        Schema::OneOf { base_name, .. } => fs_name(base_name.parts_view()),
        Schema::Enum { base_name, .. } => fs_name(base_name.parts_view()),
        Schema::Optional(inner) => ("option<"@ + type_name_spec(*inner)) + ">"@,
        Schema::Sequence(inner) => type_name_prearray_spec(*inner),
        Schema::Mapping(key, value) => ((("Map<"@ + type_name_spec(*key)) + ", "@)
            + type_name_spec(*value)) + ">"@,
    }
}

/// One `[]` suffix per level of sequence nesting.
pub open spec fn type_post_array_spec(s: Schema) -> Seq<char>
    decreases s, 0nat,
{
    match s {
        Schema::Sequence(inner) => "[]"@ + type_post_array_spec(*inner),
        _ => Seq::empty(),
    }
}

pub fn type_expr(schema: &Schema) -> (r: String)
    ensures
        r@ == type_name_spec(*schema),
    decreases *schema, 1nat,
{
    let pre = type_name_prearray(schema);
    pre.concat(type_post_array(schema).as_str())
}

pub fn type_name_prearray(schema: &Schema) -> (r: String)
    ensures
        r@ == type_name_prearray_spec(*schema),
    decreases *schema, 0nat,
{
    match schema {
        Schema::Bool => String::from_str("bool"),
        Schema::Int32 => String::from_str("int"),
        Schema::Int64 => String::from_str("long"),
        Schema::Float32 => String::from_str("single"),
        Schema::Float64 => String::from_str("double"),
        Schema::Str => String::from_str("string"),
        Schema::Struct(sd) => render_name(&sd.name),
        Schema::OneOf { base_name, .. } => render_name(base_name),
        Schema::Enum { base_name, .. } => render_name(base_name),
        Schema::Optional(inner) => String::from_str("option<").concat(
            type_expr(&**inner).as_str(),
        ).concat(">"),
        Schema::Sequence(inner) => type_name_prearray(&**inner),
        Schema::Mapping(key, value) => String::from_str("Map<").concat(
            type_expr(&**key).as_str(),
        ).concat(", ").concat(type_expr(&**value).as_str()).concat(">"),
    }
}

pub fn type_post_array(schema: &Schema) -> (r: String)
    ensures
        r@ == type_post_array_spec(*schema),
    decreases *schema, 0nat,
{
    match schema {
        Schema::Sequence(inner) => String::from_str("[]").concat(
            type_post_array(&**inner).as_str(),
        ),
        _ => String::new(),
    }
}

/// The statements that write a value denoted by `value` under schema
/// `s`, emitted at indentation `ind` into buffer `t`.
pub open spec fn write_code_text(t: Seq<char>, ind: nat, value: Seq<char>, s: Schema) -> Seq<char>
    decreases s,
{
    match s {
        Schema::Bool | Schema::Int32 | Schema::Int64 | Schema::Float32 | Schema::Float64 => {
            emitted_line(t, ind, "writer.Write "@ + value)
        },
        Schema::Str => {
            let dv = after_last_dot(value) + "Data"@;
            let t1 = emitted_line(
                t,
                ind,
                (("let "@ + dv) + " : byte[] = System.Text.Encoding.UTF8.GetBytes "@) + value,
            );
            let t2 = emitted_line(t1, ind, ("writer.Write "@ + dv) + ".Length"@);
            emitted_line(t2, ind, "writer.Write "@ + dv)
        },
        Schema::Struct(_) | Schema::OneOf { .. } => {
            emitted_line(t, ind, value + ".writeTo writer"@)
        },
        Schema::Optional(inner) => {
            let t1 = emitted_line(t, ind, ("match "@ + value) + " with"@);
            let t2 = emitted_line(t1, (ind + 1) as nat, "| Some value ->"@);
            let t3 = emitted_line(t2, (ind + 2) as nat, "writer.Write true"@);
            let t4 = write_code_text(t3, (ind + 2) as nat, "value"@, *inner);
            emitted_line(t4, (ind + 1) as nat, "| None -> writer.Write false"@)
        },
        Schema::Sequence(inner) => {
            let t1 = emitted_line(t, ind, ("writer.Write "@ + value) + ".Length"@);
            let t2 = emitted_line(t1, ind, value + " |> Array.iter (fun value ->"@);
            let t3 = write_code_text(t2, (ind + 1) as nat, "value"@, *inner);
            emitted_line(t3, ind, ")"@)
        },
        Schema::Mapping(key, val) => {
            let t1 = emitted_line(t, ind, ("writer.Write "@ + value) + ".Count"@);
            let t2 = emitted_line(t1, ind, value + " |> Map.iter (fun key value ->"@);
            let t3 = write_code_text(t2, (ind + 1) as nat, "key"@, *key);
            let t4 = write_code_text(t3, (ind + 1) as nat, "value"@, *val);
            emitted_line(t4, ind, ")"@)
        },
        Schema::Enum { .. } => {
            emitted_line(t, ind, ("writer.Write (int "@ + value) + ")"@)
        },
    }
}

/// The expression lines that read a value of schema `s` back, emitted
/// at indentation `ind` into buffer `t`.
pub open spec fn read_code_text(t: Seq<char>, ind: nat, s: Schema) -> Seq<char>
    decreases s,
{
    match s {
        Schema::Bool => emitted_line(t, ind, "reader.ReadBoolean()"@),
        Schema::Int32 => emitted_line(t, ind, "reader.ReadInt32()"@),
        Schema::Int64 => emitted_line(t, ind, "reader.ReadInt64()"@),
        Schema::Float32 => emitted_line(t, ind, "reader.ReadSingle()"@),
        Schema::Float64 => emitted_line(t, ind, "reader.ReadDouble()"@),
        Schema::Str => emitted_line(
            t,
            ind,
            "reader.ReadInt32() |> reader.ReadBytes |> System.Text.Encoding.UTF8.GetString"@,
        ),
        Schema::Struct(sd) => emitted_line(
            t,
            ind,
            fs_name(sd.name.parts_view()) + ".readFrom reader"@,
        ),
        Schema::OneOf { base_name, .. } => emitted_line(
            t,
            ind,
            fs_name(base_name.parts_view()) + ".readFrom reader"@,
        ),
        Schema::Optional(inner) => {
            let t1 = emitted_line(t, ind, "match reader.ReadBoolean() with"@);
            let t2 = emitted_line(t1, (ind + 1) as nat, "| true ->"@);
            let t3 = emitted_line(t2, (ind + 2) as nat, "Some("@);
            let t4 = read_code_text(t3, (ind + 3) as nat, *inner);
            let t5 = emitted_line(t4, (ind + 3) as nat, ")"@);
            emitted_line(t5, (ind + 1) as nat, "| false -> None"@)
        },
        Schema::Sequence(inner) => {
            let t1 = emitted_line(t, ind, "[|for _ in 1 .. reader.ReadInt32() do"@);
            let t2 = emit_text(t1, (ind + 1) as nat, "yield "@);
            let t3 = read_code_text(t2, (ind + 1) as nat, *inner);
            emitted_line(t3, ind, "|]"@)
        },
        Schema::Mapping(key, val) => {
            let t1 = emitted_line(t, ind, "[for _ in 1 .. reader.ReadInt32() do"@);
            let t2 = emit_text(t1, (ind + 1) as nat, "let key = "@);
            let t3 = read_code_text(t2, (ind + 1) as nat, *key);
            let t4 = emit_text(t3, (ind + 1) as nat, "let value = "@);
            let t5 = read_code_text(t4, (ind + 1) as nat, *val);
            let t6 = emitted_line(t5, (ind + 1) as nat, "yield (key, value)"@);
            emitted_line(t6, (ind + 1) as nat, "] |> Map.ofList"@)
        },
        Schema::Enum { .. } => emitted_line(t, ind, "reader.ReadInt32() |> enum"@),
    }
}

/// Emit the write statements for `value` under `schema`.
pub fn write_code(w: &mut Writer, value: &str, schema: &Schema)
    requires
        old(w).indent() + sdepth(*schema) <= usize::MAX,
    ensures
        final(w).indent() == old(w).indent(),
        final(w).text() == write_code_text(old(w).text(), old(w).indent(), value@, *schema),
    decreases *schema,
{
    match schema {
        Schema::Bool | Schema::Int32 | Schema::Int64 | Schema::Float32 | Schema::Float64 => {
            let line = String::from_str("writer.Write ").concat(value);
            w.write_line(line.as_str());
        },
        Schema::Str => {
            let dv = String::from_str(var_name(value)).concat("Data");
            let l1 = String::from_str("let ").concat(dv.as_str()).concat(
                " : byte[] = System.Text.Encoding.UTF8.GetBytes ",
            ).concat(value);
            w.write_line(l1.as_str());
            let l2 = String::from_str("writer.Write ").concat(dv.as_str()).concat(".Length");
            w.write_line(l2.as_str());
            let l3 = String::from_str("writer.Write ").concat(dv.as_str());
            w.write_line(l3.as_str());
        },
        Schema::Struct(_) | Schema::OneOf { .. } => {
            let line = String::from_str(value).concat(".writeTo writer");
            w.write_line(line.as_str());
        },
        Schema::Optional(inner) => {
            let line = String::from_str("match ").concat(value).concat(" with");
            w.write_line(line.as_str());
            w.inc_ident();
            w.write_line("| Some value ->");
            w.inc_ident();
            w.write_line("writer.Write true");
            write_code(w, "value", &**inner);
            w.dec_ident();
            w.write_line("| None -> writer.Write false");
            w.dec_ident();
        },
        Schema::Sequence(inner) => {
            let l1 = String::from_str("writer.Write ").concat(value).concat(".Length");
            w.write_line(l1.as_str());
            let l2 = String::from_str(value).concat(" |> Array.iter (fun value ->");
            w.write_line(l2.as_str());
            w.inc_ident();
            write_code(w, "value", &**inner);
            w.dec_ident();
            w.write_line(")");
        },
        Schema::Mapping(key, val) => {
            let l1 = String::from_str("writer.Write ").concat(value).concat(".Count");
            w.write_line(l1.as_str());
            let l2 = String::from_str(value).concat(" |> Map.iter (fun key value ->");
            w.write_line(l2.as_str());
            w.inc_ident();
            write_code(w, "key", &**key);
            write_code(w, "value", &**val);
            w.dec_ident();
            w.write_line(")");
        },
        Schema::Enum { .. } => {
            let line = String::from_str("writer.Write (int ").concat(value).concat(")");
            w.write_line(line.as_str());
        },
    }
}

/// Emit the read expression for `schema`.
pub fn read_code(w: &mut Writer, schema: &Schema)
    requires
        old(w).indent() + sdepth(*schema) <= usize::MAX,
    ensures
        final(w).indent() == old(w).indent(),
        final(w).text() == read_code_text(old(w).text(), old(w).indent(), *schema),
    decreases *schema,
{
    match schema {
        Schema::Bool => w.write_line("reader.ReadBoolean()"),
        Schema::Int32 => w.write_line("reader.ReadInt32()"),
        Schema::Int64 => w.write_line("reader.ReadInt64()"),
        Schema::Float32 => w.write_line("reader.ReadSingle()"),
        Schema::Float64 => w.write_line("reader.ReadDouble()"),
        Schema::Str => w.write_line(
            "reader.ReadInt32() |> reader.ReadBytes |> System.Text.Encoding.UTF8.GetString",
        ),
        Schema::Struct(sd) => {
            let line = render_name(&sd.name).concat(".readFrom reader");
            w.write_line(line.as_str());
        },
        Schema::OneOf { base_name, .. } => {
            let line = render_name(base_name).concat(".readFrom reader");
            w.write_line(line.as_str());
        },
        Schema::Optional(inner) => {
            w.write_line("match reader.ReadBoolean() with");
            w.inc_ident();
            w.write_line("| true ->");
            w.inc_ident();
            w.write_line("Some(");
            w.inc_ident();
            read_code(w, &**inner);
            w.write_line(")");
            w.dec_ident();
            w.dec_ident();
            w.write_line("| false -> None");
            w.dec_ident();
        },
        Schema::Sequence(inner) => {
            w.write_line("[|for _ in 1 .. reader.ReadInt32() do");
            w.inc_ident();
            w.write("yield ");
            read_code(w, &**inner);
            w.dec_ident();
            w.write_line("|]");
        },
        Schema::Mapping(key, val) => {
            w.write_line("[for _ in 1 .. reader.ReadInt32() do");
            w.inc_ident();
            w.write("let key = ");
            read_code(w, &**key);
            w.write("let value = ");
            read_code(w, &**val);
            w.write_line("yield (key, value)");
            w.write_line("] |> Map.ofList");
            w.dec_ident();
        },
        Schema::Enum { .. } => w.write_line("reader.ReadInt32() |> enum"),
    }
}

} // verus!

verus! {

/// The identifier of a struct declaration: the union base name glued
/// to the variant name when the struct is a variant payload, the
/// struct's own name otherwise.
pub open spec fn struc_name_of(struc: StructDef, base: Option<(Seq<Seq<char>>, nat)>) -> Seq<
    char,
> {
    match base {
        Some(b) => fs_name(b.0) + fs_name(struc.name.parts_view()),
        None => fs_name(struc.name.parts_view()),
    }
}

/// The field declaration lines, one `name: type;` per field.
pub open spec fn decl_fields_text(t: Seq<char>, ind: nat, fields: Seq<Field>, i: int) -> Seq<char>
    decreases fields.len() - i,
{
    if i < 0 || i >= fields.len() {
        t
    } else {
        let line = ((fs_name(fields[i].name.parts_view()) + ": "@) + type_name_spec(
            *fields[i].schema,
        )) + ";"@;
        decl_fields_text(emitted_line(t, ind, line), ind, fields, i + 1)
    }
}

/// The write statements of all fields, in declared order.
pub open spec fn wfields_text(t: Seq<char>, ind: nat, fields: Seq<Field>, i: int) -> Seq<char>
    decreases fields.len() - i,
{
    if i < 0 || i >= fields.len() {
        t
    } else {
        let t1 = write_code_text(
            t,
            ind,
            "this."@ + fs_name(fields[i].name.parts_view()),
            *fields[i].schema,
        );
        wfields_text(t1, ind, fields, i + 1)
    }
}

/// The read bindings of all fields, in declared order: `name = ` and
/// then the read expression.
pub open spec fn rfields_text(t: Seq<char>, ind: nat, fields: Seq<Field>, i: int) -> Seq<char>
    decreases fields.len() - i,
{
    if i < 0 || i >= fields.len() {
        t
    } else {
        let t1 = emit_text(t, ind, fs_name(fields[i].name.parts_view()) + " = "@);
        let t2 = read_code_text(t1, ind, *fields[i].schema);
        rfields_text(t2, ind, fields, i + 1)
    }
}

/// The full declaration of a struct: the record (or empty-struct)
/// declaration, the binary writer member (discriminant, then magic,
/// then the fields in order), and the reader member (the fields in
/// order; a magic sentinel is never read back).
pub open spec fn write_struct_text(
    t: Seq<char>,
    ind: nat,
    struc: StructDef,
    base: Option<(Seq<Seq<char>>, nat)>,
) -> Seq<char> {
    let sname = struc_name_of(struc, base);
    let fields = struc.fields@;
    let t1 = if fields.len() == 0 {
        emitted_line(t, ind, ("type "@ + sname) + " = struct end with"@)
    } else {
        let ta = emitted_line(t, ind, ("type "@ + sname) + " = {"@);
        let tb = decl_fields_text(ta, (ind + 1) as nat, fields, 0);
        emitted_line(tb, (ind + 1) as nat, "} with"@)
    };
    let t2 = emitted_line(
        t1,
        (ind + 1) as nat,
        "member this.writeTo(writer: System.IO.BinaryWriter) ="@,
    );
    let t3 = match base {
        Some(b) => emitted_line(t2, (ind + 2) as nat, "writer.Write "@ + dec_seq(b.1)),
        None => t2,
    };
    let t4 = match struc.magic {
        Some(m) => emitted_line(t3, (ind + 2) as nat, "writer.Write "@ + int_dec_seq(m as int)),
        None => t3,
    };
    let t5 = wfields_text(t4, (ind + 2) as nat, fields, 0);
    if fields.len() == 0 {
        emitted_line(
            t5,
            (ind + 1) as nat,
            ("static member readFrom(reader: System.IO.BinaryReader) = new "@ + sname) + "()"@,
        )
    } else {
        let tc = emitted_line(
            t5,
            (ind + 1) as nat,
            "static member readFrom(reader: System.IO.BinaryReader) = {"@,
        );
        let td = rfields_text(tc, (ind + 2) as nat, fields, 0);
        emitted_line(td, (ind + 1) as nat, "}"@)
    }
}

/// Every field's codec depth is bounded by the maximum over the list.
proof fn lemma_fields_depth_bound(fields: Seq<Field>, i: int)
    requires
        0 <= i < fields.len(),
    ensures
        sdepth(*fields[i].schema) <= fields_depth(fields),
    decreases fields.len(),
{
    if i == 0 {
    } else {
        lemma_fields_depth_bound(fields.drop_first(), i - 1);
    }
}

/// Emit the full declaration of `struc`, as a variant payload of a
/// tagged union when `base` carries the union's name and the variant's
/// discriminant.
pub fn write_struct(w: &mut Writer, struc: &StructDef, base: Option<(&Name, usize)>)
    requires
        old(w).indent() + 2 + fields_depth(struc.fields@) <= usize::MAX,
    ensures
        final(w).indent() == old(w).indent(),
        final(w).text() == write_struct_text(
            old(w).text(),
            old(w).indent(),
            *struc,
            (match base {
                Some((b, d)) => Some((b.parts_view(), d as nat)),
                None => None,
            }),
        ),
{
    let ghost ind = w.indent();
    let ghost fields = struc.fields@;
    let struc_name: String = match base {
        Some((b, _)) => render_name(b).concat(render_name(&struc.name).as_str()),
        None => render_name(&struc.name),
    };

    if struc.fields.len() == 0 {
        let line = String::from_str("type ").concat(struc_name.as_str()).concat(
            " = struct end with",
        );
        w.write_line(line.as_str());
        w.inc_ident();
    } else {
        let line = String::from_str("type ").concat(struc_name.as_str()).concat(" = {");
        w.write_line(line.as_str());
        w.inc_ident();
        let ghost ta = w.text();
        let mut i: usize = 0;
        while i < struc.fields.len()
            invariant
                i <= fields.len(),
                fields == struc.fields@,
                w.indent() == ind + 1,
                decl_fields_text(ta, (ind + 1) as nat, fields, 0) == decl_fields_text(
                    w.text(),
                    (ind + 1) as nat,
                    fields,
                    i as int,
                ),
            decreases fields.len() - i,
        {
            let f = &struc.fields[i];
            let line = render_name(&f.name).concat(": ").concat(type_expr(&f.schema).as_str())
                .concat(";");
            w.write_line(line.as_str());
            i = i + 1;
        }
        w.write_line("} with");
    }

    // Writing
    w.write_line("member this.writeTo(writer: System.IO.BinaryWriter) =");
    w.inc_ident();
    match base {
        Some((_, discriminant)) => {
            let digits = u64_to_string(discriminant as u64);
            let line = String::from_str("writer.Write ").concat(digits.as_str());
            w.write_line(line.as_str());
        },
        None => {},
    }
    match struc.magic {
        Some(magic) => {
            let digits = i32_to_string(magic);
            let line = String::from_str("writer.Write ").concat(digits.as_str());
            w.write_line(line.as_str());
        },
        None => {},
    }
    let ghost t4 = w.text();
    let mut i: usize = 0;
    while i < struc.fields.len()
        invariant
            i <= fields.len(),
            fields == struc.fields@,
            w.indent() == ind + 2,
            ind + 2 + fields_depth(fields) <= usize::MAX,
            wfields_text(t4, (ind + 2) as nat, fields, 0) == wfields_text(
                w.text(),
                (ind + 2) as nat,
                fields,
                i as int,
            ),
        decreases fields.len() - i,
    {
        let f = &struc.fields[i];
        proof {
            lemma_fields_depth_bound(fields, i as int);
        }
        let value = String::from_str("this.").concat(render_name(&f.name).as_str());
        write_code(w, value.as_str(), &f.schema);
        i = i + 1;
    }
    w.dec_ident();

    // Reading
    if struc.fields.len() == 0 {
        let line = String::from_str("static member readFrom(reader: System.IO.BinaryReader) = new ")
            .concat(struc_name.as_str()).concat("()");
        w.write_line(line.as_str());
    } else {
        w.write_line("static member readFrom(reader: System.IO.BinaryReader) = {");
        w.inc_ident();
        let ghost tc = w.text();
        let mut i: usize = 0;
        while i < struc.fields.len()
            invariant
                i <= fields.len(),
                fields == struc.fields@,
                w.indent() == ind + 2,
                ind + 2 + fields_depth(fields) <= usize::MAX,
                rfields_text(tc, (ind + 2) as nat, fields, 0) == rfields_text(
                    w.text(),
                    (ind + 2) as nat,
                    fields,
                    i as int,
                ),
            decreases fields.len() - i,
        {
            let f = &struc.fields[i];
            proof {
                lemma_fields_depth_bound(fields, i as int);
            }
            let lead = render_name(&f.name).concat(" = ");
            w.write(lead.as_str());
            read_code(w, &f.schema);
            i = i + 1;
        }
        w.dec_ident();
        w.write_line("}");
    }

    w.dec_ident();
}

} // verus!
