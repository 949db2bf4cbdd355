use fsharp_gen::emitter::Writer;
use fsharp_gen::gen::Generator;
use fsharp_gen::name::{conv, render_name, replace_all, Name};
use fsharp_gen::schema::{Field, Schema, StructDef};
use fsharp_gen::decl::{type_expr, write_struct};
use fsharp_gen::textutil::{i32_to_string, u64_to_string, var_name};

fn name(parts: &[&str]) -> Name {
    Name::new(parts.iter().map(|p| p.to_string()).collect())
}

fn field(n: &[&str], s: Schema) -> Field {
    Field { name: name(n), schema: Box::new(s) }
}

#[test]
fn writer_indents_four_spaces_per_level() {
    let mut w = Writer::new();
    w.write_line("a");
    w.inc_ident();
    w.write_line("b");
    w.inc_ident();
    w.write_line("c");
    w.dec_ident();
    w.dec_ident();
    w.write_line("d");
    assert_eq!(w.get(), "a\n    b\n        c\nd\n");
}

#[test]
fn writer_leaves_empty_lines_unindented() {
    let mut w = Writer::new();
    w.inc_ident();
    w.write_line("a");
    w.write_line("");
    w.write_line("b");
    w.dec_ident();
    assert_eq!(w.get(), "    a\n\n    b\n");
}

#[test]
fn writer_continues_partial_lines_without_indent() {
    let mut w = Writer::new();
    w.inc_ident();
    w.write("x = ");
    w.write_line("1");
    w.dec_ident();
    assert_eq!(w.get(), "    x = 1\n");
}

#[test]
fn camel_case_concatenates_capitalized_parts() {
    assert_eq!(name(&["max", "health"]).camel_case(), "MaxHealth");
    assert_eq!(name(&["point"]).camel_case(), "Point");
}

#[test]
fn conv_substitutes_primitive_suffixes() {
    assert_eq!(conv("MaxInt32"), "MaxInt");
    assert_eq!(conv("DelayInt64"), "DelayLong");
    assert_eq!(conv("RatioFloat32"), "RatioSingle");
    assert_eq!(conv("RatioFloat64"), "RatioDouble");
    assert_eq!(conv("GameParams"), "GameParameters");
    assert_eq!(conv("Plain"), "Plain");
}

#[test]
fn render_name_applies_table_after_camel_casing() {
    assert_eq!(render_name(&name(&["max", "int32"])), "MaxInt");
    assert_eq!(render_name(&name(&["params"])), "Parameters");
}

#[test]
fn replace_all_is_left_to_right_and_non_overlapping() {
    assert_eq!(replace_all("aaa", "aa", "b"), "ba");
    assert_eq!(replace_all("xyx", "y", "yy"), "xyyx");
    assert_eq!(replace_all("none", "zz", "q"), "none");
}

#[test]
fn type_names_follow_the_fsharp_backend() {
    assert_eq!(type_expr(&Schema::Bool), "bool");
    assert_eq!(type_expr(&Schema::Int32), "int");
    assert_eq!(type_expr(&Schema::Int64), "long");
    assert_eq!(type_expr(&Schema::Float32), "single");
    assert_eq!(type_expr(&Schema::Float64), "double");
    assert_eq!(type_expr(&Schema::Str), "string");
    assert_eq!(type_expr(&Schema::Sequence(Box::new(Schema::Int32))), "int[]");
    assert_eq!(
        type_expr(&Schema::Sequence(Box::new(Schema::Sequence(Box::new(Schema::Str))))),
        "string[][]"
    );
    assert_eq!(type_expr(&Schema::Optional(Box::new(Schema::Int64))), "option<long>");
    assert_eq!(
        type_expr(&Schema::Mapping(Box::new(Schema::Str), Box::new(Schema::Int32))),
        "Map<string, int>"
    );
}

#[test]
fn var_name_takes_the_suffix_after_the_last_dot() {
    assert_eq!(var_name("this.fooBar"), "fooBar");
    assert_eq!(var_name("value"), "value");
    assert_eq!(var_name("a.b.c"), "c");
}

#[test]
fn decimal_rendering() {
    assert_eq!(u64_to_string(0), "0");
    assert_eq!(u64_to_string(90210), "90210");
    assert_eq!(i32_to_string(-17), "-17");
    assert_eq!(i32_to_string(2147483647), "2147483647");
    assert_eq!(i32_to_string(-2147483648), "-2147483648");
}

#[test]
fn point_declaration_has_two_int_fields_in_order() {
    let mut g = Generator::new("codegame", "1.0");
    let point = Schema::Struct(StructDef {
        magic: None,
        name: name(&["point"]),
        fields: vec![field(&["x"], Schema::Int32), field(&["y"], Schema::Int32)],
    });
    g.add_only(&point);
    let files = g.result();
    assert_eq!(files.len(), 1);
    assert_eq!(files[0].0, "Model/Point.fs");
    let expected = [
        "#nowarn \"0058\"",
        "namespace Codegame.Model",
        "type Point = {",
        "    X: int;",
        "    Y: int;",
        "    } with",
        "    member this.writeTo(writer: System.IO.BinaryWriter) =",
        "        writer.Write this.X",
        "        writer.Write this.Y",
        "    static member readFrom(reader: System.IO.BinaryReader) = {",
        "        X = reader.ReadInt32()",
        "        Y = reader.ReadInt32()",
        "    }",
        "",
    ]
    .join("\n");
    assert_eq!(files[0].1, expected);
}

#[test]
fn empty_struct_emits_unit_declaration() {
    let mut w = Writer::new();
    let empty = StructDef { magic: None, name: name(&["nothing"]), fields: vec![] };
    write_struct(&mut w, &empty, None);
    let text = w.get();
    assert!(text.starts_with("type Nothing = struct end with\n"));
    assert!(text.contains("static member readFrom(reader: System.IO.BinaryReader) = new Nothing()\n"));
}

#[test]
fn magic_is_written_but_never_read() {
    let mut w = Writer::new();
    let with_magic = StructDef {
        magic: Some(-559038737),
        name: name(&["header"]),
        fields: vec![field(&["size"], Schema::Int32)],
    };
    write_struct(&mut w, &with_magic, None);
    let text = w.get();
    assert!(text.contains("writer.Write -559038737\n"));
    let read_part = text.split("readFrom").nth(1).unwrap();
    assert!(!read_part.contains("-559038737"));
}

#[test]
fn enum_members_carry_their_position() {
    let mut g = Generator::new("codegame", "1.0");
    let color = Schema::Enum {
        base_name: name(&["color"]),
        variants: vec![name(&["red"]), name(&["green"]), name(&["blue"])],
    };
    g.add_only(&color);
    let files = g.result();
    assert_eq!(files.len(), 1);
    assert_eq!(files[0].0, "Model/Color.fs");
    let expected = [
        "#nowarn \"0058\"",
        "namespace Codegame.Model",
        "type Color =",
        "    | Red = 0",
        "    | Green = 1",
        "    | Blue = 2",
        "",
    ]
    .join("\n");
    assert_eq!(files[0].1, expected);
}

#[test]
fn union_reader_dispatches_and_rejects_loudly() {
    let mut g = Generator::new("codegame", "1.0");
    let shape = Schema::OneOf {
        base_name: name(&["shape"]),
        variants: vec![
            StructDef { magic: None, name: name(&["dot"]), fields: vec![] },
            StructDef {
                magic: None,
                name: name(&["circle"]),
                fields: vec![field(&["radius"], Schema::Int32)],
            },
        ],
    };
    g.add_only(&shape);
    let files = g.result();
    assert_eq!(files[0].0, "Model/Shape.fs");
    let text = &files[0].1;
    assert!(text.contains("type Shape = \n"));
    assert!(text.contains("| Dot of ShapeDot\n"));
    assert!(text.contains("| Circle of ShapeCircle\n"));
    assert!(text.contains("| 0 -> Dot (ShapeDot.readFrom reader)\n"));
    assert!(text.contains("| 1 -> Circle (ShapeCircle.readFrom reader)\n"));
    assert!(text.contains("| x -> failwith (sprintf \"Unexpected CustomDataType %d\" x)\n"));
    let writes = text.matches("writer.Write 0\n").count() + text.matches("writer.Write 1\n").count();
    assert_eq!(writes, 2);
}

#[test]
fn primitive_and_container_nodes_add_no_file() {
    let mut g = Generator::new("codegame", "1.0");
    g.add_only(&Schema::Bool);
    g.add_only(&Schema::Str);
    g.add_only(&Schema::Sequence(Box::new(Schema::Int32)));
    g.add_only(&Schema::Mapping(Box::new(Schema::Str), Box::new(Schema::Int32)));
    g.add_only(&Schema::Optional(Box::new(Schema::Bool)));
    assert_eq!(g.result().len(), 0);
}

#[test]
fn namespace_splits_underscores_into_camel_case() {
    let mut g = Generator::new("my_game", "1.0");
    let color = Schema::Enum {
        base_name: name(&["suit"]),
        variants: vec![name(&["hearts"])],
    };
    g.add_only(&color);
    let files = g.result();
    assert!(files[0].1.contains("namespace MyGame.Model\n"));
}

#[test]
fn union_file_matches_expected_text() {
    let mut g = Generator::new("codegame", "1.0");
    let shape = Schema::OneOf {
        base_name: name(&["shape"]),
        variants: vec![
            StructDef { magic: None, name: name(&["dot"]), fields: vec![] },
            StructDef {
                magic: None,
                name: name(&["circle"]),
                fields: vec![field(&["radius"], Schema::Int32)],
            },
        ],
    };
    g.add_only(&shape);
    let files = g.result();
    let expected = [
        "#nowarn \"0058\"",
        "namespace Codegame.Model",
        "",
        "type ShapeDot = struct end with",
        "    member this.writeTo(writer: System.IO.BinaryWriter) =",
        "        writer.Write 0",
        "    static member readFrom(reader: System.IO.BinaryReader) = new ShapeDot()",
        "",
        "type ShapeCircle = {",
        "    Radius: int;",
        "    } with",
        "    member this.writeTo(writer: System.IO.BinaryWriter) =",
        "        writer.Write 1",
        "        writer.Write this.Radius",
        "    static member readFrom(reader: System.IO.BinaryReader) = {",
        "        Radius = reader.ReadInt32()",
        "    }",
        "type Shape = ",
        "    | Dot of ShapeDot",
        "    | Circle of ShapeCircle",
        "    with",
        "    member this.writeTo(writer: System.IO.BinaryWriter) =",
        "        match this with",
        "            | Dot value -> value.writeTo writer",
        "            | Circle value -> value.writeTo writer",
        "    static member readFrom(reader: System.IO.BinaryReader) =",
        "        match reader.ReadInt32() with",
        "            | 0 -> Dot (ShapeDot.readFrom reader)",
        "            | 1 -> Circle (ShapeCircle.readFrom reader)",
        "            | x -> failwith (sprintf \"Unexpected CustomDataType %d\" x)",
        "",
    ]
    .join("\n");
    assert_eq!(files[0].1, expected);
}
