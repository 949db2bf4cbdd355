use fsharp_gen::codec::{decode, encode};
use fsharp_gen::name::Name;
use fsharp_gen::schema::{Field, Schema, StructDef};
use fsharp_gen::value::Value;

fn name(parts: &[&str]) -> Name {
    Name::new(parts.iter().map(|p| p.to_string()).collect())
}

fn field(n: &[&str], s: Schema) -> Field {
    Field { name: name(n), schema: Box::new(s) }
}

fn enc_bytes(schema: &Schema, v: &Value) -> Vec<u8> {
    let mut out: Vec<u8> = Vec::new();
    encode(schema, v, &mut out);
    out
}

fn point_schema() -> Schema {
    Schema::Struct(StructDef {
        magic: None,
        name: name(&["point"]),
        fields: vec![field(&["x"], Schema::Int32), field(&["y"], Schema::Int32)],
    })
}

#[test]
fn point_encodes_to_exactly_eight_bytes_x_then_y() {
    let schema = point_schema();
    let v = Value::VStruct(vec![Value::VInt32(1), Value::VInt32(-2)]);
    let bytes = enc_bytes(&schema, &v);
    assert_eq!(bytes.len(), 8);
    assert_eq!(bytes, vec![1, 0, 0, 0, 254, 255, 255, 255]);
    let (back, end) = decode(&schema, &bytes, 0).unwrap();
    assert_eq!(end, 8);
    assert_eq!(back, v);
}

#[test]
fn enum_wire_value_equals_declaration_order_index() {
    let schema = Schema::Enum {
        base_name: name(&["color"]),
        variants: vec![name(&["a"]), name(&["b"]), name(&["c"])],
    };
    let bytes = enc_bytes(&schema, &Value::VEnum(1));
    assert_eq!(bytes, vec![1, 0, 0, 0]);
    let (back, end) = decode(&schema, &bytes, 0).unwrap();
    assert_eq!((back, end), (Value::VEnum(1), 4));
}

#[test]
fn union_reader_accepts_declared_discriminants_only() {
    let schema = Schema::OneOf {
        base_name: name(&["shape"]),
        variants: vec![
            StructDef { magic: None, name: name(&["dot"]), fields: vec![] },
            StructDef {
                magic: None,
                name: name(&["circle"]),
                fields: vec![field(&["radius"], Schema::Int32)],
            },
        ],
    };
    let v = Value::VOneOf(1, vec![Value::VInt32(7)]);
    let bytes = enc_bytes(&schema, &v);
    assert_eq!(bytes, vec![1, 0, 0, 0, 7, 0, 0, 0]);
    let (back, end) = decode(&schema, &bytes, 0).unwrap();
    assert_eq!(end, 8);
    assert_eq!(back, v);

    assert_eq!(decode(&schema, &vec![2, 0, 0, 0], 0), None);
    assert_eq!(decode(&schema, &vec![255, 255, 255, 255], 0), None);
    let zero = decode(&schema, &vec![0, 0, 0, 0], 0).unwrap();
    assert_eq!(zero, (Value::VOneOf(0, vec![]), 4));
}

#[test]
fn empty_struct_has_empty_encoding_and_consumes_nothing() {
    let schema = Schema::Struct(StructDef { magic: None, name: name(&["unit"]), fields: vec![] });
    let v = Value::VStruct(vec![]);
    let bytes = enc_bytes(&schema, &v);
    assert_eq!(bytes.len(), 0);
    let (back, end) = decode(&schema, &vec![9, 9, 9], 0).unwrap();
    assert_eq!(end, 0);
    assert_eq!(back, v);
}

#[test]
fn multi_byte_string_round_trips_with_exact_byte_count() {
    let schema = Schema::Str;
    let text = "héllo wörld é";
    let data = text.as_bytes().to_vec();
    let byte_count = data.len();
    assert!(byte_count > text.chars().count());
    let v = Value::VStr(data.clone());
    let bytes = enc_bytes(&schema, &v);
    assert_eq!(bytes.len(), 4 + byte_count);
    assert_eq!(bytes[0] as usize, byte_count);
    assert_eq!(&bytes[4..], &data[..]);
    let (back, end) = decode(&schema, &bytes, 0).unwrap();
    assert_eq!(end, 4 + byte_count);
    assert_eq!(back, v);
}

#[test]
fn empty_sequence_writes_four_byte_zero_count_and_reads_nothing_more() {
    let schema = Schema::Sequence(Box::new(Schema::Int32));
    let v = Value::VSequence(vec![]);
    let bytes = enc_bytes(&schema, &v);
    assert_eq!(bytes, vec![0, 0, 0, 0]);
    let mut with_extra = bytes.clone();
    with_extra.push(99);
    let (back, end) = decode(&schema, &with_extra, 0).unwrap();
    assert_eq!(end, 4);
    assert_eq!(back, v);
}

#[test]
fn nested_value_round_trips() {
    let schema = Schema::Struct(StructDef {
        magic: None,
        name: name(&["state"]),
        fields: vec![
            field(&["alive"], Schema::Bool),
            field(&["ticks"], Schema::Int64),
            field(&["ratio"], Schema::Float32),
            field(&["precise"], Schema::Float64),
            field(&["nick"], Schema::Optional(Box::new(Schema::Str))),
            field(&["scores"], Schema::Sequence(Box::new(Schema::Int32))),
            field(
                &["tags"],
                Schema::Mapping(Box::new(Schema::Str), Box::new(Schema::Bool)),
            ),
        ],
    });
    let v = Value::VStruct(vec![
        Value::VBool(true),
        Value::VInt64(-123456789012345),
        Value::VFloat32(0x3f800000),
        Value::VFloat64(0x400921fb54442d18),
        Value::VOptional(Some(Box::new(Value::VStr(b"zed".to_vec())))),
        Value::VSequence(vec![Value::VInt32(3), Value::VInt32(-1), Value::VInt32(0)]),
        Value::VMapping(vec![
            (Value::VStr(b"x".to_vec()), Value::VBool(false)),
            (Value::VStr(b"y".to_vec()), Value::VBool(true)),
        ]),
    ]);
    let bytes = enc_bytes(&schema, &v);
    let (back, end) = decode(&schema, &bytes, 0).unwrap();
    assert_eq!(end, bytes.len());
    assert_eq!(back, v);
}

#[test]
fn absent_option_is_one_zero_byte() {
    let schema = Schema::Optional(Box::new(Schema::Int32));
    let v = Value::VOptional(None);
    let bytes = enc_bytes(&schema, &v);
    assert_eq!(bytes, vec![0]);
    let (back, end) = decode(&schema, &bytes, 0).unwrap();
    assert_eq!(end, 1);
    assert_eq!(back, v);
}

#[test]
fn truncated_input_is_rejected() {
    let schema = point_schema();
    assert_eq!(decode(&schema, &vec![1, 0, 0, 0, 2], 0), None);
    assert_eq!(decode(&Schema::Str, &vec![5, 0, 0, 0, b'a'], 0), None);
}
