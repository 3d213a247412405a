use valence_derive::cursor::Cursor;
use valence_derive::decode::decode_scalar;
use valence_derive::derive::{
    derive_decode, derive_decode_packet, Data, DeriveError, DeriveInput, Fields, NamedField,
    Variant,
};
use valence_derive::error::{Context, DecodeError, ErrorKind, FieldName};
use valence_derive::schema::{
    Arm, Decoder, FieldType, PacketDecoder, Registry, SchemaError, Step,
};
use valence_derive::value::Value;

fn named(name: &str, ty: FieldType) -> NamedField {
    NamedField { ident: name.to_string(), ty }
}

fn declare_struct(name: &str, fields: Fields) -> DeriveInput {
    DeriveInput { ident: name.to_string(), lifetimes: 0, packet_id: None, data: Data::Struct(fields) }
}

fn declare_enum(name: &str, variants: Vec<Variant>) -> DeriveInput {
    DeriveInput { ident: name.to_string(), lifetimes: 0, packet_id: None, data: Data::Enum(variants) }
}

fn unit_variant(name: &str, tag: Option<i32>) -> Variant {
    Variant { ident: name.to_string(), tag, fields: Fields::Unit }
}

fn add(reg: &mut Registry, input: &DeriveInput) -> usize {
    let decoder = derive_decode(input).unwrap();
    reg.register(decoder).unwrap()
}

fn pair_of_bytes() -> DeriveInput {
    declare_struct(
        "Pair",
        Fields::Named(vec![named("a", FieldType::U8), named("b", FieldType::U8)]),
    )
}

fn ping_pong() -> DeriveInput {
    declare_enum("Message", vec![unit_variant("Ping", None), unit_variant("Pong", None)])
}

#[test]
fn struct_of_two_bytes_leaves_the_third() {
    let mut reg = Registry::new();
    let t = add(&mut reg, &pair_of_bytes());
    let bytes = [0x05, 0x09, 0xFF];
    let mut r = Cursor::new(&bytes);
    assert_eq!(reg.decode(t, &mut r), Ok(Value::Struct(vec![Value::U8(5), Value::U8(9)])));
    assert_eq!(r.remaining(), &[0xFF]);
}

#[test]
fn struct_consumes_the_sum_of_its_fields() {
    let mut reg = Registry::new();
    let t = add(
        &mut reg,
        &declare_struct(
            "Mixed",
            Fields::Unnamed(vec![
                FieldType::U16,
                FieldType::VarInt,
                FieldType::U32,
                FieldType::U64,
                FieldType::U8,
            ]),
        ),
    );
    let bytes = [
        0x12, 0x34, 0xAC, 0x02, 0xDE, 0xAD, 0xBE, 0xEF, 0x01, 0x02, 0x03, 0x04, 0x05, 0x06, 0x07,
        0x08, 0x2A, 0x99,
    ];
    let mut r = Cursor::new(&bytes);
    assert_eq!(
        reg.decode(t, &mut r),
        Ok(Value::Struct(vec![
            Value::U16(0x1234),
            Value::VarInt(300),
            Value::U32(0xDEADBEEF),
            Value::U64(0x0102030405060708),
            Value::U8(42),
        ]))
    );
    assert_eq!(bytes.len() - r.len(), 2 + 2 + 4 + 8 + 1);
    assert_eq!(r.remaining(), &[0x99]);
}

#[test]
fn unit_struct_consumes_nothing() {
    let mut reg = Registry::new();
    let t = add(&mut reg, &declare_struct("Nothing", Fields::Unit));
    let bytes = [0x01, 0x02];
    let mut r = Cursor::new(&bytes);
    assert_eq!(reg.decode(t, &mut r), Ok(Value::Struct(vec![])));
    assert_eq!(r.remaining(), &[0x01, 0x02]);
    let mut empty = Cursor::new(&[]);
    assert_eq!(reg.decode(t, &mut empty), Ok(Value::Struct(vec![])));
}

#[test]
fn enum_ping_is_discriminant_zero() {
    let mut reg = Registry::new();
    let t = add(&mut reg, &ping_pong());
    let bytes = [0x00];
    let mut r = Cursor::new(&bytes);
    assert_eq!(reg.decode(t, &mut r), Ok(Value::Variant { index: 0, fields: vec![] }));
    assert_eq!(r.len(), 0);
    let bytes = [0x01, 0x44];
    let mut r = Cursor::new(&bytes);
    assert_eq!(reg.decode(t, &mut r), Ok(Value::Variant { index: 1, fields: vec![] }));
    assert_eq!(r.remaining(), &[0x44]);
}

#[test]
fn enum_unknown_discriminant_fails() {
    let mut reg = Registry::new();
    let t = add(&mut reg, &ping_pong());
    let bytes = [0x02];
    let mut r = Cursor::new(&bytes);
    let err = reg.decode(t, &mut r).unwrap_err();
    assert_eq!(err, DecodeError { kind: ErrorKind::UnknownDiscriminant(2), context: vec![] });
    assert_eq!(err.message(), "unexpected enum discriminant 2");
}

#[test]
fn enum_negative_discriminant_is_reported_as_read() {
    let mut reg = Registry::new();
    let t = add(&mut reg, &ping_pong());
    let bytes = [0xFF, 0xFF, 0xFF, 0xFF, 0x0F];
    let mut r = Cursor::new(&bytes);
    let err = reg.decode(t, &mut r).unwrap_err();
    assert_eq!(err.kind, ErrorKind::UnknownDiscriminant(-1));
    assert_eq!(err.message(), "unexpected enum discriminant -1");
}

#[test]
fn enum_discriminant_failure_has_its_context() {
    let mut reg = Registry::new();
    let t = add(&mut reg, &ping_pong());
    let mut r = Cursor::new(&[]);
    let err = reg.decode(t, &mut r).unwrap_err();
    assert_eq!(
        err,
        DecodeError { kind: ErrorKind::UnexpectedEnd, context: vec![Context::Discriminant] }
    );
    assert_eq!(err.chain(), vec!["unexpected end of buffer", "failed to decode enum discriminant"]);
    let bytes = [0x80, 0x80, 0x80, 0x80, 0x80, 0x00];
    let mut r = Cursor::new(&bytes);
    let err = reg.decode(t, &mut r).unwrap_err();
    assert_eq!(
        err,
        DecodeError { kind: ErrorKind::VarIntTooLarge, context: vec![Context::Discriminant] }
    );
    assert_eq!(err.chain(), vec!["VarInt is too large", "failed to decode enum discriminant"]);
}

#[test]
fn enum_variant_fields_follow_the_discriminant() {
    let mut reg = Registry::new();
    let shape = declare_enum(
        "Shape",
        vec![
            unit_variant("Empty", None),
            Variant {
                ident: "Circle".to_string(),
                tag: Some(5),
                fields: Fields::Named(vec![named("radius", FieldType::U16)]),
            },
            Variant {
                ident: "Rect".to_string(),
                tag: None,
                fields: Fields::Unnamed(vec![FieldType::U8, FieldType::U8]),
            },
        ],
    );
    let t = add(&mut reg, &shape);
    let bytes = [0x05, 0x01, 0x00];
    let mut r = Cursor::new(&bytes);
    assert_eq!(
        reg.decode(t, &mut r),
        Ok(Value::Variant { index: 1, fields: vec![Value::U16(256)] })
    );
    let bytes = [0x06, 0x03, 0x04, 0x05];
    let mut r = Cursor::new(&bytes);
    assert_eq!(
        reg.decode(t, &mut r),
        Ok(Value::Variant { index: 2, fields: vec![Value::U8(3), Value::U8(4)] })
    );
    assert_eq!(r.remaining(), &[0x05]);
    let bytes = [0x01];
    let mut r = Cursor::new(&bytes);
    assert_eq!(reg.decode(t, &mut r).unwrap_err().kind, ErrorKind::UnknownDiscriminant(1));
}

#[test]
fn variant_field_failure_names_field_and_variant() {
    let mut reg = Registry::new();
    let shape = declare_enum(
        "Shape",
        vec![
            Variant {
                ident: "Circle".to_string(),
                tag: None,
                fields: Fields::Named(vec![named("radius", FieldType::U16)]),
            },
            Variant {
                ident: "Rect".to_string(),
                tag: None,
                fields: Fields::Unnamed(vec![FieldType::U8, FieldType::U8]),
            },
        ],
    );
    let t = add(&mut reg, &shape);
    let bytes = [0x00, 0x01];
    let mut r = Cursor::new(&bytes);
    let err = reg.decode(t, &mut r).unwrap_err();
    assert_eq!(
        err,
        DecodeError {
            kind: ErrorKind::UnexpectedEnd,
            context: vec![Context::VariantField {
                field: FieldName::Named("radius".to_string()),
                variant: "Circle".to_string(),
            }],
        }
    );
    assert_eq!(
        err.chain(),
        vec!["unexpected end of buffer", "failed to decode field `radius` in variant `Circle`"]
    );
    let bytes = [0x01, 0x01];
    let mut r = Cursor::new(&bytes);
    let err = reg.decode(t, &mut r).unwrap_err();
    assert_eq!(
        err.chain(),
        vec!["unexpected end of buffer", "failed to decode field `1` in variant `Rect`"]
    );
}

#[test]
fn packet_with_expected_identifier_decodes() {
    let mut reg = Registry::new();
    let mut input = pair_of_bytes();
    input.packet_id = Some(7);
    let t = add(&mut reg, &input);
    let packet = derive_decode_packet(&input).unwrap();
    assert_eq!(packet, PacketDecoder { packet_id: 7 });
    let bytes = [0x07, 0x05, 0x09, 0xFF];
    let mut r = Cursor::new(&bytes);
    assert_eq!(
        reg.decode_packet(&packet, t, &mut r),
        Ok(Value::Struct(vec![Value::U8(5), Value::U8(9)]))
    );
    assert_eq!(r.remaining(), &[0xFF]);
}

#[test]
fn packet_with_other_identifier_fails_before_fields() {
    let mut reg = Registry::new();
    let mut input = pair_of_bytes();
    input.packet_id = Some(7);
    let t = add(&mut reg, &input);
    let packet = derive_decode_packet(&input).unwrap();
    let bytes = [0x08, 0x05, 0x09];
    let mut r = Cursor::new(&bytes);
    let err = reg.decode_packet(&packet, t, &mut r).unwrap_err();
    assert_eq!(
        err,
        DecodeError { kind: ErrorKind::PacketIdMismatch { got: 8, expected: 7 }, context: vec![] }
    );
    assert_eq!(err.message(), "unexpected packet ID 8 (expected 7)");
    let bytes = [0x08];
    let mut r = Cursor::new(&bytes);
    let err = reg.decode_packet(&packet, t, &mut r).unwrap_err();
    assert_eq!(err.kind, ErrorKind::PacketIdMismatch { got: 8, expected: 7 });
}

#[test]
fn packet_identifier_failure_has_its_context() {
    let mut reg = Registry::new();
    let t = add(&mut reg, &pair_of_bytes());
    let packet = PacketDecoder { packet_id: 300 };
    let bytes = [0xAC];
    let mut r = Cursor::new(&bytes);
    let err = reg.decode_packet(&packet, t, &mut r).unwrap_err();
    assert_eq!(
        err,
        DecodeError { kind: ErrorKind::UnexpectedEnd, context: vec![Context::PacketId] }
    );
    assert_eq!(err.chain(), vec!["unexpected end of buffer", "failed to decode packet ID"]);
    let bytes = [0xAC, 0x02, 0x01];
    let mut r = Cursor::new(&bytes);
    let err = reg.decode_packet(&packet, t, &mut r).unwrap_err();
    assert_eq!(
        err,
        DecodeError {
            kind: ErrorKind::UnexpectedEnd,
            context: vec![Context::Field { field: FieldName::Named("b".to_string()) }],
        }
    );
}

#[test]
fn two_byte_scalar_from_one_byte_is_exhaustion() {
    let bytes = [0x01];
    let mut r = Cursor::new(&bytes);
    assert_eq!(
        decode_scalar(FieldType::U16, &mut r),
        Err(DecodeError { kind: ErrorKind::UnexpectedEnd, context: vec![] })
    );
    let mut r = Cursor::new(&[]);
    assert_eq!(decode_scalar(FieldType::U8, &mut r).unwrap_err().kind, ErrorKind::UnexpectedEnd);
    let bytes = [1, 2, 3];
    let mut r = Cursor::new(&bytes);
    assert_eq!(decode_scalar(FieldType::U32, &mut r).unwrap_err().kind, ErrorKind::UnexpectedEnd);
    let bytes = [1, 2, 3, 4, 5, 6, 7];
    let mut r = Cursor::new(&bytes);
    assert_eq!(decode_scalar(FieldType::U64, &mut r).unwrap_err().kind, ErrorKind::UnexpectedEnd);
}

#[test]
fn scalars_are_most_significant_byte_first() {
    let bytes = [0x01, 0x02, 0x03, 0x04, 0x05, 0x06, 0x07, 0x08, 0x09];
    let mut r = Cursor::new(&bytes);
    assert_eq!(decode_scalar(FieldType::U16, &mut r), Ok(Value::U16(0x0102)));
    assert_eq!(r.len(), 7);
    let mut r = Cursor::new(&bytes);
    assert_eq!(decode_scalar(FieldType::U32, &mut r), Ok(Value::U32(0x01020304)));
    assert_eq!(r.len(), 5);
    let mut r = Cursor::new(&bytes);
    assert_eq!(decode_scalar(FieldType::U64, &mut r), Ok(Value::U64(0x0102030405060708)));
    assert_eq!(r.remaining(), &[0x09]);
    let all = [0xFF; 8];
    let mut r = Cursor::new(&all);
    assert_eq!(decode_scalar(FieldType::U64, &mut r), Ok(Value::U64(u64::MAX)));
    let mut r = Cursor::new(&bytes);
    assert_eq!(decode_scalar(FieldType::VarInt, &mut r), Ok(Value::VarInt(1)));
}

#[test]
fn nested_failure_keeps_root_cause_and_names_the_field() {
    let mut reg = Registry::new();
    let bad = add(&mut reg, &ping_pong());
    let outer = add(
        &mut reg,
        &declare_struct(
            "Outer",
            Fields::Named(vec![named("x", FieldType::U8), named("y", FieldType::Type(bad))]),
        ),
    );
    let bytes = [0x01, 0x09];
    let mut r = Cursor::new(&bytes);
    let err = reg.decode(outer, &mut r).unwrap_err();
    assert_eq!(
        err,
        DecodeError {
            kind: ErrorKind::UnknownDiscriminant(9),
            context: vec![Context::Field { field: FieldName::Named("y".to_string()) }],
        }
    );
    assert_eq!(err.chain(), vec!["unexpected enum discriminant 9", "failed to decode field `y`"]);
    assert_eq!(err.message(), "failed to decode field `y`: unexpected enum discriminant 9");
}

#[test]
fn context_chain_grows_outward() {
    let mut reg = Registry::new();
    let inner = add(&mut reg, &declare_struct("Inner", Fields::Unnamed(vec![FieldType::U16])));
    let middle = add(
        &mut reg,
        &declare_enum(
            "Middle",
            vec![Variant {
                ident: "Only".to_string(),
                tag: Some(3),
                fields: Fields::Named(vec![named("inner", FieldType::Type(inner))]),
            }],
        ),
    );
    let outer = add(
        &mut reg,
        &declare_struct("Outer", Fields::Named(vec![named("middle", FieldType::Type(middle))])),
    );
    let bytes = [0x03, 0x01];
    let mut r = Cursor::new(&bytes);
    let err = reg.decode(outer, &mut r).unwrap_err();
    assert_eq!(err.kind, ErrorKind::UnexpectedEnd);
    assert_eq!(
        err.chain(),
        vec![
            "unexpected end of buffer",
            "failed to decode field `0`",
            "failed to decode field `inner` in variant `Only`",
            "failed to decode field `middle`",
        ]
    );
    let bytes = [0x03, 0x01, 0x02];
    let mut r = Cursor::new(&bytes);
    assert_eq!(
        reg.decode(outer, &mut r),
        Ok(Value::Struct(vec![Value::Variant {
            index: 0,
            fields: vec![Value::Struct(vec![Value::U16(0x0102)])],
        }]))
    );
}

#[test]
fn first_failing_field_ends_the_decode() {
    let mut reg = Registry::new();
    let t = add(
        &mut reg,
        &declare_struct("Three", Fields::Unnamed(vec![FieldType::U8, FieldType::U16, FieldType::U32])),
    );
    let bytes = [0x01, 0x02];
    let mut r = Cursor::new(&bytes);
    let err = reg.decode(t, &mut r).unwrap_err();
    assert_eq!(err.context, vec![Context::Field { field: FieldName::Index(1) }]);
    assert_eq!(err.message(), "failed to decode field `1`: unexpected end of buffer");
}

#[test]
fn decoding_twice_gives_the_same() {
    let mut reg = Registry::new();
    let t = add(&mut reg, &pair_of_bytes());
    let bytes = [0x05, 0x09, 0xFF];
    let mut first = Cursor::new(&bytes);
    let mut second = Cursor::new(&bytes);
    let a = reg.decode(t, &mut first);
    let b = reg.decode(t, &mut second);
    assert_eq!(a, b);
    assert_eq!(first.remaining(), second.remaining());
    let short = [0x05];
    let mut first = Cursor::new(&short);
    let mut second = Cursor::new(&short);
    assert_eq!(reg.decode(t, &mut first), reg.decode(t, &mut second));
}

#[test]
fn first_variant_with_the_discriminant_is_taken() {
    let mut reg = Registry::new();
    let t = reg
        .register(Decoder::Enum(vec![
            Arm { discriminant: 4, name: "A".to_string(), steps: vec![] },
            Arm {
                discriminant: 4,
                name: "B".to_string(),
                steps: vec![Step { name: FieldName::Index(0), ty: FieldType::U8 }],
            },
        ]))
        .unwrap();
    let bytes = [0x04, 0x01];
    let mut r = Cursor::new(&bytes);
    assert_eq!(reg.decode(t, &mut r), Ok(Value::Variant { index: 0, fields: vec![] }));
    assert_eq!(r.remaining(), &[0x01]);
}

#[test]
fn register_refuses_a_type_not_yet_known() {
    let mut reg = Registry::new();
    let t = add(&mut reg, &pair_of_bytes());
    assert_eq!(t, 0);
    let decoder = Decoder::Struct(vec![
        Step { name: FieldName::Index(0), ty: FieldType::Type(0) },
        Step { name: FieldName::Index(1), ty: FieldType::Type(1) },
        Step { name: FieldName::Index(2), ty: FieldType::Type(5) },
    ]);
    assert_eq!(reg.register(decoder), Err(SchemaError::UnknownType(1)));
    assert_eq!(reg.len(), 1);
    let decoder = Decoder::Enum(vec![
        Arm { discriminant: 0, name: "A".to_string(), steps: vec![] },
        Arm {
            discriminant: 1,
            name: "B".to_string(),
            steps: vec![Step { name: FieldName::Index(0), ty: FieldType::Type(3) }],
        },
    ]);
    assert_eq!(reg.register(decoder), Err(SchemaError::UnknownType(3)));
    let decoder =
        Decoder::Struct(vec![Step { name: FieldName::Index(0), ty: FieldType::Type(0) }]);
    assert_eq!(reg.register(decoder), Ok(1));
    assert_eq!(reg.len(), 2);
}

#[test]
fn derive_struct_names_fields_in_order() {
    assert_eq!(
        derive_decode(&pair_of_bytes()),
        Ok(Decoder::Struct(vec![
            Step { name: FieldName::Named("a".to_string()), ty: FieldType::U8 },
            Step { name: FieldName::Named("b".to_string()), ty: FieldType::U8 },
        ]))
    );
    assert_eq!(
        derive_decode(&declare_struct(
            "Tuple",
            Fields::Unnamed(vec![FieldType::U32, FieldType::VarInt])
        )),
        Ok(Decoder::Struct(vec![
            Step { name: FieldName::Index(0), ty: FieldType::U32 },
            Step { name: FieldName::Index(1), ty: FieldType::VarInt },
        ]))
    );
    assert_eq!(derive_decode(&declare_struct("Unit", Fields::Unit)), Ok(Decoder::Struct(vec![])));
}

#[test]
fn derive_enum_counts_discriminants_from_tags() {
    let input = declare_enum(
        "E",
        vec![
            unit_variant("A", None),
            unit_variant("B", None),
            unit_variant("C", Some(10)),
            unit_variant("D", None),
            unit_variant("E", Some(-3)),
            unit_variant("F", None),
        ],
    );
    let Decoder::Enum(arms) = derive_decode(&input).unwrap() else {
        panic!("an enum gives arms");
    };
    let discriminants: Vec<i32> = arms.iter().map(|a| a.discriminant).collect();
    assert_eq!(discriminants, vec![0, 1, 10, 11, -3, -2]);
    let names: Vec<&str> = arms.iter().map(|a| a.name.as_str()).collect();
    assert_eq!(names, vec!["A", "B", "C", "D", "E", "F"]);
}

#[test]
fn derive_refuses_what_cannot_be_decoded() {
    let mut input = pair_of_bytes();
    input.lifetimes = 2;
    assert_eq!(derive_decode(&input), Err(DeriveError::TooManyLifetimes));
    input.lifetimes = 1;
    assert!(derive_decode(&input).is_ok());
    let union = DeriveInput {
        ident: "U".to_string(),
        lifetimes: 0,
        packet_id: None,
        data: Data::Union,
    };
    assert_eq!(derive_decode(&union), Err(DeriveError::Union));
    let both = DeriveInput {
        ident: "U".to_string(),
        lifetimes: 3,
        packet_id: None,
        data: Data::Union,
    };
    assert_eq!(derive_decode(&both), Err(DeriveError::TooManyLifetimes));
    let overflow = declare_enum(
        "E",
        vec![unit_variant("A", Some(i32::MAX)), unit_variant("B", None)],
    );
    assert_eq!(derive_decode(&overflow), Err(DeriveError::DiscriminantOverflow));
    let last = declare_enum("E", vec![unit_variant("A", Some(i32::MAX))]);
    assert!(derive_decode(&last).is_ok());
}

#[test]
fn derive_packet_needs_an_identifier() {
    let mut input = pair_of_bytes();
    assert_eq!(derive_decode_packet(&input), Err(DeriveError::MissingPacketId));
    input.packet_id = Some(-1);
    assert_eq!(derive_decode_packet(&input), Ok(PacketDecoder { packet_id: -1 }));
}

#[test]
fn derive_errors_have_messages() {
    assert_eq!(
        DeriveError::TooManyLifetimes.message(),
        "type deriving `Decode` must have no more than one lifetime"
    );
    assert_eq!(DeriveError::Union.message(), "cannot derive `Decode` on unions");
    assert_eq!(
        DeriveError::MissingPacketId.message(),
        "cannot derive `DecodePacket` without `#[packet_id = ...]` helper attribute"
    );
}

#[test]
fn positions_are_written_in_decimal() {
    let mut reg = Registry::new();
    let mut types = Vec::new();
    for _ in 0..124 {
        types.push(FieldType::U8);
    }
    let t = add(&mut reg, &declare_struct("Wide", Fields::Unnamed(types)));
    let bytes = [0u8; 123];
    let mut r = Cursor::new(&bytes[..10]);
    assert_eq!(
        reg.decode(t, &mut r).unwrap_err().message(),
        "failed to decode field `10`: unexpected end of buffer"
    );
    let mut r = Cursor::new(&bytes);
    let err = reg.decode(t, &mut r).unwrap_err();
    assert_eq!(err.context, vec![Context::Field { field: FieldName::Index(123) }]);
    assert_eq!(err.chain()[1], "failed to decode field `123`");
}

#[test]
fn root_causes_and_contexts_have_their_wording() {
    assert_eq!(ErrorKind::UnexpectedEnd.message(), "unexpected end of buffer");
    assert_eq!(ErrorKind::VarIntTooLarge.message(), "VarInt is too large");
    assert_eq!(ErrorKind::UnknownDiscriminant(0).message(), "unexpected enum discriminant 0");
    assert_eq!(
        ErrorKind::UnknownDiscriminant(i32::MIN).message(),
        "unexpected enum discriminant -2147483648"
    );
    assert_eq!(
        ErrorKind::PacketIdMismatch { got: 2147483647, expected: -40 }.message(),
        "unexpected packet ID 2147483647 (expected -40)"
    );
    assert_eq!(Context::Discriminant.message(), "failed to decode enum discriminant");
    assert_eq!(Context::PacketId.message(), "failed to decode packet ID");
    assert_eq!(
        Context::Field { field: FieldName::Named("health".to_string()) }.message(),
        "failed to decode field `health`"
    );
    assert_eq!(
        Context::VariantField { field: FieldName::Index(0), variant: "Move".to_string() }
            .message(),
        "failed to decode field `0` in variant `Move`"
    );
    let err = DecodeError::new(ErrorKind::VarIntTooLarge)
        .context(Context::Discriminant)
        .context(Context::Field { field: FieldName::Named("kind".to_string()) })
        .context(Context::PacketId);
    assert_eq!(
        err.message(),
        "failed to decode packet ID: failed to decode field `kind`: failed to decode enum discriminant: VarInt is too large"
    );
    assert_eq!(err.kind, ErrorKind::VarIntTooLarge);
    assert_eq!(err.chain().len(), 4);
}

#[test]
fn byte_runs_are_parts_of_the_buffer() {
    let mut reg = Registry::new();
    let t = add(
        &mut reg,
        &declare_struct(
            "Framed",
            Fields::Unnamed(vec![FieldType::U8, FieldType::Bytes(3), FieldType::U8]),
        ),
    );
    let bytes = [0x01, 0xAA, 0xBB, 0xCC, 0x02, 0x09];
    let mut r = Cursor::new(&bytes);
    let value = reg.decode(t, &mut r).unwrap();
    assert_eq!(
        value,
        Value::Struct(vec![Value::U8(1), Value::Bytes(&bytes[1..4]), Value::U8(2)])
    );
    assert_eq!(r.remaining(), &[0x09]);
    let short = [0x01, 0xAA, 0xBB];
    let mut r = Cursor::new(&short);
    let err = reg.decode(t, &mut r).unwrap_err();
    assert_eq!(
        err,
        DecodeError {
            kind: ErrorKind::UnexpectedEnd,
            context: vec![Context::Field { field: FieldName::Index(1) }],
        }
    );
}

#[test]
fn empty_byte_run_consumes_nothing() {
    let bytes = [0x07];
    let mut r = Cursor::new(&bytes);
    assert_eq!(decode_scalar(FieldType::Bytes(0), &mut r), Ok(Value::Bytes(&[])));
    assert_eq!(r.remaining(), &[0x07]);
    assert_eq!(decode_scalar(FieldType::Bytes(1), &mut r), Ok(Value::Bytes(&[0x07])));
    assert_eq!(r.len(), 0);
    assert_eq!(
        decode_scalar(FieldType::Bytes(1), &mut r).unwrap_err().kind,
        ErrorKind::UnexpectedEnd
    );
}

#[test]
fn cursor_take_hands_out_the_front() {
    let bytes = [1u8, 2, 3, 4, 5];
    let mut r = Cursor::new(&bytes);
    let head = r.take(2);
    assert_eq!(head, &[1, 2]);
    assert_eq!(r.remaining(), &[3, 4, 5]);
    let none = r.take(0);
    assert_eq!(none.len(), 0);
    assert_eq!(r.take(3), &[3, 4, 5]);
    assert_eq!(r.len(), 0);
}
