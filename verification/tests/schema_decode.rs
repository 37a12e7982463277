//! Compiled struct schemas: the field pipeline, bit fields, tags, takes,
//! skips, parser overrides, and the decode-time errors.

use structnom::Endian;
use structnom::compile::compile;
use structnom::prim::PrimType;
use structnom::schema::Directive;
use structnom::schema::ElemType;
use structnom::schema::FieldSpec;
use structnom::schema::Schema;
use structnom::schema::StructSchema;
use structnom::value::CompileError;
use structnom::value::DecodeErrorKind;
use structnom::value::Value;

fn fld(name: &str, ty: ElemType, directives: Vec<Directive>) -> FieldSpec {
    FieldSpec { name: name.to_string(), ty, directives }
}

fn struct_of(fields: Vec<FieldSpec>) -> Schema {
    Schema::Struct(StructSchema { fields })
}

#[test]
fn two_byte_record() {
    let schema = struct_of(vec![
        fld("hi", ElemType::Prim(PrimType::U8), vec![]),
        fld("lo", ElemType::Prim(PrimType::U8), vec![]),
    ]);
    let c = compile(schema, Endian::Little).unwrap();
    let (used, v) = c.decode(&[7, 9, 0xFF]).unwrap();
    assert_eq!(used, 2);
    assert_eq!(v, Value::Record(vec![Value::Uint(7), Value::Uint(9)]));
}

#[test]
fn decode_is_deterministic() {
    let schema = struct_of(vec![
        fld("word", ElemType::Prim(PrimType::U32), vec![]),
        fld("text", ElemType::Utf8Text, vec![]),
    ]);
    let c = compile(schema, Endian::Little).unwrap();
    let data = [1, 2, 3, 4, 0x02, b'h', b'i'];
    let first = c.decode(&data).unwrap();
    let second = c.decode(&data).unwrap();
    assert_eq!(first, second);
    assert_eq!(first.0, 7);
}

#[test]
fn endianness_selects_byte_order() {
    let schema = struct_of(vec![fld("w", ElemType::Prim(PrimType::U16), vec![])]);
    let le = compile(
        struct_of(vec![fld("w", ElemType::Prim(PrimType::U16), vec![])]),
        Endian::Little,
    )
    .unwrap();
    let be = compile(schema, Endian::Big).unwrap();
    let data = [0x12, 0x34];
    assert_eq!(le.decode(&data).unwrap().1, Value::Record(vec![Value::Uint(0x3412)]));
    assert_eq!(be.decode(&data).unwrap().1, Value::Record(vec![Value::Uint(0x1234)]));
}

#[test]
fn wide_primitives_both_orders() {
    let le = compile(
        struct_of(vec![
            fld("w32", ElemType::Prim(PrimType::U32), vec![]),
            fld("w64", ElemType::Prim(PrimType::U64), vec![]),
        ]),
        Endian::Little,
    )
    .unwrap();
    let be = compile(
        struct_of(vec![
            fld("w32", ElemType::Prim(PrimType::U32), vec![]),
            fld("w64", ElemType::Prim(PrimType::U64), vec![]),
        ]),
        Endian::Big,
    )
    .unwrap();
    let data = [1, 2, 3, 4, 1, 2, 3, 4, 5, 6, 7, 8];
    assert_eq!(
        le.decode(&data).unwrap().1,
        Value::Record(vec![Value::Uint(0x0403_0201), Value::Uint(0x0807_0605_0403_0201)])
    );
    assert_eq!(
        be.decode(&data).unwrap().1,
        Value::Record(vec![Value::Uint(0x0102_0304), Value::Uint(0x0102_0304_0506_0708)])
    );
}

#[test]
fn signed_primitive_is_twos_complement() {
    let schema = struct_of(vec![
        fld("a", ElemType::Prim(PrimType::I8), vec![]),
        fld("b", ElemType::Prim(PrimType::I16), vec![]),
    ]);
    let c = compile(schema, Endian::Little).unwrap();
    let (used, v) = c.decode(&[0xFF, 0xFE, 0xFF]).unwrap();
    assert_eq!(used, 3);
    assert_eq!(v, Value::Record(vec![Value::Int(-1), Value::Int(-2)]));
}

#[test]
fn signed_wide_primitives() {
    let schema = struct_of(vec![
        fld("a", ElemType::Prim(PrimType::I32), vec![]),
        fld("b", ElemType::Prim(PrimType::I64), vec![]),
    ]);
    let c = compile(schema, Endian::Little).unwrap();
    let data = [0xFD, 0xFF, 0xFF, 0xFF, 0xFC, 0xFF, 0xFF, 0xFF, 0xFF, 0xFF, 0xFF, 0xFF];
    let (used, v) = c.decode(&data).unwrap();
    assert_eq!(used, 12);
    assert_eq!(v, Value::Record(vec![Value::Int(-3), Value::Int(-4)]));
}

#[test]
fn list_field_needs_all_elements() {
    // A length prefix of four with only three bytes left is truncated ...
    let schema = struct_of(vec![fld("v", ElemType::ListOf(Box::new(ElemType::Prim(PrimType::U8))), vec![])]);
    let c = compile(schema, Endian::Little).unwrap();
    let err = c.decode(&[0x04, 1, 2, 3]).unwrap_err();
    assert_eq!(err.kind, DecodeErrorKind::TruncatedInput);
    assert_eq!(err.context, Some("v".to_string()));
}

#[test]
fn list_field_exact_elements() {
    // ... and with exactly four bytes the cursor stands just past the
    // fourth element.
    let schema = struct_of(vec![fld("v", ElemType::ListOf(Box::new(ElemType::Prim(PrimType::U8))), vec![])]);
    let c = compile(schema, Endian::Little).unwrap();
    let (used, v) = c.decode(&[0x04, 1, 2, 3, 4]).unwrap();
    assert_eq!(used, 5);
    assert_eq!(
        v,
        Value::Record(vec![Value::List(vec![
            Value::Uint(1),
            Value::Uint(2),
            Value::Uint(3),
            Value::Uint(4),
        ])])
    );
}

#[test]
fn optional_field_absent_consumes_nothing() {
    // The u32 decoder fails on one byte, so the optional is absent and the
    // following field starts where the optional started.
    let schema = struct_of(vec![
        fld("maybe", ElemType::OptionOf(Box::new(ElemType::Prim(PrimType::U32))), vec![]),
        fld("tail", ElemType::Prim(PrimType::U8), vec![]),
    ]);
    let c = compile(schema, Endian::Little).unwrap();
    let (used, v) = c.decode(&[0xAA]).unwrap();
    assert_eq!(used, 1);
    assert_eq!(v, Value::Record(vec![Value::Absent, Value::Uint(0xAA)]));
}

#[test]
fn optional_field_present() {
    let schema = struct_of(vec![
        fld("maybe", ElemType::OptionOf(Box::new(ElemType::Prim(PrimType::U8))), vec![]),
    ]);
    let c = compile(schema, Endian::Little).unwrap();
    let (used, v) = c.decode(&[0x2A]).unwrap();
    assert_eq!(used, 1);
    assert_eq!(v, Value::Record(vec![Value::Present(Box::new(Value::Uint(0x2A)))]));
}

#[test]
fn bits_pattern_leaves_rest_of_byte() {
    // bits(4, 0x3) against 0b0011_1111: the high nibble matches the
    // pattern, and the low nibble stays available to the next bit field.
    let schema = struct_of(vec![
        fld("tag", ElemType::Prim(PrimType::U8), vec![Directive::BitsPattern(4, 0x3)]),
        fld("rest", ElemType::Prim(PrimType::U8), vec![Directive::Bits(4)]),
    ]);
    let c = compile(schema, Endian::Little).unwrap();
    let (used, v) = c.decode(&[0b0011_1111]).unwrap();
    assert_eq!(used, 1);
    assert_eq!(v, Value::Record(vec![Value::Uint(0x3), Value::Uint(0xF)]));
}

#[test]
fn bits_pattern_mismatch_is_hard_failure() {
    let schema = struct_of(vec![
        fld("tag", ElemType::Prim(PrimType::U8), vec![Directive::BitsPattern(4, 0x3)]),
        fld("rest", ElemType::Prim(PrimType::U8), vec![Directive::Bits(4)]),
    ]);
    let c = compile(schema, Endian::Little).unwrap();
    let err = c.decode(&[0b1100_0000]).unwrap_err();
    assert_eq!(err.kind, DecodeErrorKind::TagMismatch);
    assert_eq!(err.context, Some("tag".to_string()));
}

#[test]
fn bit_fields_pack_and_align() {
    // Two bit fields pack into one byte; the following whole-byte field
    // starts at the next byte boundary.
    let schema = struct_of(vec![
        fld("high", ElemType::Prim(PrimType::U8), vec![Directive::Bits(3)]),
        fld("low", ElemType::Prim(PrimType::U8), vec![Directive::Bits(2)]),
        fld("byte", ElemType::Prim(PrimType::U8), vec![]),
    ]);
    let c = compile(schema, Endian::Little).unwrap();
    let (used, v) = c.decode(&[0b1010_1000, 0x55]).unwrap();
    assert_eq!(used, 2);
    assert_eq!(
        v,
        Value::Record(vec![Value::Uint(0b101), Value::Uint(0b01), Value::Uint(0x55)])
    );
}

#[test]
fn tag_bytes_consume_on_match() {
    let schema = struct_of(vec![
        fld("val", ElemType::Prim(PrimType::U8), vec![Directive::TagBytes(vec![0x60, 0x61])]),
    ]);
    let c = compile(schema, Endian::Little).unwrap();
    let (used, v) = c.decode(&[0x60, 0x61, 0x07]).unwrap();
    assert_eq!(used, 3);
    assert_eq!(v, Value::Record(vec![Value::Uint(7)]));
    let err = c.decode(&[0x60, 0x62, 0x07]).unwrap_err();
    assert_eq!(err.kind, DecodeErrorKind::TagMismatch);
    assert_eq!(err.offset, 0);
}

#[test]
fn take_before_value() {
    let schema = struct_of(vec![
        fld("val", ElemType::Prim(PrimType::U8), vec![
            Directive::Take(2),
            Directive::Bits(8),
        ]),
    ]);
    let c = compile(schema, Endian::Little).unwrap();
    let (used, v) = c.decode(&[0xAA, 0xBB, 0x42]).unwrap();
    assert_eq!(used, 3);
    assert_eq!(v, Value::Record(vec![Value::Uint(0x42)]));
}

#[test]
fn take_alone_stands_in_for_decoding() {
    // With no value directive the take consumes its bytes and the field
    // gets the type's default.
    let schema = struct_of(vec![
        fld("pad", ElemType::Prim(PrimType::U8), vec![Directive::Take(3)]),
        fld("val", ElemType::Prim(PrimType::U8), vec![]),
    ]);
    let c = compile(schema, Endian::Little).unwrap();
    let (used, v) = c.decode(&[1, 2, 3, 9]).unwrap();
    assert_eq!(used, 4);
    assert_eq!(v, Value::Record(vec![Value::Uint(0), Value::Uint(9)]));
}

#[test]
fn skip_field_takes_default() {
    let schema = struct_of(vec![
        fld("gone", ElemType::ListOf(Box::new(ElemType::Prim(PrimType::U8))), vec![Directive::Skip]),
        fld("text", ElemType::Utf8Text, vec![Directive::Skip]),
        fld("kept", ElemType::Prim(PrimType::U8), vec![]),
    ]);
    let c = compile(schema, Endian::Little).unwrap();
    let (used, v) = c.decode(&[5]).unwrap();
    assert_eq!(used, 1);
    assert_eq!(
        v,
        Value::Record(vec![
            Value::List(vec![]),
            Value::Str(String::new()),
            Value::Uint(5),
        ])
    );
}

#[test]
fn parser_override_replaces_type_decoder() {
    // The field is declared a u32 but an override decodes a single byte.
    let schema = struct_of(vec![
        fld("val", ElemType::Prim(PrimType::U32), vec![
            Directive::Parser(Box::new(ElemType::Prim(PrimType::U8))),
        ]),
    ]);
    let c = compile(schema, Endian::Little).unwrap();
    let (used, v) = c.decode(&[0x11, 0x22]).unwrap();
    assert_eq!(used, 1);
    assert_eq!(v, Value::Record(vec![Value::Uint(0x11)]));
}

#[test]
fn call_runs_and_discards() {
    // The call consumes a byte via its sub-parser; the value comes after.
    let schema = struct_of(vec![
        fld("val", ElemType::Prim(PrimType::U8), vec![
            Directive::Call(Box::new(ElemType::Prim(PrimType::U8))),
        ]),
    ]);
    let c = compile(schema, Endian::Little).unwrap();
    let (used, v) = c.decode(&[0xEE, 0x33]).unwrap();
    assert_eq!(used, 2);
    assert_eq!(v, Value::Record(vec![Value::Uint(0x33)]));
}

#[test]
fn debug_is_decode_inert() {
    let with_debug = struct_of(vec![
        fld("val", ElemType::Prim(PrimType::U8), vec![Directive::Debug]),
    ]);
    let without = struct_of(vec![fld("val", ElemType::Prim(PrimType::U8), vec![])]);
    let c1 = compile(with_debug, Endian::Little).unwrap();
    let c2 = compile(without, Endian::Little).unwrap();
    assert_eq!(c1.decode(&[9]).unwrap(), c2.decode(&[9]).unwrap());
}

#[test]
fn string_field_decodes_utf8() {
    let schema = struct_of(vec![fld("s", ElemType::Utf8Text, vec![])]);
    let c = compile(schema, Endian::Little).unwrap();
    let (used, v) = c.decode(&[0x02, 0xC3, 0xA9]).unwrap();
    assert_eq!(used, 3);
    assert_eq!(v, Value::Record(vec![Value::Str("\u{e9}".to_string())]));
}

#[test]
fn string_field_rejects_bad_utf8() {
    let schema = struct_of(vec![fld("s", ElemType::Utf8Text, vec![])]);
    let c = compile(schema, Endian::Little).unwrap();
    let err = c.decode(&[0x01, 0xFF]).unwrap_err();
    assert_eq!(err.kind, DecodeErrorKind::InvalidEncoding);
    assert_eq!(err.offset, 0);
    assert_eq!(err.context, Some("s".to_string()));
}

#[test]
fn nested_struct_field() {
    let inner = StructSchema {
        fields: vec![
            fld("x", ElemType::Prim(PrimType::U8), vec![]),
            fld("y", ElemType::Prim(PrimType::U8), vec![]),
        ],
    };
    let schema = struct_of(vec![
        fld("pair", ElemType::Nested(Box::new(Schema::Struct(inner))), vec![]),
        fld("tail", ElemType::Prim(PrimType::U8), vec![]),
    ]);
    let c = compile(schema, Endian::Little).unwrap();
    let (used, v) = c.decode(&[1, 2, 3]).unwrap();
    assert_eq!(used, 3);
    assert_eq!(
        v,
        Value::Record(vec![
            Value::Record(vec![Value::Uint(1), Value::Uint(2)]),
            Value::Uint(3),
        ])
    );
}

#[test]
fn error_names_innermost_field() {
    let inner = StructSchema {
        fields: vec![fld("deep", ElemType::Prim(PrimType::U32), vec![])],
    };
    let schema = struct_of(vec![
        fld("outer", ElemType::Nested(Box::new(Schema::Struct(inner))), vec![]),
    ]);
    let c = compile(schema, Endian::Little).unwrap();
    let err = c.decode(&[1, 2]).unwrap_err();
    assert_eq!(err.kind, DecodeErrorKind::TruncatedInput);
    assert_eq!(err.offset, 0);
    assert_eq!(err.context, Some("deep".to_string()));
}

#[test]
fn struct_gen() {
    // A struct whose first field asserts a byte tag before reading a u32,
    // followed by a nested element.
    let schema = struct_of(vec![
        fld("word", ElemType::Prim(PrimType::U32), vec![Directive::TagBytes(vec![0x7F])]),
        fld("expr", ElemType::ListOf(Box::new(ElemType::Prim(PrimType::U8))), vec![]),
    ]);
    let c = compile(schema, Endian::Little).unwrap();
    let (used, v) = c.decode(&[0x7F, 1, 0, 0, 0, 0x01, 0xAB]).unwrap();
    assert_eq!(used, 7);
    assert_eq!(
        v,
        Value::Record(vec![Value::Uint(1), Value::List(vec![Value::Uint(0xAB)])])
    );
}

#[test]
fn conflicting_value_directives_fail() {
    let schema = struct_of(vec![
        fld("val", ElemType::Prim(PrimType::U8), vec![Directive::Skip, Directive::Bits(4)]),
    ]);
    assert_eq!(compile(schema, Endian::Little).unwrap_err(), CompileError::ConflictingDirectives);
}

#[test]
fn unknown_directive_fails() {
    let schema = struct_of(vec![
        fld("val", ElemType::Prim(PrimType::U8), vec![Directive::Unknown("streaming".to_string())]),
    ]);
    assert_eq!(compile(schema, Endian::Little).unwrap_err(), CompileError::UnrecognizedDirective);
}

#[test]
fn match_rule_on_field_fails() {
    let schema = struct_of(vec![
        fld("val", ElemType::Prim(PrimType::U8), vec![Directive::Val(3)]),
    ]);
    assert_eq!(compile(schema, Endian::Little).unwrap_err(), CompileError::UnrecognizedDirective);
}

#[test]
fn oversized_bit_count_fails() {
    let schema = struct_of(vec![
        fld("val", ElemType::Prim(PrimType::U8), vec![Directive::Bits(65)]),
    ]);
    assert_eq!(compile(schema, Endian::Little).unwrap_err(), CompileError::UnrecognizedDirective);
}
