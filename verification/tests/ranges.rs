//! Compiled enum schemas: the discriminant range assigner, dispatch, and
//! the compile-time errors around variants.

use structnom::Endian;
use structnom::compile::compile;
use structnom::prim::PrimType;
use structnom::schema::Directive;
use structnom::schema::ElemType;
use structnom::schema::EnumSchema;
use structnom::schema::FieldSpec;
use structnom::schema::Schema;
use structnom::schema::VariantSpec;
use structnom::value::CompileError;
use structnom::value::DecodeErrorKind;
use structnom::value::Value;

fn var(name: &str, directives: Vec<Directive>) -> VariantSpec {
    VariantSpec { name: name.to_string(), fields: vec![], directives }
}

fn var_with(name: &str, fields: Vec<FieldSpec>, directives: Vec<Directive>) -> VariantSpec {
    VariantSpec { name: name.to_string(), fields, directives }
}

fn enum_of(variants: Vec<VariantSpec>) -> Schema {
    Schema::Enum(EnumSchema { selector: Some(PrimType::U8), variants })
}

fn unit_variant(d: u64) -> Value {
    Value::Variant(d, Box::new(Value::Record(vec![])))
}

#[test]
fn contiguous_range_assigns_in_order() {
    // start(1), two bare variants, end(4): discriminants 1, 2, 3, 4.
    let schema = enum_of(vec![
        var("a", vec![Directive::RangeStart(1)]),
        var("b", vec![]),
        var("c", vec![]),
        var("d", vec![Directive::RangeEnd(4)]),
    ]);
    let c = compile(schema, Endian::Little).unwrap();
    for d in 1..=4u64 {
        let (used, v) = c.decode(&[d as u8]).unwrap();
        assert_eq!(used, 1);
        assert_eq!(v, unit_variant(d));
    }
    // One past the end of the range matches nothing.
    let err = c.decode(&[5]).unwrap_err();
    assert_eq!(err.kind, DecodeErrorKind::UnmatchedDiscriminant(5));
    assert_eq!(err.offset, 0);
}

#[test]
fn range_skip_skips_exactly_one() {
    // start(1), bare, skip, bare: discriminants 1, 2, 4, 5; 3 is unassigned.
    let schema = enum_of(vec![
        var("a", vec![Directive::RangeStart(1)]),
        var("b", vec![]),
        var("c", vec![Directive::RangeSkip(None)]),
        var("d", vec![]),
    ]);
    let c = compile(schema, Endian::Little).unwrap();
    assert_eq!(c.decode(&[1]).unwrap().1, unit_variant(1));
    assert_eq!(c.decode(&[2]).unwrap().1, unit_variant(2));
    assert_eq!(c.decode(&[4]).unwrap().1, unit_variant(4));
    assert_eq!(c.decode(&[5]).unwrap().1, unit_variant(5));
    let err = c.decode(&[3]).unwrap_err();
    assert_eq!(err.kind, DecodeErrorKind::UnmatchedDiscriminant(3));
}

#[test]
fn open_range_may_stay_open() {
    // A schema may end with the range still open: there is no later
    // variant whose assignment it could break.
    let schema = enum_of(vec![
        var("a", vec![Directive::RangeStart(7)]),
        var("b", vec![]),
    ]);
    let c = compile(schema, Endian::Little).unwrap();
    assert_eq!(c.decode(&[7]).unwrap().1, unit_variant(7));
    assert_eq!(c.decode(&[8]).unwrap().1, unit_variant(8));
}

#[test]
fn range_end_mismatch_fails_compilation() {
    // After 1 and 2, the range can only close at 3.
    let schema = enum_of(vec![
        var("a", vec![Directive::RangeStart(1)]),
        var("b", vec![]),
        var("c", vec![Directive::RangeEnd(5)]),
    ]);
    assert_eq!(compile(schema, Endian::Little).unwrap_err(), CompileError::RangeEndMismatch);
}

#[test]
fn range_end_without_open_range_fails() {
    let schema = enum_of(vec![var("a", vec![Directive::RangeEnd(1)])]);
    assert_eq!(compile(schema, Endian::Little).unwrap_err(), CompileError::RangeEndMismatch);
}

#[test]
fn missing_switch_selector_fails_compilation() {
    let schema = Schema::Enum(EnumSchema {
        selector: None,
        variants: vec![var("a", vec![Directive::Val(1)])],
    });
    assert_eq!(compile(schema, Endian::Little).unwrap_err(), CompileError::MissingSwitchSelector);
}

#[test]
fn unanchored_variant_fails_compilation() {
    let schema = enum_of(vec![var("a", vec![])]);
    assert_eq!(compile(schema, Endian::Little).unwrap_err(), CompileError::UnanchoredVariant);
}

#[test]
fn unanchored_skip_fails_compilation() {
    let schema = enum_of(vec![var("a", vec![Directive::RangeSkip(None)])]);
    assert_eq!(compile(schema, Endian::Little).unwrap_err(), CompileError::UnanchoredSkip);
}

#[test]
fn nested_range_fails_compilation() {
    let schema = enum_of(vec![
        var("a", vec![Directive::RangeStart(1)]),
        var("b", vec![Directive::RangeStart(7)]),
    ]);
    assert_eq!(compile(schema, Endian::Little).unwrap_err(), CompileError::NestedRange);
}

#[test]
fn delegated_variant_without_rule_fails() {
    // A delegated variant with no discriminant rule and no open range has
    // nothing to match on.
    let schema = enum_of(vec![
        var("a", vec![Directive::Parser(Box::new(ElemType::Prim(PrimType::U8)))]),
    ]);
    assert_eq!(compile(schema, Endian::Little).unwrap_err(), CompileError::UnmatchableVariant);
}

#[test]
fn conflicting_match_rules_fail() {
    let schema = enum_of(vec![
        var("a", vec![Directive::RangeStart(1), Directive::Val(4)]),
    ]);
    assert_eq!(compile(schema, Endian::Little).unwrap_err(), CompileError::ConflictingDirectives);
}

#[test]
fn field_directive_on_variant_fails() {
    let schema = enum_of(vec![var("a", vec![Directive::Bits(4)])]);
    assert_eq!(compile(schema, Endian::Little).unwrap_err(), CompileError::UnrecognizedDirective);
}

#[test]
fn value_set_matches_any_member() {
    let schema = enum_of(vec![
        var("multi", vec![Directive::Values(vec![4, 3, 5, 10])]),
        var("other", vec![Directive::Val(7)]),
    ]);
    let c = compile(schema, Endian::Little).unwrap();
    for d in [3u64, 4, 5, 10] {
        assert_eq!(c.decode(&[d as u8]).unwrap().1, unit_variant(d));
    }
    assert_eq!(c.decode(&[7]).unwrap().1, unit_variant(7));
    let err = c.decode(&[6]).unwrap_err();
    assert_eq!(err.kind, DecodeErrorKind::UnmatchedDiscriminant(6));
}

#[test]
fn skipped_variant_claims_no_arm() {
    let schema = enum_of(vec![
        var("gone", vec![Directive::Skip, Directive::Val(1)]),
        var("kept", vec![Directive::Val(2)]),
    ]);
    let c = compile(schema, Endian::Little).unwrap();
    assert_eq!(c.decode(&[2]).unwrap().1, unit_variant(2));
    let err = c.decode(&[1]).unwrap_err();
    assert_eq!(err.kind, DecodeErrorKind::UnmatchedDiscriminant(1));
}

#[test]
fn variant_fields_decode_after_dispatch() {
    let schema = enum_of(vec![
        var_with(
            "pair",
            vec![
                FieldSpec {
                    name: "x".to_string(),
                    ty: ElemType::Prim(PrimType::U8),
                    directives: vec![],
                },
                FieldSpec {
                    name: "y".to_string(),
                    ty: ElemType::Prim(PrimType::U16),
                    directives: vec![],
                },
            ],
            vec![Directive::Val(9)],
        ),
    ]);
    let c = compile(schema, Endian::Little).unwrap();
    let (used, v) = c.decode(&[9, 1, 2, 0]).unwrap();
    assert_eq!(used, 4);
    assert_eq!(
        v,
        Value::Variant(9, Box::new(Value::Record(vec![Value::Uint(1), Value::Uint(2)])))
    );
}

#[test]
fn variant_error_names_variant() {
    let schema = enum_of(vec![
        var_with(
            "needy",
            vec![FieldSpec {
                name: "w".to_string(),
                ty: ElemType::Prim(PrimType::U32),
                directives: vec![],
            }],
            vec![Directive::Val(1)],
        ),
    ]);
    let c = compile(schema, Endian::Little).unwrap();
    let err = c.decode(&[1, 2]).unwrap_err();
    assert_eq!(err.kind, DecodeErrorKind::TruncatedInput);
    assert_eq!(err.offset, 1);
    assert_eq!(err.context, Some("w".to_string()));
}

#[test]
fn first_matching_arm_wins() {
    // An explicit value may overlap an open range; the earlier arm wins.
    let schema = enum_of(vec![
        var("a", vec![Directive::RangeStart(1)]),
        var("b", vec![]),
        var("late", vec![Directive::Val(2)]),
    ]);
    let c = compile(schema, Endian::Little).unwrap();
    let (_, v) = c.decode(&[2]).unwrap();
    // The bare variant at index one claimed 2 first.
    assert_eq!(v, unit_variant(2));
    assert_eq!(c.decode(&[2]).unwrap().1, c.decode(&[2]).unwrap().1);
}

#[test]
fn enum_gen() {
    // The instruction-set example: a byte selector, a range from one,
    // delegation, skips, explicit values, and a closing value of ten.
    let leb_like = ElemType::Prim(PrimType::U8);
    let schema = enum_of(vec![
        var("nop", vec![Directive::RangeStart(1)]),
        var("cond", vec![]),
        var("add", vec![Directive::Parser(Box::new(leb_like))]),
        var("sub", vec![Directive::RangeSkip(None)]),
        var("mul", vec![Directive::Val(0x04)]),
        var("skip3", vec![Directive::RangeSkip(Some(3))]),
        var("equal", vec![Directive::RangeEnd(10)]),
        var("another", vec![Directive::Val(0x0F)]),
    ]);
    let c = compile(schema, Endian::Little).unwrap();
    // nop=1, cond=2, add=3 (delegated), sub=5, mul=4, skip3=9, equal=10,
    // another=15.
    assert_eq!(c.decode(&[1]).unwrap().1, unit_variant(1));
    assert_eq!(c.decode(&[2]).unwrap().1, unit_variant(2));
    assert_eq!(
        c.decode(&[3, 0x2A]).unwrap(),
        (2, Value::Variant(3, Box::new(Value::Uint(0x2A))))
    );
    assert_eq!(c.decode(&[5]).unwrap().1, unit_variant(5));
    assert_eq!(c.decode(&[4]).unwrap().1, unit_variant(4));
    assert_eq!(c.decode(&[9]).unwrap().1, unit_variant(9));
    assert_eq!(c.decode(&[10]).unwrap().1, unit_variant(10));
    assert_eq!(c.decode(&[0x0F]).unwrap().1, unit_variant(15));
    for gap in [6u8, 7, 8, 11, 14] {
        let err = c.decode(&[gap]).unwrap_err();
        assert_eq!(err.kind, DecodeErrorKind::UnmatchedDiscriminant(gap as u64));
    }
}

#[test]
fn discriminant_overflow_fails_compilation() {
    // A bare variant after the largest possible value has no discriminant
    // left to take.
    let schema = enum_of(vec![
        var("a", vec![Directive::RangeStart(u64::MAX)]),
        var("b", vec![]),
    ]);
    assert_eq!(compile(schema, Endian::Little).unwrap_err(), CompileError::DiscriminantOverflow);
}

#[test]
fn signed_selector_uses_bit_pattern() {
    let schema = Schema::Enum(EnumSchema {
        selector: Some(PrimType::I8),
        variants: vec![var("neg", vec![Directive::Val(0xFFFF_FFFF_FFFF_FFFF)])],
    });
    let c = compile(schema, Endian::Little).unwrap();
    let (_, v) = c.decode(&[0xFF]).unwrap();
    assert_eq!(v, unit_variant(u64::MAX));
}
