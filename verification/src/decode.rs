//! The decoding procedure of a compiled schema, together with its full
//! mathematical specification.
//!
//! The `s_` spec functions below define, byte for byte, what decoding any
//! well-formed schema against any input yields: either a final cursor and a
//! value, or a failure with its kind, the byte offset where the failing read
//! started, and the name of the innermost field or variant being decoded.
//! The executable decoder is proved equal to them, so decoding is a function
//! of the schema, the byte order, and the input alone.

use vstd::prelude::*;

use crate::Endian;
use crate::compile::sc_elem;
use crate::compile::sc_field;
use crate::compile::sc_field_dirs;
use crate::compile::sc_fields;
use crate::compile::sc_schema;
use crate::compile::sc_variant;
use crate::compile::sc_variant_dirs;
use crate::compile::sc_variants;
use crate::prim::PrimType;
use crate::prim::bits_val;
use crate::prim::lemma_bits_val_bound;
use crate::prim::lemma_pow2_le;
use crate::prim::lemma_pow2_63;
use crate::prim::prim_sval;
use crate::prim::prim_width;
use crate::range::variant_step;
use crate::schema::Directive;
use crate::schema::ElemType;
use crate::schema::EnumSchema;
use crate::schema::FieldSpec;
use crate::schema::Schema;
use crate::schema::VariantSpec;
use crate::schema::first_match_dir;
use crate::schema::first_parser_dir;
use crate::schema::first_value_dir;
use crate::schema::has_skip_dir;
use crate::schema::has_take_dir;
use crate::value::CompileError;
use crate::value::DecodeError;
use crate::value::DecodeErrorKind;
use crate::value::SVal;
use crate::value::Value;
use crate::value::sval_of;
use crate::value::svals_of;
use vstd::utf8::decode_utf8;
use vstd::utf8::valid_utf8;

verus! {

/// A decode failure: its kind, the byte offset at which the failing read
/// started, and the innermost enclosing field or variant name, if any.
pub struct SFail {
    pub kind: DecodeErrorKind,
    pub offset: int,
    pub context: Option<Seq<char>>,
}

/// The outcome of decoding one value: the position just past its bytes and
/// the value, or a failure.
pub enum DRes {
    Val(int, SVal),
    Fail(SFail),
}

/// The outcome of running a field's pre-effects: a new cursor, or a failure.
pub enum PRes {
    Pos(int, int),
    Fail(SFail),
}

/// The outcome of decoding a run of fields: the aligned position past them
/// and their values, or a failure.
pub enum FRes {
    Vals(int, Seq<SVal>),
    Fail(SFail),
}

/// The outcome of decoding one field: a new cursor and the field's value, or
/// a failure.
pub enum F1Res {
    Val(int, int, SVal),
    Fail(SFail),
}

/// A failure without context.
pub open spec fn bare_fail(kind: DecodeErrorKind, offset: int) -> SFail {
    SFail { kind, offset, context: None }
}

/// The byte position at or after the cursor: a partially consumed byte is
/// finished and skipped.
pub open spec fn al(pos: int, bit: int) -> int {
    if bit == 0 {
        pos
    } else {
        pos + 1
    }
}

/// Fill in a context name on a failure that has none.
pub open spec fn with_context_f1(name: Seq<char>, r: F1Res) -> F1Res {
    match r {
        F1Res::Fail(f) => {
            if f.context is None {
                F1Res::Fail(SFail { kind: f.kind, offset: f.offset, context: Some(name) })
            } else {
                r
            }
        },
        _ => r,
    }
}

/// Fill in a context name on a failure that has none.
pub open spec fn with_context_d(name: Seq<char>, r: DRes) -> DRes {
    match r {
        DRes::Fail(f) => {
            if f.context is None {
                DRes::Fail(SFail { kind: f.kind, offset: f.offset, context: Some(name) })
            } else {
                r
            }
        },
        _ => r,
    }
}

/// Decoding a primitive: its bytes if they remain, truncation otherwise.
pub open spec fn s_prim_d(p: PrimType, e: Endian, input: Seq<u8>, pos: int) -> DRes {
    if pos + prim_width(p) <= input.len() {
        DRes::Val(pos + prim_width(p), prim_sval(p, e, input, pos))
    } else {
        DRes::Fail(bare_fail(DecodeErrorKind::TruncatedInput, pos))
    }
}

/// Decoding a string: a count byte, that many bytes, then UTF-8 validation.
pub open spec fn s_text(input: Seq<u8>, pos: int) -> DRes {
    if pos + 1 <= input.len() {
        let n = input[pos] as int;
        if pos + 1 + n <= input.len() {
            let bytes = input.subrange(pos + 1, pos + 1 + n);
            if valid_utf8(bytes) {
                DRes::Val(pos + 1 + n, SVal::Str(decode_utf8(bytes)))
            } else {
                DRes::Fail(bare_fail(DecodeErrorKind::InvalidEncoding, pos))
            }
        } else {
            DRes::Fail(bare_fail(DecodeErrorKind::TruncatedInput, pos))
        }
    } else {
        DRes::Fail(bare_fail(DecodeErrorKind::TruncatedInput, pos))
    }
}

/// Extracting `c` bits at the bit cursor, most significant bit first.
pub open spec fn s_bits_take(input: Seq<u8>, pos: int, bit: int, c: u64) -> F1Res {
    let start = 8 * pos + bit;
    if start + c <= 8 * input.len() {
        F1Res::Val(
            (start + c) / 8,
            (start + c) % 8,
            SVal::Uint(bits_val(input, start, c as nat) as u64),
        )
    } else {
        F1Res::Fail(bare_fail(DecodeErrorKind::TruncatedInput, pos))
    }
}

/// The discriminant value a selector read yields: the 64-bit pattern of the
/// primitive value.
pub open spec fn disc_of(sv: SVal) -> u64 {
    match sv {
        SVal::Uint(w) => w,
        SVal::Int(x) => x as u64,
        _ => 0,
    }
}

/// The default value of an element type, for skipped fields: zero for
/// primitives, empty for containers and strings, a record of defaults for a
/// nested struct, and the unit value for a nested enum, which has no
/// canonical default.
pub open spec fn default_sval(ty: ElemType) -> SVal
    decreases ty, 0int,
{
    match ty {
        ElemType::Prim(p) => {
            if crate::prim::prim_signed(p) {
                SVal::Int(0)
            } else {
                SVal::Uint(0)
            }
        },
        ElemType::ListOf(_) => SVal::List(Seq::empty()),
        ElemType::OptionOf(_) => SVal::Absent,
        ElemType::Utf8Text => SVal::Str(Seq::empty()),
        ElemType::Nested(s) => match *s {
            Schema::Struct(ss) => SVal::Record(default_svals(ss.fields@, 0)),
            Schema::Enum(_) => SVal::Unit,
        },
    }
}

/// The default values of the fields from `i` on.
pub open spec fn default_svals(fs: Seq<FieldSpec>, i: int) -> Seq<SVal>
    decreases fs, fs.len() - i,
{
    if i < 0 || i >= fs.len() {
        Seq::empty()
    } else {
        seq![default_sval(fs[i].ty)] + default_svals(fs, i + 1)
    }
}

/// Lift a value decode to a field outcome; the cursor is byte-aligned after
/// it.
pub open spec fn lift_d(r: DRes) -> F1Res {
    match r {
        DRes::Val(p, v) => F1Res::Val(p, 0, v),
        DRes::Fail(f) => F1Res::Fail(f),
    }
}

/// One pre-effect directive at the cursor.  Directives that are not
/// pre-effects leave the cursor untouched.  Every pre-effect is a byte-level
/// operation, so it first finishes a partially consumed byte.
pub open spec fn s_pre_dir(d: Directive, e: Endian, input: Seq<u8>, pos: int, bit: int) -> PRes
    decreases d, 0int, 0int,
{
    match d {
        Directive::Take(n) => {
            let p = al(pos, bit);
            if p + n <= input.len() {
                PRes::Pos(p + n, 0)
            } else {
                PRes::Fail(bare_fail(DecodeErrorKind::TruncatedInput, p))
            }
        },
        Directive::TagBytes(bs) => {
            let p = al(pos, bit);
            if p + bs@.len() <= input.len() {
                if input.subrange(p, p + bs@.len()) == bs@ {
                    PRes::Pos(p + bs@.len(), 0)
                } else {
                    PRes::Fail(bare_fail(DecodeErrorKind::TagMismatch, p))
                }
            } else {
                PRes::Fail(bare_fail(DecodeErrorKind::TruncatedInput, p))
            }
        },
        Directive::Call(t) => {
            match s_elem(*t, e, input, al(pos, bit)) {
                DRes::Val(p2, _) => PRes::Pos(p2, 0),
                DRes::Fail(f) => PRes::Fail(f),
            }
        },
        Directive::TagParser(t) => {
            match s_elem(*t, e, input, al(pos, bit)) {
                DRes::Val(p2, _) => PRes::Pos(p2, 0),
                DRes::Fail(f) => PRes::Fail(f),
            }
        },
        _ => PRes::Pos(pos, bit),
    }
}

/// The pre-effects of a field's directives from `i` on, in declaration
/// order.
pub open spec fn s_pres(ds: Seq<Directive>, e: Endian, input: Seq<u8>, i: int, pos: int, bit: int) -> PRes
    decreases ds, ds.len() - i, 1int,
{
    if i < 0 || i >= ds.len() {
        PRes::Pos(pos, bit)
    } else {
        match s_pre_dir(ds[i], e, input, pos, bit) {
            PRes::Pos(p2, b2) => s_pres(ds, e, input, i + 1, p2, b2),
            PRes::Fail(f) => PRes::Fail(f),
        }
    }
}

/// One value-producing directive.  `dflt` is the default value of the
/// field's type, which `skip` yields without consuming anything.
pub open spec fn s_value_dir(
    d: Directive,
    dflt: SVal,
    e: Endian,
    input: Seq<u8>,
    pos: int,
    bit: int,
) -> F1Res
    decreases d, 0int, 0int,
{
    match d {
        Directive::Skip => F1Res::Val(pos, bit, dflt),
        Directive::Parser(t) => lift_d(s_elem(*t, e, input, al(pos, bit))),
        Directive::Bits(c) => s_bits_take(input, pos, bit, c),
        Directive::BitsPattern(c, pat) => {
            match s_bits_take(input, pos, bit, c) {
                F1Res::Val(p2, b2, v) => {
                    if v == SVal::Uint(pat) {
                        F1Res::Val(p2, b2, v)
                    } else {
                        F1Res::Fail(bare_fail(DecodeErrorKind::TagMismatch, pos))
                    }
                },
                F1Res::Fail(f) => F1Res::Fail(f),
            }
        },
        _ => F1Res::Val(pos, bit, dflt),
    }
}

/// The value-producing step of a field: its value directive if it has one;
/// otherwise the type's default if a `take` stands in for decoding, and the
/// type's own decoder else.
pub open spec fn s_value(f: FieldSpec, e: Endian, input: Seq<u8>, pos: int, bit: int) -> F1Res
    decreases f, 0int, 0int,
{
    match first_value_dir(f.directives@, 0) {
        Some(j) => {
            if 0 <= j < f.directives@.len() {
                s_value_dir(f.directives@[j], default_sval(f.ty), e, input, pos, bit)
            } else {
                F1Res::Val(pos, bit, default_sval(f.ty))
            }
        },
        None => {
            if has_take_dir(f.directives@) {
                F1Res::Val(pos, bit, default_sval(f.ty))
            } else {
                lift_d(s_elem(f.ty, e, input, al(pos, bit)))
            }
        },
    }
}

/// One field without its name annotation: pre-effects in declaration order,
/// then the value step.
pub open spec fn s_field_raw(f: FieldSpec, e: Endian, input: Seq<u8>, pos: int, bit: int) -> F1Res
    decreases f, 0int, 1int,
{
    match s_pres(f.directives@, e, input, 0, pos, bit) {
        PRes::Pos(p1, b1) => s_value(f, e, input, p1, b1),
        PRes::Fail(x) => F1Res::Fail(x),
    }
}

/// One field: a failure inside it that names nothing yet is annotated with
/// the field's name.
pub open spec fn s_field(f: FieldSpec, e: Endian, input: Seq<u8>, pos: int, bit: int) -> F1Res
    decreases f, 0int, 2int,
{
    with_context_f1(f.name@, s_field_raw(f, e, input, pos, bit))
}

/// The fields from `i` on, threading the cursor and accumulating values; at
/// the end the cursor is aligned to the next byte boundary.
pub open spec fn s_fields(
    fs: Seq<FieldSpec>,
    e: Endian,
    input: Seq<u8>,
    i: int,
    pos: int,
    bit: int,
    acc: Seq<SVal>,
) -> FRes
    decreases fs, fs.len() - i, 3int,
{
    if i < 0 || i >= fs.len() {
        FRes::Vals(al(pos, bit), acc)
    } else {
        match s_field(fs[i], e, input, pos, bit) {
            F1Res::Val(p2, b2, v) => s_fields(fs, e, input, i + 1, p2, b2, acc.push(v)),
            F1Res::Fail(f) => FRes::Fail(f),
        }
    }
}

/// `n` consecutive values of one element type, accumulating values.
pub open spec fn s_list(
    t: ElemType,
    e: Endian,
    input: Seq<u8>,
    pos: int,
    n: nat,
    acc: Seq<SVal>,
) -> FRes
    decreases t, n, 0int,
{
    if n == 0 {
        FRes::Vals(pos, acc)
    } else {
        match s_elem(t, e, input, pos) {
            DRes::Val(p2, v) => s_list(t, e, input, p2, (n - 1) as nat, acc.push(v)),
            DRes::Fail(f) => FRes::Fail(f),
        }
    }
}

/// Decoding one value of an element type at a byte-aligned position.
pub open spec fn s_elem(ty: ElemType, e: Endian, input: Seq<u8>, pos: int) -> DRes
    decreases ty, 0int, 0int,
{
    match ty {
        ElemType::Prim(p) => s_prim_d(p, e, input, pos),
        ElemType::Utf8Text => s_text(input, pos),
        ElemType::ListOf(t) => {
            if pos + 1 <= input.len() {
                match s_list(*t, e, input, pos + 1, input[pos] as nat, Seq::empty()) {
                    FRes::Vals(p2, vs) => DRes::Val(p2, SVal::List(vs)),
                    FRes::Fail(f) => DRes::Fail(f),
                }
            } else {
                DRes::Fail(bare_fail(DecodeErrorKind::TruncatedInput, pos))
            }
        },
        ElemType::OptionOf(t) => {
            match s_elem(*t, e, input, pos) {
                DRes::Val(p2, v) => DRes::Val(p2, SVal::Present(Box::new(v))),
                DRes::Fail(_) => DRes::Val(pos, SVal::Absent),
            }
        },
        ElemType::Nested(s) => s_schema(*s, e, input, pos),
    }
}

/// A delegated variant body: the named decoder produces the whole body.
pub open spec fn s_delegate(
    dd: Directive,
    d: u64,
    e: Endian,
    input: Seq<u8>,
    pos: int,
) -> DRes
    decreases dd, 0int, 1int,
{
    match dd {
        Directive::Parser(t) => {
            match s_elem(*t, e, input, pos) {
                DRes::Val(p2, w) => DRes::Val(p2, SVal::Variant(d, Box::new(w))),
                DRes::Fail(f) => DRes::Fail(f),
            }
        },
        _ => DRes::Fail(bare_fail(DecodeErrorKind::UnmatchedDiscriminant(d), pos)),
    }
}

/// A matched variant's body: delegated wholesale if the variant carries a
/// `Parser` directive, its fields in order otherwise.  A delegated variant
/// may also carry a discriminant rule — the rule decides only which values
/// reach it, while the delegate replaces its field decoding.  A failure
/// inside that names nothing yet is annotated with the variant's name.
pub open spec fn s_arm_body(
    v: VariantSpec,
    d: u64,
    e: Endian,
    input: Seq<u8>,
    pos: int,
) -> DRes
    decreases v, 0int, 2int,
{
    with_context_d(
        v.name@,
        match first_parser_dir(v.directives@, 0) {
            Some(j) => {
                if 0 <= j < v.directives@.len() {
                    s_delegate(v.directives@[j], d, e, input, pos)
                } else {
                    DRes::Fail(bare_fail(DecodeErrorKind::UnmatchedDiscriminant(d), pos))
                }
            },
            None => {
                match s_fields(v.fields@, e, input, 0, pos, 0, Seq::empty()) {
                    FRes::Vals(p2, vals) => DRes::Val(
                        p2,
                        SVal::Variant(d, Box::new(SVal::Record(vals))),
                    ),
                    FRes::Fail(f) => DRes::Fail(f),
                }
            },
        },
    )
}

/// Dispatch on the observed discriminant `d`: walk the variants in
/// declaration order, threading the range state, and decode the body of the
/// first retained variant whose keys claim `d` — overlapping keys are legal
/// and the earlier arm wins.  There is no catch-all arm: a discriminant no
/// arm claims is a hard failure.  `sel_pos` is the offset of the
/// discriminant read, which an unmatched discriminant reports.
pub open spec fn s_dispatch(
    vs: Seq<VariantSpec>,
    i: int,
    state: Option<u64>,
    d: u64,
    e: Endian,
    input: Seq<u8>,
    pos: int,
    sel_pos: int,
) -> DRes
    decreases vs, vs.len() - i, 3int,
{
    if i < 0 || i >= vs.len() {
        DRes::Fail(bare_fail(DecodeErrorKind::UnmatchedDiscriminant(d), sel_pos))
    } else if has_skip_dir(vs[i].directives@) {
        s_dispatch(vs, i + 1, state, d, e, input, pos, sel_pos)
    } else {
        match variant_step(vs[i], state) {
            Ok(ks) => {
                if ks.0.contains(d) {
                    s_arm_body(vs[i], d, e, input, pos)
                } else {
                    s_dispatch(vs, i + 1, ks.1, d, e, input, pos, sel_pos)
                }
            },
            Err(_) => DRes::Fail(bare_fail(DecodeErrorKind::UnmatchedDiscriminant(d), sel_pos)),
        }
    }
}

/// Decoding an enum: read the discriminant with the switch selector, then
/// dispatch.  (An enum without a selector never compiles; its branch here is
/// never reached from a compiled schema.)
pub open spec fn s_enum(es: EnumSchema, e: Endian, input: Seq<u8>, pos: int) -> DRes
    decreases es, 0int, 4int,
{
    match es.selector {
        Some(sel) => {
            match s_prim_d(sel, e, input, pos) {
                DRes::Val(p1, sv) => s_dispatch(
                    es.variants@,
                    0,
                    None,
                    disc_of(sv),
                    e,
                    input,
                    p1,
                    pos,
                ),
                DRes::Fail(f) => DRes::Fail(f),
            }
        },
        None => DRes::Fail(bare_fail(DecodeErrorKind::UnmatchedDiscriminant(0), pos)),
    }
}

/// Decoding a whole schema at a byte-aligned position.
pub open spec fn s_schema(s: Schema, e: Endian, input: Seq<u8>, pos: int) -> DRes
    decreases s, 0int, 5int,
{
    match s {
        Schema::Struct(ss) => {
            match s_fields(ss.fields@, e, input, 0, pos, 0, Seq::empty()) {
                FRes::Vals(p2, vals) => DRes::Val(p2, SVal::Record(vals)),
                FRes::Fail(f) => DRes::Fail(f),
            }
        },
        Schema::Enum(es) => s_enum(es, e, input, pos),
    }
}

/// The abstraction of an executable decode failure.
pub open spec fn sfail_of(e: DecodeError) -> SFail {
    SFail {
        kind: e.kind,
        offset: e.offset as int,
        context: match e.context {
            Some(s) => Some(s@),
            None => None,
        },
    }
}

/// The abstraction of an executable decode outcome.
pub open spec fn dres_of(r: Result<(usize, Value), DecodeError>) -> DRes {
    match r {
        Ok(ev) => DRes::Val(ev.0 as int, sval_of(ev.1)),
        Err(e) => DRes::Fail(sfail_of(e)),
    }
}

/// Decode-determinism: the outcome of a decode is a function of the schema,
/// the byte order and the input bytes alone, so any two decodes of the same
/// bytes against the same compiled schema yield identical results — the
/// same value and the same consumed length, or the same error.
pub proof fn lemma_decode_deterministic(
    r1: Result<(usize, Value), DecodeError>,
    r2: Result<(usize, Value), DecodeError>,
    s: Schema,
    e: Endian,
    input: Seq<u8>,
)
    requires
        dres_of(r1) == s_schema(s, e, input, 0),
        dres_of(r2) == s_schema(s, e, input, 0),
    ensures
        dres_of(r1) == dres_of(r2),
        r1 matches Ok(ev1) ==> r2 matches Ok(ev2) && ev1.0 == ev2.0 && sval_of(ev1.1) == sval_of(
            ev2.1,
        ),
{
}

/// The soft failure of optional values: where the inner decoder would fail,
/// an optional decodes to absent and consumes nothing, so whatever follows
/// begins at the same cursor position; where the inner decoder succeeds,
/// the optional wraps its value and consumes the same bytes.
pub proof fn lemma_option_soft_failure(t: ElemType, e: Endian, input: Seq<u8>, pos: int)
    ensures
        s_elem(t, e, input, pos) is Fail ==> s_elem(
            ElemType::OptionOf(Box::new(t)),
            e,
            input,
            pos,
        ) == DRes::Val(pos, SVal::Absent),
        s_elem(t, e, input, pos) matches DRes::Val(p2, v) ==> s_elem(
            ElemType::OptionOf(Box::new(t)),
            e,
            input,
            pos,
        ) == DRes::Val(p2, SVal::Present(Box::new(v))),
{
}

/// The dispatch walk over the tail of a plain range, entered at variant `i`
/// with previous value `last`.
proof fn lemma_range_dispatch_chain(
    vs: Seq<VariantSpec>,
    s: u64,
    n: nat,
    v: u64,
    i: int,
    last: u64,
    d: u64,
    e: Endian,
    input: Seq<u8>,
    pos: int,
    sel_pos: int,
)
    requires
        crate::range::plain_range_shape(vs, s, n, v),
        v == s + n + 1,
        1 <= i <= n + 1,
        last == s + i - 1,
    ensures
        last < d <= s + n + 1 ==> s_dispatch(vs, i, Some(last), d, e, input, pos, sel_pos)
            == s_arm_body(vs[d - s], d, e, input, pos),
        !(last < d <= s + n + 1) ==> s_dispatch(vs, i, Some(last), d, e, input, pos, sel_pos)
            == DRes::Fail(bare_fail(DecodeErrorKind::UnmatchedDiscriminant(d), sel_pos)),
    decreases n + 2 - i,
{
    reveal_with_fuel(s_dispatch, 3);
    let next: u64 = (last + 1) as u64;
    if i <= n {
        assert(!has_skip_dir(vs[i].directives@));
        assert(first_match_dir(vs[i].directives@, 0) is None);
        assert(first_parser_dir(vs[i].directives@, 0) is None);
        assert(variant_step(vs[i], Some(last)) == Ok::<(Seq<u64>, Option<u64>), CompileError>(
            (seq![next], Some(next)),
        ));
        assert(seq![next][0] == next);
        if d == next {
            assert(seq![next].contains(d));
            assert(vs[d - s] == vs[i]);
        } else {
            assert(forall|k: int| 0 <= k < 1 ==> seq![next][k] != d);
            assert(!seq![next].contains(d));
            lemma_range_dispatch_chain(vs, s, n, v, i + 1, next, d, e, input, pos, sel_pos);
        }
    } else {
        assert(vs[i].directives@ == seq![Directive::RangeEnd(v)]);
        assert(!has_skip_dir(vs[i].directives@)) by {
            assert(forall|k: int|
                0 <= k < vs[i].directives@.len() ==> !(#[trigger] vs[i].directives@[k] is Skip));
        }
        assert(first_match_dir(vs[i].directives@, 0) == Some(0int));
        assert(crate::range::variant_rule(vs[i]) == Some(Directive::RangeEnd(v)));
        assert(variant_step(vs[i], Some(last)) == Ok::<(Seq<u64>, Option<u64>), CompileError>(
            (seq![v], None),
        ));
        assert(seq![v][0] == v);
        if d == v {
            assert(seq![v].contains(d));
            assert(vs[d - s] == vs[i]);
        } else {
            assert(forall|k: int| 0 <= k < 1 ==> seq![v][k] != d);
            assert(!seq![v].contains(d));
        }
    }
}

/// Contiguous dispatch: over an enum that assigns a contiguous range
/// `s ..= s + n + 1`, a discriminant inside the range selects exactly the
/// variant at its offset from `s`, and any discriminant outside it fails
/// with `UnmatchedDiscriminant` carrying the observed value.
pub proof fn lemma_range_dispatch(
    vs: Seq<VariantSpec>,
    s: u64,
    n: nat,
    v: u64,
    d: u64,
    e: Endian,
    input: Seq<u8>,
    pos: int,
    sel_pos: int,
)
    requires
        crate::range::plain_range_shape(vs, s, n, v),
        v == s + n + 1,
    ensures
        s <= d <= s + n + 1 ==> s_dispatch(vs, 0, None, d, e, input, pos, sel_pos) == s_arm_body(
            vs[d - s],
            d,
            e,
            input,
            pos,
        ),
        !(s <= d <= s + n + 1) ==> s_dispatch(vs, 0, None, d, e, input, pos, sel_pos)
            == DRes::Fail(bare_fail(DecodeErrorKind::UnmatchedDiscriminant(d), sel_pos)),
{
    assert(vs[0].directives@ == seq![Directive::RangeStart(s)]);
    assert(!has_skip_dir(vs[0].directives@)) by {
        assert(forall|k: int|
            0 <= k < vs[0].directives@.len() ==> !(#[trigger] vs[0].directives@[k] is Skip));
    }
    assert(first_match_dir(vs[0].directives@, 0) == Some(0int));
    assert(crate::range::variant_rule(vs[0]) == Some(Directive::RangeStart(s)));
    assert(variant_step(vs[0], None) == Ok::<(Seq<u64>, Option<u64>), CompileError>(
        (seq![s], Some(s)),
    ));
    assert(seq![s][0] == s);
    if d == s {
        assert(seq![s].contains(d));
        assert(vs[d - s] == vs[0]);
    } else {
        assert(forall|k: int| 0 <= k < 1 ==> seq![s][k] != d);
        assert(!seq![s].contains(d));
        lemma_range_dispatch_chain(vs, s, n, v, 1, s, d, e, input, pos, sel_pos);
    }
}

/// Over an enum with a one-byte selector whose variants form a contiguous
/// range `s ..= s + n + 1`, a discriminant byte outside the range — in
/// particular one past its end — fails with `UnmatchedDiscriminant`
/// carrying that byte, and one inside it selects the variant at its offset.
pub proof fn lemma_range_unmatched_byte(
    es: EnumSchema,
    s: u64,
    n: nat,
    v: u64,
    e: Endian,
    input: Seq<u8>,
    pos: int,
)
    requires
        es.selector == Some(PrimType::U8),
        crate::range::plain_range_shape(es.variants@, s, n, v),
        v == s + n + 1,
        0 <= pos < input.len(),
    ensures
        !(s <= input[pos] <= s + n + 1) ==> s_enum(es, e, input, pos) == DRes::Fail(
            bare_fail(DecodeErrorKind::UnmatchedDiscriminant(input[pos] as u64), pos),
        ),
        s <= input[pos] <= s + n + 1 ==> s_enum(es, e, input, pos) == s_arm_body(
            es.variants@[input[pos] - s],
            input[pos] as u64,
            e,
            input,
            pos + 1,
        ),
{
    reveal_with_fuel(crate::prim::word_le, 2);
    reveal_with_fuel(crate::prim::word_be, 2);
    let d = input[pos] as u64;
    assert(crate::prim::word_at(e, input, pos, 1) == input[pos] as nat) by {
        match e {
            Endian::Little => {},
            Endian::Big => {},
        }
    }
    assert(prim_sval(PrimType::U8, e, input, pos) == SVal::Uint(d));
    assert(s_prim_d(PrimType::U8, e, input, pos) == DRes::Val(pos + 1, SVal::Uint(d)));
    lemma_range_dispatch(es.variants@, s, n, v, d, e, input, pos + 1, pos);
}

/// A truncation error at `offset` with no context.
fn truncated(offset: usize) -> (r: DecodeError)
    ensures
        sfail_of(r) == bare_fail(DecodeErrorKind::TruncatedInput, offset as int),
{
    DecodeError { kind: DecodeErrorKind::TruncatedInput, offset, context: None }
}

/// Annotate a failure that names nothing yet with a field or variant name.
fn add_context(er: DecodeError, name: &String) -> (r: DecodeError)
    ensures
        sfail_of(r) == (match sfail_of(er).context {
            Some(_) => sfail_of(er),
            None => (SFail {
                kind: sfail_of(er).kind,
                offset: sfail_of(er).offset,
                context: Some(name@),
            }),
        }),
{
    if er.context.is_some() {
        er
    } else {
        DecodeError { kind: er.kind, offset: er.offset, context: Some(name.clone()) }
    }
}

/// The discriminant value of a decoded selector primitive.
fn disc_value(v: &Value) -> (r: u64)
    ensures
        r == disc_of(sval_of(*v)),
{
    match v {
        Value::Uint(w) => *w,
        Value::Int(x) => #[verifier::truncate] (*x as u64),
        _ => 0,
    }
}

/// Whether `keys` claims the discriminant `d`.
fn contains_key(keys: &Vec<u64>, d: u64) -> (r: bool)
    ensures
        r == keys@.contains(d),
{
    let mut i: usize = 0;
    while i < keys.len()
        invariant
            i <= keys@.len(),
            forall|k: int| 0 <= k < i ==> keys@[k] != d,
        decreases keys@.len() - i,
    {
        if keys[i] == d {
            return true;
        }
        i = i + 1;
    }
    false
}

/// Whether the next bytes at `p` equal the literal tag.
fn tag_match(input: &[u8], p: usize, bs: &Vec<u8>) -> (r: bool)
    requires
        p + bs@.len() <= input@.len(),
    ensures
        r == (input@.subrange(p as int, p + bs@.len()) == bs@),
{
    let n: usize = input.len();
    let m: usize = bs.len();
    let mut k: usize = 0;
    while k < m
        invariant
            k <= m,
            m == bs@.len(),
            n == input@.len(),
            p + m <= input@.len(),
            forall|j: int| 0 <= j < k ==> input@[p + j] == bs@[j],
        decreases m - k,
    {
        if input[p + k] != bs[k] {
            proof {
                assert(input@.subrange(p as int, p + bs@.len())[k as int] == input@[p + k]);
            }
            return false;
        }
        k = k + 1;
    }
    proof {
        assert(input@.subrange(p as int, p + bs@.len()) =~= bs@);
    }
    true
}

/// The default value of an element type.
pub fn default_value(ty: &ElemType) -> (r: Value)
    ensures
        sval_of(r) == default_sval(*ty),
    decreases *ty, 1int,
{
    match ty {
        ElemType::Prim(p) => {
            match p {
                PrimType::U8 | PrimType::U16 | PrimType::U32 | PrimType::U64 => Value::Uint(0),
                _ => Value::Int(0),
            }
        },
        ElemType::ListOf(_) => {
            let items: Vec<Value> = Vec::new();
            proof {
                assert(svals_of(items@) =~= Seq::<SVal>::empty());
            }
            Value::List(items)
        },
        ElemType::OptionOf(_) => Value::Absent,
        ElemType::Utf8Text => Value::Str(String::new()),
        ElemType::Nested(s) => {
            match &**s {
                Schema::Struct(ss) => Value::Record(default_record(&ss.fields)),
                Schema::Enum(_) => Value::Unit,
            }
        },
    }
}

/// The default values of a run of fields.
fn default_record(fs: &Vec<FieldSpec>) -> (r: Vec<Value>)
    ensures
        svals_of(r@) == default_svals(fs@, 0),
    decreases fs@, 0int,
{
    let mut out: Vec<Value> = Vec::new();
    let mut i: usize = 0;
    while i < fs.len()
        invariant
            i <= fs@.len(),
            default_svals(fs@, 0) == svals_of(out@) + default_svals(fs@, i as int),
        decreases fs@.len() - i,
    {
        let ghost old_out = out@;
        let v = default_value(&fs[i].ty);
        out.push(v);
        proof {
            crate::value::lemma_svals_of_push(old_out, v);
            assert(svals_of(out@) + default_svals(fs@, i + 1) =~= svals_of(old_out) + (seq![
                default_sval(fs@[i as int].ty),
            ] + default_svals(fs@, i + 1)));
        }
        i = i + 1;
    }
    proof {
        assert(svals_of(out@) + default_svals(fs@, i as int) =~= svals_of(out@));
    }
    out
}

/// Decode a string field: a count byte, that many bytes, UTF-8 validation.
fn decode_text(input: &[u8], pos: usize) -> (r: Result<(usize, Value), DecodeError>)
    requires
        pos <= input@.len(),
    ensures
        dres_of(r) == s_text(input@, pos as int),
        r matches Ok(ev) ==> pos <= ev.0 <= input@.len(),
{
    if pos >= input.len() {
        return Err(truncated(pos));
    }
    let n: usize = input[pos] as usize;
    if n > input.len() - (pos + 1) {
        return Err(truncated(pos));
    }
    let bytes: Vec<u8> = vstd::slice::slice_to_vec(
        vstd::slice::slice_subrange(input, pos + 1, pos + 1 + n),
    );
    match crate::value::utf8_to_string(bytes) {
        Some(s) => Ok((pos + 1 + n, Value::Str(s))),
        None => Err(
            DecodeError { kind: DecodeErrorKind::InvalidEncoding, offset: pos, context: None },
        ),
    }
}

/// Decode one value of an element type at a byte-aligned position.
pub fn decode_elem(ty: &ElemType, e: Endian, input: &[u8], pos: usize) -> (r: Result<
    (usize, Value),
    DecodeError,
>)
    requires
        sc_elem(*ty) is Ok,
        pos <= input@.len(),
    ensures
        dres_of(r) == s_elem(*ty, e, input@, pos as int),
        r matches Ok(ev) ==> pos <= ev.0 <= input@.len(),
    decreases *ty, 0int, 0int,
{
    match ty {
        ElemType::Prim(p) => {
            let w: usize = p.width();
            if input.len() - pos < w {
                Err(truncated(pos))
            } else {
                let v = crate::prim::read_prim(*p, e, input, pos);
                Ok((pos + w, v))
            }
        },
        ElemType::Utf8Text => decode_text(input, pos),
        ElemType::ListOf(t) => {
            if pos >= input.len() {
                return Err(truncated(pos));
            }
            let n: usize = input[pos] as usize;
            match decode_list(t, e, input, pos + 1, n) {
                Ok((p2, vals)) => Ok((p2, Value::List(vals))),
                Err(er) => Err(er),
            }
        },
        ElemType::OptionOf(t) => {
            match decode_elem(t, e, input, pos) {
                Ok((p2, v)) => Ok((p2, Value::Present(Box::new(v)))),
                Err(_) => Ok((pos, Value::Absent)),
            }
        },
        ElemType::Nested(s) => decode_schema(s, e, input, pos),
    }
}

/// Decode `n` consecutive values of one element type.
fn decode_list(t: &ElemType, e: Endian, input: &[u8], pos: usize, n: usize) -> (r: Result<
    (usize, Vec<Value>),
    DecodeError,
>)
    requires
        sc_elem(*t) is Ok,
        pos <= input@.len(),
    ensures
        (match r {
            Ok(ev) => s_list(*t, e, input@, pos as int, n as nat, Seq::empty()) == FRes::Vals(
                ev.0 as int,
                svals_of(ev.1@),
            ) && pos <= ev.0 <= input@.len(),
            Err(er) => s_list(*t, e, input@, pos as int, n as nat, Seq::empty()) == FRes::Fail(
                sfail_of(er),
            ),
        }),
    decreases *t, n as int, 1int,
{
    let mut out: Vec<Value> = Vec::new();
    let mut cur: usize = pos;
    let mut j: usize = 0;
    while j < n
        invariant
            j <= n,
            sc_elem(*t) is Ok,
            pos <= cur <= input@.len(),
            s_list(*t, e, input@, pos as int, n as nat, Seq::empty()) == s_list(
                *t,
                e,
                input@,
                cur as int,
                (n - j) as nat,
                svals_of(out@),
            ),
        decreases n - j,
    {
        let ghost old_out = out@;
        match decode_elem(t, e, input, cur) {
            Ok((p2, v)) => {
                proof {
                    crate::value::lemma_svals_of_push(old_out, v);
                }
                out.push(v);
                cur = p2;
                j = j + 1;
            },
            Err(er) => {
                return Err(er);
            },
        }
    }
    Ok((cur, out))
}

/// Decode one field without its name annotation: pre-effects in declaration
/// order, then the value step.
#[verifier::rlimit(60)]
fn decode_field_raw(f: &FieldSpec, e: Endian, input: &[u8], pos: usize, bit: usize) -> (r: Result<
    (usize, usize, Value),
    DecodeError,
>)
    requires
        sc_field(*f) is Ok,
        bit < 8,
        pos <= input@.len(),
        bit > 0 ==> pos < input@.len(),
    ensures
        (match r {
            Ok(ev) => s_field_raw(*f, e, input@, pos as int, bit as int) == F1Res::Val(
                ev.0 as int,
                ev.1 as int,
                sval_of(ev.2),
            ) && pos <= ev.0 <= input@.len() && ev.1 < 8 && (ev.1 > 0 ==> ev.0 < input@.len()),
            Err(er) => s_field_raw(*f, e, input@, pos as int, bit as int) == F1Res::Fail(
                sfail_of(er),
            ),
        }),
    decreases *f, 0int, 5int,
{
    proof {
        crate::compile::lemma_sc_field_dirs_each(f.directives@, 0, false);
    }
    let n_in: usize = input.len();
    let ds = &f.directives;
    let mut cur: usize = pos;
    let mut b: usize = bit;
    let mut i: usize = 0;
    while i < ds.len()
        invariant
            i <= ds@.len(),
            ds == &f.directives,
            n_in == input@.len(),
            b < 8,
            cur <= input@.len(),
            b > 0 ==> cur < input@.len(),
            pos <= cur,
            forall|j: int|
                0 <= j < ds@.len() ==> crate::compile::dir_payload_wf(#[trigger] ds@[j]),
            s_pres(ds@, e, input@, 0, pos as int, bit as int) == s_pres(
                ds@,
                e,
                input@,
                i as int,
                cur as int,
                b as int,
            ),
        decreases ds@.len() - i, 0int,
    {
        let ghost old_cur = cur as int;
        let ghost old_b = b as int;
        match &ds[i] {
            Directive::Take(n) => {
                let p: usize = if b > 0 {
                    cur + 1
                } else {
                    cur
                };
                if *n > (input.len() - p) as u64 {
                    return Err(truncated(p));
                }
                cur = p + (*n as usize);
                b = 0;
            },
            Directive::TagBytes(bs) => {
                let p: usize = if b > 0 {
                    cur + 1
                } else {
                    cur
                };
                if bs.len() > input.len() - p {
                    return Err(truncated(p));
                }
                if !tag_match(input, p, bs) {
                    return Err(
                        DecodeError {
                            kind: DecodeErrorKind::TagMismatch,
                            offset: p,
                            context: None,
                        },
                    );
                }
                cur = p + bs.len();
                b = 0;
            },
            Directive::Call(t) => {
                let p: usize = if b > 0 {
                    cur + 1
                } else {
                    cur
                };
                match decode_elem(t, e, input, p) {
                    Ok((p2, _v)) => {
                        cur = p2;
                        b = 0;
                    },
                    Err(er) => {
                        return Err(er);
                    },
                }
            },
            Directive::TagParser(t) => {
                let p: usize = if b > 0 {
                    cur + 1
                } else {
                    cur
                };
                match decode_elem(t, e, input, p) {
                    Ok((p2, _v)) => {
                        cur = p2;
                        b = 0;
                    },
                    Err(er) => {
                        return Err(er);
                    },
                }
            },
            _ => {},
        }
        proof {
            assert(s_pre_dir(ds@[i as int], e, input@, old_cur, old_b) == PRes::Pos(
                cur as int,
                b as int,
            ));
        }
        i = i + 1;
    }
    // The value step.
    match f.find_value_directive() {
        Some(k) => {
            match &ds[k] {
                Directive::Skip => Ok((cur, b, default_value(&f.ty))),
                Directive::Parser(t) => {
                    let p: usize = if b > 0 {
                        cur + 1
                    } else {
                        cur
                    };
                    match decode_elem(t, e, input, p) {
                        Ok((p2, v)) => Ok((p2, 0, v)),
                        Err(er) => Err(er),
                    }
                },
                Directive::Bits(c) => decode_bits_value(input, cur, b, *c, None),
                Directive::BitsPattern(c, pat) => decode_bits_value(input, cur, b, *c, Some(*pat)),
                _ => {
                    // `find_value_directive` yields only value producers.
                    assert(false);
                    Err(truncated(cur))
                },
            }
        },
        None => {
            if f.has_take() {
                Ok((cur, b, default_value(&f.ty)))
            } else {
                let p: usize = if b > 0 {
                    cur + 1
                } else {
                    cur
                };
                match decode_elem(&f.ty, e, input, p) {
                    Ok((p2, v)) => Ok((p2, 0, v)),
                    Err(er) => Err(er),
                }
            }
        },
    }
}

/// Extract a bit-field value, asserting the expected pattern if one is
/// given.  The outcome matches `s_value_dir` on the corresponding directive;
/// the default value and byte order handed to `s_value_dir` below are
/// immaterial, since bit extraction reads neither.
fn decode_bits_value(input: &[u8], cur: usize, b: usize, c: u64, pat: Option<u64>) -> (r: Result<
    (usize, usize, Value),
    DecodeError,
>)
    requires
        b < 8,
        cur <= input@.len(),
        b > 0 ==> cur < input@.len(),
        c <= 64,
    ensures
        (match r {
            Ok(ev) => (match pat {
                None => s_bits_take(input@, cur as int, b as int, c),
                Some(pv) => s_value_dir(
                    Directive::BitsPattern(c, pv),
                    SVal::Unit,
                    Endian::Little,
                    input@,
                    cur as int,
                    b as int,
                ),
            }) == F1Res::Val(ev.0 as int, ev.1 as int, sval_of(ev.2)) && cur <= ev.0
                <= input@.len() && ev.1 < 8 && (ev.1 > 0 ==> ev.0 < input@.len()),
            Err(er) => (match pat {
                None => s_bits_take(input@, cur as int, b as int, c),
                Some(pv) => s_value_dir(
                    Directive::BitsPattern(c, pv),
                    SVal::Unit,
                    Endian::Little,
                    input@,
                    cur as int,
                    b as int,
                ),
            }) == F1Res::Fail(sfail_of(er)),
        }),
{
    let avail: usize = input.len() - cur;
    let cs: usize = c as usize;
    let enough: bool = if avail >= 9 {
        true
    } else {
        cs + b <= 8 * avail
    };
    if !enough {
        return Err(truncated(cur));
    }
    proof {
        assert(8 * cur + b + c <= 8 * input@.len());
    }
    let x: u64 = crate::prim::extract_bits(input, cur, b, cs);
    let endbit: usize = b + cs;
    let p2: usize = cur + endbit / 8;
    let b2: usize = endbit % 8;
    proof {
        assert((8 * cur + b + c) / 8 == cur + (b + c) / 8 && (8 * cur + b + c) % 8 == (b + c) % 8
            && (8 * cur + b + c) / 8 <= input@.len() && ((8 * cur + b + c) % 8 > 0 ==> (8 * cur + b
            + c) / 8 < input@.len())) by (nonlinear_arith)
            requires
                0 <= b < 8,
                0 <= c,
                0 <= cur,
                8 * cur + b + c <= 8 * input@.len(),
        ;
        lemma_bits_val_bound(input@, 8 * cur + b, c as nat);
        lemma_pow2_le(c as nat, 64);
        lemma_pow2_63();
        assert(crate::prim::pow2(64) == 2 * crate::prim::pow2(63));
    }
    match pat {
        None => Ok((p2, b2, Value::Uint(x))),
        Some(pv) => {
            if x == pv {
                Ok((p2, b2, Value::Uint(x)))
            } else {
                Err(DecodeError { kind: DecodeErrorKind::TagMismatch, offset: cur, context: None })
            }
        },
    }
}

/// Decode one field, annotating failures with the field's name.
pub fn decode_field(f: &FieldSpec, e: Endian, input: &[u8], pos: usize, bit: usize) -> (r: Result<
    (usize, usize, Value),
    DecodeError,
>)
    requires
        sc_field(*f) is Ok,
        bit < 8,
        pos <= input@.len(),
        bit > 0 ==> pos < input@.len(),
    ensures
        (match r {
            Ok(ev) => s_field(*f, e, input@, pos as int, bit as int) == F1Res::Val(
                ev.0 as int,
                ev.1 as int,
                sval_of(ev.2),
            ) && pos <= ev.0 <= input@.len() && ev.1 < 8 && (ev.1 > 0 ==> ev.0 < input@.len()),
            Err(er) => s_field(*f, e, input@, pos as int, bit as int) == F1Res::Fail(sfail_of(er)),
        }),
    decreases *f, 0int, 6int,
{
    match decode_field_raw(f, e, input, pos, bit) {
        Ok(ev) => Ok(ev),
        Err(er) => Err(add_context(er, &f.name)),
    }
}

/// Decode a run of fields starting byte-aligned; the cursor is aligned again
/// after the run.
pub fn decode_fields(fs: &Vec<FieldSpec>, e: Endian, input: &[u8], pos: usize) -> (r: Result<
    (usize, Vec<Value>),
    DecodeError,
>)
    requires
        sc_fields(fs@, 0) is Ok,
        pos <= input@.len(),
    ensures
        (match r {
            Ok(ev) => s_fields(fs@, e, input@, 0, pos as int, 0, Seq::empty()) == FRes::Vals(
                ev.0 as int,
                svals_of(ev.1@),
            ) && pos <= ev.0 <= input@.len(),
            Err(er) => s_fields(fs@, e, input@, 0, pos as int, 0, Seq::empty()) == FRes::Fail(
                sfail_of(er),
            ),
        }),
    decreases fs@, 0int, 7int,
{
    let n_in: usize = input.len();
    let mut out: Vec<Value> = Vec::new();
    let mut cur: usize = pos;
    let mut b: usize = 0;
    let mut i: usize = 0;
    while i < fs.len()
        invariant
            i <= fs@.len(),
            sc_fields(fs@, 0) is Ok,
            n_in == input@.len(),
            b < 8,
            pos <= cur <= input@.len(),
            b > 0 ==> cur < input@.len(),
            s_fields(fs@, e, input@, 0, pos as int, 0, Seq::empty()) == s_fields(
                fs@,
                e,
                input@,
                i as int,
                cur as int,
                b as int,
                svals_of(out@),
            ),
        decreases fs@.len() - i, 0int,
    {
        proof {
            crate::compile::lemma_sc_fields_each(fs@, 0);
        }
        let ghost old_out = out@;
        match decode_field(&fs[i], e, input, cur, b) {
            Ok((p2, b2, v)) => {
                proof {
                    crate::value::lemma_svals_of_push(old_out, v);
                }
                out.push(v);
                cur = p2;
                b = b2;
                i = i + 1;
            },
            Err(er) => {
                return Err(er);
            },
        }
    }
    let end: usize = if b > 0 {
        cur + 1
    } else {
        cur
    };
    Ok((end, out))
}

/// Decode a matched variant's body and wrap it as a `Variant` value,
/// annotating failures with the variant's name.
fn decode_arm_body(v: &VariantSpec, d: u64, e: Endian, input: &[u8], pos: usize) -> (r: Result<
    (usize, Value),
    DecodeError,
>)
    requires
        sc_variant(*v) is Ok,
        pos <= input@.len(),
    ensures
        dres_of(r) == s_arm_body(*v, d, e, input@, pos as int),
        r matches Ok(ev) ==> pos <= ev.0 <= input@.len(),
    decreases *v, 0int, 5int,
{
    proof {
        crate::compile::lemma_sc_variant_dirs_each(v.directives@, 0, false, false);
    }
    let ghost raw = match first_parser_dir(v.directives@, 0) {
        Some(j) => {
            if 0 <= j < v.directives@.len() {
                s_delegate(v.directives@[j], d, e, input@, pos as int)
            } else {
                DRes::Fail(bare_fail(DecodeErrorKind::UnmatchedDiscriminant(d), pos as int))
            }
        },
        None => {
            match s_fields(v.fields@, e, input@, 0, pos as int, 0, Seq::empty()) {
                FRes::Vals(p2, vals) => DRes::Val(p2, SVal::Variant(d, Box::new(SVal::Record(vals)))),
                FRes::Fail(f) => DRes::Fail(f),
            }
        },
    };
    proof {
        assert(s_arm_body(*v, d, e, input@, pos as int) == with_context_d(v.name@, raw));
    }
    let inner: Result<(usize, Value), DecodeError> = match v.find_parser_directive() {
        Some(k) => {
            match &v.directives[k] {
                Directive::Parser(t) => {
                    match decode_elem(t, e, input, pos) {
                        Ok((p2, w)) => {
                            let ghost wv = sval_of(w);
                            let bx = Box::new(w);
                            proof {
                                assert(sval_of(Value::Variant(d, bx)) == SVal::Variant(
                                    d,
                                    Box::new(wv),
                                ));
                                assert(s_delegate(
                                    v.directives@[k as int],
                                    d,
                                    e,
                                    input@,
                                    pos as int,
                                ) == DRes::Val(p2 as int, SVal::Variant(d, Box::new(wv))));
                            }
                            Ok((p2, Value::Variant(d, bx)))
                        },
                        Err(er) => Err(er),
                    }
                },
                _ => {
                    // `find_parser_directive` yields only `Parser` records.
                    assert(false);
                    Err(truncated(pos))
                },
            }
        },
        None => {
            match decode_fields(&v.fields, e, input, pos) {
                Ok((p2, vals)) => {
                    let ghost vv = svals_of(vals@);
                    let bx = Box::new(Value::Record(vals));
                    proof {
                        reveal_with_fuel(sval_of, 3);
                        assert(sval_of(Value::Variant(d, bx)) == SVal::Variant(
                            d,
                            Box::new(SVal::Record(vv)),
                        ));
                    }
                    Ok((p2, Value::Variant(d, bx)))
                },
                Err(er) => Err(er),
            }
        },
    };
    proof {
        assert(dres_of(inner) == raw);
    }
    match inner {
        Ok(x) => Ok(x),
        Err(er) => Err(add_context(er, &v.name)),
    }
}

/// Decode an enum: read the discriminant with the switch selector, then test
/// the dispatch arms in declaration order and decode the first match.
#[verifier::rlimit(60)]
fn decode_enum(es: &EnumSchema, e: Endian, input: &[u8], pos: usize) -> (r: Result<
    (usize, Value),
    DecodeError,
>)
    requires
        es.selector is Some,
        sc_variants(es.variants@, 0) is Ok,
        crate::range::s_assign(es.variants@) is Ok,
        pos <= input@.len(),
    ensures
        dres_of(r) == s_enum(*es, e, input@, pos as int),
        r matches Ok(ev) ==> pos <= ev.0 <= input@.len(),
    decreases *es, 0int, 6int,
{
    let sel: PrimType = match &es.selector {
        Some(p) => *p,
        None => {
            assert(false);
            return Err(truncated(pos));
        },
    };
    let w: usize = sel.width();
    if input.len() - pos < w {
        return Err(truncated(pos));
    }
    let dv: Value = crate::prim::read_prim(sel, e, input, pos);
    let d: u64 = disc_value(&dv);
    let p1: usize = pos + w;
    let vs = &es.variants;
    let mut state: Option<u64> = None;
    let mut i: usize = 0;
    while i < vs.len()
        invariant
            i <= vs@.len(),
            vs == &es.variants,
            sc_variants(vs@, 0) is Ok,
            pos <= p1 <= input@.len(),
            s_enum(*es, e, input@, pos as int) == s_dispatch(
                vs@,
                0,
                None,
                d,
                e,
                input@,
                p1 as int,
                pos as int,
            ),
            crate::range::s_assign_from(vs@, i as int, state) is Ok,
            s_dispatch(vs@, 0, None, d, e, input@, p1 as int, pos as int) == s_dispatch(
                vs@,
                i as int,
                state,
                d,
                e,
                input@,
                p1 as int,
                pos as int,
            ),
        decreases vs@.len() - i, 0int,
    {
        let v = &vs[i];
        if v.is_skipped() {
            i = i + 1;
            continue;
        }
        match crate::range::step_keys(v, state) {
            Ok((keys, st2)) => {
                if contains_key(&keys, d) {
                    proof {
                        crate::compile::lemma_sc_variants_each(vs@, 0);
                        assert(s_dispatch(
                            vs@,
                            i as int,
                            state,
                            d,
                            e,
                            input@,
                            p1 as int,
                            pos as int,
                        ) == s_arm_body(vs@[i as int], d, e, input@, p1 as int));
                    }
                    return decode_arm_body(v, d, e, input, p1);
                }
                state = st2;
                i = i + 1;
            },
            Err(_) => {
                // The range assignment succeeded at compile time, so no step
                // of it can fail here.
                assert(false);
                return Err(truncated(pos));
            },
        }
    }
    Err(DecodeError { kind: DecodeErrorKind::UnmatchedDiscriminant(d), offset: pos, context: None })
}

/// Decode one value of a whole schema at a byte-aligned position.
pub fn decode_schema(s: &Schema, e: Endian, input: &[u8], pos: usize) -> (r: Result<
    (usize, Value),
    DecodeError,
>)
    requires
        sc_schema(*s) is Ok,
        pos <= input@.len(),
    ensures
        dres_of(r) == s_schema(*s, e, input@, pos as int),
        r matches Ok(ev) ==> pos <= ev.0 <= input@.len(),
    decreases *s, 0int, 8int,
{
    match s {
        Schema::Struct(ss) => {
            match decode_fields(&ss.fields, e, input, pos) {
                Ok((p2, vals)) => Ok((p2, Value::Record(vals))),
                Err(er) => Err(er),
            }
        },
        Schema::Enum(es) => decode_enum(es, e, input, pos),
    }
}

} // verus!
