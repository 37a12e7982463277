//! Decoded values, decode-time errors and compile-time errors.

use vstd::prelude::*;

verus! {

/// A value produced by a compiled decoding procedure.
///
/// Primitive reads yield `Uint` or `Int`; length-prefixed sequences yield
/// `List`; optional values yield `Absent` or `Present`; strings yield `Str`;
/// a struct yields `Record` with one entry per field in declaration order; an
/// enum yields `Variant` carrying the matched discriminant and the variant's
/// body.  `Unit` stands in for values no bytes describe, such as the default
/// of a skipped enum-typed field.
#[derive(Debug, PartialEq, Eq)]
pub enum Value {
    Unit,
    Uint(u64),
    Int(i64),
    Str(String),
    List(Vec<Value>),
    Absent,
    Present(Box<Value>),
    Record(Vec<Value>),
    Variant(u64, Box<Value>),
}

/// The mathematical shape of a `Value`: sequences in place of vectors and
/// character sequences in place of strings.
pub enum SVal {
    Unit,
    Uint(u64),
    Int(i64),
    Str(Seq<char>),
    List(Seq<SVal>),
    Absent,
    Present(Box<SVal>),
    Record(Seq<SVal>),
    Variant(u64, Box<SVal>),
}

/// The abstraction of a decoded value.
pub open spec fn sval_of(v: Value) -> SVal
    decreases v,
{
    match v {
        Value::Unit => SVal::Unit,
        Value::Uint(n) => SVal::Uint(n),
        Value::Int(n) => SVal::Int(n),
        Value::Str(s) => SVal::Str(s@),
        Value::List(items) => SVal::List(svals_of(items@)),
        Value::Absent => SVal::Absent,
        Value::Present(b) => SVal::Present(Box::new(sval_of(*b))),
        Value::Record(items) => SVal::Record(svals_of(items@)),
        Value::Variant(d, b) => SVal::Variant(d, Box::new(sval_of(*b))),
    }
}

/// The abstraction of a sequence of decoded values, element by element.
pub open spec fn svals_of(s: Seq<Value>) -> Seq<SVal>
    decreases s,
{
    if s.len() == 0 {
        Seq::empty()
    } else {
        seq![sval_of(s[0])] + svals_of(s.drop_first())
    }
}

/// `svals_of` distributes over pushing one more element.
pub proof fn lemma_svals_of_push(s: Seq<Value>, v: Value)
    ensures
        svals_of(s.push(v)) == svals_of(s).push(sval_of(v)),
    decreases s.len(),
{
    if s.len() == 0 {
        assert(s.push(v).drop_first() =~= s);
        assert(svals_of(s.push(v)) =~= svals_of(s).push(sval_of(v)));
    } else {
        lemma_svals_of_push(s.drop_first(), v);
        assert(s.push(v).drop_first() =~= s.drop_first().push(v));
        assert(svals_of(s.push(v)) =~= svals_of(s).push(sval_of(v)));
    }
}

/// What went wrong while decoding bytes against a well-formed schema.
#[derive(Clone, Copy, Debug, PartialEq, Eq, Structural)]
pub enum DecodeErrorKind {
    /// Fewer bytes (or bits) remain than the next read needs.
    TruncatedInput,
    /// A literal byte tag or a bit pattern assertion did not match the input.
    TagMismatch,
    /// No dispatch arm of an enum claimed the observed discriminant.
    UnmatchedDiscriminant(u64),
    /// String bytes were not valid UTF-8.
    InvalidEncoding,
}

/// A decode-time error: its kind, the byte offset at which the failing read
/// started, and the name of the innermost field or variant being decoded when
/// the failure occurred, if any.
#[derive(Clone, Debug, PartialEq, Eq)]
pub struct DecodeError {
    pub kind: DecodeErrorKind,
    pub offset: usize,
    pub context: Option<String>,
}

/// Relies on `String::from_utf8` of std: it succeeds exactly on valid UTF-8
/// input, and the characters of the resulting string are the decoding of the
/// input bytes, as modelled by vstd's UTF-8 specification.
#[verifier::external_body]
pub fn utf8_to_string(bytes: Vec<u8>) -> (r: Option<String>)
    ensures
        r is Some <==> vstd::utf8::valid_utf8(bytes@),
        r matches Some(s) ==> s@ == vstd::utf8::decode_utf8(bytes@),
{
    match String::from_utf8(bytes) {
        Ok(s) => Some(s),
        Err(_) => None,
    }
}

/// Why a schema was rejected at compile time.  A rejected schema never yields
/// a decoding procedure.
#[derive(Clone, Copy, Debug, PartialEq, Eq, Structural)]
pub enum CompileError {
    /// A directive is not in the closed set recognized where it appears.
    UnrecognizedDirective,
    /// Two value-producing directives on one field, or two discriminant
    /// rules on one variant.
    ConflictingDirectives,
    /// A range was opened while another range was still open.
    NestedRange,
    /// A variant with no discriminant rule appeared while no range was open.
    UnanchoredVariant,
    /// A range skip appeared while no range was open.
    UnanchoredSkip,
    /// A range end appeared whose value is not the previous value plus one,
    /// or appeared while no range was open.
    RangeEndMismatch,
    /// An enum schema has no switch selector.
    MissingSwitchSelector,
    /// A delegated variant has nothing to match on.
    UnmatchableVariant,
    /// A discriminant computed by a range rule does not fit in 64 bits.
    DiscriminantOverflow,
}

} // verus!
