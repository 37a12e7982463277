//! The schema data model: element types, directives, field specs, variant
//! specs, and whole schemas, together with the classification of directives
//! that the compiler and the decoder share.

use vstd::prelude::*;

use crate::prim::PrimType;

verus! {

/// The declared type of a field: either a primitive with a base decoder, a
/// container over another element type, a UTF-8 string, or a nested schema.
#[derive(Debug)]
pub enum ElemType {
    Prim(PrimType),
    ListOf(Box<ElemType>),
    OptionOf(Box<ElemType>),
    Utf8Text,
    Nested(Box<Schema>),
}

/// One tokenized directive record, as the directive-extraction stage hands
/// it over.  Which records are recognized depends on whether they stand on a
/// field or on a variant.  A record whose name was not recognized at all is
/// carried as `Unknown` with its name.
#[derive(Debug)]
pub enum Directive {
    /// Field: produce the type's default value, consume nothing.
    /// Variant: omit the variant from the dispatch table.
    Skip,
    /// Consume and discard this many bytes.
    Take(u64),
    /// Extract this many bits from the bit cursor.
    Bits(u64),
    /// Extract bits and assert they equal the pattern.
    BitsPattern(u64, u64),
    /// Run a side-effecting sub-parser and discard its result.
    Call(Box<ElemType>),
    /// Assert that the next bytes equal this literal sequence.
    TagBytes(Vec<u8>),
    /// Assert that the named byte-sequence decoder accepts the next bytes.
    TagParser(Box<ElemType>),
    /// Field: decode the value with this decoder instead of the type's own.
    /// Variant: delegate the variant's body to this decoder.
    Parser(Box<ElemType>),
    /// Emit the decoded value to the host's log; decode-inert.
    Debug,
    /// Variant: match exactly this discriminant value.
    Val(u64),
    /// Variant: match any of these discriminant values.
    Values(Vec<u64>),
    /// Variant: open an auto-increment range at this value.
    RangeStart(u64),
    /// Variant: advance the open range, skipping the count (default one)
    /// values before this variant's own.
    RangeSkip(Option<u64>),
    /// Variant: close the open range; the value must be the previous one
    /// plus one.
    RangeEnd(u64),
    /// A directive name outside the closed set.
    Unknown(String),
}

/// One field of a struct or of a variant: its name, its declared element
/// type, and its directives in declaration order.
#[derive(Debug)]
pub struct FieldSpec {
    pub name: String,
    pub ty: ElemType,
    pub directives: Vec<Directive>,
}

/// One variant of an enum: its name, its fields, and its directives in
/// declaration order.
#[derive(Debug)]
pub struct VariantSpec {
    pub name: String,
    pub fields: Vec<FieldSpec>,
    pub directives: Vec<Directive>,
}

/// An ordered list of fields.
#[derive(Debug)]
pub struct StructSchema {
    pub fields: Vec<FieldSpec>,
}

/// An ordered list of variants plus the switch selector that reads the
/// discriminant.  A missing selector fails compilation.
#[derive(Debug)]
pub struct EnumSchema {
    pub selector: Option<PrimType>,
    pub variants: Vec<VariantSpec>,
}

/// A schema describes either a struct or an enum.
#[derive(Debug)]
pub enum Schema {
    Struct(StructSchema),
    Enum(EnumSchema),
}

/// Whether the directive names a discriminant match rule of a variant.
pub open spec fn d_is_match(d: Directive) -> bool {
    match d {
        Directive::Val(_)
        | Directive::Values(_)
        | Directive::RangeStart(_)
        | Directive::RangeSkip(_)
        | Directive::RangeEnd(_) => true,
        _ => false,
    }
}

/// Whether the directive produces the field's value.
pub open spec fn d_is_value(d: Directive) -> bool {
    match d {
        Directive::Skip | Directive::Parser(_) | Directive::Bits(_) | Directive::BitsPattern(
            _,
            _,
        ) => true,
        _ => false,
    }
}

/// The index of the first match-rule directive at or after `i`, if any.
pub open spec fn first_match_dir(ds: Seq<Directive>, i: int) -> Option<int>
    decreases ds.len() - i,
{
    if i < 0 || i >= ds.len() {
        None
    } else if d_is_match(ds[i]) {
        Some(i)
    } else {
        first_match_dir(ds, i + 1)
    }
}

/// The index of the first value-producing directive at or after `i`, if any.
pub open spec fn first_value_dir(ds: Seq<Directive>, i: int) -> Option<int>
    decreases ds.len() - i,
{
    if i < 0 || i >= ds.len() {
        None
    } else if d_is_value(ds[i]) {
        Some(i)
    } else {
        first_value_dir(ds, i + 1)
    }
}

/// The index of the first delegation (`Parser`) directive at or after `i`.
pub open spec fn first_parser_dir(ds: Seq<Directive>, i: int) -> Option<int>
    decreases ds.len() - i,
{
    if i < 0 || i >= ds.len() {
        None
    } else if ds[i] is Parser {
        Some(i)
    } else {
        first_parser_dir(ds, i + 1)
    }
}

/// Whether some directive is `Skip`.
pub open spec fn has_skip_dir(ds: Seq<Directive>) -> bool {
    exists|k: int| 0 <= k < ds.len() && ds[k] is Skip
}

/// Whether some directive is `Take`.
pub open spec fn has_take_dir(ds: Seq<Directive>) -> bool {
    exists|k: int| 0 <= k < ds.len() && ds[k] is Take
}

impl FieldSpec {
    /// The index of this field's value-producing directive, if it has one.
    pub fn find_value_directive(&self) -> (r: Option<usize>)
        ensures
            match r {
                Some(k) => first_value_dir(self.directives@, 0) == Some(k as int) && k
                    < self.directives@.len() && d_is_value(self.directives@[k as int]),
                None => first_value_dir(self.directives@, 0) is None,
            },
    {
        let mut i: usize = 0;
        while i < self.directives.len()
            invariant
                i <= self.directives@.len(),
                first_value_dir(self.directives@, 0) == first_value_dir(self.directives@, i as int),
            decreases self.directives@.len() - i,
        {
            match &self.directives[i] {
                Directive::Skip | Directive::Parser(_) | Directive::Bits(_)
                | Directive::BitsPattern(_, _) => {
                    return Some(i);
                },
                _ => {},
            }
            i = i + 1;
        }
        None
    }

    /// Whether the field carries a `Take` directive.
    pub fn has_take(&self) -> (r: bool)
        ensures
            r == has_take_dir(self.directives@),
    {
        let mut i: usize = 0;
        while i < self.directives.len()
            invariant
                i <= self.directives@.len(),
                forall|k: int| 0 <= k < i ==> !(self.directives@[k] is Take),
            decreases self.directives@.len() - i,
        {
            if let Directive::Take(_) = &self.directives[i] {
                return true;
            }
            i = i + 1;
        }
        false
    }
}

impl VariantSpec {
    /// The index of this variant's discriminant match directive, if any.
    pub fn find_match_directive(&self) -> (r: Option<usize>)
        ensures
            match r {
                Some(k) => first_match_dir(self.directives@, 0) == Some(k as int) && k
                    < self.directives@.len() && d_is_match(self.directives@[k as int]),
                None => first_match_dir(self.directives@, 0) is None,
            },
    {
        let mut i: usize = 0;
        while i < self.directives.len()
            invariant
                i <= self.directives@.len(),
                first_match_dir(self.directives@, 0) == first_match_dir(self.directives@, i as int),
            decreases self.directives@.len() - i,
        {
            match &self.directives[i] {
                Directive::Val(_) | Directive::Values(_) | Directive::RangeStart(_)
                | Directive::RangeSkip(_) | Directive::RangeEnd(_) => {
                    return Some(i);
                },
                _ => {},
            }
            i = i + 1;
        }
        None
    }

    /// The index of this variant's delegation directive, if any.
    pub fn find_parser_directive(&self) -> (r: Option<usize>)
        ensures
            match r {
                Some(k) => first_parser_dir(self.directives@, 0) == Some(k as int) && k
                    < self.directives@.len() && self.directives@[k as int] is Parser,
                None => first_parser_dir(self.directives@, 0) is None,
            },
    {
        let mut i: usize = 0;
        while i < self.directives.len()
            invariant
                i <= self.directives@.len(),
                first_parser_dir(self.directives@, 0) == first_parser_dir(
                    self.directives@,
                    i as int,
                ),
            decreases self.directives@.len() - i,
        {
            if let Directive::Parser(_) = &self.directives[i] {
                return Some(i);
            }
            i = i + 1;
        }
        None
    }

    /// Whether the variant is omitted from the dispatch table.
    pub fn is_skipped(&self) -> (r: bool)
        ensures
            r == has_skip_dir(self.directives@),
    {
        let mut i: usize = 0;
        while i < self.directives.len()
            invariant
                i <= self.directives@.len(),
                forall|k: int| 0 <= k < i ==> !(self.directives@[k] is Skip),
            decreases self.directives@.len() - i,
        {
            if let Directive::Skip = &self.directives[i] {
                return true;
            }
            i = i + 1;
        }
        false
    }
}

} // verus!
