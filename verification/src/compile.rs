//! The schema compiler's front half: the compile-time checks.  A schema that
//! passes them — every directive recognized where it stands, at most one
//! value producer per field, at most one discriminant rule per variant, a
//! switch selector on every enum, and a consistent range assignment — is
//! wrapped as a `CompiledSchema`, whose decode procedure lives in the
//! decoding module.

use vstd::prelude::*;

use crate::Endian;
use crate::range::s_assign;
use crate::range::assign_arms;
use crate::schema::Directive;
use crate::schema::ElemType;
use crate::schema::EnumSchema;
use crate::schema::FieldSpec;
use crate::schema::Schema;
use crate::schema::VariantSpec;
use crate::value::CompileError;
use crate::value::DecodeError;
use crate::value::Value;

verus! {

/// The checks on one field directive: whether it is recognized on a field,
/// whether its argument and payload are sound, and whether it collides with
/// an earlier value producer (`seen` in, updated flag out).
pub open spec fn sc_field_dir(d: Directive, seen: bool) -> Result<bool, CompileError>
    decreases d, 0int, 0int,
{
    match d {
        Directive::Skip => {
            if seen {
                Err(CompileError::ConflictingDirectives)
            } else {
                Ok(true)
            }
        },
        Directive::Parser(t) => {
            if seen {
                Err(CompileError::ConflictingDirectives)
            } else {
                match sc_elem(*t) {
                    Ok(u) => Ok(true),
                    Err(e) => Err(e),
                }
            }
        },
        Directive::Bits(c) => {
            if seen {
                Err(CompileError::ConflictingDirectives)
            } else if c <= 64 {
                Ok(true)
            } else {
                Err(CompileError::UnrecognizedDirective)
            }
        },
        Directive::BitsPattern(c, _) => {
            if seen {
                Err(CompileError::ConflictingDirectives)
            } else if c <= 64 {
                Ok(true)
            } else {
                Err(CompileError::UnrecognizedDirective)
            }
        },
        Directive::Take(_) => Ok(seen),
        Directive::Debug => Ok(seen),
        Directive::TagBytes(_) => Ok(seen),
        Directive::Call(t) => match sc_elem(*t) {
            Ok(u) => Ok(seen),
            Err(e) => Err(e),
        },
        Directive::TagParser(t) => match sc_elem(*t) {
            Ok(u) => Ok(seen),
            Err(e) => Err(e),
        },
        _ => Err(CompileError::UnrecognizedDirective),
    }
}

/// The checks on a field's directives from `i` on, with `seen` saying
/// whether a value producer stood earlier.
pub open spec fn sc_field_dirs(ds: Seq<Directive>, i: int, seen: bool) -> Result<(), CompileError>
    decreases ds, ds.len() - i, 1int,
{
    if i < 0 || i >= ds.len() {
        Ok(())
    } else {
        match sc_field_dir(ds[i], seen) {
            Ok(s2) => sc_field_dirs(ds, i + 1, s2),
            Err(e) => Err(e),
        }
    }
}

/// The checks on one field: its directives, then its element type.
pub open spec fn sc_field(f: FieldSpec) -> Result<(), CompileError>
    decreases f, 0int, 2int,
{
    match sc_field_dirs(f.directives@, 0, false) {
        Ok(u) => sc_elem(f.ty),
        Err(e) => Err(e),
    }
}

/// The checks on the fields from `i` on.
pub open spec fn sc_fields(fs: Seq<FieldSpec>, i: int) -> Result<(), CompileError>
    decreases fs, fs.len() - i, 3int,
{
    if i < 0 || i >= fs.len() {
        Ok(())
    } else {
        match sc_field(fs[i]) {
            Ok(u) => sc_fields(fs, i + 1),
            Err(e) => Err(e),
        }
    }
}

/// The checks on one variant directive: recognized on a variant, at most one
/// discriminant rule, at most one delegation.
pub open spec fn sc_variant_dir(d: Directive, sm: bool, sp: bool) -> Result<
    (bool, bool),
    CompileError,
>
    decreases d, 0int, 0int,
{
    match d {
        Directive::Val(_) | Directive::Values(_) | Directive::RangeStart(_)
        | Directive::RangeSkip(_) | Directive::RangeEnd(_) => {
            if sm {
                Err(CompileError::ConflictingDirectives)
            } else {
                Ok((true, sp))
            }
        },
        Directive::Parser(t) => {
            if sp {
                Err(CompileError::ConflictingDirectives)
            } else {
                match sc_elem(*t) {
                    Ok(u) => Ok((sm, true)),
                    Err(e) => Err(e),
                }
            }
        },
        Directive::Skip => Ok((sm, sp)),
        _ => Err(CompileError::UnrecognizedDirective),
    }
}

/// The checks on a variant's directives from `i` on.
pub open spec fn sc_variant_dirs(ds: Seq<Directive>, i: int, sm: bool, sp: bool) -> Result<
    (),
    CompileError,
>
    decreases ds, ds.len() - i, 1int,
{
    if i < 0 || i >= ds.len() {
        Ok(())
    } else {
        match sc_variant_dir(ds[i], sm, sp) {
            Ok(s2) => sc_variant_dirs(ds, i + 1, s2.0, s2.1),
            Err(e) => Err(e),
        }
    }
}

/// The checks on one variant: its directives, then its fields.
pub open spec fn sc_variant(v: VariantSpec) -> Result<(), CompileError>
    decreases v, 0int, 2int,
{
    match sc_variant_dirs(v.directives@, 0, false, false) {
        Ok(u) => sc_fields(v.fields@, 0),
        Err(e) => Err(e),
    }
}

/// The checks on the variants from `i` on.
pub open spec fn sc_variants(vs: Seq<VariantSpec>, i: int) -> Result<(), CompileError>
    decreases vs, vs.len() - i, 3int,
{
    if i < 0 || i >= vs.len() {
        Ok(())
    } else {
        match sc_variant(vs[i]) {
            Ok(u) => sc_variants(vs, i + 1),
            Err(e) => Err(e),
        }
    }
}

/// The checks on an element type: recurse into containers and nested schemas.
pub open spec fn sc_elem(ty: ElemType) -> Result<(), CompileError>
    decreases ty, 0int, 0int,
{
    match ty {
        ElemType::Prim(_) => Ok(()),
        ElemType::Utf8Text => Ok(()),
        ElemType::ListOf(b) => sc_elem(*b),
        ElemType::OptionOf(b) => sc_elem(*b),
        ElemType::Nested(s) => sc_schema(*s),
    }
}

/// The checks on a whole schema.  A struct checks its fields in order.  An
/// enum first needs its switch selector, then checks its variants in order,
/// then resolves the discriminant assignment.
pub open spec fn sc_schema(s: Schema) -> Result<(), CompileError>
    decreases s, 0int, 4int,
{
    match s {
        Schema::Struct(ss) => sc_fields(ss.fields@, 0),
        Schema::Enum(es) => {
            if es.selector is None {
                Err(CompileError::MissingSwitchSelector)
            } else {
                match sc_variants(es.variants@, 0) {
                    Ok(u) => match s_assign(es.variants@) {
                        Ok(arms) => Ok(()),
                        Err(e) => Err(e),
                    },
                    Err(e) => Err(e),
                }
            }
        },
    }
}

/// Check one element type.
pub fn check_elem(ty: &ElemType) -> (r: Result<(), CompileError>)
    ensures
        r == sc_elem(*ty),
    decreases *ty, 0int, 0int,
{
    match ty {
        ElemType::Prim(_) => Ok(()),
        ElemType::Utf8Text => Ok(()),
        ElemType::ListOf(b) => check_elem(b),
        ElemType::OptionOf(b) => check_elem(b),
        ElemType::Nested(s) => check_schema(s),
    }
}

/// Check one field.
pub fn check_field(f: &FieldSpec) -> (r: Result<(), CompileError>)
    ensures
        r == sc_field(*f),
    decreases *f, 0int, 2int,
{
    let ds = &f.directives;
    let mut seen: bool = false;
    let mut i: usize = 0;
    while i < ds.len()
        invariant
            i <= ds@.len(),
            ds == &f.directives,
            sc_field_dirs(ds@, 0, false) == sc_field_dirs(ds@, i as int, seen),
        decreases ds@.len() - i, 1int,
    {
        let ghost old_seen = seen;
        match &ds[i] {
            Directive::Skip => {
                if seen {
                    return Err(CompileError::ConflictingDirectives);
                }
                seen = true;
            },
            Directive::Parser(t) => {
                if seen {
                    return Err(CompileError::ConflictingDirectives);
                }
                if let Err(e) = check_elem(t) {
                    return Err(e);
                }
                seen = true;
            },
            Directive::Bits(c) => {
                if seen {
                    return Err(CompileError::ConflictingDirectives);
                }
                if !(*c <= 64) {
                    return Err(CompileError::UnrecognizedDirective);
                }
                seen = true;
            },
            Directive::BitsPattern(c, _) => {
                if seen {
                    return Err(CompileError::ConflictingDirectives);
                }
                if !(*c <= 64) {
                    return Err(CompileError::UnrecognizedDirective);
                }
                seen = true;
            },
            Directive::Take(_) => {},
            Directive::Debug => {},
            Directive::TagBytes(_) => {},
            Directive::Call(t) => {
                if let Err(e) = check_elem(t) {
                    return Err(e);
                }
            },
            Directive::TagParser(t) => {
                if let Err(e) = check_elem(t) {
                    return Err(e);
                }
            },
            _ => {
                return Err(CompileError::UnrecognizedDirective);
            },
        }
        proof {
            assert(sc_field_dir(ds@[i as int], old_seen) == Ok::<bool, CompileError>(seen));
        }
        i = i + 1;
    }
    check_elem(&f.ty)
}

/// Check a list of fields.
pub fn check_fields(fs: &Vec<FieldSpec>) -> (r: Result<(), CompileError>)
    ensures
        r == sc_fields(fs@, 0),
    decreases fs@, 0int, 3int,
{
    let mut i: usize = 0;
    while i < fs.len()
        invariant
            i <= fs@.len(),
            sc_fields(fs@, 0) == sc_fields(fs@, i as int),
        decreases fs@.len() - i, 1int,
    {
        if let Err(e) = check_field(&fs[i]) {
            return Err(e);
        }
        i = i + 1;
    }
    Ok(())
}

/// Check one variant.
pub fn check_variant(v: &VariantSpec) -> (r: Result<(), CompileError>)
    ensures
        r == sc_variant(*v),
    decreases *v, 0int, 2int,
{
    let ds = &v.directives;
    let mut sm: bool = false;
    let mut sp: bool = false;
    let mut i: usize = 0;
    while i < ds.len()
        invariant
            i <= ds@.len(),
            ds == &v.directives,
            sc_variant_dirs(ds@, 0, false, false) == sc_variant_dirs(ds@, i as int, sm, sp),
        decreases ds@.len() - i, 1int,
    {
        let ghost old_sm = sm;
        let ghost old_sp = sp;
        match &ds[i] {
            Directive::Val(_) | Directive::Values(_) | Directive::RangeStart(_)
            | Directive::RangeSkip(_) | Directive::RangeEnd(_) => {
                if sm {
                    return Err(CompileError::ConflictingDirectives);
                }
                sm = true;
            },
            Directive::Parser(t) => {
                if sp {
                    return Err(CompileError::ConflictingDirectives);
                }
                if let Err(e) = check_elem(t) {
                    return Err(e);
                }
                sp = true;
            },
            Directive::Skip => {},
            _ => {
                return Err(CompileError::UnrecognizedDirective);
            },
        }
        proof {
            assert(sc_variant_dir(ds@[i as int], old_sm, old_sp) == Ok::<
                (bool, bool),
                CompileError,
            >((sm, sp)));
        }
        i = i + 1;
    }
    check_fields(&v.fields)
}

/// Check a list of variants.
pub fn check_variants(vs: &Vec<VariantSpec>) -> (r: Result<(), CompileError>)
    ensures
        r == sc_variants(vs@, 0),
    decreases vs@, 0int, 3int,
{
    let mut i: usize = 0;
    while i < vs.len()
        invariant
            i <= vs@.len(),
            sc_variants(vs@, 0) == sc_variants(vs@, i as int),
        decreases vs@.len() - i, 1int,
    {
        if let Err(e) = check_variant(&vs[i]) {
            return Err(e);
        }
        i = i + 1;
    }
    Ok(())
}

/// Check a whole schema.
pub fn check_schema(s: &Schema) -> (r: Result<(), CompileError>)
    ensures
        r == sc_schema(*s),
    decreases *s, 0int, 4int,
{
    match s {
        Schema::Struct(ss) => check_fields(&ss.fields),
        Schema::Enum(es) => {
            if es.selector.is_none() {
                return Err(CompileError::MissingSwitchSelector);
            }
            if let Err(e) = check_variants(&es.variants) {
                return Err(e);
            }
            match assign_arms(&es.variants) {
                Ok(_) => Ok(()),
                Err(e) => Err(e),
            }
        },
    }
}

/// The facts about a single directive that the compile-time checks imply:
/// its decoder payload, if it has one, is itself well-formed, and a bit
/// count fits a 64-bit value.
pub open spec fn dir_payload_wf(d: Directive) -> bool {
    match d {
        Directive::Parser(t) => sc_elem(*t) is Ok,
        Directive::Call(t) => sc_elem(*t) is Ok,
        Directive::TagParser(t) => sc_elem(*t) is Ok,
        Directive::Bits(c) => c <= 64,
        Directive::BitsPattern(c, _) => c <= 64,
        _ => true,
    }
}

/// Field directives that pass the checks all have well-formed payloads.
pub proof fn lemma_sc_field_dirs_each(ds: Seq<Directive>, i: int, seen: bool)
    requires
        0 <= i,
        sc_field_dirs(ds, i, seen) is Ok,
    ensures
        forall|j: int| i <= j < ds.len() ==> dir_payload_wf(#[trigger] ds[j]),
    decreases ds.len() - i,
{
    if i < ds.len() {
        if let Ok(s2) = sc_field_dir(ds[i], seen) {
            lemma_sc_field_dirs_each(ds, i + 1, s2);
        }
    }
}

/// Fields that pass the checks pass them one by one.
pub proof fn lemma_sc_fields_each(fs: Seq<FieldSpec>, i: int)
    requires
        0 <= i,
        sc_fields(fs, i) is Ok,
    ensures
        forall|j: int| i <= j < fs.len() ==> sc_field(#[trigger] fs[j]) is Ok,
    decreases fs.len() - i,
{
    if i < fs.len() {
        lemma_sc_fields_each(fs, i + 1);
    }
}

/// Variant directives that pass the checks all have well-formed payloads.
pub proof fn lemma_sc_variant_dirs_each(ds: Seq<Directive>, i: int, sm: bool, sp: bool)
    requires
        0 <= i,
        sc_variant_dirs(ds, i, sm, sp) is Ok,
    ensures
        forall|j: int| i <= j < ds.len() ==> dir_payload_wf(#[trigger] ds[j]),
    decreases ds.len() - i,
{
    if i < ds.len() {
        if let Ok(s2) = sc_variant_dir(ds[i], sm, sp) {
            lemma_sc_variant_dirs_each(ds, i + 1, s2.0, s2.1);
        }
    }
}

/// Variants that pass the checks pass them one by one.
pub proof fn lemma_sc_variants_each(vs: Seq<VariantSpec>, i: int)
    requires
        0 <= i,
        sc_variants(vs, i) is Ok,
    ensures
        forall|j: int| i <= j < vs.len() ==> sc_variant(#[trigger] vs[j]) is Ok,
    decreases vs.len() - i,
{
    if i < vs.len() {
        lemma_sc_variants_each(vs, i + 1);
    }
}

/// A schema that passed compilation, together with the byte order its
/// primitive reads use.  Only `compile` produces one, so every value of this
/// type carries a well-formed schema.
#[derive(Debug)]
pub struct CompiledSchema {
    schema: Schema,
    endian: Endian,
}

impl CompiledSchema {
    /// The invariant: the wrapped schema passed every compile-time check.
    #[verifier::type_invariant]
    pub closed spec fn well_formed(self) -> bool {
        sc_schema(self.schema) is Ok
    }

    /// The wrapped schema.
    pub closed spec fn spec_schema(self) -> Schema {
        self.schema
    }

    /// The configured byte order.
    pub closed spec fn spec_endian(self) -> Endian {
        self.endian
    }

    /// The configured byte order.
    pub fn get_endian(&self) -> (r: Endian)
        ensures
            r == self.spec_endian(),
    {
        self.endian
    }

    /// The wrapped schema.
    pub fn get_schema(&self) -> (r: &Schema)
        ensures
            *r == self.spec_schema(),
    {
        &self.schema
    }

    /// Decode one value against this schema from the start of `input`.
    ///
    /// The result is a function of the schema, the byte order and the bytes
    /// alone: it equals the specification `s_schema`, so decoding the same
    /// bytes twice yields the same value and the same consumed length.  On
    /// success the returned position is the number of bytes consumed; on
    /// failure the error names the kind, the offset of the failing read, and
    /// the innermost field or variant being decoded.
    pub fn decode(&self, input: &[u8]) -> (r: Result<(usize, Value), DecodeError>)
        ensures
            crate::decode::dres_of(r) == crate::decode::s_schema(
                self.spec_schema(),
                self.spec_endian(),
                input@,
                0,
            ),
            r matches Ok(ev) ==> ev.0 <= input@.len(),
    {
        proof {
            use_type_invariant(self);
        }
        crate::decode::decode_schema(&self.schema, self.endian, input, 0)
    }
}

/// An enum schema without a switch selector fails compilation with
/// `MissingSwitchSelector`, whatever its variants hold: the failure is
/// decided before any byte is read, and no decoding procedure exists for
/// such a schema.
pub proof fn lemma_missing_selector(es: EnumSchema)
    requires
        es.selector is None,
    ensures
        sc_schema(Schema::Enum(es)) == Err::<(), CompileError>(CompileError::MissingSwitchSelector),
{
}

/// Compile a schema: run every compile-time check, and wrap the schema with
/// the byte order on success.  A rejected schema yields the error that the
/// checks, read in declaration order, hit first; no decoding procedure is
/// produced for it.
pub fn compile(schema: Schema, endian: Endian) -> (r: Result<CompiledSchema, CompileError>)
    ensures
        match r {
            Ok(c) => sc_schema(schema) is Ok && c.spec_schema() == schema && c.spec_endian()
                == endian,
            Err(e) => sc_schema(schema) == Err::<(), CompileError>(e),
        },
{
    match check_schema(&schema) {
        Ok(_) => Ok(CompiledSchema { schema, endian }),
        Err(e) => Err(e),
    }
}

} // verus!
