//! A binary schema compiler and its runtime decoders.
//!
//! A schema describes a struct (an ordered list of fields) or an enum (an
//! ordered list of variants plus a switch selector), each annotated with
//! decoding directives.  Compiling a schema checks it against the directive
//! rules and resolves every variant to concrete discriminant values; the
//! compiled schema then decodes byte buffers into structured values with a
//! fully specified, deterministic procedure.

use vstd::prelude::*;

pub mod compile;
pub mod decode;
pub mod nom_trait;
pub mod prim;
pub mod range;
pub mod schema;
pub mod value;

verus! {

/// Byte order used by the primitive decoders of a compiled unit.
#[derive(Clone, Copy, Debug, PartialEq, Eq, Structural)]
pub enum Endian {
    Little,
    Big,
}

impl Endian {
    /// The byte order of the hosts this library targets (little-endian).
    pub fn native() -> (r: Endian)
        ensures
            r == Endian::Little,
    {
        Endian::Little
    }

    /// Little-endian byte order.
    pub fn little() -> (r: Endian)
        ensures
            r == Endian::Little,
    {
        Endian::Little
    }

    /// Big-endian byte order.
    pub fn big() -> (r: Endian)
        ensures
            r == Endian::Big,
    {
        Endian::Big
    }
}

impl Default for Endian {
    fn default() -> (r: Endian)
        ensures
            r == Endian::Little,
    {
        Endian::Little
    }
}

/// Marker type for the per-unit configuration a host fixes before compiling
/// schemas: the byte order of the primitive decoders (`native`, `little` or
/// `big`), and the styles of the container decoders — length-prefixed
/// vectors and strings read one count byte and then that many elements.
pub struct Unit;

/// Marker type carrying the surface syntax of the directives.
///
/// On a variant:
///
/// ```text
/// #[snom(range(start = 1))]      open an auto-increment range at one
/// #[snom(range(skip))]           skip one value, take the next
/// #[snom(range(skip = 3))]       skip three values, take the next
/// #[snom(range(end = 10))]       close the range at ten
/// #[snom(val = 0x0F)]            match exactly this value
/// #[snom(values(1, 2, 3))]       match any of these values
/// #[snom(parser = "a::decoder")] delegate the body to a named decoder
/// #[snom(skip)]                  omit the variant from dispatch
/// ```
///
/// On a field:
///
/// ```text
/// #[snom(skip)]                  take the type's default, read nothing
/// #[snom(parser = "a::decoder")] decode the value with a named decoder
/// #[snom(bits(4))]               extract four bits
/// #[snom(bits(4, 0x3))]          extract four bits and assert the pattern
/// #[snom(tag(0x60))]             assert a literal byte sequence
/// #[snom(take(4))]               consume and discard four bytes
/// #[snom(call = "a::effect")]    run a sub-parser, discard its result
/// #[snom(debug)]                 log the decoded value; decode-inert
/// ```
pub struct Dummy;

} // verus!
