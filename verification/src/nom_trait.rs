//! The runtime base decoders: a trait for types that decode themselves from a
//! byte buffer, with implementations for the primitive and container types
//! that compiled schemas bottom out in.
//!
//! All primitive implementations read little-endian, the byte order the
//! generated decoders of this library's hosts use by default.

use vstd::prelude::*;

use crate::prim::lemma_pow256_vals;
use crate::prim::lemma_word_le_bound;
use crate::prim::word_le;
use crate::value::DecodeErrorKind;
use crate::value::utf8_to_string;
use vstd::slice::slice_subrange;
use vstd::slice::slice_to_vec;
use vstd::utf8::decode_utf8;
use vstd::utf8::valid_utf8;

verus! {

/// A type that can be decoded from a byte buffer.
///
/// `snom_end` says where a decode starting at `pos` ends, or with which kind
/// of error it fails; `snom_val` says which value it yields.  `nom` is the
/// executable decoder, bound to both.
pub trait StructNom: Sized {
    /// The position just past the bytes the decode consumes, or its failure.
    spec fn snom_end(input: Seq<u8>, pos: int) -> Result<int, DecodeErrorKind>;

    /// Whether `v` is the value that decoding at `pos` yields.
    spec fn snom_val(input: Seq<u8>, pos: int, v: Self) -> bool;

    /// Decode one value of `Self` from `input` starting at `pos`.
    fn nom(input: &[u8], pos: usize) -> (r: Result<(usize, Self), DecodeErrorKind>)
        requires
            pos <= input@.len(),
        ensures
            match r {
                Ok(end_val) => {
                    &&& Self::snom_end(input@, pos as int) == Ok::<int, DecodeErrorKind>(
                        end_val.0 as int,
                    )
                    &&& pos <= end_val.0 <= input@.len()
                    &&& Self::snom_val(input@, pos as int, end_val.1)
                },
                Err(k) => Self::snom_end(input@, pos as int) == Err::<int, DecodeErrorKind>(k),
            },
    ;
}

impl StructNom for u8 {
    open spec fn snom_end(input: Seq<u8>, pos: int) -> Result<int, DecodeErrorKind> {
        if pos + 1 <= input.len() {
            Ok(pos + 1)
        } else {
            Err(DecodeErrorKind::TruncatedInput)
        }
    }

    open spec fn snom_val(input: Seq<u8>, pos: int, v: u8) -> bool {
        v == input[pos]
    }

    fn nom(input: &[u8], pos: usize) -> (r: Result<(usize, u8), DecodeErrorKind>) {
        if pos < input.len() {
            Ok((pos + 1, input[pos]))
        } else {
            Err(DecodeErrorKind::TruncatedInput)
        }
    }
}

impl StructNom for u32 {
    open spec fn snom_end(input: Seq<u8>, pos: int) -> Result<int, DecodeErrorKind> {
        if pos + 4 <= input.len() {
            Ok(pos + 4)
        } else {
            Err(DecodeErrorKind::TruncatedInput)
        }
    }

    open spec fn snom_val(input: Seq<u8>, pos: int, v: u32) -> bool {
        v as nat == word_le(input, pos, 4)
    }

    fn nom(input: &[u8], pos: usize) -> (r: Result<(usize, u32), DecodeErrorKind>) {
        if input.len() - pos >= 4 {
            let w: u64 = crate::prim::read_word(crate::Endian::Little, input, pos, 4);
            proof {
                lemma_word_le_bound(input@, pos as int, 4);
                lemma_pow256_vals();
            }
            Ok((pos + 4, w as u32))
        } else {
            Err(DecodeErrorKind::TruncatedInput)
        }
    }
}

/// Where decoding `n` consecutive values of `T` starting at `pos` ends.
pub open spec fn svec_end<T: StructNom>(input: Seq<u8>, pos: int, n: nat) -> Result<
    int,
    DecodeErrorKind,
>
    decreases n,
{
    if n == 0 {
        Ok(pos)
    } else {
        match T::snom_end(input, pos) {
            Ok(p2) => svec_end::<T>(input, p2, (n - 1) as nat),
            Err(k) => Err(k),
        }
    }
}

/// Whether `v` is the sequence of `n` values of `T` decoded consecutively
/// starting at `pos`.
pub open spec fn svec_val<T: StructNom>(input: Seq<u8>, pos: int, n: nat, v: Seq<T>) -> bool
    decreases n,
{
    if n == 0 {
        v.len() == 0
    } else {
        match T::snom_end(input, pos) {
            Ok(p2) => {
                &&& v.len() == n
                &&& T::snom_val(input, pos, v[0])
                &&& svec_val::<T>(input, p2, (n - 1) as nat, v.drop_first())
            },
            Err(_) => false,
        }
    }
}

/// Appending one more decoded element extends a consecutive decode by one.
pub proof fn lemma_svec_push<T: StructNom>(
    input: Seq<u8>,
    pos: int,
    j: nat,
    v: Seq<T>,
    w: T,
    cur: int,
    next: int,
)
    requires
        svec_end::<T>(input, pos, j) == Ok::<int, DecodeErrorKind>(cur),
        svec_val::<T>(input, pos, j, v),
        T::snom_end(input, cur) == Ok::<int, DecodeErrorKind>(next),
        T::snom_val(input, cur, w),
    ensures
        svec_end::<T>(input, pos, (j + 1) as nat) == Ok::<int, DecodeErrorKind>(next),
        svec_val::<T>(input, pos, (j + 1) as nat, v.push(w)),
    decreases j,
{
    reveal_with_fuel(svec_end, 3);
    reveal_with_fuel(svec_val, 3);
    if j == 0 {
        assert(v.push(w)[0] == w);
        assert(v.push(w).drop_first() =~= v);
    } else {
        if let Ok(p2) = T::snom_end(input, pos) {
            lemma_svec_push::<T>(input, p2, (j - 1) as nat, v.drop_first(), w, cur, next);
            assert(v.push(w).drop_first() =~= v.drop_first().push(w));
            assert(v.push(w)[0] == v[0]);
        }
    }
}

/// Decode a length-prefixed vector: one count byte, then exactly that many
/// values of `T`.
pub fn parse_vec<T: StructNom>(input: &[u8], pos: usize) -> (r: Result<
    (usize, Vec<T>),
    DecodeErrorKind,
>)
    requires
        pos <= input@.len(),
    ensures
        match r {
            Ok(end_val) => {
                &&& <Vec<T> as StructNom>::snom_end(input@, pos as int) == Ok::<
                    int,
                    DecodeErrorKind,
                >(end_val.0 as int)
                &&& pos <= end_val.0 <= input@.len()
                &&& <Vec<T> as StructNom>::snom_val(input@, pos as int, end_val.1)
            },
            Err(k) => <Vec<T> as StructNom>::snom_end(input@, pos as int) == Err::<
                int,
                DecodeErrorKind,
            >(k),
        },
{
    if pos >= input.len() {
        return Err(DecodeErrorKind::TruncatedInput);
    }
    let n: usize = input[pos] as usize;
    let mut out: Vec<T> = Vec::new();
    let mut cur: usize = pos + 1;
    let mut j: usize = 0;
    while j < n
        invariant
            j <= n,
            n < 256,
            pos < input@.len(),
            n == input@[pos as int],
            pos + 1 <= cur <= input@.len(),
            svec_end::<T>(input@, pos + 1, j as nat) == Ok::<int, DecodeErrorKind>(cur as int),
            svec_val::<T>(input@, pos + 1, j as nat, out@),
        decreases n - j,
    {
        match T::nom(input, cur) {
            Ok((next, w)) => {
                proof {
                    lemma_svec_push::<T>(
                        input@,
                        pos + 1,
                        j as nat,
                        out@,
                        w,
                        cur as int,
                        next as int,
                    );
                }
                out.push(w);
                cur = next;
                j = j + 1;
            },
            Err(k) => {
                proof {
                    lemma_svec_end_split::<T>(input@, pos + 1, j as nat, n as nat, cur as int);
                }
                return Err(k);
            },
        }
    }
    Ok((cur, out))
}

/// A successful consecutive decode of a prefix lets the rest be decoded from
/// where the prefix ended.
pub proof fn lemma_svec_end_split<T: StructNom>(input: Seq<u8>, pos: int, j: nat, n: nat, cur: int)
    requires
        j <= n,
        svec_end::<T>(input, pos, j) == Ok::<int, DecodeErrorKind>(cur),
    ensures
        svec_end::<T>(input, pos, n) == svec_end::<T>(input, cur, (n - j) as nat),
    decreases j,
{
    if j > 0 {
        if let Ok(p2) = T::snom_end(input, pos) {
            lemma_svec_end_split::<T>(input, p2, (j - 1) as nat, (n - 1) as nat, cur);
        }
    }
}

impl<T: StructNom> StructNom for Vec<T> {
    open spec fn snom_end(input: Seq<u8>, pos: int) -> Result<int, DecodeErrorKind> {
        if pos + 1 <= input.len() {
            svec_end::<T>(input, pos + 1, input[pos] as nat)
        } else {
            Err(DecodeErrorKind::TruncatedInput)
        }
    }

    open spec fn snom_val(input: Seq<u8>, pos: int, v: Vec<T>) -> bool {
        pos + 1 <= input.len() && svec_val::<T>(input, pos + 1, input[pos] as nat, v@)
    }

    fn nom(input: &[u8], pos: usize) -> (r: Result<(usize, Vec<T>), DecodeErrorKind>) {
        parse_vec::<T>(input, pos)
    }
}

impl<T: StructNom> StructNom for Option<T> {
    open spec fn snom_end(input: Seq<u8>, pos: int) -> Result<int, DecodeErrorKind> {
        match T::snom_end(input, pos) {
            Ok(e) => Ok(e),
            Err(_) => Ok(pos),
        }
    }

    open spec fn snom_val(input: Seq<u8>, pos: int, v: Option<T>) -> bool {
        match T::snom_end(input, pos) {
            Ok(_) => v matches Some(w) && T::snom_val(input, pos, w),
            Err(_) => v is None,
        }
    }

    fn nom(input: &[u8], pos: usize) -> (r: Result<(usize, Option<T>), DecodeErrorKind>) {
        match T::nom(input, pos) {
            Ok((end, w)) => Ok((end, Some(w))),
            Err(_) => Ok((pos, None)),
        }
    }
}

impl StructNom for String {
    open spec fn snom_end(input: Seq<u8>, pos: int) -> Result<int, DecodeErrorKind> {
        if pos + 1 <= input.len() {
            let n = input[pos] as int;
            if pos + 1 + n <= input.len() {
                if valid_utf8(input.subrange(pos + 1, pos + 1 + n)) {
                    Ok(pos + 1 + n)
                } else {
                    Err(DecodeErrorKind::InvalidEncoding)
                }
            } else {
                Err(DecodeErrorKind::TruncatedInput)
            }
        } else {
            Err(DecodeErrorKind::TruncatedInput)
        }
    }

    open spec fn snom_val(input: Seq<u8>, pos: int, v: String) -> bool {
        pos + 1 <= input.len() && v@ == decode_utf8(
            input.subrange(pos + 1, pos + 1 + input[pos]),
        )
    }

    fn nom(input: &[u8], pos: usize) -> (r: Result<(usize, String), DecodeErrorKind>) {
        if pos >= input.len() {
            return Err(DecodeErrorKind::TruncatedInput);
        }
        let n: usize = input[pos] as usize;
        if n > input.len() - (pos + 1) {
            return Err(DecodeErrorKind::TruncatedInput);
        }
        let bytes: Vec<u8> = slice_to_vec(slice_subrange(input, pos + 1, pos + 1 + n));
        match utf8_to_string(bytes) {
            Some(s) => Ok((pos + 1 + n, s)),
            None => Err(DecodeErrorKind::InvalidEncoding),
        }
    }
}

/// A hand-written decoder in the shape the compiled ones take: it asserts the
/// byte tag `0x60` and yields a pair of unit values.
pub fn nom(input: &[u8], pos: usize) -> (r: Result<(usize, ((), ())), DecodeErrorKind>)
    requires
        pos <= input@.len(),
    ensures
        pos < input@.len() && input@[pos as int] == 0x60 ==> r == Ok::<_, DecodeErrorKind>(
            ((pos + 1) as usize, ((), ())),
        ),
        pos == input@.len() ==> r == Err::<(usize, ((), ())), _>(DecodeErrorKind::TruncatedInput),
        pos < input@.len() && input@[pos as int] != 0x60 ==> r == Err::<
            (usize, ((), ())),
            _,
        >(DecodeErrorKind::TagMismatch),
{
    if pos >= input.len() {
        Err(DecodeErrorKind::TruncatedInput)
    } else if input[pos] == 0x60 {
        Ok((pos + 1, ((), ())))
    } else {
        Err(DecodeErrorKind::TagMismatch)
    }
}

} // verus!
