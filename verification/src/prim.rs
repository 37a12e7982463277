//! Primitive base decoders: fixed-width integers in either byte order, and
//! bit-level extraction for bit-field directives.

use vstd::prelude::*;

use crate::Endian;
use crate::value::SVal;
use crate::value::Value;

verus! {

/// A fixed-width primitive read from the input.
#[derive(Clone, Copy, Debug, PartialEq, Eq, Structural)]
pub enum PrimType {
    U8,
    U16,
    U32,
    U64,
    I8,
    I16,
    I32,
    I64,
}

/// How many bytes a primitive occupies.
pub open spec fn prim_width(p: PrimType) -> nat {
    match p {
        PrimType::U8 => 1,
        PrimType::U16 => 2,
        PrimType::U32 => 4,
        PrimType::U64 => 8,
        PrimType::I8 => 1,
        PrimType::I16 => 2,
        PrimType::I32 => 4,
        PrimType::I64 => 8,
    }
}

/// Whether the primitive is interpreted as a two's-complement signed value.
pub open spec fn prim_signed(p: PrimType) -> bool {
    match p {
        PrimType::I8 | PrimType::I16 | PrimType::I32 | PrimType::I64 => true,
        _ => false,
    }
}

impl PrimType {
    /// How many bytes this primitive occupies.
    pub fn width(&self) -> (w: usize)
        ensures
            w == prim_width(*self),
    {
        match self {
            PrimType::U8 => 1,
            PrimType::U16 => 2,
            PrimType::U32 => 4,
            PrimType::U64 => 8,
            PrimType::I8 => 1,
            PrimType::I16 => 2,
            PrimType::I32 => 4,
            PrimType::I64 => 8,
        }
    }
}

/// 256 to the power `k`.
pub open spec fn pow256(k: nat) -> nat
    decreases k,
{
    if k == 0 {
        1
    } else {
        256 * pow256((k - 1) as nat)
    }
}

/// 2 to the power `k`.
pub open spec fn pow2(k: nat) -> nat
    decreases k,
{
    if k == 0 {
        1
    } else {
        2 * pow2((k - 1) as nat)
    }
}

/// `pow2` does not decrease.
pub proof fn lemma_pow2_le(a: nat, b: nat)
    requires
        a <= b,
    ensures
        pow2(a) <= pow2(b),
    decreases b,
{
    if a < b && b > 0 {
        lemma_pow2_le(a, (b - 1) as nat);
    }
}

/// The value of the `w` bytes starting at `pos`, little-endian.
pub open spec fn word_le(input: Seq<u8>, pos: int, w: nat) -> nat
    recommends
        0 <= pos,
        pos + w <= input.len(),
    decreases w,
{
    if w == 0 {
        0
    } else {
        (input[pos] as nat) + 256 * word_le(input, pos + 1, (w - 1) as nat)
    }
}

/// The value of the `w` bytes starting at `pos`, big-endian.
pub open spec fn word_be(input: Seq<u8>, pos: int, w: nat) -> nat
    recommends
        0 <= pos,
        pos + w <= input.len(),
    decreases w,
{
    if w == 0 {
        0
    } else {
        word_be(input, pos, (w - 1) as nat) * 256 + (input[pos + w - 1] as nat)
    }
}

/// The value of the `w` bytes starting at `pos` in byte order `e`.
pub open spec fn word_at(e: Endian, input: Seq<u8>, pos: int, w: nat) -> nat {
    match e {
        Endian::Little => word_le(input, pos, w),
        Endian::Big => word_be(input, pos, w),
    }
}

/// A little-endian word of `w` bytes is below `256^w`.
pub proof fn lemma_word_le_bound(input: Seq<u8>, pos: int, w: nat)
    requires
        0 <= pos,
        pos + w <= input.len(),
    ensures
        word_le(input, pos, w) < pow256(w),
    decreases w,
{
    if w > 0 {
        lemma_word_le_bound(input, pos + 1, (w - 1) as nat);
    }
}

/// A big-endian word of `w` bytes is below `256^w`.
pub proof fn lemma_word_be_bound(input: Seq<u8>, pos: int, w: nat)
    requires
        0 <= pos,
        pos + w <= input.len(),
    ensures
        word_be(input, pos, w) < pow256(w),
    decreases w,
{
    if w > 0 {
        lemma_word_be_bound(input, pos, (w - 1) as nat);
    }
}

/// A word of any byte order is below `256^w`.
pub proof fn lemma_word_bound(e: Endian, input: Seq<u8>, pos: int, w: nat)
    requires
        0 <= pos,
        pos + w <= input.len(),
    ensures
        word_at(e, input, pos, w) < pow256(w),
{
    match e {
        Endian::Little => lemma_word_le_bound(input, pos, w),
        Endian::Big => lemma_word_be_bound(input, pos, w),
    }
}

/// `pow256` does not decrease.
pub proof fn lemma_pow256_le(a: nat, b: nat)
    requires
        a <= b,
    ensures
        pow256(a) <= pow256(b),
    decreases b,
{
    if a < b && b > 0 {
        lemma_pow256_le(a, (b - 1) as nat);
    }
}

/// The concrete values of `pow256` at the widths that matter for 64-bit words.
pub proof fn lemma_pow256_vals()
    ensures
        pow256(1) == 0x100,
        pow256(2) == 0x1_0000,
        pow256(4) == 0x1_0000_0000,
        pow256(7) == 0x100_0000_0000_0000,
        pow256(8) == 0x1_0000_0000_0000_0000,
{
    reveal_with_fuel(pow256, 9);
}

/// Read the `w`-byte word at `pos` in byte order `e`.
pub fn read_word(e: Endian, input: &[u8], pos: usize, w: usize) -> (r: u64)
    requires
        pos + w <= input@.len(),
        w <= 8,
    ensures
        r as nat == word_at(e, input@, pos as int, w as nat),
{
    let n: usize = input.len();
    match e {
        Endian::Little => {
            let mut acc: u64 = 0;
            let mut i: usize = w;
            while i > 0
                invariant
                    i <= w,
                    pos + w <= n,
                    n == input@.len(),
                    w <= 8,
                    acc as nat == word_le(input@, pos + i, (w - i) as nat),
                decreases i,
            {
                i = i - 1;
                proof {
                    lemma_word_le_bound(input@, pos + i + 1, (w - i - 1) as nat);
                    lemma_pow256_le((w - i - 1) as nat, 7);
                    lemma_pow256_vals();
                }
                acc = acc * 256 + input[pos + i] as u64;
            }
            acc
        },
        Endian::Big => {
            let mut acc: u64 = 0;
            let mut i: usize = 0;
            while i < w
                invariant
                    i <= w,
                    pos + w <= n,
                    n == input@.len(),
                    w <= 8,
                    acc as nat == word_be(input@, pos as int, i as nat),
                decreases w - i,
            {
                proof {
                    lemma_word_be_bound(input@, pos as int, i as nat);
                    lemma_pow256_le(i as nat, 7);
                    lemma_pow256_vals();
                }
                acc = acc * 256 + input[pos + i] as u64;
                i = i + 1;
            }
            acc
        },
    }
}

/// The two's-complement reading of a word of `width` bytes.
pub open spec fn signed_of(w: nat, width: nat) -> int
    recommends
        w < pow256(width),
{
    if 2 * w < pow256(width) {
        w as int
    } else {
        w - pow256(width)
    }
}

/// The value a primitive read at `pos` produces, assuming enough bytes remain.
pub open spec fn prim_sval(p: PrimType, e: Endian, input: Seq<u8>, pos: int) -> SVal
    recommends
        0 <= pos,
        pos + prim_width(p) <= input.len(),
{
    let w = word_at(e, input, pos, prim_width(p));
    if prim_signed(p) {
        SVal::Int(signed_of(w, prim_width(p)) as i64)
    } else {
        SVal::Uint(w as u64)
    }
}

/// Read the primitive at `pos`; the caller has checked that enough bytes remain.
pub fn read_prim(p: PrimType, e: Endian, input: &[u8], pos: usize) -> (r: Value)
    requires
        pos + prim_width(p) <= input@.len(),
    ensures
        crate::value::sval_of(r) == prim_sval(p, e, input@, pos as int),
{
    let width: usize = p.width();
    let w: u64 = read_word(e, input, pos, width);
    proof {
        lemma_word_bound(e, input@, pos as int, width as nat);
        lemma_pow256_le(width as nat, 8);
        lemma_pow256_vals();
    }
    match p {
        PrimType::U8 | PrimType::U16 | PrimType::U32 | PrimType::U64 => Value::Uint(w),
        PrimType::I8 => {
            if w < 0x80 {
                Value::Int(w as i64)
            } else {
                Value::Int(w as i64 - 0x100)
            }
        },
        PrimType::I16 => {
            if w < 0x8000 {
                Value::Int(w as i64)
            } else {
                Value::Int(w as i64 - 0x1_0000)
            }
        },
        PrimType::I32 => {
            if w < 0x8000_0000 {
                Value::Int(w as i64)
            } else {
                Value::Int(w as i64 - 0x1_0000_0000)
            }
        },
        PrimType::I64 => {
            if w < 0x8000_0000_0000_0000 {
                Value::Int(w as i64)
            } else {
                let d: u64 = w - 0x8000_0000_0000_0000;
                Value::Int(d as i64 + i64::MIN)
            }
        },
    }
}

/// The bit at flat bit index `bp`, counting bits of each byte from the most
/// significant down.
pub open spec fn bit_at(input: Seq<u8>, bp: int) -> u64
    recommends
        0 <= bp,
        bp < 8 * input.len(),
{
    ((input[bp / 8] >> ((7 - bp % 8) as u8)) & 1) as u64
}

/// A single bit is zero or one.
pub proof fn lemma_bit_at_bound(input: Seq<u8>, bp: int)
    ensures
        bit_at(input, bp) <= 1,
{
    let b = input[bp / 8];
    let s = (7 - bp % 8) as u8;
    assert((b >> s) & 1 <= 1) by (bit_vector);
}

/// The value of `count` bits starting at flat bit index `bp`, most
/// significant bit first.
pub open spec fn bits_val(input: Seq<u8>, bp: int, count: nat) -> nat
    recommends
        0 <= bp,
        bp + count <= 8 * input.len(),
    decreases count,
{
    if count == 0 {
        0
    } else {
        2 * bits_val(input, bp, (count - 1) as nat) + (bit_at(input, bp + count - 1) as nat)
    }
}

/// A run of `count` bits is below `2^count`.
pub proof fn lemma_bits_val_bound(input: Seq<u8>, bp: int, count: nat)
    ensures
        bits_val(input, bp, count) < pow2(count),
    decreases count,
{
    if count > 0 {
        lemma_bits_val_bound(input, bp, (count - 1) as nat);
        lemma_bit_at_bound(input, bp + count - 1);
    }
}

/// `pow2` of at most 63 fits below the top of the 64-bit range.
pub proof fn lemma_pow2_63()
    ensures
        pow2(63) == 0x8000_0000_0000_0000,
{
    reveal_with_fuel(pow2, 64);
}

/// Extract `count` bits starting at byte `pos`, bit offset `bit`, most
/// significant bit of each byte first.
pub fn extract_bits(input: &[u8], pos: usize, bit: usize, count: usize) -> (r: u64)
    requires
        bit < 8,
        count <= 64,
        8 * pos + bit + count <= 8 * input@.len(),
    ensures
        r as nat == bits_val(input@, 8 * pos + bit, count as nat),
{
    let mut acc: u64 = 0;
    let mut cp: usize = pos;
    let mut cb: usize = bit;
    let mut j: usize = 0;
    while j < count
        invariant
            j <= count,
            count <= 64,
            cb < 8,
            8 * cp + cb == 8 * pos + bit + j,
            8 * pos + bit + count <= 8 * input@.len(),
            acc as nat == bits_val(input@, 8 * pos + bit, j as nat),
            acc < pow2(j as nat),
        decreases count - j,
    {
        assert(8 * cp < 8 * input@.len());
        let byte: u8 = input[cp];
        let s: u8 = (7 - cb) as u8;
        let b: u8 = (byte >> s) & 1;
        proof {
            assert((byte >> s) & 1 <= 1) by (bit_vector);
            assert((8 * cp + cb) / 8 == cp as int && (8 * cp + cb) % 8 == cb as int)
                by (nonlinear_arith)
                requires
                    cb < 8,
            ;
            lemma_pow2_le(j as nat, 63);
            lemma_pow2_63();
        }
        acc = acc * 2 + b as u64;
        cb = cb + 1;
        if cb == 8 {
            cb = 0;
            cp = cp + 1;
        }
        j = j + 1;
    }
    acc
}

} // verus!
