//! The closed set of scalar argument types a handler may take, and the
//! little-endian fixed-width encoding each of them uses on the wire.
use vstd::prelude::*;

verus! {

/// The scalar types a registered handler may take as arguments.
///
/// Floating-point arguments travel as their IEEE 754 bit patterns:
/// the library moves and decodes the bits but never computes on them.
#[derive(Clone, Copy, Debug, PartialEq, Eq, Structural)]
pub enum ScalarKind {
    U8,
    U16,
    U32,
    U64,
    Usize,
    I8,
    I16,
    I32,
    I64,
    Isize,
    F32,
    F64,
}

/// One decoded scalar argument. The `F32Bits` and `F64Bits` variants
/// carry the raw bit pattern of the float that was encoded.
#[derive(Clone, Copy, Debug, PartialEq, Eq, Structural)]
pub enum ScalarValue {
    U8(u8),
    U16(u16),
    U32(u32),
    U64(u64),
    Usize(usize),
    I8(i8),
    I16(i16),
    I32(i32),
    I64(i64),
    Isize(isize),
    F32Bits(u32),
    F64Bits(u64),
}

/// Byte width of one scalar of kind `k` on the wire.
pub open spec fn spec_width(k: ScalarKind) -> nat {
    match k {
        ScalarKind::U8 => 1,
        ScalarKind::U16 => 2,
        ScalarKind::U32 => 4,
        ScalarKind::U64 => 8,
        ScalarKind::Usize => 8,
        ScalarKind::I8 => 1,
        ScalarKind::I16 => 2,
        ScalarKind::I32 => 4,
        ScalarKind::I64 => 8,
        ScalarKind::Isize => 8,
        ScalarKind::F32 => 4,
        ScalarKind::F64 => 8,
    }
}

impl ScalarKind {
    /// Byte width of one scalar of this kind.
    pub fn width(&self) -> (w: usize)
        ensures
            w == spec_width(*self),
    {
        match self {
            ScalarKind::U8 => 1,
            ScalarKind::U16 => 2,
            ScalarKind::U32 => 4,
            ScalarKind::U64 => 8,
            ScalarKind::Usize => 8,
            ScalarKind::I8 => 1,
            ScalarKind::I16 => 2,
            ScalarKind::I32 => 4,
            ScalarKind::I64 => 8,
            ScalarKind::Isize => 8,
            ScalarKind::F32 => 4,
            ScalarKind::F64 => 8,
        }
    }
}

/// The kind a scalar value belongs to.
pub open spec fn kind_of(v: ScalarValue) -> ScalarKind {
    match v {
        ScalarValue::U8(_) => ScalarKind::U8,
        ScalarValue::U16(_) => ScalarKind::U16,
        ScalarValue::U32(_) => ScalarKind::U32,
        ScalarValue::U64(_) => ScalarKind::U64,
        ScalarValue::Usize(_) => ScalarKind::Usize,
        ScalarValue::I8(_) => ScalarKind::I8,
        ScalarValue::I16(_) => ScalarKind::I16,
        ScalarValue::I32(_) => ScalarKind::I32,
        ScalarValue::I64(_) => ScalarKind::I64,
        ScalarValue::Isize(_) => ScalarKind::Isize,
        ScalarValue::F32Bits(_) => ScalarKind::F32,
        ScalarValue::F64Bits(_) => ScalarKind::F64,
    }
}

/// 256 raised to the power `n`: the number of byte strings of length `n`.
pub open spec fn pow256(n: nat) -> nat
    decreases n,
{
    if n == 0 {
        1
    } else {
        256 * pow256((n - 1) as nat)
    }
}

/// The natural number a byte string denotes, first byte least significant.
pub open spec fn le_nat(s: Seq<u8>) -> nat
    decreases s.len(),
{
    if s.len() == 0 {
        0
    } else {
        (s[0] as nat) + 256 * le_nat(s.drop_first())
    }
}

/// The two's-complement reading of `v` as a signed number of `w` bytes.
pub open spec fn as_signed(v: nat, w: nat) -> int {
    if 2 * v < pow256(w) {
        v as int
    } else {
        v as int - pow256(w)
    }
}

/// Bytes of a pointer-sized integer on this platform.
pub open spec fn usize_bytes() -> nat {
    (usize::BITS / 8) as nat
}

/// The scalar of kind `k` that a window of `spec_width(k)` bytes decodes to.
///
/// A `Usize` or `Isize` slot is always eight bytes on the wire; its value
/// is the wire value reduced to the platform's pointer width, which is the
/// identity on targets whose pointers are eight bytes wide.
pub open spec fn decoded(k: ScalarKind, s: Seq<u8>) -> ScalarValue
    recommends
        s.len() == spec_width(k),
{
    match k {
        ScalarKind::U8 => ScalarValue::U8(le_nat(s) as u8),
        ScalarKind::U16 => ScalarValue::U16(le_nat(s) as u16),
        ScalarKind::U32 => ScalarValue::U32(le_nat(s) as u32),
        ScalarKind::U64 => ScalarValue::U64(le_nat(s) as u64),
        ScalarKind::Usize => ScalarValue::Usize((le_nat(s) % pow256(usize_bytes())) as usize),
        ScalarKind::I8 => ScalarValue::I8(as_signed(le_nat(s), 1) as i8),
        ScalarKind::I16 => ScalarValue::I16(as_signed(le_nat(s), 2) as i16),
        ScalarKind::I32 => ScalarValue::I32(as_signed(le_nat(s), 4) as i32),
        ScalarKind::I64 => ScalarValue::I64(as_signed(le_nat(s), 8) as i64),
        ScalarKind::Isize => ScalarValue::Isize(
            as_signed(le_nat(s) % pow256(usize_bytes()), usize_bytes()) as isize,
        ),
        ScalarKind::F32 => ScalarValue::F32Bits(le_nat(s) as u32),
        ScalarKind::F64 => ScalarValue::F64Bits(le_nat(s) as u64),
    }
}

pub(crate) proof fn lemma_pow256_values()
    ensures
        pow256(0) == 1,
        pow256(1) == 0x100,
        pow256(2) == 0x1_0000,
        pow256(3) == 0x100_0000,
        pow256(4) == 0x1_0000_0000,
        pow256(5) == 0x100_0000_0000,
        pow256(6) == 0x1_0000_0000_0000,
        pow256(7) == 0x100_0000_0000_0000,
        pow256(8) == 0x1_0000_0000_0000_0000,
{
    assert(pow256(0) == 1);
    assert(pow256(1) == 0x100);
    assert(pow256(2) == 0x1_0000);
    assert(pow256(3) == 0x100_0000);
    assert(pow256(4) == 0x1_0000_0000);
    assert(pow256(5) == 0x100_0000_0000);
    assert(pow256(6) == 0x1_0000_0000_0000);
    assert(pow256(7) == 0x100_0000_0000_0000);
    assert(pow256(8) == 0x1_0000_0000_0000_0000);
}

proof fn lemma_pow256_increases(a: nat, b: nat)
    requires
        a <= b,
    ensures
        pow256(a) <= pow256(b),
    decreases b,
{
    if a < b {
        lemma_pow256_increases(a, (b - 1) as nat);
        assert(pow256(b) == 256 * pow256((b - 1) as nat));
    }
}

/// A byte string of length `n` denotes a number below `pow256(n)`.
pub(crate) proof fn lemma_le_nat_bound(s: Seq<u8>)
    ensures
        le_nat(s) < pow256(s.len()),
    decreases s.len(),
{
    if s.len() > 0 {
        lemma_le_nat_bound(s.drop_first());
    }
}

/// Peeling one byte off the front of a window, stated over subranges.
proof fn lemma_le_nat_suffix(s: Seq<u8>, i: int)
    requires
        0 <= i < s.len(),
    ensures
        le_nat(s.subrange(i, s.len() as int)) == s[i] + 256 * le_nat(
            s.subrange(i + 1, s.len() as int),
        ),
{
    let t = s.subrange(i, s.len() as int);
    assert(t.drop_first() =~= s.subrange(i + 1, s.len() as int));
}

/// The little-endian encoding of `v` in exactly `w` bytes.
pub open spec fn le_bytes(v: nat, w: nat) -> Seq<u8>
    decreases w,
{
    if w == 0 {
        Seq::empty()
    } else {
        seq![(v % 256) as u8] + le_bytes(v / 256, (w - 1) as nat)
    }
}

proof fn lemma_le_bytes_len(v: nat, w: nat)
    ensures
        le_bytes(v, w).len() == w,
    decreases w,
{
    if w > 0 {
        lemma_le_bytes_len(v / 256, (w - 1) as nat);
    }
}

/// Encoding a number that fits in `w` bytes and reading it back is the identity.
proof fn lemma_le_bytes_le_nat(v: nat, w: nat)
    requires
        v < pow256(w),
    ensures
        le_nat(le_bytes(v, w)) == v,
    decreases w,
{
    if w > 0 {
        assert(v / 256 < pow256((w - 1) as nat)) by {
            vstd::arithmetic::div_mod::lemma_multiply_divide_lt(
                v as int,
                256,
                pow256((w - 1) as nat) as int,
            );
        }
        lemma_le_bytes_le_nat(v / 256, (w - 1) as nat);
        let s = le_bytes(v, w);
        assert(s.drop_first() =~= le_bytes(v / 256, (w - 1) as nat));
        assert(v % 256 + 256 * (v / 256) == v) by {
            vstd::arithmetic::div_mod::lemma_fundamental_div_mod(v as int, 256);
        }
    }
}

/// The unsigned wire image of a scalar value: its bits as a natural number.
pub open spec fn scalar_to_bits(v: ScalarValue) -> nat {
    match v {
        ScalarValue::U8(x) => x as nat,
        ScalarValue::U16(x) => x as nat,
        ScalarValue::U32(x) => x as nat,
        ScalarValue::U64(x) => x as nat,
        ScalarValue::Usize(x) => x as nat,
        ScalarValue::I8(x) => if x >= 0 {
            x as nat
        } else {
            (x + pow256(1)) as nat
        },
        ScalarValue::I16(x) => if x >= 0 {
            x as nat
        } else {
            (x + pow256(2)) as nat
        },
        ScalarValue::I32(x) => if x >= 0 {
            x as nat
        } else {
            (x + pow256(4)) as nat
        },
        ScalarValue::I64(x) => if x >= 0 {
            x as nat
        } else {
            (x + pow256(8)) as nat
        },
        ScalarValue::Isize(x) => if x >= 0 {
            x as nat
        } else {
            (x + pow256(8)) as nat
        },
        ScalarValue::F32Bits(x) => x as nat,
        ScalarValue::F64Bits(x) => x as nat,
    }
}

/// The little-endian encoding of a scalar value, `spec_width` bytes long.
pub open spec fn scalar_le_bytes(v: ScalarValue) -> Seq<u8> {
    le_bytes(scalar_to_bits(v), spec_width(kind_of(v)))
}

/// The platform's pointer width is four or eight bytes, and the ranges of
/// `usize` and `isize` are exactly the corresponding intervals.
pub proof fn lemma_usize_range()
    ensures
        usize_bytes() == 4 || usize_bytes() == 8,
        pow256(usize_bytes()) == usize::MAX as nat + 1,
        isize::MIN == -(pow256(usize_bytes()) as int) / 2,
        isize::MAX == pow256(usize_bytes()) as int / 2 - 1,
{
    lemma_pow256_values();
    assert(usize::BITS == 32 || usize::BITS == 64);
}

/// Round trip: encoding any scalar value as little-endian bytes and
/// decoding that window at the value's own kind yields the value exactly.
pub proof fn lemma_scalar_round_trip(v: ScalarValue)
    ensures
        scalar_le_bytes(v).len() == spec_width(kind_of(v)),
        decoded(kind_of(v), scalar_le_bytes(v)) == v,
{
    lemma_pow256_values();
    lemma_usize_range();
    let bits = scalar_to_bits(v);
    let w = spec_width(kind_of(v));
    assert(bits < pow256(w));
    lemma_le_bytes_len(bits, w);
    lemma_le_bytes_le_nat(bits, w);
    let ub = usize_bytes();
    match v {
        ScalarValue::Usize(x) => {
            vstd::arithmetic::div_mod::lemma_small_mod(bits, pow256(ub));
        },
        ScalarValue::Isize(x) => {
            if x >= 0 {
                vstd::arithmetic::div_mod::lemma_small_mod(bits, pow256(ub));
            } else if ub == 8 {
                vstd::arithmetic::div_mod::lemma_small_mod(bits, pow256(ub));
            } else {
                let m = pow256(4) as int;
                assert(bits == m * (m - 1) + (x + m));
                vstd::arithmetic::div_mod::lemma_mod_multiples_vanish(m - 1, x + m, m);
                vstd::arithmetic::div_mod::lemma_small_mod((x + m) as nat, m as nat);
            }
        },
        _ => {},
    }
}

/// Reads the `w`-byte window of `data` starting at `start` as one
/// little-endian word, by Horner evaluation from the most significant byte.
pub fn le_word(data: &Vec<u8>, start: usize, w: usize) -> (x: u64)
    requires
        w <= 8,
        start + w <= data@.len(),
    ensures
        x as nat == le_nat(data@.subrange(start as int, (start + w) as int)),
{
    let n = data.len();
    let ghost win = data@.subrange(start as int, (start + w) as int);
    let mut acc: u64 = 0;
    let mut i: usize = w;
    while i > 0
        invariant
            i <= w,
            w <= 8,
            start + w <= data@.len(),
            start + w <= usize::MAX,
            win == data@.subrange(start as int, (start + w) as int),
            acc as nat == le_nat(win.subrange(i as int, w as int)),
            acc < pow256((w - i) as nat),
        decreases i,
    {
        i = i - 1;
        let b = data[start + i];
        proof {
            lemma_pow256_values();
            lemma_pow256_increases((w - i) as nat, 8);
            assert(win.len() == w);
            lemma_le_nat_suffix(win, i as int);
            assert(win[i as int] == data@[start + i]);
        }
        acc = acc * 256 + (b as u64);
    }
    proof {
        assert(win.subrange(0, w as int) =~= win);
    }
    acc
}

/// Reads an unsigned `w`-byte word as a two's-complement signed value.
pub fn to_signed64(v: u64, w: usize) -> (r: i64)
    requires
        w == 1 || w == 2 || w == 4 || w == 8,
        (v as nat) < pow256(w as nat),
    ensures
        r == as_signed(v as nat, w as nat),
{
    proof {
        lemma_pow256_values();
    }
    if w == 1 {
        if v < 0x80 {
            v as i64
        } else {
            v as i64 - 0x100
        }
    } else if w == 2 {
        if v < 0x8000 {
            v as i64
        } else {
            v as i64 - 0x1_0000
        }
    } else if w == 4 {
        if v < 0x8000_0000 {
            v as i64
        } else {
            v as i64 - 0x1_0000_0000
        }
    } else {
        if v < 0x8000_0000_0000_0000 {
            v as i64
        } else {
            -1i64 - ((u64::MAX - v) as i64)
        }
    }
}

} // verus!
