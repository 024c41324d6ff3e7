//! Little-endian coding of fixed-width unsigned values, and splicing of a
//! byte range into a byte sequence.  These are the mathematical model that
//! every field view's contract speaks of, together with verified executable
//! decode/encode routines and the wrapping arithmetic used by the compound
//! update operators.

use vstd::prelude::*;

verus! {

/// 256 to the power `w`: one more than the largest value representable in
/// `w` bytes.
pub open spec fn pow256(w: nat) -> nat
    decreases w,
{
    if w == 0 {
        1
    } else {
        256 * pow256((w - 1) as nat)
    }
}

/// The scalar field widths the library supports, in bytes.
pub open spec fn valid_width(w: nat) -> bool {
    w == 1 || w == 2 || w == 4 || w == 8
}

/// The value of a byte sequence read as a little-endian unsigned integer:
/// the first byte is the least significant.
pub open spec fn le_val(s: Seq<u8>) -> nat
    decreases s.len(),
{
    if s.len() == 0 {
        0
    } else {
        (s[0] + 256 * le_val(s.drop_first())) as nat
    }
}

/// The `w`-byte little-endian encoding of `v % pow256(w)`: least significant
/// byte first.
pub open spec fn le_bytes(v: nat, w: nat) -> Seq<u8>
    decreases w,
{
    if w == 0 {
        Seq::empty()
    } else {
        seq![(v % 256) as u8] + le_bytes(v / 256, (w - 1) as nat)
    }
}

/// `s` with the range starting at `at` overwritten by `b`, everything else
/// unchanged.
pub open spec fn splice(s: Seq<u8>, at: int, b: Seq<u8>) -> Seq<u8> {
    s.take(at) + b + s.skip(at + b.len())
}

pub proof fn lemma_pow256_pos(w: nat)
    ensures
        pow256(w) >= 1,
    decreases w,
{
    if w > 0 {
        lemma_pow256_pos((w - 1) as nat);
    }
}

/// The powers of 256 for the supported widths.
pub proof fn lemma_pow256_values()
    ensures
        pow256(1) == 0x100,
        pow256(2) == 0x1_0000,
        pow256(4) == 0x1_0000_0000,
        pow256(8) == 0x1_0000_0000_0000_0000,
{
    reveal_with_fuel(pow256, 9);
}

/// Powers of 256 grow with the exponent.
pub proof fn lemma_pow256_increases(v: nat, w: nat)
    requires
        v <= w,
    ensures
        pow256(v) <= pow256(w),
    decreases w,
{
    if v < w {
        lemma_pow256_increases(v, (w - 1) as nat);
        lemma_pow256_pos((w - 1) as nat);
    }
}

pub proof fn lemma_le_bytes_len(v: nat, w: nat)
    ensures
        le_bytes(v, w).len() == w,
    decreases w,
{
    if w > 0 {
        lemma_le_bytes_len(v / 256, (w - 1) as nat);
    }
}

/// Byte `i` of the little-endian encoding of `v` is `(v / 256^i) % 256`.
pub proof fn lemma_le_bytes_index(v: nat, w: nat, i: int)
    requires
        0 <= i < w,
    ensures
        le_bytes(v, w).len() == w,
        le_bytes(v, w)[i] == ((v / pow256(i as nat)) % 256) as u8,
    decreases w,
{
    lemma_le_bytes_len(v, w);
    lemma_le_bytes_len(v / 256, (w - 1) as nat);
    if i > 0 {
        lemma_le_bytes_index(v / 256, (w - 1) as nat, i - 1);
        assert(le_bytes(v, w)[i] == le_bytes(v / 256, (w - 1) as nat)[i - 1]);
        assert(v / 256 / pow256((i - 1) as nat) == v / pow256(i as nat)) by {
            lemma_pow256_pos((i - 1) as nat);
            vstd::arithmetic::div_mod::lemma_div_denominator(
                v as int,
                256,
                pow256((i - 1) as nat) as int,
            );
            assert(256 * pow256((i - 1) as nat) == pow256(i as nat));
        }
    } else {
        assert(le_bytes(v, w)[0] == (v % 256) as u8);
        assert(v / pow256(0) == v) by {
            vstd::arithmetic::div_mod::lemma_div_basics(v as int);
        }
    }
}

/// Decoding the `w`-byte little-endian encoding of `v` gives `v` back,
/// whenever `v` is representable in `w` bytes.
pub proof fn lemma_le_round_trip(v: nat, w: nat)
    requires
        v < pow256(w),
    ensures
        le_val(le_bytes(v, w)) == v,
    decreases w,
{
    if w == 0 {
        assert(le_bytes(v, 0) =~= Seq::<u8>::empty());
    } else {
        let rest = le_bytes(v / 256, (w - 1) as nat);
        assert(le_bytes(v, w) =~= seq![(v % 256) as u8] + rest);
        assert((seq![(v % 256) as u8] + rest).drop_first() =~= rest);
        assert(v / 256 < pow256((w - 1) as nat)) by {
            lemma_pow256_pos((w - 1) as nat);
            assert(256 * pow256((w - 1) as nat) == pow256(w));
            if v / 256 >= pow256((w - 1) as nat) {
                vstd::arithmetic::div_mod::lemma_fundamental_div_mod(v as int, 256);
                assert(v == 256 * (v / 256) + v % 256);
                assert(256 * (v / 256) >= 256 * pow256((w - 1) as nat)) by (nonlinear_arith)
                    requires
                        v / 256 >= pow256((w - 1) as nat),
                ;
            }
        }
        lemma_le_round_trip(v / 256, (w - 1) as nat);
        vstd::arithmetic::div_mod::lemma_fundamental_div_mod(v as int, 256);
    }
}

pub proof fn lemma_splice_len(s: Seq<u8>, at: int, b: Seq<u8>)
    requires
        0 <= at,
        at + b.len() <= s.len(),
    ensures
        splice(s, at, b).len() == s.len(),
{
}

/// What each position of a spliced sequence holds: the new bytes inside the
/// range, the old bytes outside it.
pub proof fn lemma_splice_index(s: Seq<u8>, at: int, b: Seq<u8>, i: int)
    requires
        0 <= at,
        at + b.len() <= s.len(),
        0 <= i < s.len(),
    ensures
        splice(s, at, b).len() == s.len(),
        at <= i < at + b.len() ==> splice(s, at, b)[i] == b[i - at],
        !(at <= i < at + b.len()) ==> splice(s, at, b)[i] == s[i],
{
}

/// Reading back exactly the spliced range gives the spliced bytes.
pub proof fn lemma_splice_subrange(s: Seq<u8>, at: int, b: Seq<u8>)
    requires
        0 <= at,
        at + b.len() <= s.len(),
    ensures
        splice(s, at, b).subrange(at, at + b.len()) == b,
{
    lemma_splice_len(s, at, b);
    let spl = splice(s, at, b);
    assert forall|i: int| 0 <= i < b.len() implies spl.subrange(at, at + b.len())[i] == b[i] by {
        lemma_splice_index(s, at, b, at + i);
    }
    assert(spl.subrange(at, at + b.len()) =~= b);
}

/// A range that does not meet the spliced range reads back unchanged.
pub proof fn lemma_splice_subrange_disjoint(s: Seq<u8>, at: int, b: Seq<u8>, lo: int, hi: int)
    requires
        0 <= at,
        at + b.len() <= s.len(),
        0 <= lo <= hi <= s.len(),
        hi <= at || at + b.len() <= lo,
    ensures
        splice(s, at, b).subrange(lo, hi) == s.subrange(lo, hi),
{
    lemma_splice_len(s, at, b);
    let spl = splice(s, at, b);
    assert forall|i: int| 0 <= i < hi - lo implies spl.subrange(lo, hi)[i] == s.subrange(lo, hi)[i] by {
        lemma_splice_index(s, at, b, lo + i);
    }
    assert(spl.subrange(lo, hi) =~= s.subrange(lo, hi));
}

/// Two writes to disjoint ranges land the same bytes in either order.
pub proof fn lemma_splice_disjoint_commute(s: Seq<u8>, at1: int, b1: Seq<u8>, at2: int, b2: Seq<u8>)
    requires
        0 <= at1,
        at1 + b1.len() <= at2,
        at2 + b2.len() <= s.len(),
    ensures
        splice(splice(s, at1, b1), at2, b2) == splice(splice(s, at2, b2), at1, b1),
{
    lemma_splice_len(s, at1, b1);
    lemma_splice_len(s, at2, b2);
    let left = splice(splice(s, at1, b1), at2, b2);
    let right = splice(splice(s, at2, b2), at1, b1);
    lemma_splice_len(splice(s, at1, b1), at2, b2);
    lemma_splice_len(splice(s, at2, b2), at1, b1);
    assert forall|i: int| 0 <= i < s.len() implies left[i] == right[i] by {
        lemma_splice_index(s, at1, b1, i);
        lemma_splice_index(s, at2, b2, i);
        lemma_splice_index(splice(s, at1, b1), at2, b2, i);
        lemma_splice_index(splice(s, at2, b2), at1, b1, i);
    }
    assert(left =~= right);
}

/// Addition, subtraction and multiplication that wrap at the field's width,
/// as the compound update operators use them.
pub open spec fn wrap_add(a: nat, b: nat, w: nat) -> nat {
    (((a + b) as int) % (pow256(w) as int)) as nat
}

pub open spec fn wrap_sub(a: nat, b: nat, w: nat) -> nat {
    ((((a + pow256(w)) - b) as int) % (pow256(w) as int)) as nat
}

pub open spec fn wrap_mul(a: nat, b: nat, w: nat) -> nat {
    (((a * b) as int) % (pow256(w) as int)) as nat
}

/// 256 to the power `w`, computed; `u128` so that the 8-byte modulus fits.
pub fn pow256_exec(w: usize) -> (r: u128)
    requires
        w <= 8,
    ensures
        r == pow256(w as nat),
{
    let mut r: u128 = 1;
    let mut i: usize = 0;
    while i < w
        invariant
            i <= w <= 8,
            r == pow256(i as nat),
        decreases w - i,
    {
        proof {
            assert(pow256((i + 1) as nat) == 256 * pow256(i as nat));
            lemma_pow256_increases((i + 1) as nat, 8);
            lemma_pow256_values();
        }
        r = r * 256;
        i = i + 1;
    }
    r
}

/// Decodes the `width` bytes at `start` as a little-endian unsigned value.
pub fn read_le(buf: &Vec<u8>, start: usize, width: usize) -> (r: u64)
    requires
        start + width <= buf.len(),
        width <= 8,
    ensures
        r == le_val(buf@.subrange(start as int, start + width)),
        r < pow256(width as nat),
{
    let mut r: u64 = 0;
    let mut i: usize = width;
    proof {
        assert(buf@.subrange(start + width, start + width) =~= Seq::<u8>::empty());
    }
    while i > 0
        invariant
            i <= width <= 8,
            start + width <= buf.len(),
            r == le_val(buf@.subrange(start + i, start + width)),
            r < pow256((width - i) as nat),
        decreases i,
    {
        i = i - 1;
        let ghost tail = buf@.subrange(start + i + 1, start + width);
        proof {
            assert(buf@.subrange(start + i, start + width) =~= seq![buf@[start + i]] + tail);
            assert((seq![buf@[start + i]] + tail).drop_first() =~= tail);
            lemma_pow256_values();
            lemma_pow256_increases((width - i) as nat, 8);
            assert(pow256((width - i) as nat) == 256 * pow256((width - i - 1) as nat));
            assert(r * 256 + 255 < 256 * pow256((width - i - 1) as nat)) by (nonlinear_arith)
                requires
                    r < pow256((width - i - 1) as nat),
            ;
        }
        r = r * 256 + (buf[start + i] as u64);
    }
    r
}

/// Encodes `v` little-endian into the `width` bytes at `start`, leaving the
/// rest of the buffer unchanged.
pub fn write_le(buf: &mut Vec<u8>, start: usize, width: usize, v: u64)
    requires
        start + width <= old(buf).len(),
        width <= 8,
        (v as nat) < pow256(width as nat),
    ensures
        final(buf)@ == splice(old(buf)@, start as int, le_bytes(v as nat, width as nat)),
        final(buf)@.len() == old(buf)@.len(),
{
    let ghost orig: Seq<u8> = buf@;
    let ghost enc: Seq<u8> = le_bytes(v as nat, width as nat);
    proof {
        lemma_le_bytes_len(v as nat, width as nat);
        vstd::arithmetic::div_mod::lemma_div_basics(v as int);
    }
    let mut rest: u64 = v;
    let mut i: usize = 0;
    while i < width
        invariant
            i <= width <= 8,
            start + width <= orig.len(),
            start + width <= usize::MAX,
            buf@.len() == orig.len(),
            enc == le_bytes(v as nat, width as nat),
            enc.len() == width,
            rest == (v as nat) / pow256(i as nat),
            forall|j: int| 0 <= j < orig.len() && !(start <= j < start + i) ==> buf@[j] == orig[j],
            forall|j: int| start <= j < start + i ==> buf@[j] == enc[j - start],
        decreases width - i,
    {
        let b: u8 = (rest % 256) as u8;
        proof {
            lemma_le_bytes_index(v as nat, width as nat, i as int);
        }
        buf.set(start + i, b);
        let ghost gi: int = i as int;
        rest = rest / 256;
        proof {
            lemma_pow256_pos(gi as nat);
            vstd::arithmetic::div_mod::lemma_div_denominator(
                v as int,
                pow256(gi as nat) as int,
                256,
            );
            assert(pow256((gi + 1) as nat) == 256 * pow256(gi as nat));
        }
        i = i + 1;
    }
    proof {
        lemma_splice_len(orig, start as int, enc);
        assert forall|j: int| 0 <= j < orig.len() implies buf@[j] == splice(orig, start as int, enc)[j] by {
            lemma_splice_index(orig, start as int, enc, j);
        }
        assert(buf@ =~= splice(orig, start as int, enc));
    }
}

/// `(a + b) % 256^w`, the wrapping sum at width `w`.
pub fn wrap_add_exec(a: u64, b: u64, width: usize) -> (r: u64)
    requires
        width <= 8,
        (a as nat) < pow256(width as nat),
        (b as nat) < pow256(width as nat),
    ensures
        r == wrap_add(a as nat, b as nat, width as nat),
        (r as nat) < pow256(width as nat),
{
    let m = pow256_exec(width);
    proof {
        lemma_pow256_pos(width as nat);
        lemma_pow256_increases(width as nat, 8);
        lemma_pow256_values();
    }
    let s: u128 = a as u128 + b as u128;
    (s % m) as u64
}

/// `(a + 256^w - b) % 256^w`, the wrapping difference at width `w`.
pub fn wrap_sub_exec(a: u64, b: u64, width: usize) -> (r: u64)
    requires
        width <= 8,
        (a as nat) < pow256(width as nat),
        (b as nat) < pow256(width as nat),
    ensures
        r == wrap_sub(a as nat, b as nat, width as nat),
        (r as nat) < pow256(width as nat),
{
    let m = pow256_exec(width);
    proof {
        lemma_pow256_pos(width as nat);
        lemma_pow256_increases(width as nat, 8);
        lemma_pow256_values();
    }
    let s: u128 = a as u128 + m - b as u128;
    (s % m) as u64
}

/// `(a * b) % 256^w`, the wrapping product at width `w`.
pub fn wrap_mul_exec(a: u64, b: u64, width: usize) -> (r: u64)
    requires
        width <= 8,
        (a as nat) < pow256(width as nat),
        (b as nat) < pow256(width as nat),
    ensures
        r == wrap_mul(a as nat, b as nat, width as nat),
        (r as nat) < pow256(width as nat),
{
    let m = pow256_exec(width);
    proof {
        lemma_pow256_pos(width as nat);
        lemma_pow256_increases(width as nat, 8);
        lemma_pow256_values();
        assert((a as int) * (b as int) < 0x1_0000_0000_0000_0000 * 0x1_0000_0000_0000_0000)
            by (nonlinear_arith)
            requires
                a < 0x1_0000_0000_0000_0000,
                b < 0x1_0000_0000_0000_0000,
        ;
    }
    let p: u128 = a as u128 * b as u128;
    (p % m) as u64
}

} // verus!
