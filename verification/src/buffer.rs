//! Buffer-backed field views.
//!
//! The byte source is a caller-owned `Vec<u8>`; a view binds a range of it
//! and holds no storage of its own.  Each access takes the buffer, so every
//! read decodes and every write encodes directly against the bytes.  Handing
//! the buffer in at access time is also what makes sharing safe: several
//! handles may bind the same range, and the exclusive-versus-shared borrow
//! discipline is enforced at the access, by the borrow of the buffer itself.
//!
//! Out-of-range construction is a precondition violation, not a recoverable
//! error: the `requires` clauses exclude it.

use vstd::prelude::*;

use crate::codec::le_bytes;
use crate::codec::le_val;
use crate::codec::lemma_le_bytes_len;
use crate::codec::lemma_le_round_trip;
use crate::codec::lemma_splice_len;
use crate::codec::lemma_splice_subrange;
use crate::codec::pow256;
use crate::codec::read_le;
use crate::codec::splice;
use crate::codec::valid_width;
use crate::codec::wrap_add;
use crate::codec::wrap_add_exec;
use crate::codec::wrap_mul;
use crate::codec::wrap_mul_exec;
use crate::codec::wrap_sub;
use crate::codec::wrap_sub_exec;
use crate::codec::write_le;

verus! {

/// A fixed-width unsigned scalar bound to the byte range
/// `[start, start + width)` of a buffer, little-endian for widths over one
/// byte.
#[derive(Clone, Copy, Debug, PartialEq, Eq, Structural)]
pub struct SimpleVal {
    pub start: usize,
    pub width: usize,
}

/// Decode and encode access for a buffer-backed scalar field view.
pub trait ModSimpleVal: Sized {
    /// The view is bound to a supported width and a range inside `buf`.
    spec fn wf(&self, buf: Seq<u8>) -> bool;

    /// The value the view's range of `buf` currently decodes to.
    spec fn value_spec(&self, buf: Seq<u8>) -> nat;

    /// One more than the largest value the view's width can hold.
    spec fn bound_spec(&self) -> nat;

    /// `buf` with the view's range overwritten by the encoding of `v`.
    spec fn after_set_spec(&self, buf: Seq<u8>, v: nat) -> Seq<u8>;

    /// Decodes the bound range.
    fn val(&self, buf: &Vec<u8>) -> (r: u64)
        requires
            self.wf(buf@),
        ensures
            r == self.value_spec(buf@),
            (r as nat) < self.bound_spec(),
    ;

    /// Encodes `v` into the bound range, overwriting it in place and leaving
    /// every byte outside the range unchanged.
    fn set(&mut self, buf: &mut Vec<u8>, v: u64)
        requires
            old(self).wf(old(buf)@),
            (v as nat) < old(self).bound_spec(),
        ensures
            *final(self) == *old(self),
            final(buf)@ == old(self).after_set_spec(old(buf)@, v as nat),
            old(self).wf(final(buf)@),
            old(self).value_spec(final(buf)@) == v,
    ;
}

impl SimpleVal {
    pub open spec fn lo(&self) -> int {
        self.start as int
    }

    pub open spec fn hi(&self) -> int {
        self.start + self.width
    }

    /// Splits the bytes at `start` into the first `width` (bound to the
    /// view) and everything after; the returned offset is where the next
    /// field begins.
    pub fn new(buf: &Vec<u8>, start: usize, width: usize) -> (r: (SimpleVal, usize))
        requires
            valid_width(width as nat),
            start + width <= buf.len(),
        ensures
            r.0 == (SimpleVal { start, width }),
            r.0.wf(buf@),
            r.1 == start + width,
    {
        (SimpleVal { start, width }, start + width)
    }

    /// `set(val() + rhs)`, wrapping at the field's width.
    pub fn add(&mut self, buf: &mut Vec<u8>, rhs: u64)
        requires
            old(self).wf(old(buf)@),
            (rhs as nat) < old(self).bound_spec(),
        ensures
            *final(self) == *old(self),
            final(buf)@ == old(self).after_set_spec(
                old(buf)@,
                wrap_add(old(self).value_spec(old(buf)@), rhs as nat, old(self).width as nat),
            ),
            old(self).wf(final(buf)@),
            old(self).value_spec(final(buf)@) == wrap_add(
                old(self).value_spec(old(buf)@),
                rhs as nat,
                old(self).width as nat,
            ),
    {
        let cur = self.val(buf);
        let v = wrap_add_exec(cur, rhs, self.width);
        self.set(buf, v);
    }

    /// `set(val() - rhs)`, wrapping at the field's width.
    pub fn sub(&mut self, buf: &mut Vec<u8>, rhs: u64)
        requires
            old(self).wf(old(buf)@),
            (rhs as nat) < old(self).bound_spec(),
        ensures
            *final(self) == *old(self),
            final(buf)@ == old(self).after_set_spec(
                old(buf)@,
                wrap_sub(old(self).value_spec(old(buf)@), rhs as nat, old(self).width as nat),
            ),
            old(self).wf(final(buf)@),
            old(self).value_spec(final(buf)@) == wrap_sub(
                old(self).value_spec(old(buf)@),
                rhs as nat,
                old(self).width as nat,
            ),
    {
        let cur = self.val(buf);
        let v = wrap_sub_exec(cur, rhs, self.width);
        self.set(buf, v);
    }

    /// `set(val() * rhs)`, wrapping at the field's width.
    pub fn mul(&mut self, buf: &mut Vec<u8>, rhs: u64)
        requires
            old(self).wf(old(buf)@),
            (rhs as nat) < old(self).bound_spec(),
        ensures
            *final(self) == *old(self),
            final(buf)@ == old(self).after_set_spec(
                old(buf)@,
                wrap_mul(old(self).value_spec(old(buf)@), rhs as nat, old(self).width as nat),
            ),
            old(self).wf(final(buf)@),
            old(self).value_spec(final(buf)@) == wrap_mul(
                old(self).value_spec(old(buf)@),
                rhs as nat,
                old(self).width as nat,
            ),
    {
        let cur = self.val(buf);
        let v = wrap_mul_exec(cur, rhs, self.width);
        self.set(buf, v);
    }

    /// `set(val() / rhs)`.  Division by zero is a precondition violation, as
    /// it would be on the bare integer type.
    pub fn div(&mut self, buf: &mut Vec<u8>, rhs: u64)
        requires
            old(self).wf(old(buf)@),
            rhs != 0,
        ensures
            *final(self) == *old(self),
            final(buf)@ == old(self).after_set_spec(
                old(buf)@,
                old(self).value_spec(old(buf)@) / (rhs as nat),
            ),
            old(self).wf(final(buf)@),
            old(self).value_spec(final(buf)@) == old(self).value_spec(old(buf)@) / (rhs as nat),
    {
        let cur = self.val(buf);
        let v = cur / rhs;
        proof {
            vstd::arithmetic::div_mod::lemma_div_is_ordered_by_denominator(
                cur as int,
                1,
                rhs as int,
            );
            vstd::arithmetic::div_mod::lemma_div_basics(cur as int);
        }
        self.set(buf, v);
    }
}

impl ModSimpleVal for SimpleVal {
    open spec fn wf(&self, buf: Seq<u8>) -> bool {
        &&& valid_width(self.width as nat)
        &&& self.start + self.width <= buf.len()
    }

    open spec fn value_spec(&self, buf: Seq<u8>) -> nat {
        le_val(buf.subrange(self.lo(), self.hi()))
    }

    open spec fn bound_spec(&self) -> nat {
        pow256(self.width as nat)
    }

    open spec fn after_set_spec(&self, buf: Seq<u8>, v: nat) -> Seq<u8> {
        splice(buf, self.lo(), le_bytes(v, self.width as nat))
    }

    fn val(&self, buf: &Vec<u8>) -> (r: u64) {
        read_le(buf, self.start, self.width)
    }

    fn set(&mut self, buf: &mut Vec<u8>, v: u64) {
        write_le(buf, self.start, self.width, v);
        proof {
            let enc = le_bytes(v as nat, self.width as nat);
            lemma_le_bytes_len(v as nat, self.width as nat);
            lemma_splice_len(old(buf)@, self.lo(), enc);
            lemma_splice_subrange(old(buf)@, self.lo(), enc);
            lemma_le_round_trip(v as nat, self.width as nat);
        }
    }
}

/// A fixed-length byte range of a buffer, shared: `rc_clone` yields another
/// handle to the same range, so writes through one handle are read back
/// through every other.
#[derive(Clone, Copy, Debug, PartialEq, Eq, Structural)]
pub struct ArrayVal {
    pub start: usize,
    pub len: usize,
}

impl ArrayVal {
    pub open spec fn lo(&self) -> int {
        self.start as int
    }

    pub open spec fn hi(&self) -> int {
        self.start + self.len
    }

    /// The view is bound to a range inside `buf`.
    pub open spec fn wf(&self, buf: Seq<u8>) -> bool {
        self.start + self.len <= buf.len()
    }

    /// The bytes the view's range of `buf` currently holds.
    pub open spec fn bytes_spec(&self, buf: Seq<u8>) -> Seq<u8> {
        buf.subrange(self.lo(), self.hi())
    }

    /// Binds the first `len` bytes at `start`; the returned offset is where
    /// the next field begins.
    pub fn new(buf: &Vec<u8>, start: usize, len: usize) -> (r: (ArrayVal, usize))
        requires
            start + len <= buf.len(),
        ensures
            r.0 == (ArrayVal { start, len }),
            r.0.wf(buf@),
            r.1 == start + len,
    {
        (ArrayVal { start, len }, start + len)
    }

    /// Exclusive access to byte `i` of the bound range: the borrow of the
    /// buffer keeps any other access out until the reference is dropped.
    pub fn as_mut_ref<'a>(&self, buf: &'a mut Vec<u8>, i: usize) -> (r: &'a mut u8)
        requires
            self.wf(old(buf)@),
            i < self.len,
        ensures
            *r == old(buf)@[self.lo() + i],
            final(buf)@ == old(buf)@.update(self.lo() + i, *final(r)),
    {
        let n = buf.len();
        assert(self.start + i < n);
        &mut buf[self.start + i]
    }

    /// A shared snapshot of the bound range.
    pub fn as_ref(&self, buf: &Vec<u8>) -> (r: Vec<u8>)
        requires
            self.wf(buf@),
        ensures
            r@ == self.bytes_spec(buf@),
    {
        let n = buf.len();
        let mut out: Vec<u8> = Vec::new();
        let mut i: usize = 0;
        while i < self.len
            invariant
                i <= self.len,
                self.wf(buf@),
                self.start + self.len <= n == buf@.len(),
                out@ =~= buf@.subrange(self.lo(), self.lo() + i),
            decreases self.len - i,
        {
            out.push(buf[self.start + i]);
            i = i + 1;
        }
        proof {
            assert(out@ =~= self.bytes_spec(buf@));
        }
        out
    }

    /// Another handle to the same underlying byte range — shared identity,
    /// not a copy of the bytes.
    pub fn rc_clone(&self) -> (r: ArrayVal)
        ensures
            r == *self,
    {
        ArrayVal { start: self.start, len: self.len }
    }

    /// Copies `src` into the bound range element-wise, leaving every byte
    /// outside the range unchanged.
    pub fn set(&mut self, buf: &mut Vec<u8>, src: &Vec<u8>)
        requires
            old(self).wf(old(buf)@),
            src.len() == old(self).len,
        ensures
            *final(self) == *old(self),
            final(buf)@ == splice(old(buf)@, old(self).lo(), src@),
            old(self).bytes_spec(final(buf)@) == src@,
    {
        let ghost orig: Seq<u8> = buf@;
        let n = buf.len();
        assert(self.start + self.len <= n);
        let mut i: usize = 0;
        while i < self.len
            invariant
                i <= self.len,
                self.start + self.len <= orig.len(),
                self.start + self.len <= usize::MAX,
                src@.len() == self.len,
                buf@.len() == orig.len(),
                forall|j: int| 0 <= j < orig.len() && !(self.lo() <= j < self.lo() + i)
                    ==> buf@[j] == orig[j],
                forall|j: int| self.lo() <= j < self.lo() + i ==> buf@[j] == src@[j - self.lo()],
            decreases self.len - i,
        {
            let b = src[i];
            buf.set(self.start + i, b);
            i = i + 1;
        }
        proof {
            lemma_splice_len(orig, self.lo(), src@);
            assert forall|j: int| 0 <= j < orig.len() implies buf@[j] == splice(
                orig,
                self.lo(),
                src@,
            )[j] by {
                crate::codec::lemma_splice_index(orig, self.lo(), src@, j);
            }
            assert(buf@ =~= splice(orig, self.lo(), src@));
            lemma_splice_subrange(orig, self.lo(), src@);
        }
    }
}

} // verus!
