//! Stream-backed field views.
//!
//! The byte source is a seekable, readable, writable in-memory channel — a
//! buffer of bytes with a cursor position.  A stream field view decodes its
//! value once, at construction, and remembers the byte offset it came from;
//! mutation updates the cached value and writes it back to exactly that
//! offset, wherever the stream has been positioned in between.  Stream
//! errors are environment conditions, so every fallible operation returns a
//! `Result` carrying the attempted offset and what went short.

use vstd::prelude::*;

use crate::codec::le_bytes;
use crate::codec::le_val;
use crate::codec::lemma_splice_len;
use crate::codec::pow256;
use crate::codec::read_le;
use crate::codec::splice;
use crate::codec::valid_width;
use crate::codec::wrap_add;
use crate::codec::wrap_add_exec;
use crate::codec::wrap_mul;
use crate::codec::wrap_mul_exec;
use crate::codec::wrap_sub;
use crate::codec::wrap_sub_exec;
use crate::codec::write_le;

verus! {

/// The bytes left between `at` and the end of a source of length `len`.
pub open spec fn avail_at(len: int, at: int) -> nat {
    if at <= len {
        (len - at) as nat
    } else {
        0
    }
}

/// A seekable in-memory byte channel: the caller's bytes plus a cursor.
/// Reads and writes advance the cursor; a read or write that would run past
/// the end fails without touching the bytes.
pub struct ByteStream {
    pub data: Vec<u8>,
    pub pos: usize,
}

impl ByteStream {
    /// The bytes between the cursor and the end.
    pub open spec fn remaining_spec(&self) -> nat {
        avail_at(self.data@.len() as int, self.pos as int)
    }

    /// Wraps the caller's bytes, with the cursor at the start.
    pub fn new(data: Vec<u8>) -> (s: ByteStream)
        ensures
            s.data@ == data@,
            s.pos == 0,
    {
        ByteStream { data, pos: 0 }
    }

    /// Reports the cursor position.
    pub fn position(&self) -> (r: usize)
        ensures
            r == self.pos,
    {
        self.pos
    }

    /// Moves the cursor to the absolute offset `pos`.
    pub fn seek(&mut self, pos: usize)
        ensures
            final(self).data@ == old(self).data@,
            final(self).pos == pos,
    {
        self.pos = pos;
    }

    /// How many bytes are left between the cursor and the end.
    pub fn remaining(&self) -> (r: usize)
        ensures
            r == self.remaining_spec(),
    {
        let n = self.data.len();
        if self.pos <= n {
            n - self.pos
        } else {
            0
        }
    }

    /// A shared borrow of the underlying bytes.
    pub fn get_ref(&self) -> (r: &Vec<u8>)
        ensures
            r@ == self.data@,
    {
        &self.data
    }

    /// Hands the underlying bytes back to the caller.
    pub fn into_inner(self) -> (r: Vec<u8>)
        ensures
            r@ == self.data@,
    {
        self.data
    }
}

/// Why a stream operation failed.  Each variant carries the operation's
/// absolute byte offset; the short variants carry how much was wanted and
/// how much the stream had.
#[derive(Clone, Copy, Debug, PartialEq, Eq, Structural)]
pub enum FieldError {
    /// A read wanted more bytes than the stream had left.
    ShortRead { offset: usize, wanted: usize, available: usize },
    /// A scalar write-back would have run past the end; `value` is the value
    /// that failed to be written.
    ShortWrite { offset: usize, wanted: usize, available: usize, value: u64 },
    /// An array write-back would have run past the end.
    ShortArrayWrite { offset: usize, wanted: usize, available: usize },
    /// `add` on a byte-array field, which has no defined semantics.
    UnsupportedAdd { offset: usize },
}

/// A fixed-width unsigned scalar bound to a byte offset of a stream.  The
/// decoded value is cached at construction; the offset never changes for
/// the life of the view.
#[derive(Clone, Copy, Debug, PartialEq, Eq, Structural)]
pub struct StreamVal {
    pub offset: usize,
    pub width: usize,
    pub cached: u64,
}

/// What a scalar write-back leaves behind: the cache always takes `v`; the
/// stream takes the little-endian encoding of `v` at the view's offset when
/// the range fits, and is untouched — with the error saying why — when it
/// does not.
pub open spec fn scalar_set_post(
    v0: StreamVal,
    s0: ByteStream,
    v1: StreamVal,
    s1: ByteStream,
    v: nat,
    r: Result<(), FieldError>,
) -> bool {
    &&& v1.offset == v0.offset
    &&& v1.width == v0.width
    &&& v1.cached == v
    &&& if v0.offset + v0.width <= s0.data@.len() {
        &&& r is Ok
        &&& s1.data@ == splice(s0.data@, v0.offset as int, le_bytes(v, v0.width as nat))
        &&& s1.pos == v0.offset + v0.width
    } else {
        &&& r matches Err(e) && e == (FieldError::ShortWrite {
            offset: v0.offset,
            wanted: v0.width,
            available: avail_at(s0.data@.len() as int, v0.offset as int) as usize,
            value: v as u64,
        })
        &&& s1.data@ == s0.data@
        &&& s1.pos == s0.pos
    }
}

impl StreamVal {
    /// A supported width, a cached value that fits it, and a range whose end
    /// fits the machine.
    pub open spec fn wf(&self) -> bool {
        &&& valid_width(self.width as nat)
        &&& (self.cached as nat) < pow256(self.width as nat)
        &&& self.offset + self.width <= usize::MAX
    }

    /// Records the stream's position as the view's offset and reads exactly
    /// `width` bytes from there; a stream with fewer than `width` bytes left
    /// yields a `ShortRead` naming that offset, and no view.
    pub fn new(stream: &mut ByteStream, width: usize) -> (r: Result<StreamVal, FieldError>)
        requires
            valid_width(width as nat),
        ensures
            old(stream).pos + width <= old(stream).data@.len() ==> (r matches Ok(v)
                && v.offset == old(stream).pos
                && v.width == width
                && v.wf()
                && (v.cached as nat) == le_val(
                    old(stream).data@.subrange(old(stream).pos as int, old(stream).pos + width),
                )
                && final(stream).data@ == old(stream).data@
                && final(stream).pos == old(stream).pos + width),
            old(stream).pos + width > old(stream).data@.len() ==> (r matches Err(e)
                && e == (FieldError::ShortRead {
                    offset: old(stream).pos,
                    wanted: width,
                    available: old(stream).remaining_spec() as usize,
                })
                && final(stream).data@ == old(stream).data@
                && final(stream).pos == old(stream).pos),
    {
        let offset = stream.pos;
        let n = stream.data.len();
        if width > n || offset > n - width {
            return Err(FieldError::ShortRead {
                offset,
                wanted: width,
                available: stream.remaining(),
            });
        }
        let cached = read_le(&stream.data, offset, width);
        stream.pos = offset + width;
        Ok(StreamVal { offset, width, cached })
    }

    /// Returns the cached value; no access to the stream.
    pub fn val(&self) -> (r: u64)
        ensures
            r == self.cached,
    {
        self.cached
    }

    /// Updates the cache to `v`, then seeks to the view's offset — not the
    /// stream's current position — and writes the encoding of `v` there.  On
    /// a short write the cache keeps `v` while the stream is unchanged, so
    /// cache and stream are out of step until a later write-back succeeds.
    pub fn set(&mut self, stream: &mut ByteStream, v: u64) -> (r: Result<(), FieldError>)
        requires
            old(self).wf(),
            (v as nat) < pow256(old(self).width as nat),
        ensures
            scalar_set_post(*old(self), *old(stream), *final(self), *final(stream), v as nat, r),
            final(self).wf(),
    {
        self.cached = v;
        let n = stream.data.len();
        if self.width > n || self.offset > n - self.width {
            let available: usize = if self.offset <= n {
                n - self.offset
            } else {
                0
            };
            return Err(FieldError::ShortWrite {
                offset: self.offset,
                wanted: self.width,
                available,
                value: v,
            });
        }
        stream.pos = self.offset;
        write_le(&mut stream.data, self.offset, self.width, v);
        stream.pos = self.offset + self.width;
        Ok(())
    }

    /// `set(val() + delta)`, wrapping at the field's width.
    pub fn add(&mut self, stream: &mut ByteStream, delta: u64) -> (r: Result<(), FieldError>)
        requires
            old(self).wf(),
            (delta as nat) < pow256(old(self).width as nat),
        ensures
            scalar_set_post(
                *old(self),
                *old(stream),
                *final(self),
                *final(stream),
                wrap_add(old(self).cached as nat, delta as nat, old(self).width as nat),
                r,
            ),
            final(self).wf(),
    {
        let v = wrap_add_exec(self.cached, delta, self.width);
        self.set(stream, v)
    }

    /// `set(val() - delta)`, wrapping at the field's width.
    pub fn sub(&mut self, stream: &mut ByteStream, delta: u64) -> (r: Result<(), FieldError>)
        requires
            old(self).wf(),
            (delta as nat) < pow256(old(self).width as nat),
        ensures
            scalar_set_post(
                *old(self),
                *old(stream),
                *final(self),
                *final(stream),
                wrap_sub(old(self).cached as nat, delta as nat, old(self).width as nat),
                r,
            ),
            final(self).wf(),
    {
        let v = wrap_sub_exec(self.cached, delta, self.width);
        self.set(stream, v)
    }

    /// `set(val() * delta)`, wrapping at the field's width.
    pub fn mul(&mut self, stream: &mut ByteStream, delta: u64) -> (r: Result<(), FieldError>)
        requires
            old(self).wf(),
            (delta as nat) < pow256(old(self).width as nat),
        ensures
            scalar_set_post(
                *old(self),
                *old(stream),
                *final(self),
                *final(stream),
                wrap_mul(old(self).cached as nat, delta as nat, old(self).width as nat),
                r,
            ),
            final(self).wf(),
    {
        let v = wrap_mul_exec(self.cached, delta, self.width);
        self.set(stream, v)
    }

    /// `set(val() / delta)`.  Division by zero is a precondition violation,
    /// as it would be on the bare integer type.
    pub fn div(&mut self, stream: &mut ByteStream, delta: u64) -> (r: Result<(), FieldError>)
        requires
            old(self).wf(),
            delta != 0,
        ensures
            scalar_set_post(
                *old(self),
                *old(stream),
                *final(self),
                *final(stream),
                (old(self).cached as nat) / (delta as nat),
                r,
            ),
            final(self).wf(),
    {
        let v = self.cached / delta;
        proof {
            vstd::arithmetic::div_mod::lemma_div_is_ordered_by_denominator(
                self.cached as int,
                1,
                delta as int,
            );
            vstd::arithmetic::div_mod::lemma_div_basics(self.cached as int);
        }
        self.set(stream, v)
    }
}

/// A fixed-length byte array bound to a byte offset of a stream, decoded
/// byte for byte into a cache of its own at construction.
#[derive(Clone, Debug, PartialEq, Eq)]
pub struct StreamArrayVal {
    pub offset: usize,
    pub cached: Vec<u8>,
}

impl StreamArrayVal {
    /// A range whose end fits the machine.
    pub open spec fn wf(&self) -> bool {
        self.offset + self.cached@.len() <= usize::MAX
    }

    /// Records the stream's position as the view's offset and copies exactly
    /// `len` bytes from there; a stream with fewer than `len` bytes left
    /// yields a `ShortRead` naming that offset, and no view.
    pub fn new(stream: &mut ByteStream, len: usize) -> (r: Result<StreamArrayVal, FieldError>)
        ensures
            old(stream).pos + len <= old(stream).data@.len() ==> (r matches Ok(v)
                && v.offset == old(stream).pos
                && v.cached@ == old(stream).data@.subrange(
                    old(stream).pos as int,
                    old(stream).pos + len,
                )
                && v.wf()
                && final(stream).data@ == old(stream).data@
                && final(stream).pos == old(stream).pos + len),
            old(stream).pos + len > old(stream).data@.len() ==> (r matches Err(e)
                && e == (FieldError::ShortRead {
                    offset: old(stream).pos,
                    wanted: len,
                    available: old(stream).remaining_spec() as usize,
                })
                && final(stream).data@ == old(stream).data@
                && final(stream).pos == old(stream).pos),
    {
        let offset = stream.pos;
        let n = stream.data.len();
        if len > n || offset > n - len {
            return Err(FieldError::ShortRead {
                offset,
                wanted: len,
                available: stream.remaining(),
            });
        }
        let mut cached: Vec<u8> = Vec::new();
        let mut i: usize = 0;
        while i < len
            invariant
                i <= len,
                offset + len <= n == stream.data@.len(),
                cached@ =~= stream.data@.subrange(offset as int, offset + i),
            decreases len - i,
        {
            let b = stream.data[offset + i];
            cached.push(b);
            i = i + 1;
        }
        proof {
            assert(cached@ =~= stream.data@.subrange(offset as int, offset + len));
        }
        stream.pos = offset + len;
        Ok(StreamArrayVal { offset, cached })
    }

    /// A snapshot of the cached bytes; no access to the stream.
    pub fn val(&self) -> (r: Vec<u8>)
        ensures
            r@ == self.cached@,
    {
        let mut out: Vec<u8> = Vec::new();
        let mut i: usize = 0;
        let n = self.cached.len();
        while i < n
            invariant
                i <= n == self.cached@.len(),
                out@ =~= self.cached@.subrange(0, i as int),
            decreases n - i,
        {
            let b = self.cached[i];
            out.push(b);
            i = i + 1;
        }
        proof {
            assert(out@ =~= self.cached@);
        }
        out
    }

    /// Updates the cache to `src`, then writes `src` back at the view's
    /// offset.  On a short write the cache keeps `src` while the stream is
    /// unchanged.
    pub fn set(&mut self, stream: &mut ByteStream, src: &Vec<u8>) -> (r: Result<(), FieldError>)
        requires
            old(self).wf(),
            src@.len() == old(self).cached@.len(),
        ensures
            final(self).offset == old(self).offset,
            final(self).cached@ == src@,
            final(self).wf(),
            old(self).offset + old(self).cached@.len() <= old(stream).data@.len() ==> (r is Ok
                && final(stream).data@ == splice(old(stream).data@, old(self).offset as int, src@)
                && final(stream).pos == old(self).offset + old(self).cached@.len()),
            old(self).offset + old(self).cached@.len() > old(stream).data@.len() ==> (r matches Err(
                e,
            )
                && e == (FieldError::ShortArrayWrite {
                    offset: old(self).offset,
                    wanted: old(self).cached@.len() as usize,
                    available: avail_at(old(stream).data@.len() as int, old(self).offset as int)
                        as usize,
                })
                && final(stream).data@ == old(stream).data@
                && final(stream).pos == old(stream).pos),
    {
        let len = self.cached.len();
        let mut cached: Vec<u8> = Vec::new();
        let mut i: usize = 0;
        while i < len
            invariant
                i <= len,
                src@.len() == len,
                cached@ =~= src@.subrange(0, i as int),
            decreases len - i,
        {
            let b = src[i];
            cached.push(b);
            i = i + 1;
        }
        proof {
            assert(cached@ =~= src@);
        }
        self.cached = cached;
        let n = stream.data.len();
        if len > n || self.offset > n - len {
            let available: usize = if self.offset <= n {
                n - self.offset
            } else {
                0
            };
            return Err(FieldError::ShortArrayWrite { offset: self.offset, wanted: len, available });
        }
        stream.pos = self.offset;
        let ghost orig: Seq<u8> = stream.data@;
        let mut i: usize = 0;
        while i < len
            invariant
                i <= len,
                self.offset + len <= orig.len(),
                self.offset + len <= usize::MAX,
                src@.len() == len,
                stream.data@.len() == orig.len(),
                forall|j: int| 0 <= j < orig.len() && !(self.offset <= j < self.offset + i)
                    ==> stream.data@[j] == orig[j],
                forall|j: int| self.offset <= j < self.offset + i
                    ==> stream.data@[j] == src@[j - self.offset],
            decreases len - i,
        {
            let b = src[i];
            stream.data.set(self.offset + i, b);
            i = i + 1;
        }
        proof {
            lemma_splice_len(orig, self.offset as int, src@);
            assert forall|j: int| 0 <= j < orig.len() implies stream.data@[j] == splice(
                orig,
                self.offset as int,
                src@,
            )[j] by {
                crate::codec::lemma_splice_index(orig, self.offset as int, src@, j);
            }
            assert(stream.data@ =~= splice(orig, self.offset as int, src@));
        }
        stream.pos = self.offset + len;
        Ok(())
    }

    /// There is no defined semantics for adding to a byte array: always
    /// fails with `UnsupportedAdd`, touching neither the cache nor the
    /// stream.
    pub fn add(&mut self, stream: &mut ByteStream, _delta: &Vec<u8>) -> (r: Result<
        (),
        FieldError,
    >)
        ensures
            r == Result::<(), FieldError>::Err(
                FieldError::UnsupportedAdd { offset: old(self).offset },
            ),
            *final(self) == *old(self),
            final(stream).data@ == old(stream).data@,
            final(stream).pos == old(stream).pos,
    {
        Err(FieldError::UnsupportedAdd { offset: self.offset })
    }
}

} // verus!
