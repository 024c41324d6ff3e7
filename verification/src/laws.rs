//! The general laws of the library, each proved from the contracts the field
//! views state: the round trip of a write and a read, the little-endian byte
//! layout, the independence of writes at fixed offsets, the disjointness of
//! a record's field ranges, and the shared identity of array handles.

use vstd::prelude::*;

use crate::buffer::ArrayVal;
use crate::buffer::ModSimpleVal;
use crate::buffer::SimpleVal;
use crate::codec::le_bytes;
use crate::codec::le_val;
use crate::codec::lemma_le_bytes_index;
use crate::codec::lemma_le_bytes_len;
use crate::codec::lemma_le_round_trip;
use crate::codec::lemma_splice_index;
use crate::codec::lemma_splice_len;
use crate::codec::lemma_splice_subrange;
use crate::codec::lemma_splice_subrange_disjoint;
use crate::codec::pow256;
use crate::codec::splice;
use crate::record::lemma_prefix_width_monotone;
use crate::record::lemma_prefix_width_succ;
use crate::record::prefix_width;
use crate::record::FieldSpec;
use crate::record::Record;
use crate::stream::scalar_set_post;
use crate::stream::ByteStream;
use crate::stream::FieldError;
use crate::stream::StreamVal;

verus! {

/// Round trip, buffer mode: after `set(v)` on a buffer-backed scalar view,
/// `val()` decodes `v` again, for every supported width and every value
/// representable in it.
pub proof fn lemma_buffer_set_then_get(f: SimpleVal, buf: Seq<u8>, v: nat)
    requires
        f.wf(buf),
        v < f.bound_spec(),
    ensures
        f.wf(f.after_set_spec(buf, v)),
        f.value_spec(f.after_set_spec(buf, v)) == v,
{
    let enc = le_bytes(v, f.width as nat);
    lemma_le_bytes_len(v, f.width as nat);
    lemma_splice_len(buf, f.lo(), enc);
    lemma_splice_subrange(buf, f.lo(), enc);
    lemma_le_round_trip(v, f.width as nat);
}

/// Round trip, stream mode: after a scalar write-back of `v`, `val()`
/// returns `v` from the cache, and — when the write landed — the bytes at
/// the view's offset decode to `v` again.
pub proof fn lemma_stream_set_then_get(
    v0: StreamVal,
    s0: ByteStream,
    v1: StreamVal,
    s1: ByteStream,
    v: nat,
    r: Result<(), FieldError>,
)
    requires
        v0.wf(),
        v < pow256(v0.width as nat),
        scalar_set_post(v0, s0, v1, s1, v, r),
    ensures
        v1.cached == v,
        r is Ok ==> le_val(s1.data@.subrange(v0.offset as int, v0.offset + v0.width)) == v,
{
    if v0.offset + v0.width <= s0.data@.len() {
        let enc = le_bytes(v, v0.width as nat);
        lemma_le_bytes_len(v, v0.width as nat);
        lemma_splice_subrange(s0.data@, v0.offset as int, enc);
        lemma_le_round_trip(v, v0.width as nat);
    }
}

/// Little-endian law: after `set(v)`, byte `i` of the bound range holds
/// byte `i` of `v`'s little-endian encoding, `(v / 256^i) % 256`, for every
/// `i` below the width.
pub proof fn lemma_little_endian_layout(f: SimpleVal, buf: Seq<u8>, v: nat, i: int)
    requires
        f.wf(buf),
        v < f.bound_spec(),
        0 <= i < f.width,
    ensures
        f.after_set_spec(buf, v).len() == buf.len(),
        f.after_set_spec(buf, v)[f.lo() + i] == ((v / pow256(i as nat)) % 256) as u8,
{
    let enc = le_bytes(v, f.width as nat);
    lemma_le_bytes_index(v, f.width as nat, i);
    lemma_splice_len(buf, f.lo(), enc);
    lemma_splice_index(buf, f.lo(), enc, f.lo() + i);
}

/// Offset immutability: two stream views over disjoint ranges, written one
/// after the other — in either order, whatever the cursor did in between —
/// leave each range holding the encoding of the value last written through
/// its own view.
pub proof fn lemma_offset_writes_independent(
    a0: StreamVal,
    b0: StreamVal,
    a1: StreamVal,
    b1: StreamVal,
    s0: ByteStream,
    s1: ByteStream,
    s2: ByteStream,
    va: nat,
    vb: nat,
    ra: Result<(), FieldError>,
    rb: Result<(), FieldError>,
)
    requires
        a0.wf(),
        b0.wf(),
        va < pow256(a0.width as nat),
        vb < pow256(b0.width as nat),
        a0.offset + a0.width <= b0.offset || b0.offset + b0.width <= a0.offset,
        a0.offset + a0.width <= s0.data@.len(),
        b0.offset + b0.width <= s0.data@.len(),
        scalar_set_post(a0, s0, a1, s1, va, ra),
        scalar_set_post(b0, s1, b1, s2, vb, rb),
    ensures
        ra is Ok && rb is Ok,
        s2.data@.len() == s0.data@.len(),
        s2.data@.subrange(a0.offset as int, a0.offset + a0.width) == le_bytes(va, a0.width as nat),
        s2.data@.subrange(b0.offset as int, b0.offset + b0.width) == le_bytes(vb, b0.width as nat),
        le_val(s2.data@.subrange(a0.offset as int, a0.offset + a0.width)) == va,
        le_val(s2.data@.subrange(b0.offset as int, b0.offset + b0.width)) == vb,
{
    let enc_a = le_bytes(va, a0.width as nat);
    let enc_b = le_bytes(vb, b0.width as nat);
    lemma_le_bytes_len(va, a0.width as nat);
    lemma_le_bytes_len(vb, b0.width as nat);
    lemma_splice_len(s0.data@, a0.offset as int, enc_a);
    lemma_splice_len(s1.data@, b0.offset as int, enc_b);
    lemma_splice_subrange(s1.data@, b0.offset as int, enc_b);
    lemma_splice_subrange(s0.data@, a0.offset as int, enc_a);
    lemma_splice_subrange_disjoint(
        s1.data@,
        b0.offset as int,
        enc_b,
        a0.offset as int,
        a0.offset + a0.width,
    );
    lemma_le_round_trip(va, a0.width as nat);
    lemma_le_round_trip(vb, b0.width as nat);
}

/// Layout non-overlap: in a well-laid-out record, the range of an earlier
/// field ends at or before the range of a later field begins.
pub proof fn lemma_record_nonoverlap(
    rec: Record,
    specs: Seq<FieldSpec>,
    start: int,
    i: int,
    j: int,
)
    requires
        rec.wf_layout(specs, start),
        0 <= i < j < specs.len(),
    ensures
        rec.fields@[i].lo_spec() + rec.fields@[i].width_of() <= rec.fields@[j].lo_spec(),
{
    assert(rec.fields@[i].matches_spec(specs[i], start + prefix_width(specs, i)));
    assert(rec.fields@[j].matches_spec(specs[j], start + prefix_width(specs, j)));
    lemma_prefix_width_succ(specs, i);
    lemma_prefix_width_monotone(specs, i + 1, j);
}

/// Array aliasing: a handle cloned from an array view binds the very same
/// range, so the bytes one handle writes are the bytes the other reads.
pub proof fn lemma_array_handles_alias(h1: ArrayVal, h2: ArrayVal, buf: Seq<u8>, src: Seq<u8>)
    requires
        h2 == h1,
        h1.wf(buf),
        src.len() == h1.len,
    ensures
        h2.bytes_spec(splice(buf, h1.lo(), src)) == src,
{
    lemma_splice_subrange(buf, h1.lo(), src);
}

} // verus!
