//! The record layout builder.
//!
//! A record is an ordered collection of field views bound to disjoint,
//! contiguous ranges of one byte source, assigned in declaration order: each
//! declared field consumes the next `width` bytes.  Buffer mode returns the
//! offset of the first unconsumed byte — the leftover — beside the record;
//! stream mode advances the stream and fails, with no record, as soon as a
//! field does not fit.

use vstd::prelude::*;

use crate::buffer::ArrayVal;
use crate::buffer::SimpleVal;
use crate::codec::le_val;
use crate::stream::avail_at;
use crate::stream::ByteStream;
use crate::stream::FieldError;
use crate::stream::StreamArrayVal;
use crate::stream::StreamVal;

verus! {

/// A declared field: a fixed-width unsigned scalar or a fixed-length byte
/// array.
#[derive(Clone, Copy, Debug, PartialEq, Eq, Structural)]
pub enum FieldSpec {
    U8,
    U16,
    U32,
    U64,
    Bytes(usize),
}

impl FieldSpec {
    /// How many bytes the field consumes.
    pub open spec fn width_spec(self) -> nat {
        match self {
            FieldSpec::U8 => 1,
            FieldSpec::U16 => 2,
            FieldSpec::U32 => 4,
            FieldSpec::U64 => 8,
            FieldSpec::Bytes(n) => n as nat,
        }
    }

    pub fn width(&self) -> (r: usize)
        ensures
            r == self.width_spec(),
    {
        match self {
            FieldSpec::U8 => 1,
            FieldSpec::U16 => 2,
            FieldSpec::U32 => 4,
            FieldSpec::U64 => 8,
            FieldSpec::Bytes(n) => *n,
        }
    }
}

/// The bytes consumed by all the declared fields together.
pub open spec fn total_width(specs: Seq<FieldSpec>) -> nat
    decreases specs.len(),
{
    if specs.len() == 0 {
        0
    } else {
        specs[0].width_spec() + total_width(specs.drop_first())
    }
}

/// The bytes consumed by the fields declared before field `i`: field `i`'s
/// range begins this far into the record.
pub open spec fn prefix_width(specs: Seq<FieldSpec>, i: int) -> nat {
    total_width(specs.take(i))
}

/// Consuming one more declared field adds that field's width.
pub proof fn lemma_prefix_width_succ(specs: Seq<FieldSpec>, i: int)
    requires
        0 <= i < specs.len(),
    ensures
        prefix_width(specs, i + 1) == prefix_width(specs, i) + specs[i].width_spec(),
    decreases specs.len(),
{
    if i == 0 {
        assert(specs.take(1) =~= seq![specs[0]]);
        assert(specs.take(1).drop_first() =~= Seq::<FieldSpec>::empty());
        assert(specs.take(0) =~= Seq::<FieldSpec>::empty());
    } else {
        lemma_prefix_width_succ(specs.drop_first(), i - 1);
        assert(specs.take(i + 1).drop_first() =~= specs.drop_first().take(i));
        assert(specs.take(i).drop_first() =~= specs.drop_first().take(i - 1));
        assert(specs.take(i + 1)[0] == specs[0]);
        assert(specs.take(i)[0] == specs[0]);
    }
}

/// No prefix consumes more than the whole declaration.
pub proof fn lemma_prefix_width_le_total(specs: Seq<FieldSpec>, i: int)
    requires
        0 <= i <= specs.len(),
    ensures
        prefix_width(specs, i) <= total_width(specs),
    decreases specs.len() - i,
{
    if i == specs.len() {
        assert(specs.take(i) =~= specs);
    } else {
        lemma_prefix_width_succ(specs, i);
        lemma_prefix_width_le_total(specs, i + 1);
    }
}

/// The whole declaration is the prefix before the end.
pub proof fn lemma_prefix_width_all(specs: Seq<FieldSpec>)
    ensures
        prefix_width(specs, specs.len() as int) == total_width(specs),
{
    assert(specs.take(specs.len() as int) =~= specs);
}

/// A longer prefix consumes at least as many bytes.
pub proof fn lemma_prefix_width_monotone(specs: Seq<FieldSpec>, a: int, b: int)
    requires
        0 <= a <= b <= specs.len(),
    ensures
        prefix_width(specs, a) <= prefix_width(specs, b),
    decreases b - a,
{
    if a < b {
        lemma_prefix_width_succ(specs, a);
        lemma_prefix_width_monotone(specs, a + 1, b);
    }
}

/// A field view of a buffer-backed record.
#[derive(Clone, Copy, Debug)]
pub enum BufField {
    Scalar(SimpleVal),
    Array(ArrayVal),
}

impl BufField {
    /// Where the view's byte range begins.
    pub open spec fn lo_spec(self) -> int {
        match self {
            BufField::Scalar(v) => v.start as int,
            BufField::Array(a) => a.start as int,
        }
    }

    /// How many bytes the view's range covers.
    pub open spec fn width_of(self) -> nat {
        match self {
            BufField::Scalar(v) => v.width as nat,
            BufField::Array(a) => a.len as nat,
        }
    }

    /// The view is of the declared kind and is bound to the range of width
    /// `fs.width_spec()` starting at `lo`.
    pub open spec fn matches_spec(self, fs: FieldSpec, lo: int) -> bool {
        match fs {
            FieldSpec::U8 => self matches BufField::Scalar(v) && v.start == lo && v.width == 1,
            FieldSpec::U16 => self matches BufField::Scalar(v) && v.start == lo && v.width == 2,
            FieldSpec::U32 => self matches BufField::Scalar(v) && v.start == lo && v.width == 4,
            FieldSpec::U64 => self matches BufField::Scalar(v) && v.start == lo && v.width == 8,
            FieldSpec::Bytes(n) => self matches BufField::Array(a) && a.start == lo && a.len == n,
        }
    }
}

/// A buffer-backed record: one field view per declared field, in
/// declaration order, over disjoint ranges of one buffer.
#[derive(Clone, Debug)]
pub struct Record {
    pub fields: Vec<BufField>,
}

impl Record {
    /// Every declared field got a view of its kind, bound at the sum of the
    /// widths declared before it.
    pub open spec fn wf_layout(&self, specs: Seq<FieldSpec>, start: int) -> bool {
        &&& self.fields@.len() == specs.len()
        &&& forall|i: int|
            0 <= i < specs.len() ==> self.fields@[i].matches_spec(
                specs[i],
                start + prefix_width(specs, i),
            )
    }

    /// Builds one field view per declared field, each consuming the next
    /// `width` bytes of `buf` from `start` on; the returned offset — where
    /// the leftover begins — is `start` plus the sum of the declared widths.
    /// A buffer too short for the declaration is a precondition violation.
    pub fn new(buf: &Vec<u8>, specs: &Vec<FieldSpec>, start: usize) -> (r: (Record, usize))
        requires
            start + total_width(specs@) <= buf.len(),
        ensures
            r.0.wf_layout(specs@, start as int),
            r.1 == start + total_width(specs@),
    {
        let n = buf.len();
        proof {
            assert(specs@.take(0) =~= Seq::<FieldSpec>::empty());
        }
        let mut fields: Vec<BufField> = Vec::new();
        let mut off: usize = start;
        let mut i: usize = 0;
        while i < specs.len()
            invariant
                i <= specs@.len(),
                start + total_width(specs@) <= n == buf@.len(),
                off == start + prefix_width(specs@, i as int),
                fields@.len() == i,
                forall|j: int|
                    0 <= j < i ==> fields@[j].matches_spec(
                        specs@[j],
                        start + prefix_width(specs@, j),
                    ),
            decreases specs@.len() - i,
        {
            let fs = specs[i];
            let w = fs.width();
            proof {
                lemma_prefix_width_succ(specs@, i as int);
                lemma_prefix_width_le_total(specs@, i + 1);
            }
            match fs {
                FieldSpec::Bytes(len) => {
                    let (a, next) = ArrayVal::new(buf, off, len);
                    fields.push(BufField::Array(a));
                    off = next;
                },
                _ => {
                    let (v, next) = SimpleVal::new(buf, off, w);
                    fields.push(BufField::Scalar(v));
                    off = next;
                },
            }
            i = i + 1;
        }
        proof {
            lemma_prefix_width_all(specs@);
        }
        (Record { fields }, off)
    }
}

/// Field `i` of the declaration fits the source: its range, which begins
/// after the widths declared before it, ends at or before `len`.
pub open spec fn field_fits(specs: Seq<FieldSpec>, i: int, pos: int, len: int) -> bool {
    pos + prefix_width(specs, i) + specs[i].width_spec() <= len
}

/// Every declared field fits the source.
pub open spec fn layout_fits(specs: Seq<FieldSpec>, pos: int, len: int) -> bool {
    forall|i: int| 0 <= i < specs.len() ==> field_fits(specs, i, pos, len)
}

/// Field `k` is the first declared field that does not fit the source.
pub open spec fn first_unfit(specs: Seq<FieldSpec>, k: int, pos: int, len: int) -> bool {
    &&& 0 <= k < specs.len()
    &&& forall|j: int| 0 <= j < k ==> field_fits(specs, j, pos, len)
    &&& !field_fits(specs, k, pos, len)
}

/// A field view of a stream-backed record.
#[derive(Clone, Debug)]
pub enum StreamField {
    Scalar(StreamVal),
    Array(StreamArrayVal),
}

impl StreamField {
    /// The view is of the declared kind, is bound at offset `lo`, and
    /// caches what the range `[lo, lo + width)` of `data` decodes to.
    pub open spec fn matches_stream_spec(self, fs: FieldSpec, lo: int, data: Seq<u8>) -> bool {
        match fs {
            FieldSpec::Bytes(n) => self matches StreamField::Array(a) && a.offset == lo && a.wf()
                && a.cached@ == data.subrange(lo, lo + n),
            _ => self matches StreamField::Scalar(v) && v.offset == lo && v.width
                == fs.width_spec() && v.wf() && (v.cached as nat) == le_val(
                data.subrange(lo, lo + fs.width_spec()),
            ),
        }
    }
}

/// A stream-backed record: one field view per declared field, constructed
/// in declaration order at consecutive stream offsets.
#[derive(Clone, Debug)]
pub struct StreamRecord {
    pub fields: Vec<StreamField>,
}

impl StreamRecord {
    /// Every declared field got a view of its kind, bound at the stream's
    /// starting position plus the sum of the widths declared before it, with
    /// the bytes there decoded into its cache.
    pub open spec fn wf_layout(&self, specs: Seq<FieldSpec>, pos: int, data: Seq<u8>) -> bool {
        &&& self.fields@.len() == specs.len()
        &&& forall|i: int|
            0 <= i < specs.len() ==> self.fields@[i].matches_stream_spec(
                specs[i],
                pos + prefix_width(specs, i),
                data,
            )
    }

    /// Builds one field view per declared field at the stream's current
    /// position, each construction advancing the stream by the field's
    /// width.  When every field fits, the record is returned and the stream
    /// stands after the last field.  When one does not, the first such
    /// field's `ShortRead` is propagated, no record is returned, and the
    /// stream stands where that field began, its bytes untouched.
    pub fn new(stream: &mut ByteStream, specs: &Vec<FieldSpec>) -> (r: Result<
        StreamRecord,
        FieldError,
    >)
        ensures
            layout_fits(specs@, old(stream).pos as int, old(stream).data@.len() as int) ==> (
            r matches Ok(rec)
                && rec.wf_layout(specs@, old(stream).pos as int, old(stream).data@)
                && final(stream).data@ == old(stream).data@
                && final(stream).pos == old(stream).pos + total_width(specs@)),
            !layout_fits(specs@, old(stream).pos as int, old(stream).data@.len() as int) ==> (
            r matches Err(e)
                && final(stream).data@ == old(stream).data@
                && (exists|k: int|
                    #[trigger] first_unfit(
                        specs@,
                        k,
                        old(stream).pos as int,
                        old(stream).data@.len() as int,
                    ) && e == (FieldError::ShortRead {
                        offset: (old(stream).pos + prefix_width(specs@, k)) as usize,
                        wanted: specs@[k].width_spec() as usize,
                        available: avail_at(
                            old(stream).data@.len() as int,
                            old(stream).pos + prefix_width(specs@, k),
                        ) as usize,
                    })
                        && final(stream).pos == old(stream).pos + prefix_width(specs@, k))),
    {
        let ghost data0: Seq<u8> = old(stream).data@;
        let ghost pos0: int = old(stream).pos as int;
        let ghost len0: int = old(stream).data@.len() as int;
        proof {
            assert(specs@.take(0) =~= Seq::<FieldSpec>::empty());
        }
        let mut fields: Vec<StreamField> = Vec::new();
        let mut i: usize = 0;
        while i < specs.len()
            invariant
                i <= specs@.len(),
                data0 == old(stream).data@,
                pos0 == old(stream).pos as int,
                len0 == old(stream).data@.len() as int,
                stream.data@ == data0,
                data0.len() == len0,
                stream.pos == pos0 + prefix_width(specs@, i as int),
                fields@.len() == i,
                forall|j: int| 0 <= j < i ==> field_fits(specs@, j, pos0, len0),
                forall|j: int|
                    0 <= j < i ==> fields@[j].matches_stream_spec(
                        specs@[j],
                        pos0 + prefix_width(specs@, j),
                        data0,
                    ),
            decreases specs@.len() - i,
        {
            let fs = specs[i];
            proof {
                lemma_prefix_width_succ(specs@, i as int);
            }
            match fs {
                FieldSpec::Bytes(len) => {
                    match StreamArrayVal::new(stream, len) {
                        Ok(a) => {
                            fields.push(StreamField::Array(a));
                        },
                        Err(e) => {
                            proof {
                                assert(!field_fits(specs@, i as int, pos0, len0));
                                assert(first_unfit(specs@, i as int, pos0, len0));
                                assert(!layout_fits(specs@, pos0, len0));
                                assert(e == (FieldError::ShortRead {
                                    offset: (pos0 + prefix_width(specs@, i as int)) as usize,
                                    wanted: specs@[i as int].width_spec() as usize,
                                    available: avail_at(
                                        len0,
                                        pos0 + prefix_width(specs@, i as int),
                                    ) as usize,
                                }));
                            }
                            return Err(e);
                        },
                    }
                },
                _ => {
                    let w = fs.width();
                    match StreamVal::new(stream, w) {
                        Ok(v) => {
                            fields.push(StreamField::Scalar(v));
                        },
                        Err(e) => {
                            proof {
                                assert(!field_fits(specs@, i as int, pos0, len0));
                                assert(first_unfit(specs@, i as int, pos0, len0));
                                assert(!layout_fits(specs@, pos0, len0));
                                assert(e == (FieldError::ShortRead {
                                    offset: (pos0 + prefix_width(specs@, i as int)) as usize,
                                    wanted: specs@[i as int].width_spec() as usize,
                                    available: avail_at(
                                        len0,
                                        pos0 + prefix_width(specs@, i as int),
                                    ) as usize,
                                }));
                            }
                            return Err(e);
                        },
                    }
                },
            }
            i = i + 1;
        }
        proof {
            lemma_prefix_width_all(specs@);
        }
        Ok(StreamRecord { fields })
    }
}

} // verus!
