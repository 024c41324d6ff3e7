use header_view::record::FieldSpec;
use header_view::record::StreamField;
use header_view::record::StreamRecord;
use header_view::stream::ByteStream;
use header_view::stream::FieldError;
use header_view::stream::StreamArrayVal;
use header_view::stream::StreamVal;

const TESTDATA: [u8; 0x13] = [
    1, 2, 3, 4, 5, 6, 7, 8, 9, 0xA, 0xB, 0xC, 0xD, 0xE, 0xF, 0x10, 0x11, 0x12, 0x13,
];

fn test_specs() -> Vec<FieldSpec> {
    vec![
        FieldSpec::U8,
        FieldSpec::U16,
        FieldSpec::U32,
        FieldSpec::U64,
        FieldSpec::Bytes(4),
    ]
}

fn scalar(f: &mut StreamField) -> &mut StreamVal {
    match f {
        StreamField::Scalar(v) => v,
        StreamField::Array(_) => panic!("expected a scalar field"),
    }
}

fn array(f: &mut StreamField) -> &mut StreamArrayVal {
    match f {
        StreamField::Array(a) => a,
        StreamField::Scalar(_) => panic!("expected an array field"),
    }
}

#[test]
fn stream_record_reads_declared_values() {
    let mut stream = ByteStream::new(TESTDATA.to_vec());
    let mut rec = StreamRecord::new(&mut stream, &test_specs()).unwrap();

    assert_eq!(scalar(&mut rec.fields[0]).val(), 0x01);
    assert_eq!(scalar(&mut rec.fields[1]).val(), 0x0302);
    assert_eq!(scalar(&mut rec.fields[2]).val(), 0x07060504);
    assert_eq!(scalar(&mut rec.fields[3]).val(), 0x0F0E0D0C0B0A0908);
    assert_eq!(array(&mut rec.fields[4]).val(), vec![0x10, 0x11, 0x12, 0x13]);
    assert_eq!(stream.position(), 19);
    assert_eq!(stream.remaining(), 0);
}

#[test]
fn stream_record_set_every_field() {
    // Writing every field of the record leaves exactly the declared bytes.
    let mut stream = ByteStream::new(TESTDATA.to_vec());
    let mut rec = StreamRecord::new(&mut stream, &test_specs()).unwrap();

    scalar(&mut rec.fields[0]).set(&mut stream, 0x13).unwrap();
    scalar(&mut rec.fields[1]).set(&mut stream, 0x1112).unwrap();
    scalar(&mut rec.fields[2]).set(&mut stream, 0x0D0E0F10).unwrap();
    scalar(&mut rec.fields[3]).set(&mut stream, 0x05060708090A0B0C).unwrap();
    array(&mut rec.fields[4]).set(&mut stream, &vec![0x04, 0x03, 0x02, 0x01]).unwrap();

    assert_eq!(scalar(&mut rec.fields[0]).val(), 0x13);
    assert_eq!(scalar(&mut rec.fields[1]).val(), 0x1112);
    assert_eq!(scalar(&mut rec.fields[2]).val(), 0x0D0E0F10);
    assert_eq!(scalar(&mut rec.fields[3]).val(), 0x05060708090A0B0C);
    assert_eq!(array(&mut rec.fields[4]).val(), vec![0x04, 0x03, 0x02, 0x01]);

    let bytes = stream.into_inner();
    assert_eq!(
        bytes,
        vec![
            0x13, 0x12, 0x11, 0x10, 0x0F, 0x0E, 0x0D, 0x0C, 0x0B, 0x0A, 0x09, 0x08, 0x07, 0x06,
            0x05, 0x04, 0x03, 0x02, 0x01,
        ]
    );
}

#[test]
fn stream_add_no_carry_into_neighbours() {
    // add on a one-byte field holding 0x11 yields 0x21; the neighbours'
    // bytes stay as they were.
    let mut stream = ByteStream::new(vec![0x11, 0xAA, 0xBB]);
    let mut v = StreamVal::new(&mut stream, 1).unwrap();
    assert_eq!(v.val(), 0x11);
    v.add(&mut stream, 0x10).unwrap();
    assert_eq!(v.val(), 0x21);
    assert_eq!(stream.into_inner(), vec![0x21, 0xAA, 0xBB]);
}

#[test]
fn stream_round_trip_all_widths() {
    let cases: [(usize, &[u64]); 4] = [
        (1, &[0, 1, 0x7F, 0xFF]),
        (2, &[0, 1, 0xFF, 0xFFFF]),
        (4, &[0, 1, 0xFFFF, 0xFFFF_FFFF]),
        (8, &[0, 1, 0xFFFF_FFFF, 0xFFFF_FFFF_FFFF_FFFF]),
    ];
    for (width, values) in cases {
        let mut stream = ByteStream::new(vec![0u8; width]);
        let mut f = StreamVal::new(&mut stream, width).unwrap();
        for &v in values {
            f.set(&mut stream, v).unwrap();
            assert_eq!(f.val(), v);
            // A fresh view at the same offset decodes the written bytes.
            stream.seek(0);
            let fresh = StreamVal::new(&mut stream, width).unwrap();
            assert_eq!(fresh.val(), v);
        }
    }
}

#[test]
fn stream_offset_immutable_under_interleaving() {
    // Two views at offsets 0 and 4; whatever the cursor position at call
    // time and whichever view is written first, each write lands at the
    // offset its view was constructed at.
    let mut stream = ByteStream::new(vec![0u8; 12]);
    let mut v1 = StreamVal::new(&mut stream, 4).unwrap();
    let mut v2 = StreamVal::new(&mut stream, 4).unwrap();
    assert_eq!(v1.offset, 0);
    assert_eq!(v2.offset, 4);

    stream.seek(9);
    v2.set(&mut stream, 0xAABBCCDD).unwrap();
    stream.seek(2);
    v1.set(&mut stream, 0x11223344).unwrap();

    let bytes = stream.get_ref();
    assert_eq!(bytes[0..4], [0x44, 0x33, 0x22, 0x11]);
    assert_eq!(bytes[4..8], [0xDD, 0xCC, 0xBB, 0xAA]);
    assert_eq!(bytes[8..12], [0, 0, 0, 0]);

    // The other order: the later write to the other view wins nothing from
    // it — each range still matches the last value set through its view.
    v1.set(&mut stream, 0x01020304).unwrap();
    v2.set(&mut stream, 0x05060708).unwrap();
    let bytes = stream.get_ref();
    assert_eq!(bytes[0..4], [0x04, 0x03, 0x02, 0x01]);
    assert_eq!(bytes[4..8], [0x08, 0x07, 0x06, 0x05]);
}

#[test]
fn stream_compound_ops_equal_set_of_get() {
    let mut stream = ByteStream::new(vec![0u8; 2]);
    let mut f = StreamVal::new(&mut stream, 2).unwrap();

    f.set(&mut stream, 0xFFF0).unwrap();
    f.add(&mut stream, 0x20).unwrap();
    assert_eq!(f.val(), 0x0010);

    f.sub(&mut stream, 0x20).unwrap();
    assert_eq!(f.val(), 0xFFF0);

    f.set(&mut stream, 0x0300).unwrap();
    f.mul(&mut stream, 0x60).unwrap();
    assert_eq!(f.val(), 0x2000);

    f.div(&mut stream, 0x40).unwrap();
    assert_eq!(f.val(), 0x0080);

    assert_eq!(stream.into_inner(), vec![0x80, 0x00]);
}

#[test]
fn stream_short_read_yields_error_and_no_view() {
    // Fewer bytes left than the width: an error naming the attempted
    // offset and the shortfall, the stream untouched.
    let mut stream = ByteStream::new(vec![1, 2, 3]);
    let r = StreamVal::new(&mut stream, 4);
    assert_eq!(
        r,
        Err(FieldError::ShortRead { offset: 0, wanted: 4, available: 3 })
    );
    assert_eq!(stream.position(), 0);
    assert_eq!(stream.remaining(), 3);

    stream.seek(2);
    let r = StreamVal::new(&mut stream, 2);
    assert_eq!(
        r,
        Err(FieldError::ShortRead { offset: 2, wanted: 2, available: 1 })
    );
    assert_eq!(stream.position(), 2);
}

#[test]
fn stream_array_short_read_yields_error() {
    let mut stream = ByteStream::new(vec![1, 2]);
    let r = StreamArrayVal::new(&mut stream, 3);
    assert_eq!(
        r,
        Err(FieldError::ShortRead { offset: 0, wanted: 3, available: 2 })
    );
    assert_eq!(stream.position(), 0);
}

#[test]
fn stream_record_fails_at_first_unfitting_field() {
    // The record propagates the first field's short read: no record, the
    // stream standing where that field began.
    let mut stream = ByteStream::new(vec![0u8; 5]);
    let specs = vec![FieldSpec::U16, FieldSpec::U32];
    let r = StreamRecord::new(&mut stream, &specs);
    assert_eq!(
        r.unwrap_err(),
        FieldError::ShortRead { offset: 2, wanted: 4, available: 3 }
    );
    assert_eq!(stream.position(), 2);

    let mut stream = ByteStream::new(vec![0u8; 3]);
    let specs = vec![FieldSpec::U64];
    let r = StreamRecord::new(&mut stream, &specs);
    assert_eq!(
        r.unwrap_err(),
        FieldError::ShortRead { offset: 0, wanted: 8, available: 3 }
    );
    assert_eq!(stream.position(), 0);
}

#[test]
fn stream_short_write_updates_cache_only() {
    // A write-back that would run past the end fails carrying offset and
    // value; the cache keeps the new value, the bytes keep the old.
    let mut long = ByteStream::new(vec![0u8; 4]);
    let mut v = StreamVal::new(&mut long, 4).unwrap();

    let mut short = ByteStream::new(vec![0u8; 2]);
    let r = v.set(&mut short, 0x01020304);
    assert_eq!(
        r,
        Err(FieldError::ShortWrite { offset: 0, wanted: 4, available: 2, value: 0x01020304 })
    );
    assert_eq!(v.val(), 0x01020304);
    assert_eq!(short.into_inner(), vec![0, 0]);
}

#[test]
fn stream_array_short_write_updates_cache_only() {
    let mut long = ByteStream::new(vec![7u8; 3]);
    let mut a = StreamArrayVal::new(&mut long, 3).unwrap();

    let mut short = ByteStream::new(vec![0u8; 1]);
    let r = a.set(&mut short, &vec![1, 2, 3]);
    assert_eq!(
        r,
        Err(FieldError::ShortArrayWrite { offset: 0, wanted: 3, available: 1 })
    );
    assert_eq!(a.val(), vec![1, 2, 3]);
    assert_eq!(short.into_inner(), vec![0]);
}

#[test]
fn stream_array_set_writes_back() {
    let mut stream = ByteStream::new(vec![9u8; 5]);
    stream.seek(1);
    let mut a = StreamArrayVal::new(&mut stream, 3).unwrap();
    assert_eq!(a.val(), vec![9, 9, 9]);

    stream.seek(0);
    a.set(&mut stream, &vec![1, 2, 3]).unwrap();
    assert_eq!(a.val(), vec![1, 2, 3]);
    assert_eq!(stream.position(), 4);
    assert_eq!(stream.into_inner(), vec![9, 1, 2, 3, 9]);
}

#[test]
fn stream_array_add_is_unsupported() {
    // There is no semantics for adding to a byte array: a deliberate,
    // explicit failure that touches nothing.
    let mut stream = ByteStream::new(vec![5u8; 4]);
    stream.seek(1);
    let mut a = StreamArrayVal::new(&mut stream, 2).unwrap();
    let r = a.add(&mut stream, &vec![1, 1]);
    assert_eq!(r, Err(FieldError::UnsupportedAdd { offset: 1 }));
    assert_eq!(a.val(), vec![5, 5]);
    assert_eq!(stream.into_inner(), vec![5, 5, 5, 5]);
}

#[test]
fn stream_seek_and_position_report() {
    let mut stream = ByteStream::new(vec![0u8; 4]);
    assert_eq!(stream.position(), 0);
    assert_eq!(stream.remaining(), 4);
    stream.seek(3);
    assert_eq!(stream.position(), 3);
    assert_eq!(stream.remaining(), 1);
    stream.seek(9);
    assert_eq!(stream.position(), 9);
    assert_eq!(stream.remaining(), 0);
    let r = StreamVal::new(&mut stream, 1);
    assert_eq!(
        r,
        Err(FieldError::ShortRead { offset: 9, wanted: 1, available: 0 })
    );
}
