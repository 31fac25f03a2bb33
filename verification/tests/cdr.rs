//! The CDR reader and writer.
use rosbridge::cdr::{CdrError, CdrReader, CdrWriter, Endian};
use rosbridge::float::{Float32, Float64};

fn double(x: f64) -> Float64 {
    Float64 { bits: x.to_bits() }
}

fn value(x: Float64) -> f64 {
    f64::from_bits(x.bits)
}

#[test]
fn roundtrip_primitives_le() {
    let mut w = CdrWriter::new(Endian::Little);
    w.write_u8(7);
    w.write_u32(0xDEADBEEF);
    w.write_f64(double(1234.5678));
    w.write_string("hello");
    w.write_i16(-3);
    let bytes = w.into_bytes();

    let mut r = CdrReader::new(&bytes).unwrap();
    assert_eq!(r.read_u8().unwrap(), 7);
    assert_eq!(r.read_u32().unwrap(), 0xDEADBEEF);
    assert!((value(r.read_f64().unwrap()) - 1234.5678).abs() < 1e-9);
    assert_eq!(r.read_string().unwrap(), "hello");
    assert_eq!(r.read_i16().unwrap(), -3);
}

#[test]
fn roundtrip_primitives_be() {
    let mut w = CdrWriter::new(Endian::Big);
    w.write_u16(0x1234);
    w.write_i64(-1234567);
    w.write_f32(Float32 { bits: 2.5f32.to_bits() });
    let bytes = w.into_bytes();
    assert_eq!(bytes[1], 0x00);

    let mut r = CdrReader::new(&bytes).unwrap();
    assert_eq!(r.read_u16().unwrap(), 0x1234);
    assert_eq!(r.read_i64().unwrap(), -1234567);
    assert_eq!(f32::from_bits(r.read_f32().unwrap().bits), 2.5);
}

#[test]
fn alignment_padding() {
    // u8 then u32: the u32 must be 4-aligned, so 3 pad bytes appear.
    let mut w = CdrWriter::new(Endian::Little);
    w.write_u8(1);
    w.write_u32(2);
    let bytes = w.into_bytes();
    // header(4) + u8(1) + pad(3) + u32(4) = 12
    assert_eq!(bytes.len(), 12);
}

#[test]
fn every_primitive_reads_back_in_both_orders() {
    for order in [Endian::Little, Endian::Big] {
        let mut w = CdrWriter::new(order);
        w.write_bool(true);
        w.write_i8(-5);
        w.write_u8(250);
        w.write_i16(i16::MIN);
        w.write_u16(u16::MAX);
        w.write_i32(i32::MIN);
        w.write_u32(u32::MAX);
        w.write_i64(i64::MIN);
        w.write_u64(u64::MAX);
        w.write_f64(double(-0.25));
        w.write_string("");
        w.write_bytes(&[9, 8, 7]);
        assert_eq!(w.endian(), order);
        let body = w.body_len();
        let bytes = w.into_bytes();
        assert_eq!(bytes.len(), body + 4);
        let mut r = CdrReader::new(&bytes).unwrap();
        assert_eq!(r.endian(), order);
        assert_eq!(r.read_bool(), Ok(true));
        assert_eq!(r.read_i8(), Ok(-5));
        assert_eq!(r.read_u8(), Ok(250));
        assert_eq!(r.read_i16(), Ok(i16::MIN));
        assert_eq!(r.read_u16(), Ok(u16::MAX));
        assert_eq!(r.read_i32(), Ok(i32::MIN));
        assert_eq!(r.read_u32(), Ok(u32::MAX));
        assert_eq!(r.read_i64(), Ok(i64::MIN));
        assert_eq!(r.read_u64(), Ok(u64::MAX));
        assert_eq!(r.read_f64(), Ok(double(-0.25)));
        assert_eq!(r.read_string(), Ok(String::new()));
        assert_eq!(r.read_raw(3), Ok(&[9u8, 8, 7][..]));
        assert!(matches!(r.read_u8(), Err(CdrError::Eof { needed: 1, .. })));
    }
}

#[test]
fn bad_buffers_are_refused() {
    assert!(CdrReader::new(&[0, 1, 0]).is_err());
    assert!(matches!(CdrReader::new(&[7, 7, 0, 0]), Err(CdrError::BadEncapsulation)));
    // A string of two bytes that are not UTF-8.
    let bytes = [0, 1, 0, 0, 3, 0, 0, 0, 0xff, 0xfe, 0];
    assert_eq!(CdrReader::new(&bytes).unwrap().read_string(), Err(CdrError::Utf8));
    // A sequence of more elements than bytes are left.
    let bytes = [0, 1, 0, 0, 9, 0, 0, 0, 1, 2];
    assert_eq!(CdrReader::new(&bytes).unwrap().read_seq_len(), Err(CdrError::BadLength { len: 9 }));
    let bytes = [0, 1, 0, 0, 2, 0, 0, 0, 1, 2];
    assert_eq!(CdrReader::new(&bytes).unwrap().read_seq_len(), Ok(2));
}

#[test]
fn a_body_can_be_read_without_its_header() {
    let mut r = CdrReader::from_body(&[0x01, 0x02], Endian::Big);
    assert_eq!(r.read_u16(), Ok(0x0102));
    let mut r = CdrReader::from_body(&[0x01, 0x02], Endian::Little);
    assert_eq!(r.read_u16(), Ok(0x0201));
}

#[test]
fn alignment_is_measured_from_the_body() {
    let mut w = CdrWriter::new(Endian::Little);
    w.write_u8(1);
    w.align(4);
    assert_eq!(w.body_len(), 4);
    w.align(4);
    assert_eq!(w.body_len(), 4);
    w.align(1);
    w.align(0);
    assert_eq!(w.body_len(), 4);
}
