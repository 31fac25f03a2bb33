//! Outgoing message compression: CBOR, CBOR-raw, and PNG, matching rosbridge's
//! subscribe-time encodings.
use vstd::prelude::*;
use vstd::utf8::encode_utf8;
use crate::cdr::{uint_bytes, Endian};
use crate::document::{cbor_bytes, finite_json, reads_back, to_cbor_bytes};
use crate::encoding::{base64_encode, base64_text};
use crate::json::JsonValue;
use crate::text::same_text;

verus! {

/// The selected compression scheme for a subscription. Precedence when several
/// clients share a topic is `cbor-raw > cbor > png > none`.
#[derive(Debug, Clone, Copy, PartialEq, Eq, Structural)]
pub enum Compression {
    /// No compression: JSON text.
    Plain,
    Png,
    Cbor,
    CborRaw,
}

impl Default for Compression {
    fn default() -> (r: Self)
        ensures
            r == Compression::Plain,
    {
        Compression::Plain
    }
}

impl Compression {
    /// The scheme that a name stands for; any other name is no compression.
    pub open spec fn named(s: Seq<char>) -> Compression {
        if s == "png"@ {
            Compression::Png
        } else if s == "cbor"@ {
            Compression::Cbor
        } else if s == "cbor-raw"@ {
            Compression::CborRaw
        } else {
            Compression::Plain
        }
    }

    /// Precedence rank (higher wins).
    pub open spec fn precedence(self) -> u8 {
        match self {
            Compression::Plain => 0,
            Compression::Png => 1,
            Compression::Cbor => 2,
            Compression::CborRaw => 3,
        }
    }

    /// The scheme that a name stands for.
    pub fn parse(s: &str) -> (r: Compression)
        ensures
            r == Compression::named(s@),
    {
        if same_text(s, "png") {
            Compression::Png
        } else if same_text(s, "cbor") {
            Compression::Cbor
        } else if same_text(s, "cbor-raw") {
            Compression::CborRaw
        } else {
            Compression::Plain
        }
    }

    /// Precedence rank for multi-client coalescing (higher wins).
    pub fn rank(self) -> (r: u8)
        ensures
            r == self.precedence(),
    {
        match self {
            Compression::Plain => 0,
            Compression::Png => 1,
            Compression::Cbor => 2,
            Compression::CborRaw => 3,
        }
    }
}

/// Serializes a JSON value to a CBOR byte buffer, from which it is read back where it is
/// not nested too deep and has no key that is too long.
pub fn to_cbor(value: &JsonValue) -> (r: Vec<u8>)
    requires
        finite_json(value@),
    ensures
        r@ == cbor_bytes(value@),
        reads_back(r@, value@),
{
    to_cbor_bytes(value)
}

/// The head of a CBOR item: its major type and its argument, in the shortest form.
pub open spec fn cbor_head(major: u8, val: u64) -> Seq<u8> {
    if val < 24 {
        seq![(major * 32 + val) as u8]
    } else if val < 0x100 {
        seq![(major * 32 + 24) as u8, val as u8]
    } else if val < 0x1_0000 {
        seq![(major * 32 + 25) as u8] + uint_bytes(val as nat, 2, Endian::Big)
    } else if val < 0x1_0000_0000 {
        seq![(major * 32 + 26) as u8] + uint_bytes(val as nat, 4, Endian::Big)
    } else {
        seq![(major * 32 + 27) as u8] + uint_bytes(val as nat, 8, Endian::Big)
    }
}

/// A CBOR text string.
pub open spec fn cbor_text(s: Seq<char>) -> Seq<u8> {
    cbor_head(3, encode_utf8(s).len() as u64) + encode_utf8(s)
}

/// A CBOR byte string.
pub open spec fn cbor_string(b: Seq<u8>) -> Seq<u8> {
    cbor_head(2, b.len() as u64) + b
}

/// A CBOR integer.
pub open spec fn cbor_int(v: i64) -> Seq<u8> {
    if v >= 0 {
        cbor_head(0, v as u64)
    } else {
        cbor_head(1, (-1 - v) as u64)
    }
}

/// The map `{op, topic, msg: {secs, nsecs, bytes}}` as CBOR, with the payload as a
/// byte string.
pub open spec fn raw_frame(topic: Seq<char>, raw: Seq<u8>, secs: i64, nsecs: u32) -> Seq<u8> {
    seq![0xa3u8] + cbor_text("op"@) + cbor_text("publish"@) + cbor_text("topic"@) + cbor_text(topic)
        + cbor_text("msg"@) + seq![0xa3u8] + cbor_text("secs"@) + cbor_int(secs) + cbor_text(
        "nsecs"@,
    ) + cbor_int(nsecs as i64) + cbor_text("bytes"@) + cbor_string(raw)
}

fn push_bytes(out: &mut Vec<u8>, b: &[u8])
    ensures
        final(out)@ == old(out)@ + b@,
{
    let ghost before = out@;
    for i in 0..b.len()
        invariant
            out@ == before + b@.take(i as int),
    {
        out.push(b[i]);
        assert(b@.take(i as int + 1) =~= b@.take(i as int).push(b@[i as int]));
    }
    assert(b@.take(b@.len() as int) =~= b@);
}

/// Pushes the `n` low bytes of `v`, most significant first.
fn push_number(out: &mut Vec<u8>, v: u64, n: usize)
    requires
        n <= 8,
    ensures
        final(out)@ == old(out)@ + uint_bytes(v as nat, n as nat, Endian::Big),
{
    let mut w = crate::cdr::CdrWriter::new(Endian::Big);
    w.write_u64(v);
    let bytes = w.into_bytes();
    proof {
        crate::cdr::le_bytes_have_value(v as nat, 8);
        crate::cdr::le_bytes_have_value(v as nat, n as nat);
        lemma_low_bytes(v as nat, n as nat, 8);
    }
    let ghost all = uint_bytes(v as nat, 8, Endian::Big);
    let ghost number = uint_bytes(v as nat, n as nat, Endian::Big);
    assert(bytes@.skip(4) =~= all);
    assert(bytes@.skip(12 - n) =~= number) by {
        assert forall|i: int| 0 <= i < n implies bytes@[12 - n + i] == number[i] by {
            assert(bytes@[12 - n + i] == all[8 - n + i]);
        }
    }
    let tail = vstd::slice::slice_subrange(bytes.as_slice(), 12 - n, 12);
    assert(tail@ =~= number);
    push_bytes(out, tail);
}

proof fn lemma_low_bytes(v: nat, n: nat, m: nat)
    requires
        n <= m,
    ensures
        crate::cdr::le_bytes(v, m).take(n as int) == crate::cdr::le_bytes(v, n),
        crate::cdr::le_bytes(v, m).len() == m,
        crate::cdr::le_bytes(v, n).len() == n,
    decreases n,
{
    crate::cdr::le_bytes_have_value(v, m);
    crate::cdr::le_bytes_have_value(v, n);
    if n > 0 {
        lemma_low_bytes(v / 256, (n - 1) as nat, (m - 1) as nat);
        assert(crate::cdr::le_bytes(v, m).take(n as int) =~= crate::cdr::le_bytes(v, n));
    } else {
        assert(crate::cdr::le_bytes(v, m).take(0) =~= crate::cdr::le_bytes(v, 0));
    }
}

fn push_head(out: &mut Vec<u8>, major: u8, val: u64)
    requires
        major < 8,
    ensures
        final(out)@ == old(out)@ + cbor_head(major, val),
{
    let ghost before = out@;
    let m: u8 = major * 32;
    if val < 24 {
        out.push(m + val as u8);
        assert(out@ =~= before + cbor_head(major, val));
    } else if val < 0x100 {
        out.push(m + 24);
        out.push(val as u8);
        assert(out@ =~= before + cbor_head(major, val));
    } else if val < 0x1_0000 {
        out.push(m + 25);
        push_number(out, val, 2);
        assert(out@ =~= before + cbor_head(major, val));
    } else if val < 0x1_0000_0000 {
        out.push(m + 26);
        push_number(out, val, 4);
        assert(out@ =~= before + cbor_head(major, val));
    } else {
        out.push(m + 27);
        push_number(out, val, 8);
        assert(out@ =~= before + cbor_head(major, val));
    }
}

fn push_text(out: &mut Vec<u8>, s: &str)
    ensures
        final(out)@ == old(out)@ + cbor_text(s@),
{
    let ghost before = out@;
    let b = s.as_bytes();
    push_head(out, 3, b.len() as u64);
    push_bytes(out, b);
    assert(out@ =~= before + cbor_text(s@));
}

fn push_string(out: &mut Vec<u8>, b: &[u8])
    ensures
        final(out)@ == old(out)@ + cbor_string(b@),
{
    let ghost before = out@;
    push_head(out, 2, b.len() as u64);
    push_bytes(out, b);
    assert(out@ =~= before + cbor_string(b@));
}

fn push_int(out: &mut Vec<u8>, v: i64)
    ensures
        final(out)@ == old(out)@ + cbor_int(v),
{
    if v >= 0 {
        push_head(out, 0, v as u64);
    } else {
        push_head(out, 1, (-1 - v) as u64);
    }
}

/// Builds a `cbor-raw` publish frame: `{op, topic, msg:{secs,nsecs,bytes}}`
/// CBOR-encoded, carrying the untouched raw CDR payload.
pub fn cbor_raw_frame(topic: &str, raw_cdr: &[u8], secs: i64, nsecs: u32) -> (r: Vec<u8>)
    ensures
        r@ == raw_frame(topic@, raw_cdr@, secs, nsecs),
{
    let mut out: Vec<u8> = Vec::new();
    out.push(0xa3);
    push_text(&mut out, "op");
    push_text(&mut out, "publish");
    push_text(&mut out, "topic");
    push_text(&mut out, topic);
    push_text(&mut out, "msg");
    out.push(0xa3);
    push_text(&mut out, "secs");
    push_int(&mut out, secs);
    push_text(&mut out, "nsecs");
    push_int(&mut out, nsecs as i64);
    push_text(&mut out, "bytes");
    push_string(&mut out, raw_cdr);
    assert(out@ =~= raw_frame(topic@, raw_cdr@, secs, nsecs));
    out
}

/// What a reader makes of the head of a CBOR item: the major type, the argument and
/// the length of the head.
pub open spec fn read_head(b: Seq<u8>) -> (nat, nat, nat) {
    let major = (b[0] / 32) as nat;
    let info = b[0] % 32;
    if info < 24 {
        (major, info as nat, 1)
    } else if info == 24 {
        (major, b[1] as nat, 2)
    } else if info == 25 {
        (major, crate::cdr::uint_value(b.subrange(1, 3), Endian::Big), 3)
    } else if info == 26 {
        (major, crate::cdr::uint_value(b.subrange(1, 5), Endian::Big), 5)
    } else {
        (major, crate::cdr::uint_value(b.subrange(1, 9), Endian::Big), 9)
    }
}

/// The head of a CBOR item is read back, whatever follows it.
pub proof fn head_reads_back(major: u8, val: u64, rest: Seq<u8>)
    requires
        major < 8,
    ensures
        read_head(cbor_head(major, val) + rest) == (
            major as nat,
            val as nat,
            cbor_head(major, val).len(),
        ),
{
    let h = cbor_head(major, val);
    let b = h + rest;
    crate::cdr::lemma_byte_ranges();
    if 0x100 <= val {
        let n: nat = if val < 0x1_0000 {
            2
        } else if val < 0x1_0000_0000 {
            4
        } else {
            8
        };
        crate::cdr::le_bytes_have_value(val as nat, n);
        let bytes = uint_bytes(val as nat, n, Endian::Big);
        assert(bytes.reverse() =~= crate::cdr::le_bytes(val as nat, n));
        assert(b.subrange(1, 1 + n as int) =~= bytes);
    }
}

/// A raw frame ends with the untouched payload.
pub proof fn raw_frame_carries_payload(topic: Seq<char>, raw: Seq<u8>, secs: i64, nsecs: u32)
    ensures
        ({
            let frame = raw_frame(topic, raw, secs, nsecs);
            &&& frame.len() >= raw.len()
            &&& frame.skip(frame.len() - raw.len()) == raw
        }),
{
    let frame = raw_frame(topic, raw, secs, nsecs);
    assert(frame.skip(frame.len() - raw.len()) =~= raw);
}

/// An error of the `png` encoder.
#[verifier::external_type_specification]
#[verifier::external_body]
pub struct ExEncodingError(png::EncodingError);

/// The PNG file of an image, if it can be made: its width and height, and its pixels
/// as bytes for red, green and blue.
pub uninterp spec fn png_file(width: u32, height: u32, rgb: Seq<u8>) -> Option<Seq<u8>>;

/// `png::Encoder` with 8-bit RGB pixels and otherwise its defaults, its
/// `write_header` and then `write_image_data`. The file depends on the size and the
/// pixels alone. The encoder counts the bytes of the image, which is why their number
/// has to fit.
#[verifier::external_body]
fn encode_image(width: u32, height: u32, rgb: &[u8]) -> (r: Result<Vec<u8>, png::EncodingError>)
    requires
        3 * width * height < usize::MAX,
    ensures
        match r {
            Ok(v) => png_file(width, height, rgb@) == Some(v@),
            Err(_) => png_file(width, height, rgb@) is None,
        },
{
    let mut out = Vec::new();
    let mut encoder = png::Encoder::new(&mut out, width, height);
    encoder.set_color(png::ColorType::Rgb);
    encoder.set_depth(png::BitDepth::Eight);
    encoder.write_header()?.write_image_data(rgb)?;
    Ok(out)
}

/// Why a text cannot be compressed as an image.
#[derive(Debug, Clone, Copy, PartialEq, Eq, Structural)]
pub enum PngError {
    /// The encoder failed.
    Encoding,
    /// The text is longer than any text can be.
    TooLong,
}

/// The least width from `w` on of a square image that holds `len` bytes.
pub open spec fn width_from(len: nat, w: nat) -> nat
    decreases len - w,
{
    if 3 * w * w >= len || w >= len {
        w
    } else {
        width_from(len, w + 1)
    }
}

/// The size of the near-square image that holds `len` bytes, three to a pixel.
pub open spec fn image_size(len: nat) -> (nat, nat) {
    let n = if len == 0 {
        1
    } else {
        len
    };
    let w = width_from(n, 1);
    (w, ((n + 3 * w - 1) / (3 * w as int)) as nat)
}

/// The pixels of a text: its bytes, and line feeds up to the size of the image.
pub open spec fn image_pixels(bytes: Seq<u8>) -> Seq<u8> {
    let (w, h) = image_size(bytes.len());
    bytes + Seq::new((3 * w * h - bytes.len()) as nat, |i: int| 10u8)
}

proof fn lemma_width(len: nat, w: nat)
    requires
        w >= 1,
        len >= 1,
        w == 1 || 3 * ((w - 1) * (w - 1)) < len,
    ensures
        ({
            let r = width_from(len, w);
            &&& r >= w
            &&& 3 * (r * r) >= len
            &&& r == 1 || 3 * ((r - 1) * (r - 1)) < len
        }),
    decreases len - w,
{
    assert(3 * w * w == 3 * (w * w)) by (nonlinear_arith);
    if 3 * w * w >= len || w >= len {
        assert(w >= len ==> 3 * (w * w) >= len) by (nonlinear_arith)
            requires
                w >= 1,
        ;
    } else {
        assert(((w + 1) - 1) * ((w + 1) - 1) == w * w);
        lemma_width(len, w + 1);
    }
}

/// The image of a text is as narrow as a square image can be, holds all its bytes
/// and has no row too many.
pub proof fn image_holds_the_text(len: nat)
    requires
        len >= 1,
    ensures
        ({
            let (w, h) = image_size(len);
            &&& w >= 1
            &&& h >= 1
            &&& 3 * (w * w) >= len
            &&& w == 1 || 3 * ((w - 1) * (w - 1)) < len
            &&& 3 * w * h >= len
            &&& 3 * w * (h - 1) < len
        }),
{
    lemma_width(len, 1);
    let w = width_from(len, 1);
    let d = 3 * w as int;
    let h = (len + d - 1) / d;
    assert(d >= 3);
    vstd::arithmetic::div_mod::lemma_fundamental_div_mod(len + d - 1, d);
    let m = (len + d - 1) % d;
    assert(0 <= m < d) by {
        vstd::arithmetic::div_mod::lemma_mod_bound(len + d - 1, d);
    }
    assert(d * h == len + d - 1 - m);
    assert(d * (h - 1) == d * h - d) by (nonlinear_arith);
    assert(h >= 1) by (nonlinear_arith)
        requires
            d * h == len + d - 1 - m,
            m < d,
            d >= 3,
            len >= 1,
    ;
    assert(3 * w * h == d * h);
    assert(3 * w * (h - 1) == d * (h - 1));
}

/// The base64 text of the PNG image of a text, if it can be made.
pub open spec fn png_of(bytes: Seq<u8>) -> Result<Seq<char>, PngError> {
    let (w, h) = image_size(bytes.len());
    if bytes.len() > isize::MAX {
        Err(PngError::TooLong)
    } else {
        match png_file(w as u32, h as u32, image_pixels(bytes)) {
            Some(file) => Ok(base64_text(file)),
            None => Err(PngError::Encoding),
        }
    }
}

/// Whether a square image of the given width holds `length` bytes.
fn square_holds(width: usize, length: usize) -> (r: bool)
    requires
        width <= isize::MAX,
    ensures
        r == (3 * (width * width) >= length),
{
    assert(0 <= width * width <= 0x7fff_ffff_ffff_ffff * 0x7fff_ffff_ffff_ffff) by (nonlinear_arith)
        requires
            0 <= width <= 0x7fff_ffff_ffff_ffff,
    ;
    3 * (width as u128 * width as u128) >= length as u128
}

/// Lays bytes out as the pixels of a near-square image, padded with `\n`: the
/// width, the height and the pixels.
pub fn image_of(data: &[u8]) -> (r: (usize, usize, Vec<u8>))
    requires
        data@.len() <= isize::MAX,
    ensures
        (r.0 as nat, r.1 as nat) == image_size(data@.len()),
        r.2@ == image_pixels(data@),
{
    let length: usize = if data.len() == 0 {
        1
    } else {
        data.len()
    };
    let mut width: usize = 1;
    while !square_holds(width, length) && width < length
        invariant
            1 <= width <= length,
            length <= isize::MAX,
            width_from(length as nat, 1) == width_from(length as nat, width as nat),
            width == 1 || 3 * ((width - 1) * (width - 1)) < length,
        decreases length - width,
    {
        assert(((width + 1) - 1) * ((width + 1) - 1) == width * width);
        assert(3 * width * width == 3 * (width * width)) by (nonlinear_arith);
        width = width + 1;
    }
    proof {
        assert(3 * width * width == 3 * (width * width)) by (nonlinear_arith);
        image_holds_the_text(length as nat);
        assert(width == width_from(length as nat, 1));
        assert(width <= 3 || 6 * width <= 3 * ((width - 1) * (width - 1))) by (nonlinear_arith)
            requires
                width >= 1,
        ;
    }
    let height: usize = (length + (3 * width - 1)) / (3 * width);
    assert(image_size(data@.len()) == (width as nat, height as nat));
    proof {
        let d = 3 * width as int;
        let x = length + (d - 1);
        vstd::arithmetic::div_mod::lemma_fundamental_div_mod(x, d);
        vstd::arithmetic::div_mod::lemma_mod_bound(x, d);
        assert(3 * width * height == d * height);
    }
    let needed: usize = 3 * width * height;
    let mut buf: Vec<u8> = Vec::new();
    push_bytes(&mut buf, data);
    assert(buf@ =~= data@);
    let ghost pad = Seq::new((needed - data@.len()) as nat, |i: int| 10u8);
    assert(buf@ =~= data@ + pad.take(0));
    while buf.len() < needed
        invariant
            data@.len() <= buf@.len() <= needed,
            pad == Seq::new((needed - data@.len()) as nat, |i: int| 10u8),
            buf@ == data@ + pad.take(buf@.len() - data@.len()),
        decreases needed - buf@.len(),
    {
        let ghost k = buf@.len() - data@.len();
        buf.push(10);
        assert(pad.take(k + 1) =~= pad.take(k).push(10u8));
    }
    assert(buf@ =~= image_pixels(data@));
    (width, height, buf)
}

/// The size of an image that is laid out can be counted, also once its sides are cut to
/// 32 bits.
proof fn lemma_image_fits(bytes: Seq<u8>, width: usize, height: usize)
    requires
        bytes.len() <= isize::MAX,
        (width as nat, height as nat) == image_size(bytes.len()),
    ensures
        3 * (width as u32) * (height as u32) < usize::MAX,
{
    let n: nat = if bytes.len() == 0 {
        1
    } else {
        bytes.len()
    };
    image_holds_the_text(n);
    let w = width as u32;
    let h = height as u32;
    assert(w <= width) by (bit_vector)
        requires
            w == width as u32,
    ;
    assert(h <= height) by (bit_vector)
        requires
            h == height as u32,
    ;
    assert(3 * w * h <= 3 * width * height) by (nonlinear_arith)
        requires
            w <= width,
            h <= height,
    ;
    assert(3 * width * height == 3 * width * (height - 1) + 3 * width) by (nonlinear_arith);
    assert(width <= 3 || 6 * width <= 3 * ((width - 1) * (width - 1))) by (nonlinear_arith)
        requires
            width >= 1,
    ;
}

/// PNG-compresses a JSON string the way rosbridge does: packs the UTF-8 bytes as
/// RGB pixels of a near-square image (padded with `\n`), PNG-encodes, base64.
pub fn png_encode(json: &str) -> (r: Result<String, PngError>)
    ensures
        match r {
            Ok(s) => png_of(encode_utf8(json@)) == Ok::<Seq<char>, PngError>(s@),
            Err(e) => png_of(encode_utf8(json@)) == Err::<Seq<char>, PngError>(e),
        },
{
    let data = json.as_bytes();
    if data.len() > isize::MAX as usize {
        return Err(PngError::TooLong);
    }
    let (width, height, pixels) = image_of(data);
    proof {
        lemma_image_fits(data@, width, height);
    }
    match encode_image(width as u32, height as u32, pixels.as_slice()) {
        Ok(file) => Ok(base64_encode(file.as_slice())),
        Err(_) => Err(PngError::Encoding),
    }
}

/// What a reader makes of a CBOR string of bytes or of text: the major type, what the string
/// holds, and what follows it.
#[verifier::opaque]
pub open spec fn read_string(b: Seq<u8>) -> (nat, Seq<u8>, Seq<u8>) {
    let (major, n, k) = read_head(b);
    (major, b.subrange(k as int, (k + n) as int), b.skip((k + n) as int))
}

/// What a reader makes of a CBOR integer, and what follows it.
#[verifier::opaque]
pub open spec fn read_int(b: Seq<u8>) -> (int, Seq<u8>) {
    let (major, n, k) = read_head(b);
    (
        if major == 1 {
            -1 - n
        } else {
            n as int
        },
        b.skip(k as int),
    )
}

proof fn lemma_string_reads(major: u8, s: Seq<u8>, rest: Seq<u8>)
    requires
        major < 8,
        s.len() <= u64::MAX,
    ensures
        read_string(cbor_head(major, s.len() as u64) + s + rest) == (major as nat, s, rest),
{
    reveal(read_string);
    let h = cbor_head(major, s.len() as u64);
    let b = h + s + rest;
    head_reads_back(major, s.len() as u64, s + rest);
    assert(b =~= h + (s + rest));
    assert(b.subrange(h.len() as int, (h.len() + s.len()) as int) =~= s);
    assert(b.skip((h.len() + s.len()) as int) =~= rest);
}

proof fn lemma_int_reads(v: i64, rest: Seq<u8>)
    ensures
        read_int(cbor_int(v) + rest) == (v as int, rest),
{
    reveal(read_int);
    if v >= 0 {
        head_reads_back(0, v as u64, rest);
    } else {
        head_reads_back(1, (-1 - v) as u64, rest);
    }
    assert((cbor_int(v) + rest).skip(cbor_int(v).len() as int) =~= rest);
}

/// Whether a text string stands at the front of some bytes.
pub open spec fn begins_with_text(b: Seq<u8>, s: Seq<char>) -> bool {
    read_string(b).0 == 3 && read_string(b).1 == encode_utf8(s)
}

/// A reader finds in a raw frame, one after the other, a map of three members: the operation
/// `publish`, the topic, and as the message a map of three members: the seconds, the
/// nanoseconds and the bytes. Behind these there is nothing.
pub proof fn raw_frame_is_read_in_turn(topic: Seq<char>, raw: Seq<u8>, secs: i64, nsecs: u32)
    requires
        encode_utf8(topic).len() <= u64::MAX,
        raw.len() <= u64::MAX,
    ensures
        ({
            let frame = raw_frame(topic, raw, secs, nsecs);
            let b1 = frame.skip(1);
            let b2 = read_string(b1).2;
            let b3 = read_string(b2).2;
            let b4 = read_string(b3).2;
            let b5 = read_string(b4).2;
            let b6 = read_string(b5).2;
            let b7 = b6.skip(1);
            let b8 = read_string(b7).2;
            let b9 = read_int(b8).1;
            let b10 = read_string(b9).2;
            let b11 = read_int(b10).1;
            let b12 = read_string(b11).2;
            &&& read_head(frame) == (5nat, 3nat, 1nat)
            &&& begins_with_text(b1, "op"@) && begins_with_text(b2, "publish"@)
            &&& begins_with_text(b3, "topic"@) && begins_with_text(b4, topic)
            &&& begins_with_text(b5, "msg"@) && read_head(b6) == (5nat, 3nat, 1nat)
            &&& begins_with_text(b7, "secs"@) && read_int(b8).0 == secs
            &&& begins_with_text(b9, "nsecs"@) && read_int(b10).0 == nsecs
            &&& begins_with_text(b11, "bytes"@)
            &&& read_string(b12) == (2nat, raw, Seq::<u8>::empty())
        }),
{
    lemma_short_texts();
    let c7 = lemma_stamped_bytes(raw, secs, nsecs);
    let c6 = seq![0xa3u8] + c7;
    let c5 = cbor_text("msg"@) + c6;
    let c4 = cbor_text(topic) + c5;
    let c3 = cbor_text("topic"@) + c4;
    let c2 = cbor_text("publish"@) + c3;
    let c1 = cbor_text("op"@) + c2;
    let frame = raw_frame(topic, raw, secs, nsecs);
    lemma_frame_in_turn(topic, raw, secs, nsecs);
    lemma_three_members(c1);
    lemma_three_members(c7);
    lemma_text_reads("op"@, c2);
    lemma_text_reads("publish"@, c3);
    lemma_text_reads("topic"@, c4);
    lemma_text_reads(topic, c5);
    lemma_text_reads("msg"@, c6);
}

proof fn lemma_three_members(rest: Seq<u8>)
    ensures
        read_head(seq![0xa3u8] + rest) == (5nat, 3nat, 1nat),
        (seq![0xa3u8] + rest).skip(1) == rest,
{
    assert((seq![0xa3u8] + rest).skip(1) =~= rest);
}

proof fn lemma_behind(x: Seq<u8>, y: Seq<u8>, z: Seq<u8>)
    ensures
        x + y + z == x + (y + z),
{
    assert(x + y + z =~= x + (y + z));
}

/// The items of a raw frame, each with all that follow it.
proof fn lemma_frame_in_turn(topic: Seq<char>, raw: Seq<u8>, secs: i64, nsecs: u32)
    ensures
        raw_frame(topic, raw, secs, nsecs) == seq![0xa3u8] + (cbor_text("op"@) + (cbor_text(
            "publish"@,
        ) + (cbor_text("topic"@) + (cbor_text(topic) + (cbor_text("msg"@) + (seq![0xa3u8] + (
        cbor_text("secs"@) + (cbor_int(secs) + (cbor_text("nsecs"@) + (cbor_int(nsecs as i64) + (
        cbor_text("bytes"@) + cbor_string(raw)))))))))))),
{
    let three = seq![0xa3u8];
    let i12 = cbor_string(raw);
    let i11 = cbor_text("bytes"@);
    let i10 = cbor_int(nsecs as i64);
    let i9 = cbor_text("nsecs"@);
    let i8 = cbor_int(secs);
    let i7 = cbor_text("secs"@);
    let i5 = cbor_text("msg"@);
    let i4 = cbor_text(topic);
    let i3 = cbor_text("topic"@);
    let i2 = cbor_text("publish"@);
    let i1 = cbor_text("op"@);
    let p1 = three + i1;
    let p2 = p1 + i2;
    let p3 = p2 + i3;
    let p4 = p3 + i4;
    let p5 = p4 + i5;
    let p6 = p5 + three;
    let p7 = p6 + i7;
    let p8 = p7 + i8;
    let p9 = p8 + i9;
    let p10 = p9 + i10;
    lemma_behind(p10, i11, i12);
    let c11 = i11 + i12;
    lemma_behind(p9, i10, c11);
    let c10 = i10 + c11;
    lemma_behind(p8, i9, c10);
    let c9 = i9 + c10;
    lemma_behind(p7, i8, c9);
    let c8 = i8 + c9;
    lemma_behind(p6, i7, c8);
    let c7 = i7 + c8;
    lemma_behind(p5, three, c7);
    let c6 = three + c7;
    lemma_behind(p4, i5, c6);
    let c5 = i5 + c6;
    lemma_behind(p3, i4, c5);
    let c4 = i4 + c5;
    lemma_behind(p2, i3, c4);
    let c3 = i3 + c4;
    lemma_behind(p1, i2, c3);
    lemma_behind(three, i1, i2 + c3);
}

proof fn lemma_text_reads(s: Seq<char>, rest: Seq<u8>)
    requires
        encode_utf8(s).len() <= u64::MAX,
    ensures
        begins_with_text(cbor_text(s) + rest, s),
        read_string(cbor_text(s) + rest).2 == rest,
{
    lemma_string_reads(3, encode_utf8(s), rest);
}

/// The members of the message of a raw frame.
proof fn lemma_stamped_bytes(raw: Seq<u8>, secs: i64, nsecs: u32) -> (b7: Seq<u8>)
    requires
        raw.len() <= u64::MAX,
    ensures
        b7 == cbor_text("secs"@) + (cbor_int(secs) + (cbor_text("nsecs"@) + (cbor_int(nsecs as i64)
            + (cbor_text("bytes"@) + cbor_string(raw))))),
        ({
            let b8 = read_string(b7).2;
            let b9 = read_int(b8).1;
            let b10 = read_string(b9).2;
            let b11 = read_int(b10).1;
            let b12 = read_string(b11).2;
            &&& begins_with_text(b7, "secs"@) && read_int(b8).0 == secs
            &&& begins_with_text(b9, "nsecs"@) && read_int(b10).0 == nsecs
            &&& begins_with_text(b11, "bytes"@)
            &&& read_string(b12) == (2nat, raw, Seq::<u8>::empty())
        }),
{
    lemma_short_texts();
    let c12 = cbor_string(raw);
    let c11 = cbor_text("bytes"@) + c12;
    let c10 = cbor_int(nsecs as i64) + c11;
    let c9 = cbor_text("nsecs"@) + c10;
    let c8 = cbor_int(secs) + c9;
    lemma_text_reads("secs"@, c8);
    lemma_int_reads(secs, c9);
    lemma_text_reads("nsecs"@, c10);
    lemma_int_reads(nsecs as i64, c11);
    lemma_text_reads("bytes"@, c12);
    lemma_string_reads(2, raw, Seq::empty());
    assert(c12 + Seq::<u8>::empty() =~= c12);
    cbor_text("secs"@) + c8
}

proof fn lemma_short_texts()
    ensures
        encode_utf8("op"@).len() <= u64::MAX,
        encode_utf8("publish"@).len() <= u64::MAX,
        encode_utf8("topic"@).len() <= u64::MAX,
        encode_utf8("msg"@).len() <= u64::MAX,
        encode_utf8("secs"@).len() <= u64::MAX,
        encode_utf8("nsecs"@).len() <= u64::MAX,
        encode_utf8("bytes"@).len() <= u64::MAX,
{
    reveal_strlit("op");
    reveal_strlit("publish");
    reveal_strlit("topic");
    reveal_strlit("msg");
    reveal_strlit("secs");
    reveal_strlit("nsecs");
    reveal_strlit("bytes");
    lemma_utf8_len("op"@);
    lemma_utf8_len("publish"@);
    lemma_utf8_len("topic"@);
    lemma_utf8_len("msg"@);
    lemma_utf8_len("secs"@);
    lemma_utf8_len("nsecs"@);
    lemma_utf8_len("bytes"@);
}

proof fn lemma_utf8_len(s: Seq<char>)
    ensures
        encode_utf8(s).len() <= 4 * s.len(),
    decreases s.len(),
{
    reveal_with_fuel(encode_utf8, 2);
    if s.len() > 0 {
        lemma_utf8_len(s.drop_first());
    }
}

/// The pixels of a text are its bytes and then line feeds, and fill the image.
pub proof fn pixels_are_the_text(bytes: Seq<u8>, i: int)
    requires
        0 <= i < image_pixels(bytes).len(),
    ensures
        image_pixels(bytes).len() == 3 * image_size(bytes.len()).0 * image_size(bytes.len()).1,
        image_pixels(bytes).len() >= bytes.len(),
        image_pixels(bytes)[i] == (if i < bytes.len() {
            bytes[i]
        } else {
            10u8
        }),
{
    if bytes.len() > 0 {
        image_holds_the_text(bytes.len());
    } else {
        image_holds_the_text(1);
    }
}

/// The image of a text is the base64 text of the PNG file of its pixels.
pub proof fn image_is_of_the_pixels(bytes: Seq<u8>)
    requires
        bytes.len() <= isize::MAX,
    ensures
        ({
            let (w, h) = image_size(bytes.len());
            let file = png_file(w as u32, h as u32, image_pixels(bytes));
            &&& png_of(bytes) is Ok <==> file is Some
            &&& file matches Some(f) ==> (png_of(bytes) matches Ok(t) && t == base64_text(f))
        }),
{
}

} // verus!
