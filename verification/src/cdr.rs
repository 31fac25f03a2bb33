//! Alignment-aware CDR reader and writer (the DDS/ROS 2 wire format).
//!
//! CDR is not self-describing; the `codec` module drives these primitives with
//! a parsed message schema. Both byte orders are supported. Alignment is
//! measured from the start of the body, that is after the 4-byte encapsulation
//! header.
use vstd::prelude::*;
use vstd::utf8::{decode_utf8, encode_utf8, valid_utf8};
use crate::float::{Float32, Float64};
use crate::text::{concat3, decimal, number_text};

verus! {

/// Errors of CDR reading.
#[derive(Debug, Clone, Copy, PartialEq, Eq, Structural)]
pub enum CdrError {
    /// The buffer ended: `needed` bytes were wanted at `offset`.
    Eof { needed: usize, offset: usize },
    /// The encapsulation header is not one of the known ones.
    BadEncapsulation,
    /// A string is not UTF-8.
    Utf8,
    /// A wide string is not UTF-16.
    Utf16,
    /// A sequence length exceeds the remaining buffer.
    BadLength { len: usize },
}

impl CdrError {
    /// The error in words.
    pub open spec fn text(&self) -> Seq<char> {
        match self {
            CdrError::Eof { needed, offset } => "unexpected end of CDR buffer (needed "@ + decimal(
                *needed as nat,
            ) + " bytes at offset "@ + decimal(*offset as nat) + ")"@,
            CdrError::BadEncapsulation => "invalid encapsulation header"@,
            CdrError::Utf8 => "invalid UTF-8 in CDR string"@,
            CdrError::Utf16 => "invalid UTF-16 in CDR wide string"@,
            CdrError::BadLength { len } => "sequence length "@ + decimal(*len as nat)
                + " exceeds remaining buffer"@,
        }
    }

    /// The error in words.
    pub fn message(&self) -> (r: String)
        ensures
            r@ == self.text(),
    {
        match self {
            CdrError::Eof { needed, offset } => {
                let mut s = concat3(
                    "unexpected end of CDR buffer (needed ",
                    number_text(*needed).as_str(),
                    " bytes at offset ",
                );
                s.append(number_text(*offset).as_str());
                s.append(")");
                s
            },
            CdrError::BadEncapsulation => "invalid encapsulation header".to_owned(),
            CdrError::Utf8 => "invalid UTF-8 in CDR string".to_owned(),
            CdrError::Utf16 => "invalid UTF-16 in CDR wide string".to_owned(),
            CdrError::BadLength { len } => concat3(
                "sequence length ",
                number_text(*len).as_str(),
                " exceeds remaining buffer",
            ),
        }
    }
}

/// Byte order of a CDR stream.
#[derive(Debug, Clone, Copy, PartialEq, Eq, Structural)]
pub enum Endian {
    Little,
    Big,
}

/// The number of padding bytes that bring `len` to a multiple of `align`.
pub open spec fn padding(len: nat, align: nat) -> nat {
    if align <= 1 || len % align == 0 {
        0
    } else {
        (align - len % align) as nat
    }
}

/// `n` zero bytes.
pub open spec fn zeros(n: nat) -> Seq<u8> {
    Seq::new(n, |i: int| 0u8)
}

/// A buffer whose body is padded to a multiple of `align`.
pub open spec fn padded(b: Seq<u8>, align: nat) -> Seq<u8> {
    b + zeros(padding((b.len() - 4) as nat, align))
}

/// `256^n`.
pub open spec fn byte_range(n: nat) -> nat
    decreases n,
{
    if n == 0 {
        1
    } else {
        256 * byte_range((n - 1) as nat)
    }
}

/// The `n` low bytes of `v`, least significant first.
pub open spec fn le_bytes(v: nat, n: nat) -> Seq<u8>
    decreases n,
{
    if n == 0 {
        Seq::empty()
    } else {
        seq![(v % 256) as u8] + le_bytes(v / 256, (n - 1) as nat)
    }
}

/// The number whose bytes are `s`, least significant first.
pub open spec fn le_value(s: Seq<u8>) -> nat
    decreases s.len(),
{
    if s.len() == 0 {
        0
    } else {
        s[0] as nat + 256 * le_value(s.drop_first())
    }
}

/// The `n` low bytes of `v` in the given byte order.
pub open spec fn uint_bytes(v: nat, n: nat, e: Endian) -> Seq<u8> {
    match e {
        Endian::Little => le_bytes(v, n),
        Endian::Big => le_bytes(v, n).reverse(),
    }
}

/// The number whose bytes are `s` in the given byte order.
pub open spec fn uint_value(s: Seq<u8>, e: Endian) -> nat {
    match e {
        Endian::Little => le_value(s),
        Endian::Big => le_value(s.reverse()),
    }
}

/// The unsigned number with the same `n` bytes as the two's complement of `v`.
pub open spec fn twos_complement(v: int, n: nat) -> nat {
    if v < 0 {
        (v + byte_range(n)) as nat
    } else {
        v as nat
    }
}

/// The signed number whose two's complement in `n` bytes is `u`.
pub open spec fn from_twos_complement(u: nat, n: nat) -> int {
    if 2 * u >= byte_range(n) {
        u - byte_range(n)
    } else {
        u as int
    }
}

/// A buffer with a number of `n` bytes written at its end, aligned to its size.
pub open spec fn put_uint(b: Seq<u8>, e: Endian, v: nat, n: nat) -> Seq<u8> {
    padded(b, n) + uint_bytes(v, n, e)
}

/// A buffer with a string written at its end: its length with the terminator,
/// modulo `2^32`, its UTF-8 bytes, and the terminator.
pub open spec fn put_string(b: Seq<u8>, e: Endian, s: Seq<char>) -> Seq<u8> {
    let bytes = encode_utf8(s);
    put_uint(b, e, (bytes.len() + 1) % 0x1_0000_0000, 4) + bytes + seq![0u8]
}

/// The 4-byte encapsulation header of a byte order.
pub open spec fn header(e: Endian) -> Seq<u8> {
    seq![
        0u8,
        match e {
            Endian::Big => 0u8,
            Endian::Little => 1u8,
        },
        0u8,
        0u8,
    ]
}

/// `len % 2^32 + 1`, modulo `2^32`.
fn string_prefix(len: usize) -> (r: u32)
    ensures
        r == (len + 1) % 0x1_0000_0000,
{
    let low: u64 = (len as u64) % 0x1_0000_0000;
    if low == 0xffff_ffff {
        0
    } else {
        (low + 1) as u32
    }
}

/// Writer that accumulates a CDR body with correct padding between fields.
pub struct CdrWriter {
    buf: Vec<u8>,
    endian: Endian,
}

impl CdrWriter {
    /// The header and the body written so far.
    pub closed spec fn bytes(&self) -> Seq<u8> {
        self.buf@
    }

    /// The byte order.
    pub closed spec fn order(&self) -> Endian {
        self.endian
    }

    /// The buffer begins with an encapsulation header.
    pub open spec fn wf(&self) -> bool {
        self.bytes().len() >= 4
    }

    /// Creates a writer and emits the 4-byte encapsulation header for `endian`.
    pub fn new(endian: Endian) -> (r: Self)
        ensures
            r.wf(),
            r.bytes() == header(endian),
            r.order() == endian,
    {
        let mut buf: Vec<u8> = Vec::with_capacity(64);
        buf.push(0);
        buf.push(
            match endian {
                Endian::Big => 0,
                Endian::Little => 1,
            },
        );
        buf.push(0);
        buf.push(0);
        assert(buf@ =~= header(endian));
        CdrWriter { buf, endian }
    }

    /// Body length so far, without the encapsulation header.
    pub fn body_len(&self) -> (r: usize)
        requires
            self.wf(),
        ensures
            r == self.bytes().len() - 4,
    {
        self.buf.len() - 4
    }

    /// Pads with zero bytes so that the next write of `align` bytes is aligned.
    pub fn align(&mut self, align: usize)
        requires
            old(self).wf(),
        ensures
            final(self).wf(),
            final(self).bytes() == padded(old(self).bytes(), align as nat),
            final(self).order() == old(self).order(),
    {
        let ghost before = self.buf@;
        if align <= 1 {
            assert(padded(before, align as nat) =~= before);
            return;
        }
        let rem = self.body_len() % align;
        if rem != 0 {
            let n = align - rem;
            for i in 0..n
                invariant
                    self.buf@ == before + zeros(i as nat),
                    self.endian == old(self).endian,
            {
                self.buf.push(0);
                assert(zeros((i + 1) as nat) =~= zeros(i as nat).push(0));
            }
        } else {
            assert(padded(before, align as nat) =~= before);
        }
    }

    /// Writes one byte.
    pub fn write_u8(&mut self, v: u8)
        requires
            old(self).wf(),
        ensures
            final(self).wf(),
            final(self).bytes() == old(self).bytes().push(v),
            final(self).order() == old(self).order(),
    {
        self.buf.push(v);
    }

    /// Writes a boolean as one byte, 1 or 0.
    pub fn write_bool(&mut self, v: bool)
        requires
            old(self).wf(),
        ensures
            final(self).wf(),
            final(self).bytes() == old(self).bytes().push(
                if v {
                    1u8
                } else {
                    0u8
                },
            ),
            final(self).order() == old(self).order(),
    {
        self.buf.push(
            if v {
                1
            } else {
                0
            },
        );
    }

    /// Writes raw bytes, without alignment.
    pub fn write_bytes(&mut self, b: &[u8])
        requires
            old(self).wf(),
        ensures
            final(self).wf(),
            final(self).bytes() == old(self).bytes() + b@,
            final(self).order() == old(self).order(),
    {
        let ghost before = self.buf@;
        let n = b.len();
        for i in 0..n
            invariant
                n == b@.len(),
                self.buf@ == before + b@.take(i as int),
                self.endian == old(self).endian,
        {
            self.buf.push(b[i]);
            assert(b@.take(i as int + 1) =~= b@.take(i as int).push(b@[i as int]));
        }
        assert(b@.take(n as int) =~= b@);
    }

    /// Writes `v` in `n` bytes, aligned to `n`.
    fn write_uint(&mut self, v: u64, n: usize)
        requires
            old(self).wf(),
            n <= 8,
        ensures
            final(self).wf(),
            final(self).bytes() == put_uint(old(self).bytes(), old(self).order(), v as nat, n as nat),
            final(self).order() == old(self).order(),
    {
        self.align(n);
        let ghost before = self.buf@;
        let mut low: Vec<u8> = Vec::new();
        let mut rest: u64 = v;
        for i in 0..n
            invariant
                le_bytes(v as nat, n as nat) == low@ + le_bytes(rest as nat, (n - i) as nat),
                low@.len() == i,
                n <= 8,
        {
            let ghost prev = low@;
            low.push((rest % 256) as u8);
            assert(low@ + le_bytes(rest as nat / 256, (n - i - 1) as nat) =~= prev + le_bytes(
                rest as nat,
                (n - i) as nat,
            ));
            rest = rest / 256;
        }
        assert(low@ =~= le_bytes(v as nat, n as nat));
        match self.endian {
            Endian::Little => {
                self.write_bytes(low.as_slice());
            },
            Endian::Big => {
                let mut i: usize = n;
                let ghost rev = low@.reverse();
                while i > 0
                    invariant
                        i <= n == low@.len(),
                        rev == low@.reverse(),
                        self.buf@ == before + rev.take(n - i),
                        self.endian == old(self).endian,
                    decreases i,
                {
                    i = i - 1;
                    self.buf.push(low[i]);
                    assert(rev.take(n - i) =~= rev.take(n - i - 1).push(low@[i as int]));
                }
                assert(rev.take(n as int) =~= rev);
            },
        }
    }

    /// Writes a signed byte.
    pub fn write_i8(&mut self, v: i8)
        requires
            old(self).wf(),
        ensures
            final(self).wf(),
            final(self).bytes() == put_uint(
                old(self).bytes(),
                old(self).order(),
                twos_complement(v as int, 1),
                1,
            ),
            final(self).order() == old(self).order(),
    {
        proof {
            lemma_byte_ranges();
        }
        let u: u64 = if v < 0 {
            (v as i64 + 0x100) as u64
        } else {
            v as u64
        };
        self.write_uint(u, 1);
    }

    /// Writes a 16-bit integer.
    pub fn write_i16(&mut self, v: i16)
        requires
            old(self).wf(),
        ensures
            final(self).wf(),
            final(self).bytes() == put_uint(
                old(self).bytes(),
                old(self).order(),
                twos_complement(v as int, 2),
                2,
            ),
            final(self).order() == old(self).order(),
    {
        proof {
            lemma_byte_ranges();
        }
        let u: u64 = if v < 0 {
            (v as i64 + 0x1_0000) as u64
        } else {
            v as u64
        };
        self.write_uint(u, 2);
    }

    /// Writes an unsigned 16-bit integer.
    pub fn write_u16(&mut self, v: u16)
        requires
            old(self).wf(),
        ensures
            final(self).wf(),
            final(self).bytes() == put_uint(old(self).bytes(), old(self).order(), v as nat, 2),
            final(self).order() == old(self).order(),
    {
        self.write_uint(v as u64, 2);
    }

    /// Writes a 32-bit integer.
    pub fn write_i32(&mut self, v: i32)
        requires
            old(self).wf(),
        ensures
            final(self).wf(),
            final(self).bytes() == put_uint(
                old(self).bytes(),
                old(self).order(),
                twos_complement(v as int, 4),
                4,
            ),
            final(self).order() == old(self).order(),
    {
        proof {
            lemma_byte_ranges();
        }
        let u: u64 = if v < 0 {
            (v as i64 + 0x1_0000_0000) as u64
        } else {
            v as u64
        };
        self.write_uint(u, 4);
    }

    /// Writes an unsigned 32-bit integer.
    pub fn write_u32(&mut self, v: u32)
        requires
            old(self).wf(),
        ensures
            final(self).wf(),
            final(self).bytes() == put_uint(old(self).bytes(), old(self).order(), v as nat, 4),
            final(self).order() == old(self).order(),
    {
        self.write_uint(v as u64, 4);
    }

    /// Writes a 64-bit integer.
    pub fn write_i64(&mut self, v: i64)
        requires
            old(self).wf(),
        ensures
            final(self).wf(),
            final(self).bytes() == put_uint(
                old(self).bytes(),
                old(self).order(),
                twos_complement(v as int, 8),
                8,
            ),
            final(self).order() == old(self).order(),
    {
        proof {
            lemma_byte_ranges();
        }
        let u: u64 = if v < 0 {
            (v as i128 + 0x1_0000_0000_0000_0000) as u64
        } else {
            v as u64
        };
        self.write_uint(u, 8);
    }

    /// Writes an unsigned 64-bit integer.
    pub fn write_u64(&mut self, v: u64)
        requires
            old(self).wf(),
        ensures
            final(self).wf(),
            final(self).bytes() == put_uint(old(self).bytes(), old(self).order(), v as nat, 8),
            final(self).order() == old(self).order(),
    {
        self.write_uint(v, 8);
    }

    /// Writes a single-precision number.
    pub fn write_f32(&mut self, v: Float32)
        requires
            old(self).wf(),
        ensures
            final(self).wf(),
            final(self).bytes() == put_uint(old(self).bytes(), old(self).order(), v.bits as nat, 4),
            final(self).order() == old(self).order(),
    {
        self.write_uint(v.bits as u64, 4);
    }

    /// Writes a double-precision number.
    pub fn write_f64(&mut self, v: Float64)
        requires
            old(self).wf(),
        ensures
            final(self).wf(),
            final(self).bytes() == put_uint(old(self).bytes(), old(self).order(), v.bits as nat, 8),
            final(self).order() == old(self).order(),
    {
        self.write_uint(v.bits, 8);
    }

    /// Writes a string: its length with the terminator, its UTF-8 bytes, and the
    /// terminator.
    pub fn write_string(&mut self, s: &str)
        requires
            old(self).wf(),
        ensures
            final(self).wf(),
            final(self).bytes() == put_string(old(self).bytes(), old(self).order(), s@),
            final(self).order() == old(self).order(),
    {
        let bytes = s.as_bytes();
        self.write_u32(string_prefix(bytes.len()));
        self.write_bytes(bytes);
        self.buf.push(0);
        assert(self.buf@ =~= put_string(old(self).bytes(), old(self).order(), s@));
    }

    /// The full buffer, header and body.
    pub fn into_bytes(self) -> (r: Vec<u8>)
        ensures
            r@ == self.bytes(),
    {
        self.buf
    }

    /// The byte order.
    pub fn endian(&self) -> (r: Endian)
        ensures
            r == self.order(),
    {
        self.endian
    }
}

/// `String::from_utf8`: the text that the bytes encode, if they are UTF-8.
#[verifier::external_body]
fn utf8_text(b: Vec<u8>) -> (r: Option<String>)
    ensures
        match r {
            Some(s) => valid_utf8(b@) && s@ == decode_utf8(b@),
            None => !valid_utf8(b@),
        },
{
    String::from_utf8(b).ok()
}

/// The position after padding `pos` to a multiple of `align`.
pub open spec fn align_up(pos: nat, align: nat) -> nat {
    pos + padding(pos, align)
}

/// What reading `n` raw bytes at `pos` gives, with the position afterwards.
pub open spec fn get_raw(data: Seq<u8>, pos: nat, n: nat) -> (Result<Seq<u8>, CdrError>, nat) {
    if pos + n > data.len() {
        (Err(CdrError::Eof { needed: n as usize, offset: pos as usize }), pos)
    } else {
        (Ok(data.subrange(pos as int, (pos + n) as int)), pos + n)
    }
}

/// What reading an aligned number of `n` bytes gives, with the position afterwards.
pub open spec fn get_uint(data: Seq<u8>, pos: nat, e: Endian, n: nat) -> (
    Result<nat, CdrError>,
    nat,
) {
    match get_raw(data, align_up(pos, n), n) {
        (Ok(s), p) => (Ok(uint_value(s, e)), p),
        (Err(x), p) => (Err(x), p),
    }
}

/// What reading an aligned signed number of `n` bytes gives.
pub open spec fn get_int(data: Seq<u8>, pos: nat, e: Endian, n: nat) -> (
    Result<int, CdrError>,
    nat,
) {
    match get_uint(data, pos, e, n) {
        (Ok(u), p) => (Ok(from_twos_complement(u, n)), p),
        (Err(x), p) => (Err(x), p),
    }
}

/// The bytes of a string without the terminator, where they end in one.
pub open spec fn without_nul(s: Seq<u8>) -> Seq<u8> {
    if s.len() > 0 && s.last() == 0 {
        s.drop_last()
    } else {
        s
    }
}

/// What reading a string gives, with the position afterwards.
pub open spec fn get_string(data: Seq<u8>, pos: nat, e: Endian) -> (
    Result<Seq<char>, CdrError>,
    nat,
) {
    match get_uint(data, pos, e, 4) {
        (Err(x), p) => (Err(x), p),
        (Ok(len), p) => if len == 0 {
            (Ok(Seq::empty()), p)
        } else {
            match get_raw(data, p, len) {
                (Err(x), q) => (Err(x), q),
                (Ok(s), q) => if valid_utf8(without_nul(s)) {
                    (Ok(decode_utf8(without_nul(s))), q)
                } else {
                    (Err(CdrError::Utf8), q)
                },
            }
        },
    }
}

/// What reading a sequence length gives: a length that exceeds the bytes that
/// remain is an error.
pub open spec fn get_seq_len(data: Seq<u8>, pos: nat, e: Endian) -> (Result<nat, CdrError>, nat) {
    match get_uint(data, pos, e, 4) {
        (Err(x), p) => (Err(x), p),
        (Ok(len), p) => if p + len > data.len() {
            (Err(CdrError::BadLength { len: len as usize }), p)
        } else {
            (Ok(len), p)
        },
    }
}

/// Reader that walks a CDR body with the same alignment rules.
pub struct CdrReader<'a> {
    data: &'a [u8],
    pos: usize,
    endian: Endian,
}

impl<'a> CdrReader<'a> {
    /// The body.
    pub closed spec fn body(&self) -> Seq<u8> {
        self.data@
    }

    /// The position in the body.
    pub closed spec fn at(&self) -> nat {
        self.pos as nat
    }

    /// The byte order.
    pub closed spec fn order(&self) -> Endian {
        self.endian
    }

    /// The position is at most the end of the body, rounded up to a multiple of 8.
    pub open spec fn wf(&self) -> bool {
        &&& self.body().len() <= isize::MAX
        &&& self.at() <= align_up(self.body().len(), 8)
    }

    /// Whether `self` is `before` at position `p`.
    pub open spec fn moved(&self, before: &Self, p: nat) -> bool {
        &&& self.wf()
        &&& self.body() == before.body()
        &&& self.order() == before.order()
        &&& self.at() == p
    }

    /// Parses the encapsulation header and creates a reader over the body.
    pub fn new(data: &'a [u8]) -> (r: Result<Self, CdrError>)
        requires
            data@.len() <= isize::MAX,
        ensures
            match r {
                Ok(rd) => {
                    &&& data@.len() >= 4 && data@[1] <= 3
                    &&& rd.wf()
                    &&& rd.body() == data@.skip(4)
                    &&& rd.at() == 0
                    &&& rd.order() == (if data@[1] % 2 == 0 {
                        Endian::Big
                    } else {
                        Endian::Little
                    })
                },
                Err(e) => e == CdrError::BadEncapsulation && (data@.len() < 4 || data@[1] > 3),
            },
    {
        if data.len() < 4 {
            return Err(CdrError::BadEncapsulation);
        }
        let endian = match data[1] {
            0 | 2 => Endian::Big,
            1 | 3 => Endian::Little,
            _ => {
                return Err(CdrError::BadEncapsulation);
            },
        };
        let body = vstd::slice::slice_subrange(data, 4, data.len());
        assert(body@ =~= data@.skip(4));
        Ok(CdrReader { data: body, pos: 0, endian })
    }

    /// A reader over a raw body with an explicit byte order.
    pub fn from_body(data: &'a [u8], endian: Endian) -> (r: Self)
        requires
            data@.len() <= isize::MAX,
        ensures
            r.wf(),
            r.body() == data@,
            r.at() == 0,
            r.order() == endian,
    {
        CdrReader { data, pos: 0, endian }
    }

    /// Moves to a multiple of `align`.
    fn align(&mut self, align: usize)
        requires
            old(self).wf(),
            align == 1 || align == 2 || align == 4 || align == 8,
        ensures
            final(self).moved(old(self), align_up(old(self).at(), align as nat)),
    {
        if align > 1 {
            let rem = self.pos % align;
            if rem != 0 {
                proof {
                    lemma_align_bound(self.pos as nat, self.data@.len(), align as nat);
                }
                self.pos = self.pos + (align - rem);
            }
        }
    }

    /// Takes `n` bytes.
    fn take(&mut self, n: usize) -> (r: Result<&'a [u8], CdrError>)
        requires
            old(self).wf(),
        ensures
            final(self).moved(old(self), get_raw(old(self).body(), old(self).at(), n as nat).1),
            match r {
                Ok(s) => get_raw(old(self).body(), old(self).at(), n as nat).0 == Ok::<
                    Seq<u8>,
                    CdrError,
                >(s@),
                Err(e) => get_raw(old(self).body(), old(self).at(), n as nat).0 == Err::<
                    Seq<u8>,
                    CdrError,
                >(e),
            },
    {
        let len = self.data.len();
        if self.pos > len || n > len - self.pos {
            return Err(CdrError::Eof { needed: n, offset: self.pos });
        }
        let s = vstd::slice::slice_subrange(self.data, self.pos, self.pos + n);
        self.pos = self.pos + n;
        Ok(s)
    }

    /// Reads one byte.
    pub fn read_u8(&mut self) -> (r: Result<u8, CdrError>)
        requires
            old(self).wf(),
        ensures
            final(self).moved(
                old(self),
                get_uint(old(self).body(), old(self).at(), old(self).order(), 1).1,
            ),
            match r {
                Ok(v) => get_uint(old(self).body(), old(self).at(), old(self).order(), 1).0 == Ok::<
                    nat,
                    CdrError,
                >(v as nat),
                Err(e) => get_uint(old(self).body(), old(self).at(), old(self).order(), 1).0
                    == Err::<nat, CdrError>(e),
            },
    {
        proof {
            lemma_byte_ranges();
        }
        match self.read_uint(1) {
            Ok(v) => Ok(v as u8),
            Err(e) => Err(e),
        }
    }

    /// Reads a boolean: any byte but 0 is true.
    pub fn read_bool(&mut self) -> (r: Result<bool, CdrError>)
        requires
            old(self).wf(),
        ensures
            final(self).moved(
                old(self),
                get_uint(old(self).body(), old(self).at(), old(self).order(), 1).1,
            ),
            match r {
                Ok(v) => get_uint(
                    old(self).body(),
                    old(self).at(),
                    old(self).order(),
                    1,
                ).0 matches Ok(u) && v == (u != 0),
                Err(e) => get_uint(old(self).body(), old(self).at(), old(self).order(), 1).0
                    == Err::<nat, CdrError>(e),
            },
    {
        match self.read_u8() {
            Ok(v) => Ok(v != 0),
            Err(e) => Err(e),
        }
    }

    /// Reads an aligned unsigned number of `n` bytes.
    fn read_uint(&mut self, n: usize) -> (r: Result<u64, CdrError>)
        requires
            old(self).wf(),
            n == 1 || n == 2 || n == 4 || n == 8,
        ensures
            final(self).moved(
                old(self),
                get_uint(old(self).body(), old(self).at(), old(self).order(), n as nat).1,
            ),
            match r {
                Ok(v) => get_uint(old(self).body(), old(self).at(), old(self).order(), n as nat).0
                    == Ok::<nat, CdrError>(v as nat) && v < byte_range(n as nat),
                Err(e) => get_uint(old(self).body(), old(self).at(), old(self).order(), n as nat).0
                    == Err::<nat, CdrError>(e),
            },
    {
        self.align(n);
        let s = match self.take(n) {
            Ok(s) => s,
            Err(e) => {
                return Err(e);
            },
        };
        let big = match self.endian {
            Endian::Big => true,
            Endian::Little => false,
        };
        let ghost w = if big {
            s@.reverse()
        } else {
            s@
        };
        let mut v: u64 = 0;
        let mut i: usize = n;
        proof {
            lemma_byte_ranges();
            assert(w.skip(n as int).len() == 0);
        }
        while i > 0
            invariant
                i <= n == s@.len() == w.len(),
                n <= 8,
                w == (if big {
                    s@.reverse()
                } else {
                    s@
                }),
                v as nat == le_value(w.skip(i as int)),
                v < byte_range((n - i) as nat),
            decreases i,
        {
            i = i - 1;
            let b: u8 = if big {
                s[n - 1 - i]
            } else {
                s[i]
            };
            proof {
                assert(w.skip(i as int).drop_first() =~= w.skip(i as int + 1));
                assert(w.skip(i as int)[0] == b);
                assert(byte_range((n - i) as nat) == 256 * byte_range((n - i - 1) as nat));
                lemma_byte_range_max((n - i) as nat);
            }
            v = v * 256 + b as u64;
        }
        assert(w.skip(0) =~= w);
        Ok(v)
    }

    /// Reads a signed number of `n` bytes.
    fn read_int(&mut self, n: usize) -> (r: Result<i64, CdrError>)
        requires
            old(self).wf(),
            n == 1 || n == 2 || n == 4 || n == 8,
        ensures
            final(self).moved(
                old(self),
                get_int(old(self).body(), old(self).at(), old(self).order(), n as nat).1,
            ),
            match r {
                Ok(v) => get_int(old(self).body(), old(self).at(), old(self).order(), n as nat).0
                    == Ok::<int, CdrError>(v as int) && -(byte_range(n as nat) as int) <= 2 * v
                    < byte_range(n as nat),
                Err(e) => get_int(old(self).body(), old(self).at(), old(self).order(), n as nat).0
                    == Err::<int, CdrError>(e),
            },
    {
        let u = match self.read_uint(n) {
            Ok(u) => u,
            Err(e) => {
                return Err(e);
            },
        };
        let span: i128 = if n == 1 {
            0x100
        } else if n == 2 {
            0x1_0000
        } else if n == 4 {
            0x1_0000_0000
        } else {
            0x1_0000_0000_0000_0000
        };
        proof {
            lemma_byte_ranges();
        }
        if 2 * (u as i128) >= span {
            Ok((u as i128 - span) as i64)
        } else {
            Ok(u as i64)
        }
    }

    /// Reads a signed byte.
    pub fn read_i8(&mut self) -> (r: Result<i8, CdrError>)
        requires
            old(self).wf(),
        ensures
            final(self).moved(
                old(self),
                get_int(old(self).body(), old(self).at(), old(self).order(), 1).1,
            ),
            match r {
                Ok(v) => get_int(old(self).body(), old(self).at(), old(self).order(), 1).0 == Ok::<
                    int,
                    CdrError,
                >(v as int),
                Err(e) => get_int(old(self).body(), old(self).at(), old(self).order(), 1).0
                    == Err::<int, CdrError>(e),
            },
    {
        proof {
            lemma_byte_ranges();
        }
        match self.read_int(1) {
            Ok(v) => Ok(v as i8),
            Err(e) => Err(e),
        }
    }

    /// Reads a 16-bit integer.
    pub fn read_i16(&mut self) -> (r: Result<i16, CdrError>)
        requires
            old(self).wf(),
        ensures
            final(self).moved(
                old(self),
                get_int(old(self).body(), old(self).at(), old(self).order(), 2).1,
            ),
            match r {
                Ok(v) => get_int(old(self).body(), old(self).at(), old(self).order(), 2).0 == Ok::<
                    int,
                    CdrError,
                >(v as int),
                Err(e) => get_int(old(self).body(), old(self).at(), old(self).order(), 2).0
                    == Err::<int, CdrError>(e),
            },
    {
        proof {
            lemma_byte_ranges();
        }
        match self.read_int(2) {
            Ok(v) => Ok(v as i16),
            Err(e) => Err(e),
        }
    }

    /// Reads an unsigned 16-bit integer.
    pub fn read_u16(&mut self) -> (r: Result<u16, CdrError>)
        requires
            old(self).wf(),
        ensures
            final(self).moved(
                old(self),
                get_uint(old(self).body(), old(self).at(), old(self).order(), 2).1,
            ),
            match r {
                Ok(v) => get_uint(old(self).body(), old(self).at(), old(self).order(), 2).0 == Ok::<
                    nat,
                    CdrError,
                >(v as nat),
                Err(e) => get_uint(old(self).body(), old(self).at(), old(self).order(), 2).0
                    == Err::<nat, CdrError>(e),
            },
    {
        proof {
            lemma_byte_ranges();
        }
        match self.read_uint(2) {
            Ok(v) => Ok(v as u16),
            Err(e) => Err(e),
        }
    }

    /// Reads a 32-bit integer.
    pub fn read_i32(&mut self) -> (r: Result<i32, CdrError>)
        requires
            old(self).wf(),
        ensures
            final(self).moved(
                old(self),
                get_int(old(self).body(), old(self).at(), old(self).order(), 4).1,
            ),
            match r {
                Ok(v) => get_int(old(self).body(), old(self).at(), old(self).order(), 4).0 == Ok::<
                    int,
                    CdrError,
                >(v as int),
                Err(e) => get_int(old(self).body(), old(self).at(), old(self).order(), 4).0
                    == Err::<int, CdrError>(e),
            },
    {
        proof {
            lemma_byte_ranges();
        }
        match self.read_int(4) {
            Ok(v) => Ok(v as i32),
            Err(e) => Err(e),
        }
    }

    /// Reads an unsigned 32-bit integer.
    pub fn read_u32(&mut self) -> (r: Result<u32, CdrError>)
        requires
            old(self).wf(),
        ensures
            final(self).moved(
                old(self),
                get_uint(old(self).body(), old(self).at(), old(self).order(), 4).1,
            ),
            match r {
                Ok(v) => get_uint(old(self).body(), old(self).at(), old(self).order(), 4).0 == Ok::<
                    nat,
                    CdrError,
                >(v as nat),
                Err(e) => get_uint(old(self).body(), old(self).at(), old(self).order(), 4).0
                    == Err::<nat, CdrError>(e),
            },
    {
        proof {
            lemma_byte_ranges();
        }
        match self.read_uint(4) {
            Ok(v) => Ok(v as u32),
            Err(e) => Err(e),
        }
    }

    /// Reads a 64-bit integer.
    pub fn read_i64(&mut self) -> (r: Result<i64, CdrError>)
        requires
            old(self).wf(),
        ensures
            final(self).moved(
                old(self),
                get_int(old(self).body(), old(self).at(), old(self).order(), 8).1,
            ),
            match r {
                Ok(v) => get_int(old(self).body(), old(self).at(), old(self).order(), 8).0 == Ok::<
                    int,
                    CdrError,
                >(v as int),
                Err(e) => get_int(old(self).body(), old(self).at(), old(self).order(), 8).0
                    == Err::<int, CdrError>(e),
            },
    {
        self.read_int(8)
    }

    /// Reads an unsigned 64-bit integer.
    pub fn read_u64(&mut self) -> (r: Result<u64, CdrError>)
        requires
            old(self).wf(),
        ensures
            final(self).moved(
                old(self),
                get_uint(old(self).body(), old(self).at(), old(self).order(), 8).1,
            ),
            match r {
                Ok(v) => get_uint(old(self).body(), old(self).at(), old(self).order(), 8).0 == Ok::<
                    nat,
                    CdrError,
                >(v as nat),
                Err(e) => get_uint(old(self).body(), old(self).at(), old(self).order(), 8).0
                    == Err::<nat, CdrError>(e),
            },
    {
        self.read_uint(8)
    }

    /// Reads a single-precision number.
    pub fn read_f32(&mut self) -> (r: Result<Float32, CdrError>)
        requires
            old(self).wf(),
        ensures
            final(self).moved(
                old(self),
                get_uint(old(self).body(), old(self).at(), old(self).order(), 4).1,
            ),
            match r {
                Ok(v) => get_uint(old(self).body(), old(self).at(), old(self).order(), 4).0 == Ok::<
                    nat,
                    CdrError,
                >(v.bits as nat),
                Err(e) => get_uint(old(self).body(), old(self).at(), old(self).order(), 4).0
                    == Err::<nat, CdrError>(e),
            },
    {
        match self.read_u32() {
            Ok(bits) => Ok(Float32 { bits }),
            Err(e) => Err(e),
        }
    }

    /// Reads a double-precision number.
    pub fn read_f64(&mut self) -> (r: Result<Float64, CdrError>)
        requires
            old(self).wf(),
        ensures
            final(self).moved(
                old(self),
                get_uint(old(self).body(), old(self).at(), old(self).order(), 8).1,
            ),
            match r {
                Ok(v) => get_uint(old(self).body(), old(self).at(), old(self).order(), 8).0 == Ok::<
                    nat,
                    CdrError,
                >(v.bits as nat),
                Err(e) => get_uint(old(self).body(), old(self).at(), old(self).order(), 8).0
                    == Err::<nat, CdrError>(e),
            },
    {
        match self.read_u64() {
            Ok(bits) => Ok(Float64 { bits }),
            Err(e) => Err(e),
        }
    }

    /// Reads a string and drops its terminator.
    pub fn read_string(&mut self) -> (r: Result<String, CdrError>)
        requires
            old(self).wf(),
        ensures
            final(self).moved(
                old(self),
                get_string(old(self).body(), old(self).at(), old(self).order()).1,
            ),
            match r {
                Ok(s) => get_string(old(self).body(), old(self).at(), old(self).order()).0 == Ok::<
                    Seq<char>,
                    CdrError,
                >(s@),
                Err(e) => get_string(old(self).body(), old(self).at(), old(self).order()).0
                    == Err::<Seq<char>, CdrError>(e),
            },
    {
        let len: usize = match self.read_u32() {
            Ok(v) => v as usize,
            Err(e) => {
                return Err(e);
            },
        };
        if len == 0 {
            return Ok(String::new());
        }
        let bytes = match self.take(len) {
            Ok(s) => s,
            Err(e) => {
                return Err(e);
            },
        };
        let end: usize = if bytes[len - 1] == 0 {
            len - 1
        } else {
            len
        };
        let text = vstd::slice::slice_to_vec(vstd::slice::slice_subrange(bytes, 0, end));
        assert(text@ =~= without_nul(bytes@));
        match utf8_text(text) {
            Some(s) => Ok(s),
            None => Err(CdrError::Utf8),
        }
    }

    /// Reads the length prefix of a sequence and checks that it fits.
    pub fn read_seq_len(&mut self) -> (r: Result<usize, CdrError>)
        requires
            old(self).wf(),
        ensures
            final(self).moved(
                old(self),
                get_seq_len(old(self).body(), old(self).at(), old(self).order()).1,
            ),
            match r {
                Ok(n) => get_seq_len(old(self).body(), old(self).at(), old(self).order()).0 == Ok::<
                    nat,
                    CdrError,
                >(n as nat),
                Err(e) => get_seq_len(old(self).body(), old(self).at(), old(self).order()).0
                    == Err::<nat, CdrError>(e),
            },
    {
        let len: usize = match self.read_u32() {
            Ok(v) => v as usize,
            Err(e) => {
                return Err(e);
            },
        };
        if self.pos > self.data.len() || len > self.data.len() - self.pos {
            return Err(CdrError::BadLength { len });
        }
        Ok(len)
    }

    /// Reads `n` raw bytes, without alignment.
    pub fn read_raw(&mut self, n: usize) -> (r: Result<&'a [u8], CdrError>)
        requires
            old(self).wf(),
        ensures
            final(self).moved(old(self), get_raw(old(self).body(), old(self).at(), n as nat).1),
            match r {
                Ok(s) => get_raw(old(self).body(), old(self).at(), n as nat).0 == Ok::<
                    Seq<u8>,
                    CdrError,
                >(s@),
                Err(e) => get_raw(old(self).body(), old(self).at(), n as nat).0 == Err::<
                    Seq<u8>,
                    CdrError,
                >(e),
            },
    {
        self.take(n)
    }

    /// The byte order.
    pub fn endian(&self) -> (r: Endian)
        ensures
            r == self.order(),
    {
        self.endian
    }
}

pub proof fn lemma_byte_ranges()
    ensures
        byte_range(0) == 1,
        byte_range(1) == 0x100,
        byte_range(2) == 0x1_0000,
        byte_range(4) == 0x1_0000_0000,
        byte_range(8) == 0x1_0000_0000_0000_0000,
{
    reveal_with_fuel(byte_range, 9);
}

proof fn lemma_byte_range_max(n: nat)
    requires
        n <= 8,
    ensures
        byte_range(n) <= 0x1_0000_0000_0000_0000,
    decreases 8 - n,
{
    reveal_with_fuel(byte_range, 9);
}

proof fn lemma_align_bound(pos: nat, len: nat, align: nat)
    requires
        pos <= align_up(len, 8),
        align == 2 || align == 4 || align == 8,
    ensures
        align_up(pos, align) <= align_up(len, 8),
{
    let top = align_up(len, 8);
    lemma_aligned(len);
    if align == 2 {
        lemma_align_to_two(pos, top);
    } else if align == 4 {
        lemma_align_to_four(pos, top);
    } else {
        lemma_align_to_eight(pos, top);
    }
}

proof fn lemma_aligned(len: nat)
    ensures
        align_up(len, 8) % 8 == 0,
{
}

proof fn lemma_align_to_two(pos: nat, top: nat)
    requires
        pos <= top,
        top % 8 == 0,
    ensures
        align_up(pos, 2) <= top,
{
    assert(top % 2 == 0);
}

proof fn lemma_align_to_four(pos: nat, top: nat)
    requires
        pos <= top,
        top % 8 == 0,
    ensures
        align_up(pos, 4) <= top,
{
    assert(top % 4 == 0);
}

proof fn lemma_align_to_eight(pos: nat, top: nat)
    requires
        pos <= top,
        top % 8 == 0,
    ensures
        align_up(pos, 8) <= top,
{
}

/// The bytes of a number have its value.
pub proof fn le_bytes_have_value(v: nat, n: nat)
    ensures
        le_bytes(v, n).len() == n,
        v < byte_range(n) ==> le_value(le_bytes(v, n)) == v,
    decreases n,
{
    if n > 0 {
        le_bytes_have_value(v / 256, (n - 1) as nat);
        let s = le_bytes(v, n);
        assert(s.drop_first() =~= le_bytes(v / 256, (n - 1) as nat));
    }
}

/// A number that fits in `n` bytes is read back from where it was written, in
/// either byte order.
pub proof fn uint_reads_back(b: Seq<u8>, rest: Seq<u8>, e: Endian, v: nat, n: nat)
    requires
        b.len() >= 4,
        v < byte_range(n),
    ensures
        get_uint((put_uint(b, e, v, n) + rest).skip(4), (b.len() - 4) as nat, e, n) == (
            Ok::<nat, CdrError>(v),
            (put_uint(b, e, v, n).len() - 4) as nat,
        ),
{
    le_bytes_have_value(v, n);
    let w = put_uint(b, e, v, n);
    let data = (w + rest).skip(4);
    let p = align_up((b.len() - 4) as nat, n);
    assert(padded(b, n).len() == p + 4);
    assert(w.len() == p + 4 + n);
    assert(data.subrange(p as int, (p + n) as int) =~= uint_bytes(v, n, e));
    assert(le_bytes(v, n).reverse().reverse() =~= le_bytes(v, n));
}

/// A signed number that fits in `n` bytes is read back from where it was written.
pub proof fn int_reads_back(b: Seq<u8>, rest: Seq<u8>, e: Endian, v: int, n: nat)
    requires
        b.len() >= 4,
        n > 0,
        -(byte_range(n) as int) <= 2 * v < byte_range(n),
    ensures
        get_int(
            (put_uint(b, e, twos_complement(v, n), n) + rest).skip(4),
            (b.len() - 4) as nat,
            e,
            n,
        ) == (
            Ok::<int, CdrError>(v),
            (put_uint(b, e, twos_complement(v, n), n).len() - 4) as nat,
        ),
{
    uint_reads_back(b, rest, e, twos_complement(v, n), n);
}

/// A string shorter than `2^32 - 1` bytes is read back from where it was written.
pub proof fn string_reads_back(b: Seq<u8>, rest: Seq<u8>, e: Endian, s: Seq<char>)
    requires
        b.len() >= 4,
        encode_utf8(s).len() + 1 < 0x1_0000_0000,
    ensures
        get_string((put_string(b, e, s) + rest).skip(4), (b.len() - 4) as nat, e) == (
            Ok::<Seq<char>, CdrError>(s),
            (put_string(b, e, s).len() - 4) as nat,
        ),
{
    let bytes = encode_utf8(s);
    let len = (bytes.len() + 1) as nat;
    let u = put_uint(b, e, len, 4);
    let tail = bytes + seq![0u8] + rest;
    let data = (put_string(b, e, s) + rest).skip(4);
    lemma_byte_ranges();
    assert(put_string(b, e, s) + rest =~= u + tail);
    uint_reads_back(b, tail, e, len, 4);
    le_bytes_have_value(len, 4);
    let p = (u.len() - 4) as nat;
    let got = data.subrange(p as int, (p + len) as int);
    assert(got =~= bytes + seq![0u8]);
    assert(without_nul(got) =~= bytes);
    vstd::utf8::encode_utf8_decode_utf8(s);
    vstd::utf8::encode_utf8_valid_utf8(s);
}

/// A number of one byte is written as that byte.
pub proof fn one_byte_is_pushed(b: Seq<u8>, e: Endian, v: nat)
    requires
        v < 256,
    ensures
        put_uint(b, e, v, 1) == b.push(v as u8),
{
    reveal_with_fuel(le_bytes, 2);
    assert(le_bytes(v, 1) =~= seq![v as u8]);
    assert(le_bytes(v, 1).reverse() =~= seq![v as u8]);
    assert(put_uint(b, e, v, 1) =~= b.push(v as u8));
}

} // verus!
