//! Laws of the ROS 2 wire format: where the bytes of a value stand and what they are.
use vstd::prelude::*;
use vstd::utf8::encode_utf8;
use crate::cdr::{
    byte_range, get_raw, get_seq_len, get_string, header, le_bytes, le_bytes_have_value,
    lemma_byte_ranges, padding, put_uint, uint_bytes, uint_reads_back, CdrError, Endian,
};
use crate::datatype::Primitive;
use crate::wire::{announced, put, Wire};

verus! {

proof fn lemma_le_byte(v: nat, n: nat, i: nat)
    requires
        i < n,
    ensures
        le_bytes(v, n).len() == n,
        le_bytes(v, n)[i as int] == (v / byte_range(i)) % 256,
    decreases n,
{
    le_bytes_have_value(v, n);
    let rest = le_bytes(v / 256, (n - 1) as nat);
    if i > 0 {
        lemma_le_byte(v / 256, (n - 1) as nat, (i - 1) as nat);
        assert(le_bytes(v, n)[i as int] == rest[i - 1]);
        let d = byte_range((i - 1) as nat);
        lemma_byte_range_positive((i - 1) as nat);
        vstd::arithmetic::div_mod::lemma_div_denominator(v as int, 256, d as int);
    } else {
        assert(v / 1 == v);
    }
}

proof fn lemma_byte_range_positive(n: nat)
    ensures
        byte_range(n) > 0,
    decreases n,
{
    if n > 0 {
        lemma_byte_range_positive((n - 1) as nat);
    }
}

/// A number of `n` bytes stands at a multiple of `n` behind the header, after as few zero
/// bytes as bring it there; its bytes are its digits to the base 256, the least one first
/// where the byte order is little-endian, else last.
pub proof fn number_is_aligned(b: Seq<u8>, e: Endian, v: nat, n: nat, i: nat)
    requires
        b.len() >= 4,
        n > 0,
        i < n,
    ensures
        ({
            let w = put_uint(b, e, v, n);
            let at = w.len() - n;
            &&& b.len() <= at < b.len() + n
            &&& (at - 4) % n as int == 0
            &&& w.take(b.len() as int) == b
            &&& forall|j: int| b.len() <= j < at ==> #[trigger] w[j] == 0
            &&& w[at + (match e {
                Endian::Little => i as int,
                Endian::Big => n - 1 - i,
            })] == (v / byte_range(i)) % 256
        }),
{
    let w = put_uint(b, e, v, n);
    let len = (b.len() - 4) as nat;
    lemma_le_byte(v, n, i);
    let bytes = uint_bytes(v, n, e);
    assert(bytes.len() == n);
    let at = w.len() - n;
    assert(at == b.len() + padding(len, n));
    assert(w.take(b.len() as int) =~= b);
    assert((at - 4) % n as int == 0) by {
        if n > 1 && len % n != 0 {
            let q = len / n;
            vstd::arithmetic::div_mod::lemma_fundamental_div_mod(len as int, n as int);
            vstd::arithmetic::div_mod::lemma_mod_bound(len as int, n as int);
            let r = len % n;
            assert(at - 4 == len + (n - r));
            assert(n * q + n == (q + 1) * n) by (nonlinear_arith);
            assert(at - 4 == (q + 1) * n);
            vstd::arithmetic::div_mod::lemma_mod_multiples_basic((q + 1) as int, n as int);
        } else if n == 1 {
            assert((at - 4) % 1 == 0);
        }
    }
    assert(len % n < n) by {
        vstd::arithmetic::div_mod::lemma_mod_bound(len as int, n as int);
    }
    match e {
        Endian::Little => {
            assert(w[at + i] == bytes[i as int]);
        },
        Endian::Big => {
            assert(w[at + (n - 1 - i)] == bytes[n - 1 - i]);
        },
    }
}

/// The header says the byte order and nothing else.
pub proof fn header_says_the_byte_order(e: Endian)
    ensures
        header(e).len() == 4,
        header(e)[0] == 0 && header(e)[2] == 0 && header(e)[3] == 0,
        header(e)[1] == (if e == Endian::Little {
            1u8
        } else {
            0
        }),
{
}

/// A string stands as its length with its terminator, as a number of four bytes, then its
/// UTF-8 bytes and a zero byte.
pub proof fn string_ends_in_zero(b: Seq<u8>, e: Endian, s: Seq<char>)
    requires
        b.len() >= 4,
        encode_utf8(s).len() + 1 < 0x1_0000_0000,
    ensures
        ({
            let n = encode_utf8(s).len();
            let w = put(b, e, Wire::Text(s));
            let c = put_uint(b, e, n + 1, 4);
            &&& w.len() == c.len() + n + 1
            &&& w.take(c.len() as int) == c
            &&& w.subrange(c.len() as int, w.len() - 1) == encode_utf8(s)
            &&& w.last() == 0
        }),
{
    let n = encode_utf8(s).len();
    let w = put(b, e, Wire::Text(s));
    let c = put_uint(b, e, n + 1, 4);
    assert(w.take(c.len() as int) =~= c);
    assert(w.subrange(c.len() as int, w.len() - 1) =~= encode_utf8(s));
}

/// The fields of a message, and the elements of an array, stand one behind the other; a
/// list and a row of bytes have their number in front, as a number of four bytes.
pub proof fn values_stand_in_order(
    b: Seq<u8>,
    e: Endian,
    fields: Seq<(Seq<char>, Wire)>,
    name: Seq<char>,
    items: Seq<Wire>,
    w: Wire,
    bytes: Seq<u8>,
)
    ensures
        put(b, e, Wire::Record(Seq::empty())) == b,
        put(b, e, Wire::Record(fields.push((name, w)))) == put(put(b, e, Wire::Record(fields)), e, w),
        put(b, e, Wire::Array(Seq::empty())) == b,
        put(b, e, Wire::Array(items.push(w))) == put(put(b, e, Wire::Array(items)), e, w),
        items.len() < 0x1_0000_0000 ==> put(b, e, Wire::List(items)) == put(
            put_uint(b, e, items.len(), 4),
            e,
            Wire::Array(items),
        ),
        put(b, e, Wire::FixedBytes(bytes)) == b + bytes,
        bytes.len() < 0x1_0000_0000 ==> put(b, e, Wire::Bytes(bytes)) == put_uint(
            b,
            e,
            bytes.len(),
            4,
        ) + bytes,
{
    assert(fields.push((name, w)).drop_last() =~= fields);
    assert(items.push(w).drop_last() =~= items);
}

/// A primitive is written with the number of bytes of its type.
pub proof fn primitive_has_its_width(b: Seq<u8>, e: Endian, p: Primitive, u: nat)
    requires
        b.len() >= 4,
    ensures
        put(b, e, Wire::Prim(p, u)) == put_uint(
            b,
            e,
            u,
            match p {
                Primitive::Bool | Primitive::Byte | Primitive::Char | Primitive::Int8
                | Primitive::Uint8 => 1,
                Primitive::Int16 | Primitive::Uint16 => 2,
                Primitive::Int32 | Primitive::Uint32 | Primitive::Float32 => 4,
                Primitive::Int64 | Primitive::Uint64 | Primitive::Float64 => 8nat,
            },
        ),
{
}

/// Bytes are read where there are enough of them; else the reader stays where it is and
/// says so.
pub proof fn reading_stops_at_the_end(data: Seq<u8>, pos: nat, n: nat)
    requires
        pos <= data.len() <= usize::MAX,
        n <= usize::MAX,
    ensures
        match get_raw(data, pos, n) {
            (Ok(s), p) => {
                &&& pos + n <= data.len()
                &&& p == pos + n
                &&& s.len() == n
                &&& forall|i: int| 0 <= i < n ==> #[trigger] s[i] == data[pos + i]
            },
            (Err(e), p) => {
                &&& pos + n > data.len()
                &&& p == pos
                &&& e == (CdrError::Eof { needed: n as usize, offset: pos as usize })
            },
        },
{
}

/// The header of a buffer says its byte order by its second byte; a buffer without a header,
/// or with one that is not known, is refused.
pub proof fn byte_order_is_announced(bytes: Seq<u8>)
    ensures
        match announced(bytes) {
            Some(Endian::Big) => bytes.len() >= 4 && (bytes[1] == 0 || bytes[1] == 2),
            Some(Endian::Little) => bytes.len() >= 4 && (bytes[1] == 1 || bytes[1] == 3),
            None => bytes.len() < 4 || bytes[1] > 3,
        },
{
}

/// A string may stand without its terminator, and one of no bytes at all is empty.
pub proof fn terminator_may_be_missing(b: Seq<u8>, rest: Seq<u8>, e: Endian, s: Seq<char>)
    requires
        b.len() >= 4,
        0 < encode_utf8(s).len() < 0x1_0000_0000,
        encode_utf8(s).last() != 0,
    ensures
        ({
            let c = put_uint(b, e, encode_utf8(s).len(), 4);
            get_string((c + encode_utf8(s) + rest).skip(4), (b.len() - 4) as nat, e) == (
                Ok::<Seq<char>, CdrError>(s),
                (c.len() - 4 + encode_utf8(s).len()) as nat,
            )
        }),
        ({
            let c = put_uint(b, e, 0, 4);
            get_string((c + rest).skip(4), (b.len() - 4) as nat, e) == (
                Ok::<Seq<char>, CdrError>(Seq::empty()),
                (c.len() - 4) as nat,
            )
        }),
{
    let bytes = encode_utf8(s);
    let n = bytes.len();
    let c = put_uint(b, e, n, 4);
    lemma_byte_ranges();
    uint_reads_back(b, bytes + rest, e, n, 4);
    uint_reads_back(b, rest, e, 0, 4);
    assert(c + bytes + rest =~= c + (bytes + rest));
    let data = (c + bytes + rest).skip(4);
    let p = (c.len() - 4) as nat;
    le_bytes_have_value(n, 4);
    assert(data.subrange(p as int, (p + n) as int) =~= bytes);
    vstd::utf8::encode_utf8_decode_utf8(s);
    vstd::utf8::encode_utf8_valid_utf8(s);
}

/// A list that claims more elements than there are bytes left is refused.
pub proof fn long_lists_are_refused(b: Seq<u8>, rest: Seq<u8>, e: Endian, n: nat)
    requires
        b.len() >= 4,
        n < 0x1_0000_0000,
    ensures
        get_seq_len((put_uint(b, e, n, 4) + rest).skip(4), (b.len() - 4) as nat, e).0 is Ok
            <==> n <= rest.len(),
{
    lemma_byte_ranges();
    uint_reads_back(b, rest, e, n, 4);
    le_bytes_have_value(n, 4);
}

} // verus!
