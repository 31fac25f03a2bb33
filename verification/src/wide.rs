//! Wide strings: texts as UTF-16 code units, and their place on the wire.
use vstd::prelude::*;
use vstd::utf8::{char_is_scalar, char_u32_cast};
use crate::cdr::{
    get_uint, lemma_byte_ranges, put_uint, uint_reads_back, CdrError, CdrReader, CdrWriter, Endian,
};
use crate::text::{to_chars, to_text};

verus! {

/// `char::from_u32`: the character with a code point, if there is one; the surrogates
/// and what exceeds `0x10ffff` are none.
pub assume_specification[ char::from_u32 ](i: u32) -> (r: Option<char>)
    ensures
        r is Some <==> (i < 0xd800 || 0xe000 <= i <= 0x10ffff),
        r matches Some(c) ==> c as u32 == i,
;

/// The code units of a character: one, or a pair of surrogates.
pub open spec fn char_units(c: char) -> Seq<u16> {
    let v = c as u32;
    if v < 0x1_0000 {
        seq![v as u16]
    } else {
        seq![
            (0xd800 + (v - 0x1_0000) / 0x400) as u16,
            (0xdc00 + (v - 0x1_0000) % 0x400) as u16,
        ]
    }
}

/// The code units of a text.
pub open spec fn wide_units(s: Seq<char>) -> Seq<u16>
    decreases s.len(),
{
    if s.len() == 0 {
        Seq::empty()
    } else {
        char_units(s[0]) + wide_units(s.skip(1))
    }
}

/// Whether a code unit is the first of a pair.
pub open spec fn leads(u: u16) -> bool {
    0xd800 <= u < 0xdc00
}

/// Whether a code unit is the second of a pair.
pub open spec fn trails(u: u16) -> bool {
    0xdc00 <= u < 0xe000
}

/// The character of a pair of code units.
pub open spec fn pair_char(a: u16, b: u16) -> char {
    ((0x1_0000 + (a - 0xd800) * 0x400 + (b - 0xdc00)) as u32) as char
}

/// The text that code units stand for, if every surrogate is one of a pair.
pub open spec fn wide_text(u: Seq<u16>) -> Option<Seq<char>>
    decreases u.len(),
{
    if u.len() == 0 {
        Some(Seq::empty())
    } else if leads(u[0]) {
        if u.len() > 1 && trails(u[1]) {
            prefixed(pair_char(u[0], u[1]), wide_text(u.skip(2)))
        } else {
            None
        }
    } else if trails(u[0]) {
        None
    } else {
        prefixed((u[0] as u32) as char, wide_text(u.skip(1)))
    }
}

/// A text with a character before it, if there is a text.
pub open spec fn prefixed(c: char, t: Option<Seq<char>>) -> Option<Seq<char>> {
    match t {
        Some(t) => Some(seq![c] + t),
        None => None,
    }
}

/// A text is read back from its code units.
pub proof fn wide_units_read_back(s: Seq<char>)
    ensures
        wide_text(wide_units(s)) == Some(s),
    decreases s.len(),
{
    let u = wide_units(s);
    if s.len() == 0 {
        assert(s =~= Seq::empty());
    } else {
        let rest = s.skip(1);
        wide_units_read_back(rest);
        let c = s[0];
        let v = c as u32;
        char_is_scalar(c);
        char_u32_cast(c, v);
        let head = char_units(c);
        assert(u == head + wide_units(rest));
        if v < 0x1_0000 {
            assert(u[0] == v as u16);
            assert(u.skip(1) =~= wide_units(rest));
            assert(u[0] as u32 == v);
        } else {
            let x = v - 0x1_0000;
            assert(0 <= x < 0x10_0000);
            assert(x == (x / 0x400) * 0x400 + x % 0x400);
            assert(u[0] == (0xd800 + x / 0x400) as u16);
            assert(u[1] == (0xdc00 + x % 0x400) as u16);
            assert(u.skip(2) =~= wide_units(rest));
            assert((0x1_0000 + (u[0] - 0xd800) * 0x400 + (u[1] - 0xdc00)) as u32 == v);
        }
        assert(seq![c] + rest =~= s);
    }
}

/// The code units of a text.
pub fn to_wide(s: &str) -> (r: Vec<u16>)
    ensures
        r@ == wide_units(s@),
{
    let chars = to_chars(s);
    let mut out: Vec<u16> = Vec::new();
    assert(out@ + wide_units(s@.skip(0)) =~= wide_units(s@)) by {
        assert(s@.skip(0) =~= s@);
    }
    for i in 0..chars.len()
        invariant
            chars@ == s@,
            out@ + wide_units(s@.skip(i as int)) == wide_units(s@),
    {
        let c = chars[i];
        let v: u32 = c as u32;
        let ghost before = out@;
        proof {
            char_is_scalar(c);
        }
        if v < 0x1_0000 {
            out.push(v as u16);
        } else {
            let x: u32 = v - 0x1_0000;
            out.push((0xd800 + x / 0x400) as u16);
            out.push((0xdc00 + x % 0x400) as u16);
        }
        proof {
            let rest = s@.skip(i as int);
            assert(rest[0] == c);
            assert(rest.skip(1) =~= s@.skip(i + 1));
            assert(out@ =~= before + char_units(c));
            assert(out@ + wide_units(s@.skip(i + 1)) =~= before + (char_units(c) + wide_units(
                s@.skip(i + 1),
            )));
        }
    }
    assert(wide_units(s@.skip(s@.len() as int)) =~= Seq::empty());
    assert(out@ =~= wide_units(s@));
    out
}

/// A text behind another, if there is one.
pub open spec fn behind(head: Seq<char>, t: Option<Seq<char>>) -> Option<Seq<char>> {
    match t {
        Some(t) => Some(head + t),
        None => None,
    }
}

/// The text that code units stand for.
pub fn from_wide(u: &[u16]) -> (r: Option<String>)
    ensures
        match r {
            Some(s) => wide_text(u@) == Some(s@),
            None => wide_text(u@) is None,
        },
{
    let n = u.len();
    let mut out: Vec<char> = Vec::new();
    let mut i: usize = 0;
    assert(u@.skip(0) =~= u@);
    assert(wide_text(u@) =~= behind(out@, wide_text(u@.skip(0)))) by {
        if let Some(t) = wide_text(u@) {
            assert(out@ + t =~= t);
        }
    }
    while i < n
        invariant
            n == u@.len(),
            i <= n,
            wide_text(u@) == behind(out@, wide_text(u@.skip(i as int))),
        decreases n - i,
    {
        let a = u[i];
        let ghost rest = u@.skip(i as int);
        let ghost before = out@;
        assert(rest[0] == a);
        let (code, taken): (u32, usize) = if 0xd800 <= a && a < 0xdc00 {
            if n - i < 2 {
                return None;
            }
            let b = u[i + 1];
            assert(rest[1] == b);
            if b < 0xdc00 || b >= 0xe000 {
                return None;
            }
            (0x1_0000 + (a as u32 - 0xd800) * 0x400 + (b as u32 - 0xdc00), 2)
        } else if 0xdc00 <= a && a < 0xe000 {
            return None;
        } else {
            (a as u32, 1)
        };
        let ghost later = u@.skip(i + taken);
        assert(rest.skip(taken as int) =~= later);
        match char::from_u32(code) {
            Some(c) => {
                proof {
                    char_u32_cast(c, code);
                    assert(code as char == c);
                    assert(wide_text(rest) == prefixed(c, wide_text(later)));
                }
                out.push(c);
                proof {
                    if let Some(t) = wide_text(later) {
                        assert(before + (seq![c] + t) =~= out@ + t);
                    }
                }
            },
            None => {
                return None;
            },
        }
        i = i + taken;
    }
    assert(u@.skip(n as int) =~= Seq::empty());
    assert(out@ + Seq::<char>::empty() =~= out@);
    Some(to_text(out.as_slice()))
}

/// A buffer with code units written at its end.
pub open spec fn put_units(b: Seq<u8>, e: Endian, u: Seq<u16>) -> Seq<u8>
    decreases u.len(),
{
    if u.len() == 0 {
        b
    } else {
        put_uint(put_units(b, e, u.drop_last()), e, u.last() as nat, 2)
    }
}

/// A buffer with a wide string written at its end: the number of its code units, modulo
/// `2^32`, and the code units.
pub open spec fn put_wide(b: Seq<u8>, e: Endian, s: Seq<char>) -> Seq<u8> {
    let u = wide_units(s);
    put_units(put_uint(b, e, u.len() % 0x1_0000_0000, 4), e, u)
}

/// What reading `n` code units gives, after `done`, with the position afterwards.
pub open spec fn get_units(data: Seq<u8>, pos: nat, e: Endian, n: nat, done: Seq<u16>) -> (
    Result<Seq<u16>, CdrError>,
    nat,
)
    decreases n,
{
    if n == 0 {
        (Ok(done), pos)
    } else {
        match get_uint(data, pos, e, 2) {
            (Err(x), p) => (Err(x), p),
            (Ok(v), p) => get_units(data, p, e, (n - 1) as nat, done.push(v as u16)),
        }
    }
}

/// What reading a wide string gives, with the position afterwards.
pub open spec fn get_wide(data: Seq<u8>, pos: nat, e: Endian) -> (
    Result<Seq<char>, CdrError>,
    nat,
) {
    match get_uint(data, pos, e, 4) {
        (Err(x), p) => (Err(x), p),
        (Ok(n), p) => match get_units(data, p, e, n, Seq::empty()) {
            (Err(x), q) => (Err(x), q),
            (Ok(u), q) => match wide_text(u) {
                Some(s) => (Ok(s), q),
                None => (Err(CdrError::Utf16), q),
            },
        },
    }
}

/// Writing code units only adds to the buffer.
pub proof fn put_units_extends(b: Seq<u8>, e: Endian, u: Seq<u16>)
    ensures
        put_units(b, e, u).len() >= b.len(),
        put_units(b, e, u).take(b.len() as int) == b,
    decreases u.len(),
{
    if u.len() == 0 {
        assert(b.take(b.len() as int) =~= b);
    } else {
        let c = put_units(b, e, u.drop_last());
        put_units_extends(b, e, u.drop_last());
        assert(put_units(b, e, u).take(b.len() as int) =~= c.take(b.len() as int));
    }
}

/// Reading code units moves forward.
pub proof fn get_units_forward(data: Seq<u8>, pos: nat, e: Endian, n: nat, done: Seq<u16>)
    ensures
        get_units(data, pos, e, n, done) matches (Ok(_), q) ==> pos <= q,
    decreases n,
{
    if n > 0 {
        if let (Ok(v), p) = get_uint(data, pos, e, 2) {
            get_units_forward(data, p, e, (n - 1) as nat, done.push(v as u16));
        }
    }
}

proof fn lemma_units_prefix(b: Seq<u8>, e: Endian, u: Seq<u16>, i: int)
    requires
        0 <= i <= u.len(),
    ensures
        put_units(b, e, u).len() >= put_units(b, e, u.take(i)).len(),
        put_units(b, e, u).take(put_units(b, e, u.take(i)).len() as int) == put_units(
            b,
            e,
            u.take(i),
        ),
    decreases u.len() - i,
{
    let c = put_units(b, e, u.take(i));
    if i == u.len() {
        assert(u.take(i) =~= u);
        assert(c.take(c.len() as int) =~= c);
    } else {
        lemma_units_prefix(b, e, u, i + 1);
        assert(u.take(i + 1).drop_last() =~= u.take(i));
        let d = put_units(b, e, u.take(i + 1));
        assert(d == put_uint(c, e, u[i] as nat, 2));
        assert(d.take(c.len() as int) =~= c);
        assert(put_units(b, e, u).take(c.len() as int) =~= d.take(c.len() as int));
    }
}

proof fn lemma_units_read_back(b: Seq<u8>, rest: Seq<u8>, e: Endian, u: Seq<u16>, i: nat)
    requires
        b.len() >= 4,
        i <= u.len(),
    ensures
        get_units(
            (put_units(b, e, u) + rest).skip(4),
            (put_units(b, e, u.take(i as int)).len() - 4) as nat,
            e,
            (u.len() - i) as nat,
            u.take(i as int),
        ) == (Ok::<Seq<u16>, CdrError>(u), (put_units(b, e, u).len() - 4) as nat),
    decreases u.len() - i,
{
    let whole = put_units(b, e, u);
    let c = put_units(b, e, u.take(i as int));
    put_units_extends(b, e, u.take(i as int));
    if i == u.len() {
        assert(u.take(i as int) =~= u);
    } else {
        assert(u.take(i as int + 1).drop_last() =~= u.take(i as int));
        assert(u.take(i as int).push(u[i as int]) =~= u.take(i as int + 1));
        let d = put_units(b, e, u.take(i as int + 1));
        assert(d == put_uint(c, e, u[i as int] as nat, 2));
        lemma_units_prefix(b, e, u, i as int + 1);
        let tail = whole.skip(d.len() as int) + rest;
        assert(whole + rest =~= d + tail) by {
            assert(whole =~= whole.take(d.len() as int) + whole.skip(d.len() as int));
        }
        lemma_byte_ranges();
        uint_reads_back(c, tail, e, u[i as int] as nat, 2);
        lemma_units_read_back(b, rest, e, u, i + 1);
    }
}

/// A wide string of fewer than `2^32` code units is read back from where it was written,
/// in either byte order.
pub proof fn wide_string_reads_back(b: Seq<u8>, rest: Seq<u8>, e: Endian, s: Seq<char>)
    requires
        b.len() >= 4,
        wide_units(s).len() < 0x1_0000_0000,
    ensures
        get_wide((put_wide(b, e, s) + rest).skip(4), (b.len() - 4) as nat, e) == (
            Ok::<Seq<char>, CdrError>(s),
            (put_wide(b, e, s).len() - 4) as nat,
        ),
{
    let u = wide_units(s);
    let n = u.len();
    assert(n % 0x1_0000_0000 == n);
    let c = put_uint(b, e, n, 4);
    let whole = put_wide(b, e, s);
    assert(whole == put_units(c, e, u));
    put_units_extends(c, e, u);
    let tail = whole.skip(c.len() as int) + rest;
    let data = (whole + rest).skip(4);
    assert(whole + rest =~= c + tail) by {
        assert(whole =~= whole.take(c.len() as int) + whole.skip(c.len() as int));
    }
    lemma_byte_ranges();
    uint_reads_back(b, tail, e, n, 4);
    let p = (c.len() - 4) as nat;
    assert(get_uint(data, (b.len() - 4) as nat, e, 4) == (Ok::<nat, CdrError>(n), p));
    assert(get_units(data, p, e, n, Seq::empty()) == (
        Ok::<Seq<u16>, CdrError>(u),
        (whole.len() - 4) as nat,
    )) by {
        assert(u.take(0) =~= Seq::empty());
        lemma_units_read_back(c, rest, e, u, 0);
    }
    wide_units_read_back(s);
}

/// Writes a wide string: the number of its code units, and the code units.
pub fn write_wide(w: &mut CdrWriter, s: &str)
    requires
        old(w).wf(),
    ensures
        final(w).wf(),
        final(w).bytes() == put_wide(old(w).bytes(), old(w).order(), s@),
        final(w).order() == old(w).order(),
{
    let units = to_wide(s);
    w.write_u32(((units.len() as u64) % 0x1_0000_0000) as u32);
    let ghost head = w.bytes();
    assert(units@.take(0) =~= Seq::empty());
    for i in 0..units.len()
        invariant
            w.wf(),
            w.order() == old(w).order(),
            w.bytes() == put_units(head, w.order(), units@.take(i as int)),
    {
        w.write_u16(units[i]);
        assert(units@.take(i + 1).drop_last() =~= units@.take(i as int));
    }
    assert(units@.take(units@.len() as int) =~= units@);
}

/// Reads a wide string.
pub fn read_wide(r: &mut CdrReader) -> (v: Result<String, CdrError>)
    requires
        old(r).wf(),
    ensures
        final(r).moved(old(r), get_wide(old(r).body(), old(r).at(), old(r).order()).1),
        match v {
            Ok(s) => get_wide(old(r).body(), old(r).at(), old(r).order()).0 == Ok::<
                Seq<char>,
                CdrError,
            >(s@),
            Err(e) => get_wide(old(r).body(), old(r).at(), old(r).order()).0 == Err::<
                Seq<char>,
                CdrError,
            >(e),
        },
{
    let n: u32 = match r.read_u32() {
        Ok(n) => n,
        Err(e) => {
            return Err(e);
        },
    };
    let ghost whole = get_units(r.body(), r.at(), r.order(), n as nat, Seq::empty());
    let mut units: Vec<u16> = Vec::new();
    for i in 0..n
        invariant
            r.wf(),
            r.body() == old(r).body(),
            r.order() == old(r).order(),
            whole == get_units(r.body(), r.at(), r.order(), (n - i) as nat, units@),
            get_uint(old(r).body(), old(r).at(), old(r).order(), 4).0 == Ok::<nat, CdrError>(
                n as nat,
            ),
            whole == get_units(
                old(r).body(),
                get_uint(old(r).body(), old(r).at(), old(r).order(), 4).1,
                old(r).order(),
                n as nat,
                Seq::empty(),
            ),
    {
        match r.read_u16() {
            Ok(u) => {
                units.push(u);
            },
            Err(e) => {
                return Err(e);
            },
        }
    }
    match from_wide(units.as_slice()) {
        Some(s) => Ok(s),
        None => Err(CdrError::Utf16),
    }
}

/// A character that is one code unit is the unit with its number; any other is a pair of
/// surrogates that the standard pairs for it.
pub proof fn characters_have_their_units(c: char)
    ensures
        c as u32 <= 0xffff ==> char_units(c).len() == 1 && char_units(c)[0] == c as u32,
        c as u32 > 0xffff ==> {
            let u = char_units(c);
            &&& u.len() == 2
            &&& 0xd800 <= u[0] < 0xdc00
            &&& 0xdc00 <= u[1] < 0xe000
            &&& c as u32 == 0x1_0000 + (u[0] - 0xd800) * 0x400 + (u[1] - 0xdc00)
        },
{
    vstd::utf8::char_u32_cast(c, c as u32);
}

/// A wide string stands as the number of its code units, as a number of four bytes, and
/// each of them as a number of two.
pub proof fn wide_string_counts_its_units(b: Seq<u8>, e: Endian, s: Seq<char>)
    requires
        wide_units(s).len() < 0x1_0000_0000,
    ensures
        put_wide(b, e, s) == put_units(put_uint(b, e, wide_units(s).len(), 4), e, wide_units(s)),
{
}

} // verus!
