//! Goal ids as text: two hexadecimal digits for each byte.
use vstd::prelude::*;
use crate::text::{to_chars, to_text};

verus! {

/// The hexadecimal digit of a number below 16, in small letters.
pub open spec fn hex_digit(n: nat) -> char {
    if n < 10 {
        ('0' as nat + n) as char
    } else {
        ('a' as nat + (n - 10)) as char
    }
}

/// The value of a hexadecimal digit, in letters of either case.
pub open spec fn hex_value(c: char) -> Option<nat> {
    if '0' <= c <= '9' {
        Some((c as nat - '0' as nat) as nat)
    } else if 'a' <= c <= 'f' {
        Some((c as nat - 'a' as nat + 10) as nat)
    } else if 'A' <= c <= 'F' {
        Some((c as nat - 'A' as nat + 10) as nat)
    } else {
        None
    }
}

/// The hexadecimal digits of bytes.
pub open spec fn hex(b: Seq<u8>) -> Seq<char> {
    Seq::new(
        2 * b.len(),
        |i: int|
            if i % 2 == 0 {
                hex_digit(b[i / 2] as nat / 16)
            } else {
                hex_digit(b[i / 2] as nat % 16)
            },
    )
}

/// A text without what is no hexadecimal digit.
pub open spec fn hex_only(s: Seq<char>) -> Seq<char>
    decreases s.len(),
{
    if s.len() == 0 {
        Seq::empty()
    } else if hex_value(s.last()) is Some {
        hex_only(s.drop_last()).push(s.last())
    } else {
        hex_only(s.drop_last())
    }
}

/// The byte that two hexadecimal digits stand for.
pub open spec fn hex_byte(high: char, low: char) -> u8 {
    (16 * hex_value(high).unwrap() + hex_value(low).unwrap()) as u8
}

/// The bytes of a goal id in text: its hexadecimal digits, of which there have to be
/// 32.
pub open spec fn uuid_of(s: Seq<char>) -> Option<Seq<u8>> {
    let d = hex_only(s);
    if d.len() == 32 {
        Some(Seq::new(16, |i: int| hex_byte(d[2 * i], d[2 * i + 1])))
    } else {
        None
    }
}

fn digit_char(n: u8) -> (r: char)
    requires
        n < 16,
    ensures
        r == hex_digit(n as nat),
{
    if n < 10 {
        (48u8 + n) as char
    } else {
        (97u8 + (n - 10)) as char
    }
}

fn digit_value(c: char) -> (r: Option<u8>)
    ensures
        match hex_value(c) {
            Some(n) => r matches Some(x) && x == n,
            None => r is None,
        },
        r matches Some(x) ==> x < 16,
{
    if '0' <= c && c <= '9' {
        Some((c as u32 - 48) as u8)
    } else if 'a' <= c && c <= 'f' {
        Some((c as u32 - 97 + 10) as u8)
    } else if 'A' <= c && c <= 'F' {
        Some((c as u32 - 65 + 10) as u8)
    } else {
        None
    }
}

/// A goal id in hexadecimal digits.
pub fn uuid_to_string(uuid: &[u8; 16]) -> (r: String)
    ensures
        r@ == hex(uuid@),
{
    let mut out: Vec<char> = Vec::new();
    for i in 0usize..16
        invariant
            out@ == hex(uuid@).take(2 * i),
    {
        let b = uuid[i];
        out.push(digit_char(b / 16));
        out.push(digit_char(b % 16));
        proof {
            let h = hex(uuid@);
            assert(uuid@.len() == 16);
            assert((2 * i) % 2 == 0 && (2 * i) / 2 == i);
            assert((2 * i + 1) % 2 == 1 && (2 * i + 1) / 2 == i);
            assert(h[2 * i] == hex_digit(b as nat / 16));
            assert(h[2 * i + 1] == hex_digit(b as nat % 16));
            assert(h.take(2 * (i + 1)) =~= h.take(2 * i).push(h[2 * i]).push(h[2 * i + 1]));
        }
    }
    assert(hex(uuid@).take(32) =~= hex(uuid@));
    to_text(out.as_slice())
}

/// Whether hexadecimal digits have the given values.
spec fn have_values(d: Seq<char>, v: Seq<u8>) -> bool {
    &&& d.len() == v.len()
    &&& forall|j: int|
        0 <= j < v.len() ==> (#[trigger] v[j]) < 16 && hex_value(d[j]) == Some(v[j] as nat)
}

/// The goal id that a text stands for.
pub fn string_to_uuid(s: &str) -> (r: Option<[u8; 16]>)
    ensures
        match r {
            Some(b) => uuid_of(s@) == Some(b@),
            None => uuid_of(s@) is None,
        },
{
    let chars = to_chars(s);
    let mut values: Vec<u8> = Vec::new();
    assert(s@.take(0) =~= Seq::empty());
    for i in 0..chars.len()
        invariant
            chars@ == s@,
            have_values(hex_only(s@.take(i as int)), values@),
    {
        assert(s@.take(i as int + 1).drop_last() =~= s@.take(i as int));
        if let Some(x) = digit_value(chars[i]) {
            values.push(x);
        }
    }
    assert(s@.take(chars@.len() as int) =~= s@);
    if values.len() != 32 {
        return None;
    }
    let mut out: [u8; 16] = [0;16];
    let ghost d = hex_only(s@);
    for i in 0usize..16
        invariant
            d == hex_only(s@),
            values@.len() == 32,
            have_values(d, values@),
            forall|j: int| 0 <= j < i ==> out@[j] == hex_byte(d[2 * j], d[2 * j + 1]),
    {
        assert(values@[2 * i] < 16 && values@[2 * i + 1] < 16);
        out[i] = 16 * values[2 * i] + values[2 * i + 1];
    }
    assert(uuid_of(s@) is Some);
    assert(uuid_of(s@).unwrap() =~= out@);
    Some(out)
}

proof fn lemma_all_hex(s: Seq<char>)
    requires
        forall|i: int| 0 <= i < s.len() ==> hex_value(#[trigger] s[i]) is Some,
    ensures
        hex_only(s) == s,
    decreases s.len(),
{
    if s.len() > 0 {
        assert(s[s.len() - 1] == s.last());
        lemma_all_hex(s.drop_last());
        assert(s =~= s.drop_last().push(s.last()));
    }
}

/// A goal id reads back from its text.
pub proof fn uuid_reads_back(b: Seq<u8>)
    requires
        b.len() == 16,
    ensures
        uuid_of(hex(b)) == Some(b),
{
    let h = hex(b);
    assert forall|n: nat| n < 16 implies hex_value(#[trigger] hex_digit(n)) == Some(n) by {
    }
    assert forall|i: int| 0 <= i < h.len() implies hex_value(#[trigger] h[i]) is Some by {
        assert(hex_value(hex_digit(b[i / 2] as nat / 16)) is Some);
        assert(hex_value(hex_digit(b[i / 2] as nat % 16)) is Some);
    }
    lemma_all_hex(h);
    assert forall|i: int| 0 <= i < 16 implies hex_byte(h[2 * i], h[2 * i + 1]) == #[trigger] b[i] by {
        assert((2 * i) % 2 == 0 && (2 * i) / 2 == i);
        assert((2 * i + 1) % 2 == 1 && (2 * i + 1) / 2 == i);
        assert(hex_value(hex_digit(b[i] as nat / 16)) == Some(b[i] as nat / 16));
        assert(hex_value(hex_digit(b[i] as nat % 16)) == Some(b[i] as nat % 16));
    }
    assert(uuid_of(h).unwrap() =~= b);
}

/// A goal id is written as two digits for each byte, the higher one first, in small letters.
pub proof fn goal_ids_are_small_digits(b: Seq<u8>, i: int)
    requires
        0 <= i < b.len(),
    ensures
        hex(b).len() == 2 * b.len(),
        ({
            let (h, l) = (hex(b)[2 * i], hex(b)[2 * i + 1]);
            &&& ('0' <= h && h <= '9') || ('a' <= h && h <= 'f')
            &&& ('0' <= l && l <= '9') || ('a' <= l && l <= 'f')
            &&& hex_value(h) matches Some(x) && hex_value(l) matches Some(y) && 16 * x + y == b[i]
        }),
{
    lemma_digit(b[i] as nat / 16);
    lemma_digit(b[i] as nat % 16);
}

proof fn lemma_digit(n: nat)
    requires
        n < 16,
    ensures
        hex_value(hex_digit(n)) == Some(n),
        ('0' <= hex_digit(n) && hex_digit(n) <= '9') || ('a' <= hex_digit(n) && hex_digit(n)
            <= 'f'),
{
}

/// What is no digit in the text of a goal id, such as a dash, does not count.
pub proof fn dashes_do_not_count(a: Seq<char>, b: Seq<char>, c: char)
    requires
        hex_value(c) is None,
    ensures
        uuid_of(a + seq![c] + b) == uuid_of(a + b),
{
    lemma_digits_without(a, b, c);
}

proof fn lemma_digits_without(a: Seq<char>, b: Seq<char>, c: char)
    requires
        hex_value(c) is None,
    ensures
        hex_only(a + seq![c] + b) == hex_only(a + b),
    decreases b.len(),
{
    let x = a + seq![c] + b;
    let y = a + b;
    if b.len() == 0 {
        assert(x.last() == c);
        assert(x.drop_last() =~= y);
    } else {
        assert(x.last() == b.last() && y.last() == b.last());
        assert(x.drop_last() =~= a + seq![c] + b.drop_last());
        assert(y.drop_last() =~= a + b.drop_last());
        lemma_digits_without(a, b.drop_last(), c);
    }
}

} // verus!
