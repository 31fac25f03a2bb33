//! Text handling on sequences of characters: splitting, trimming, searching
//! and decimal numerals, each with a mathematical statement of what it yields.
use vstd::prelude::*;

verus! {

/// `String::push`: the character is appended at the end of the string.
pub assume_specification[ std::string::String::push ](s: &mut std::string::String, c: char)
    ensures
        final(s)@ == old(s)@.push(c),
;

/// The characters with the Unicode `White_Space` property.
pub open spec fn white(c: char) -> bool {
    ||| 0x9 <= c as u32 <= 0xd
    ||| c as u32 == 0x20
    ||| c as u32 == 0x85
    ||| c as u32 == 0xa0
    ||| c as u32 == 0x1680
    ||| 0x2000 <= c as u32 <= 0x200a
    ||| c as u32 == 0x2028
    ||| c as u32 == 0x2029
    ||| c as u32 == 0x202f
    ||| c as u32 == 0x205f
    ||| c as u32 == 0x3000
}

/// Whether `c` is white space.
pub fn is_white(c: char) -> (r: bool)
    ensures
        r == white(c),
{
    let u: u32 = c as u32;
    (0x9 <= u && u <= 0xd) || u == 0x20 || u == 0x85 || u == 0xa0 || u == 0x1680 || (0x2000 <= u
        && u <= 0x200a) || u == 0x2028 || u == 0x2029 || u == 0x202f || u == 0x205f || u == 0x3000
}

/// The characters of a string.
pub fn to_chars(s: &str) -> (r: Vec<char>)
    ensures
        r@ == s@,
{
    let mut v: Vec<char> = Vec::new();
    for c in it: s.chars()
        invariant
            it.seq() == s@,
            v@ == s@.take(it.index() as int),
    {
        v.push(c);
        assert(s@.take(it.index() as int + 1) =~= s@.take(it.index() as int).push(c));
    }
    assert(s@.take(s@.len() as int) =~= s@);
    v
}

/// The string made of the given characters.
pub fn to_text(s: &[char]) -> (r: String)
    ensures
        r@ == s@,
{
    let mut out = String::new();
    let n = s.len();
    for i in 0..n
        invariant
            n == s@.len(),
            out@ == s@.take(i as int),
    {
        out.push(s[i]);
        assert(s@.take(i as int + 1) =~= s@.take(i as int).push(s@[i as int]));
    }
    assert(s@.take(s@.len() as int) =~= s@);
    out
}

/// Whether two strings hold the same characters.
pub fn same_text(a: &str, b: &str) -> (r: bool)
    ensures
        r == (a@ == b@),
{
    let x = a.as_bytes();
    let y = b.as_bytes();
    if x.len() != y.len() {
        return false;
    }
    let n = x.len();
    for i in 0..n
        invariant
            n == x@.len(),
            n == y@.len(),
            x@ == vstd::utf8::encode_utf8(a@),
            y@ == vstd::utf8::encode_utf8(b@),
            x@.take(i as int) =~= y@.take(i as int),
    {
        if x[i] != y[i] {
            assert(vstd::utf8::encode_utf8(a@)[i as int] != vstd::utf8::encode_utf8(b@)[i as int]);
            return false;
        }
        assert(x@.take(i as int + 1) =~= x@.take(i as int).push(x@[i as int]));
        assert(y@.take(i as int + 1) =~= y@.take(i as int).push(y@[i as int]));
    }
    proof {
        assert(x@.take(n as int) =~= x@);
        assert(y@.take(n as int) =~= y@);
        vstd::utf8::encode_utf8_decode_utf8(a@);
        vstd::utf8::encode_utf8_decode_utf8(b@);
    }
    true
}

/// Whether two slices hold the same characters.
pub fn same_chars(a: &[char], b: &[char]) -> (r: bool)
    ensures
        r == (a@ == b@),
{
    if a.len() != b.len() {
        return false;
    }
    let n = a.len();
    for i in 0..n
        invariant
            n == a@.len(),
            n == b@.len(),
            forall|j: int| 0 <= j < i ==> a@[j] == b@[j],
    {
        if a[i] != b[i] {
            assert(a@[i as int] != b@[i as int]);
            return false;
        }
    }
    assert(a@ =~= b@);
    true
}

/// The position of the first `c` in `s`, or the length of `s` where there is none.
pub open spec fn find(s: Seq<char>, c: char) -> int
    decreases s.len(),
{
    if s.len() == 0 || s[0] == c {
        0
    } else {
        1 + find(s.drop_first(), c)
    }
}

/// What `find` yields is the first position that holds `c`.
pub proof fn find_is_first(s: Seq<char>, c: char)
    ensures
        0 <= find(s, c) <= s.len(),
        find(s, c) < s.len() ==> s[find(s, c)] == c,
        forall|i: int| 0 <= i < find(s, c) ==> s[i] != c,
        find(s, c) == s.len() <==> !s.contains(c),
    decreases s.len(),
{
    if s.len() > 0 && s[0] != c {
        let t = s.drop_first();
        find_is_first(t, c);
        assert forall|i: int| 0 <= i < find(s, c) implies s[i] != c by {
            if i > 0 {
                assert(t[i - 1] != c);
            }
        }
        if find(s, c) < s.len() {
            assert(s[find(s, c)] == t[find(t, c)]);
        }
    }
    if find(s, c) < s.len() {
        assert(s.contains(c));
    } else if s.contains(c) {
        let i = choose|i: int| 0 <= i < s.len() && s[i] == c;
        assert(s[i] != c);
    }
}

pub proof fn lemma_find_at(s: Seq<char>, c: char, k: int)
    requires
        0 <= k <= s.len(),
        forall|i: int| 0 <= i < k ==> s[i] != c,
        k < s.len() ==> s[k] == c,
    ensures
        find(s, c) == k,
{
    find_is_first(s, c);
    if find(s, c) < k {
        assert(s[find(s, c)] != c);
    } else if k < find(s, c) {
        assert(s[k] != c);
    }
}

/// Finds the first `c` in `s`; the length of `s` stands for "not found".
pub fn find_char(s: &[char], c: char) -> (r: usize)
    ensures
        r as int == find(s@, c),
        r <= s@.len(),
{
    let n = s.len();
    let mut i: usize = 0;
    while i < n
        invariant
            n == s@.len(),
            i <= n,
            forall|j: int| 0 <= j < i ==> s@[j] != c,
        decreases n - i,
    {
        if s[i] == c {
            proof {
                lemma_find_at(s@, c, i as int);
            }
            return i;
        }
        i = i + 1;
    }
    proof {
        lemma_find_at(s@, c, n as int);
    }
    n
}

/// The position of the last `c` in `s`, or -1 where there is none.
pub open spec fn rfind(s: Seq<char>, c: char) -> int
    decreases s.len(),
{
    if s.len() == 0 {
        -1
    } else if s.last() == c {
        s.len() - 1
    } else {
        rfind(s.drop_last(), c)
    }
}

/// Finds the last `c` in `s`.
pub fn find_last(s: &[char], c: char) -> (r: Option<usize>)
    ensures
        match r {
            Some(i) => i as int == rfind(s@, c) && i < s@.len(),
            None => rfind(s@, c) == -1,
        },
{
    let mut i: usize = s.len();
    assert(s@.take(i as int) =~= s@);
    while i > 0
        invariant
            i <= s@.len(),
            rfind(s@, c) == rfind(s@.take(i as int), c),
        decreases i,
    {
        assert(s@.take(i as int).drop_last() =~= s@.take(i - 1));
        if s[i - 1] == c {
            return Some(i - 1);
        }
        i = i - 1;
    }
    None
}

/// `s` without its leading white space.
pub open spec fn trim_start(s: Seq<char>) -> Seq<char>
    decreases s.len(),
{
    if s.len() > 0 && white(s[0]) {
        trim_start(s.drop_first())
    } else {
        s
    }
}

/// `s` without its trailing white space.
pub open spec fn trim_end(s: Seq<char>) -> Seq<char>
    decreases s.len(),
{
    if s.len() > 0 && white(s.last()) {
        trim_end(s.drop_last())
    } else {
        s
    }
}

/// `s` without white space at either end.
pub open spec fn trim(s: Seq<char>) -> Seq<char> {
    trim_end(trim_start(s))
}

/// Removes white space from both ends.
pub fn trimmed<'a>(s: &'a [char]) -> (r: &'a [char])
    ensures
        r@ == trim(s@),
        r@.len() <= s@.len(),
{
    let n = s.len();
    let mut i: usize = 0;
    assert(s@.skip(0) =~= s@);
    while i < n && is_white(s[i])
        invariant
            n == s@.len(),
            i <= n,
            trim_start(s@) == trim_start(s@.skip(i as int)),
        decreases n - i,
    {
        assert(s@.skip(i as int).drop_first() =~= s@.skip(i as int + 1));
        i = i + 1;
    }
    let ghost t = s@.skip(i as int);
    assert(trim_start(s@) == t);
    let mut j: usize = n;
    assert(s@.subrange(i as int, n as int) =~= t);
    while i < j && is_white(s[j - 1])
        invariant
            n == s@.len(),
            i <= j <= n,
            trim_end(t) == trim_end(s@.subrange(i as int, j as int)),
        decreases j,
    {
        assert(s@.subrange(i as int, j as int).drop_last() =~= s@.subrange(i as int, j - 1));
        j = j - 1;
    }
    vstd::slice::slice_subrange(s, i, j)
}

/// The pieces of `s` between the occurrences of `c`.
pub open spec fn split(s: Seq<char>, c: char) -> Seq<Seq<char>>
    decreases s.len(),
{
    let i = find(s, c);
    if 0 <= i < s.len() {
        seq![s.take(i)] + split(s.skip(i + 1), c)
    } else {
        seq![s]
    }
}

/// The contents of a vector of strings of characters.
pub open spec fn pieces(v: Seq<Vec<char>>) -> Seq<Seq<char>> {
    v.map_values(|x: Vec<char>| x@)
}

pub proof fn lemma_pieces_push(v: Seq<Vec<char>>, x: Vec<char>)
    ensures
        pieces(v.push(x)) == pieces(v).push(x@),
{
    assert(pieces(v.push(x)) =~= pieces(v).push(x@));
}

/// Splits `s` at each `c`.
pub fn split_char(s: &[char], c: char) -> (r: Vec<Vec<char>>)
    ensures
        pieces(r@) == split(s@, c),
{
    let mut out: Vec<Vec<char>> = Vec::new();
    let n = s.len();
    let mut start: usize = 0;
    assert(s@.skip(0) =~= s@);
    assert(pieces(out@) =~= Seq::empty());
    loop
        invariant
            n == s@.len(),
            start <= n,
            split(s@, c) == pieces(out@) + split(s@.skip(start as int), c),
        decreases n - start,
    {
        let rest = vstd::slice::slice_subrange(s, start, n);
        assert(rest@ =~= s@.skip(start as int));
        let i = find_char(rest, c);
        let ghost before = out@;
        let piece = vstd::slice::slice_to_vec(vstd::slice::slice_subrange(rest, 0, i));
        assert(piece@ =~= rest@.take(i as int));
        out.push(piece);
        proof {
            lemma_pieces_push(before, piece);
        }
        if i < rest.len() {
            assert(rest@.skip(i as int + 1) =~= s@.skip(start + i + 1));
            assert(split(s@, c) =~= pieces(out@) + split(s@.skip(start + i + 1), c));
            start = start + i + 1;
        } else {
            assert(piece@ =~= rest@);
            assert(split(s@, c) =~= pieces(out@));
            return out;
        }
    }
}

/// The pieces put together again with `sep` between them.
pub open spec fn join(parts: Seq<Seq<char>>, sep: Seq<char>) -> Seq<char>
    decreases parts.len(),
{
    if parts.len() == 0 {
        Seq::empty()
    } else if parts.len() == 1 {
        parts[0]
    } else {
        join(parts.drop_last(), sep) + sep + parts.last()
    }
}

/// Joins the pieces with `sep` between them.
pub fn join_chars(parts: &[Vec<char>], sep: &[char]) -> (r: Vec<char>)
    ensures
        r@ == join(pieces(parts@), sep@),
{
    let mut out: Vec<char> = Vec::new();
    let n = parts.len();
    for i in 0..n
        invariant
            n == parts@.len(),
            out@ == join(pieces(parts@.take(i as int)), sep@),
    {
        let ghost done = out@;
        if i > 0 {
            push_all(&mut out, sep);
        }
        push_all(&mut out, parts[i].as_slice());
        proof {
            let p = pieces(parts@.take(i as int + 1));
            assert(p.drop_last() =~= pieces(parts@.take(i as int)));
            assert(p.last() == parts@[i as int]@);
            assert(p.len() == i + 1);
            assert(out@ =~= join(p, sep@));
        }
    }
    assert(parts@.take(n as int) =~= parts@);
    out
}

/// Appends the characters of `more`.
pub fn push_all(out: &mut Vec<char>, more: &[char])
    ensures
        final(out)@ == old(out)@ + more@,
{
    let n = more.len();
    let ghost before = out@;
    for i in 0..n
        invariant
            n == more@.len(),
            out@ == before + more@.take(i as int),
    {
        out.push(more[i]);
        assert(more@.take(i as int + 1) =~= more@.take(i as int).push(more@[i as int]));
    }
    assert(more@.take(n as int) =~= more@);
}

/// A line without the carriage return that ends it.
pub open spec fn without_cr(s: Seq<char>) -> Seq<char> {
    if s.len() > 0 && s.last() == '\r' {
        s.drop_last()
    } else {
        s
    }
}

/// The lines of a text. A line ends in a newline or in a carriage return and a
/// newline; the ending of the last line may be missing.
pub open spec fn lines(s: Seq<char>) -> Seq<Seq<char>>
    decreases s.len(),
{
    let i = find(s, '\n');
    if s.len() == 0 {
        Seq::empty()
    } else if 0 <= i < s.len() {
        seq![without_cr(s.take(i))] + lines(s.skip(i + 1))
    } else {
        seq![s]
    }
}

/// Splits a text into its lines.
pub fn split_lines(s: &[char]) -> (r: Vec<Vec<char>>)
    ensures
        pieces(r@) == lines(s@),
{
    let mut out: Vec<Vec<char>> = Vec::new();
    let n = s.len();
    let mut start: usize = 0;
    assert(s@.skip(0) =~= s@);
    assert(pieces(out@) =~= Seq::empty());
    while start < n
        invariant
            n == s@.len(),
            start <= n,
            lines(s@) == pieces(out@) + lines(s@.skip(start as int)),
        decreases n - start,
    {
        let rest = vstd::slice::slice_subrange(s, start, n);
        assert(rest@ =~= s@.skip(start as int));
        let i = find_char(rest, '\n');
        let ghost before = out@;
        let end: usize = if i < rest.len() && i > 0 && rest[i - 1] == '\r' {
            i - 1
        } else {
            i
        };
        let piece = vstd::slice::slice_to_vec(vstd::slice::slice_subrange(rest, 0, end));
        out.push(piece);
        proof {
            lemma_pieces_push(before, piece);
        }
        if i < rest.len() {
            assert(piece@ =~= without_cr(rest@.take(i as int)));
            assert(rest@.skip(i as int + 1) =~= s@.skip(start + i + 1));
            assert(lines(s@) =~= pieces(out@) + lines(s@.skip(start + i + 1)));
            start = start + i + 1;
        } else {
            assert(piece@ =~= rest@);
            assert(lines(s@) =~= pieces(out@));
            assert(s@.skip(n as int).len() == 0);
            assert(lines(s@) =~= pieces(out@) + lines(s@.skip(n as int)));
            start = n;
        }
    }
    assert(lines(s@.skip(start as int)) =~= Seq::<Seq<char>>::empty());
    assert(lines(s@) =~= pieces(out@));
    out
}

/// The length of the longest prefix of `s` without white space.
pub open spec fn word_len(s: Seq<char>) -> int
    decreases s.len(),
{
    if s.len() == 0 || white(s[0]) {
        0
    } else {
        1 + word_len(s.drop_first())
    }
}

pub proof fn lemma_word_len(s: Seq<char>)
    ensures
        0 <= word_len(s) <= s.len(),
        word_len(s) < s.len() ==> white(s[word_len(s)]),
        forall|i: int| 0 <= i < word_len(s) ==> !white(s[i]),
    decreases s.len(),
{
    if s.len() > 0 && !white(s[0]) {
        let t = s.drop_first();
        lemma_word_len(t);
        assert forall|i: int| 0 <= i < word_len(s) implies !white(s[i]) by {
            if i > 0 {
                assert(!white(t[i - 1]));
            }
        }
        if word_len(s) < s.len() {
            assert(s[word_len(s)] == t[word_len(t)]);
        }
    }
}

/// Finds the end of the longest prefix of `s` without white space.
pub fn word_end(s: &[char]) -> (r: usize)
    ensures
        r as int == word_len(s@),
        r <= s@.len(),
{
    let n = s.len();
    let mut i: usize = 0;
    while i < n && !is_white(s[i])
        invariant
            n == s@.len(),
            i <= n,
            forall|j: int| 0 <= j < i ==> !white(s@[j]),
        decreases n - i,
    {
        i = i + 1;
    }
    proof {
        lemma_word_len(s@);
        if word_len(s@) < i {
            assert(!white(s@[word_len(s@)]));
        }
    }
    i
}

pub proof fn lemma_trim_start_len(s: Seq<char>)
    ensures
        trim_start(s).len() <= s.len(),
        trim_start(s).len() > 0 ==> !white(trim_start(s)[0]),
    decreases s.len(),
{
    if s.len() > 0 && white(s[0]) {
        lemma_trim_start_len(s.drop_first());
    }
}

/// The words of a text: its longest pieces without white space.
pub open spec fn words(s: Seq<char>) -> Seq<Seq<char>>
    decreases s.len(),
{
    let t = trim_start(s);
    if t.len() == 0 || t.len() > s.len() {
        Seq::empty()
    } else {
        let k = word_len(t);
        if 0 < k <= t.len() {
            seq![t.take(k)] + words(t.skip(k))
        } else {
            Seq::empty()
        }
    }
}

/// Splits a text into its words.
pub fn split_words(s: &[char]) -> (r: Vec<Vec<char>>)
    ensures
        pieces(r@) == words(s@),
{
    let mut out: Vec<Vec<char>> = Vec::new();
    let n = s.len();
    let mut start: usize = 0;
    assert(s@.skip(0) =~= s@);
    assert(pieces(out@) =~= Seq::empty());
    loop
        invariant
            n == s@.len(),
            start <= n,
            words(s@) == pieces(out@) + words(s@.skip(start as int)),
        decreases n - start,
    {
        let ghost rest = s@.skip(start as int);
        let mut i: usize = start;
        while i < n && is_white(s[i])
            invariant
                n == s@.len(),
                start <= i <= n,
                rest == s@.skip(start as int),
                trim_start(rest) == trim_start(s@.skip(i as int)),
            decreases n - i,
        {
            assert(s@.skip(i as int).drop_first() =~= s@.skip(i as int + 1));
            i = i + 1;
        }
        let ghost t = s@.skip(i as int);
        assert(trim_start(rest) == t);
        if i == n {
            assert(words(s@) =~= pieces(out@));
            return out;
        }
        let tail = vstd::slice::slice_subrange(s, i, n);
        assert(tail@ =~= t);
        assert(!white(tail@[0]));
        let k = word_end(tail);
        let ghost before = out@;
        let piece = vstd::slice::slice_to_vec(vstd::slice::slice_subrange(tail, 0, k));
        assert(piece@ =~= t.take(k as int));
        out.push(piece);
        proof {
            lemma_pieces_push(before, piece);
            lemma_word_len(tail@.drop_first());
            assert(k > 0);
            assert(t.skip(k as int) =~= s@.skip(i + k));
            assert(words(rest) == seq![t.take(k as int)] + words(t.skip(k as int)));
            assert(words(s@) =~= pieces(out@) + words(s@.skip(i + k)));
        }
        start = i + k;
    }
}

/// Whether `s` begins with `p`.
pub open spec fn starts_with(s: Seq<char>, p: Seq<char>) -> bool {
    s.len() >= p.len() && s.take(p.len() as int) == p
}

/// Whether `s` begins with `p`.
pub fn begins(s: &[char], p: &str) -> (r: bool)
    ensures
        r == starts_with(s@, p@),
{
    let q = to_chars(p);
    if s.len() < q.len() {
        return false;
    }
    same_chars(vstd::slice::slice_subrange(s, 0, q.len()), q.as_slice())
}

/// The value of a decimal digit.
pub open spec fn digit(c: char) -> Option<nat> {
    if '0' <= c && c <= '9' {
        Some((c as u32 - '0' as u32) as nat)
    } else {
        None
    }
}

/// The number that a row of decimal digits stands for.
pub open spec fn digits_value(s: Seq<char>) -> Option<nat>
    decreases s.len(),
{
    if s.len() == 0 {
        Some(0)
    } else {
        match (digits_value(s.drop_last()), digit(s.last())) {
            (Some(v), Some(d)) => Some(v * 10 + d),
            _ => None,
        }
    }
}

/// An unsigned decimal numeral, with an optional plus sign, that is at most `max`.
pub open spec fn unsigned_value(s: Seq<char>, max: nat) -> Option<nat> {
    let t = if s.len() > 0 && s[0] == '+' {
        s.drop_first()
    } else {
        s
    };
    if t.len() == 0 {
        None
    } else {
        match digits_value(t) {
            Some(v) => if v <= max {
                Some(v)
            } else {
                None
            },
            None => None,
        }
    }
}

/// A longer row of digits stands for no smaller number.
proof fn lemma_digits_grow(s: Seq<char>, k: int)
    requires
        0 <= k <= s.len(),
    ensures
        digits_value(s) is Some ==> digits_value(s.take(k)) is Some && digits_value(s.take(k))->0
            <= digits_value(s)->0,
    decreases s.len(),
{
    if k == s.len() {
        assert(s.take(k) =~= s);
    } else {
        lemma_digits_grow(s.drop_last(), k);
        assert(s.drop_last().take(k) =~= s.take(k));
    }
}

/// Reads an unsigned decimal numeral of at most `max`.
pub fn parse_unsigned(s: &[char], max: u64) -> (r: Option<u64>)
    ensures
        match r {
            Some(v) => unsigned_value(s@, max as nat) == Some(v as nat),
            None => unsigned_value(s@, max as nat) is None,
        },
{
    let n = s.len();
    let start: usize = if n > 0 && s[0] == '+' {
        1
    } else {
        0
    };
    let ghost t = if s@.len() > 0 && s@[0] == '+' {
        s@.drop_first()
    } else {
        s@
    };
    assert(t =~= s@.skip(start as int));
    if start == n {
        return None;
    }
    let mut v: u64 = 0;
    assert(t.take(0) =~= Seq::empty());
    for i in start..n
        invariant
            n == s@.len(),
            start <= n,
            t == s@.skip(start as int),
            unsigned_value(s@, max as nat) == (match digits_value(t) {
                Some(x) => if x <= max {
                    Some(x)
                } else {
                    None
                },
                None => None,
            }),
            digits_value(t.take(i - start)) == Some(v as nat),
            v <= max,
    {
        let c = s[i];
        let ghost p = t.take(i - start + 1);
        proof {
            assert(p.drop_last() =~= t.take(i - start));
            assert(p.last() == c);
            lemma_digits_grow(t, i - start + 1);
        }
        if !('0' <= c && c <= '9') {
            assert(digits_value(p) is None);
            return None;
        }
        let d: u64 = (c as u32 - '0' as u32) as u64;
        assert(digits_value(p) == Some((v * 10 + d) as nat));
        if v > max / 10 || d > max - v * 10 {
            return None;
        }
        v = v * 10 + d;
    }
    assert(t.take(n - start) =~= t);
    Some(v)
}

/// A signed decimal numeral between the two bounds.
pub open spec fn signed_value(s: Seq<char>, min: int, max: int) -> Option<int> {
    let t = if s.len() > 0 && (s[0] == '+' || s[0] == '-') {
        s.drop_first()
    } else {
        s
    };
    if t.len() == 0 {
        None
    } else {
        match digits_value(t) {
            Some(v) => {
                let x = if s[0] == '-' {
                    -(v as int)
                } else {
                    v as int
                };
                if min <= x <= max {
                    Some(x)
                } else {
                    None
                }
            },
            None => None,
        }
    }
}

/// Reads a signed decimal numeral of 64 bits.
pub fn parse_signed(s: &[char]) -> (r: Option<i64>)
    ensures
        match r {
            Some(v) => signed_value(s@, i64::MIN as int, i64::MAX as int) == Some(v as int),
            None => signed_value(s@, i64::MIN as int, i64::MAX as int) is None,
        },
{
    let n = s.len();
    let negative = n > 0 && s[0] == '-';
    let start: usize = if n > 0 && (s[0] == '+' || s[0] == '-') {
        1
    } else {
        0
    };
    let tail = vstd::slice::slice_subrange(s, start, n);
    assert(start == 1 ==> tail@ =~= s@.drop_first());
    assert(start == 0 ==> tail@ =~= s@);
    if start == n {
        return None;
    }
    if tail[0] == '+' {
        assert(digit('+') is None);
        proof {
            lemma_digits_grow(tail@, 1);
            assert(tail@.take(1).drop_last() =~= Seq::empty());
            assert(tail@.take(1).last() == '+');
            assert(digits_value(tail@.take(1)) is None);
        }
        return None;
    }
    let max: u64 = if negative {
        0x8000_0000_0000_0000
    } else {
        0x7fff_ffff_ffff_ffff
    };
    match parse_unsigned(tail, max) {
        None => None,
        Some(v) => if negative {
            if v == 0x8000_0000_0000_0000 {
                Some(i64::MIN)
            } else {
                Some(-(v as i64))
            }
        } else {
            Some(v as i64)
        },
    }
}

/// The decimal digits of `n`, most significant first.
pub open spec fn decimal(n: nat) -> Seq<char>
    decreases n,
{
    if n < 10 {
        seq![(('0' as u32 + n) as u32) as char]
    } else {
        decimal(n / 10).push((('0' as u32 + n % 10) as u32) as char)
    }
}

/// Writes `n` in decimal.
pub fn decimal_chars(n: u64) -> (r: Vec<char>)
    ensures
        r@ == decimal(n as nat),
    decreases n,
{
    let d: u8 = 48 + (n % 10) as u8;
    let mut out: Vec<char> = if n < 10 {
        Vec::new()
    } else {
        decimal_chars(n / 10)
    };
    out.push(d as char);
    assert(out@ =~= decimal(n as nat));
    out
}

/// The ASCII lower-case form of a character.
pub open spec fn lower(c: char) -> char {
    if 'A' <= c && c <= 'Z' {
        ((c as u32 + 32) as u32) as char
    } else {
        c
    }
}

/// Lowers the ASCII letters of a text.
pub fn to_lower(s: &[char]) -> (r: Vec<char>)
    ensures
        r@ == s@.map_values(|c: char| lower(c)),
{
    let mut out: Vec<char> = Vec::new();
    let n = s.len();
    for i in 0..n
        invariant
            n == s@.len(),
            out@ =~= s@.take(i as int).map_values(|c: char| lower(c)),
    {
        let c = s[i];
        let l: char = if 'A' <= c && c <= 'Z' {
            ((c as u32 + 32) as u8) as char
        } else {
            c
        };
        out.push(l);
        assert(s@.take(i as int + 1) =~= s@.take(i as int).push(c));
    }
    assert(s@.take(n as int) =~= s@);
    out
}

/// A text in quotes, with escapes where it needs them.
pub uninterp spec fn quoted(s: Seq<char>) -> Seq<char>;

/// `str` as its `Debug` form writes it: in quotes, with escapes. The result depends on
/// the text alone.
#[verifier::external_body]
pub(crate) fn quote(s: &str) -> (r: String)
    ensures
        r@ == quoted(s@),
{
    format!("{s:?}")
}

/// A number in decimal.
pub fn number_text(n: usize) -> (r: String)
    ensures
        r@ == decimal(n as nat),
{
    to_text(decimal_chars(n as u64).as_slice())
}

/// The contents of strings.
pub open spec fn texts(v: Seq<String>) -> Seq<Seq<char>> {
    v.map_values(|s: String| s@)
}

/// What an optional string holds.
pub open spec fn optional(s: Option<String>) -> Option<Seq<char>> {
    match s {
        Some(x) => Some(x@),
        None => None,
    }
}

/// A copy of an optional string.
pub fn copy_optional(s: &Option<String>) -> (r: Option<String>)
    ensures
        optional(r) == optional(*s),
{
    match s {
        Some(x) => Some(x.as_str().to_owned()),
        None => None,
    }
}

/// Concatenates two strings.
pub fn concat2(a: &str, b: &str) -> (r: String)
    ensures
        r@ == a@ + b@,
{
    let mut s = a.to_owned();
    s.append(b);
    s
}

/// Concatenates three strings.
pub fn concat3(a: &str, b: &str, c: &str) -> (r: String)
    ensures
        r@ == a@ + b@ + c@,
{
    let mut s = a.to_owned();
    s.append(b);
    s.append(c);
    s
}

/// What is split at `c` on both sides of a `c` is the parts of the one side and
/// then the parts of the other.
pub proof fn split_at_separator(a: Seq<char>, b: Seq<char>, c: char)
    ensures
        split(a + seq![c] + b, c) == split(a, c) + split(b, c),
    decreases a.len(),
{
    let s = a + seq![c] + b;
    find_is_first(a, c);
    find_is_first(s, c);
    let i = find(a, c);
    if i < a.len() {
        assert(s[i] == c);
        if find(s, c) < i {
            assert(a[find(s, c)] == c);
        }
        assert(find(s, c) == i);
        assert(s.skip(i + 1) =~= a.skip(i + 1) + seq![c] + b);
        assert(s.take(i) =~= a.take(i));
        split_at_separator(a.skip(i + 1), b, c);
        assert(split(s, c) =~= split(a, c) + split(b, c));
    } else {
        assert(s[a.len() as int] == c);
        if find(s, c) < a.len() {
            assert(a[find(s, c)] == c);
        }
        assert(find(s, c) == a.len());
        assert(s.take(a.len() as int) =~= a);
        assert(s.skip(a.len() as int + 1) =~= b);
        assert(split(s, c) =~= split(a, c) + split(b, c));
    }
}

/// There is always at least one part.
pub proof fn split_is_not_empty(s: Seq<char>, c: char)
    ensures
        split(s, c).len() > 0,
{
}

/// The decimal digits of a number have its value.
pub proof fn decimal_reads_back(n: nat)
    ensures
        digits_value(decimal(n)) == Some(n),
        decimal(n).len() > 0,
        forall|i: int| 0 <= i < decimal(n).len() ==> digit(#[trigger] decimal(n)[i]) is Some,
    decreases n,
{
    if n < 10 {
        let d = decimal(n);
        assert(d.drop_last() =~= Seq::empty());
        assert(d.last() == (('0' as u32 + n) as u32) as char);
        reveal_with_fuel(digits_value, 2);
    } else {
        decimal_reads_back(n / 10);
        let d = decimal(n);
        assert(d.drop_last() =~= decimal(n / 10));
        assert(d.last() == (('0' as u32 + n % 10) as u32) as char);
    }
}

/// A text with more behind it that has no `c` splits into as many pieces.
pub proof fn split_count_ignores_suffix(a: Seq<char>, b: Seq<char>, c: char)
    requires
        !b.contains(c),
    ensures
        split(a + b, c).len() == split(a, c).len(),
    decreases a.len(),
{
    let s = a + b;
    find_is_first(a, c);
    find_is_first(s, c);
    let i = find(a, c);
    if i < a.len() {
        assert(s[i] == c);
        if find(s, c) < i {
            assert(a[find(s, c)] == c);
        }
        assert(s.skip(i + 1) =~= a.skip(i + 1) + b);
        split_count_ignores_suffix(a.skip(i + 1), b, c);
    } else if find(s, c) < s.len() {
        let j = find(s, c);
        if j < a.len() {
            assert(a[j] == c);
        } else {
            assert(b[j - a.len()] == c);
        }
    }
}

} // verus!
