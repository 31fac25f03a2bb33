//! What it takes for a definition to be loadable: it can be parsed and names only messages
//! that are known.
//!
//! This is said of its characters, position by position, so that it can be seen of a given
//! text.
use vstd::prelude::*;
use crate::datatype::{BaseModel, Primitive};
use crate::defs::MESSAGES;
use crate::interface::{ConstantModel, FieldModel, MessageModel};
use crate::parser::{
    after_word, array_suffix, base_type, before_comment, declarations, declared, field_type,
    message_model, Declared, ParseFault,
};
use crate::parser_laws::undivided;
use crate::registry::{known_in, package_of, resolved_in, with_kind};
use crate::text::{
    digits_value, lemma_find_at, lemma_word_len, lines, split, starts_with, trim, trim_end,
    trim_start, white, without_cr, word_len, words,
};

verus! {

/// A letter, a digit or `_`.
pub open spec fn wordy(c: char) -> bool {
    ('a' <= c && c <= 'z') || ('A' <= c && c <= 'Z') || ('0' <= c && c <= '9') || c == '_'
}

/// Whether a character is a digit.
pub open spec fn digital(c: char) -> bool {
    '0' <= c && c <= '9'
}

/// Where the letters, digits and `_` from `i` on end.
pub open spec fn name_end(b: Seq<char>, i: int) -> int
    decreases b.len() - i,
{
    if 0 <= i < b.len() && wordy(b[i]) {
        name_end(b, i + 1)
    } else {
        i
    }
}

/// Where the digits and minus signs from `i` on end.
pub open spec fn value_end(b: Seq<char>, i: int) -> int
    decreases b.len() - i,
{
    if 0 <= i < b.len() && (digital(b[i]) || b[i] == '-') {
        value_end(b, i + 1)
    } else {
        i
    }
}

/// Where the base of a type from `i` on ends: a name, or two names with `/` between them.
pub open spec fn base_end(b: Seq<char>, i: int) -> int {
    let c = name_end(b, i);
    if 0 <= c < b.len() && b[c] == '/' {
        name_end(b, c + 1)
    } else {
        c
    }
}

/// Where the type ends whose base ends at `o`: there, or behind brackets with at most
/// two digits between them.
pub open spec fn type_end(b: Seq<char>, o: int) -> int {
    if !(0 <= o && o + 1 < b.len() && b[o] == '[') {
        o
    } else if b[o + 1] == ']' {
        o + 2
    } else if o + 2 < b.len() && digital(b[o + 1]) && b[o + 2] == ']' {
        o + 3
    } else if o + 3 < b.len() && digital(b[o + 1]) && digital(b[o + 2]) && b[o + 3] == ']' {
        o + 4
    } else {
        o
    }
}

/// Whether `n` characters of `a` from `x` on are those of `b` from `y` on.
pub open spec fn same(a: Seq<char>, x: int, b: Seq<char>, y: int, n: int) -> bool
    decreases n,
{
    n <= 0 || (0 <= x < a.len() && 0 <= y < b.len() && a[x] == b[y] && same(
        a,
        x + 1,
        b,
        y + 1,
        n - 1,
    ))
}

/// Whether a text has `t` from `i` to `o`.
pub open spec fn spelled(b: Seq<char>, i: int, o: int, t: Seq<char>) -> bool {
    o == i + t.len() && same(b, i, t, 0, t.len() as int)
}

/// Whether a text has the token of a primitive, or `string`, from `i` to `o`.
pub open spec fn builtin(b: Seq<char>, i: int, o: int) -> bool {
    ||| spelled(b, i, o, seq!['b', 'o', 'o', 'l'])
    ||| spelled(b, i, o, seq!['b', 'y', 't', 'e'])
    ||| spelled(b, i, o, seq!['c', 'h', 'a', 'r'])
    ||| spelled(b, i, o, seq!['i', 'n', 't', '8'])
    ||| spelled(b, i, o, seq!['u', 'i', 'n', 't', '8'])
    ||| spelled(b, i, o, seq!['i', 'n', 't', '1', '6'])
    ||| spelled(b, i, o, seq!['u', 'i', 'n', 't', '1', '6'])
    ||| spelled(b, i, o, seq!['i', 'n', 't', '3', '2'])
    ||| spelled(b, i, o, seq!['u', 'i', 'n', 't', '3', '2'])
    ||| spelled(b, i, o, seq!['i', 'n', 't', '6', '4'])
    ||| spelled(b, i, o, seq!['u', 'i', 'n', 't', '6', '4'])
    ||| spelled(b, i, o, seq!['f', 'l', 'o', 'a', 't', '3', '2'])
    ||| spelled(b, i, o, seq!['f', 'l', 'o', 'a', 't', '6', '4'])
    ||| spelled(b, i, o, seq!['s', 't', 'r', 'i', 'n', 'g'])
}

/// Whether a full name has `/msg/` at `p`.
pub open spec fn msg_at(k: Seq<char>, p: int) -> bool {
    0 <= p && p + 5 <= k.len() && k[p] == '/' && k[p + 1] == 'm' && k[p + 2] == 's' && k[p + 3]
        == 'g' && k[p + 4] == '/'
}

/// Whether the base from `i` to `o`, in the definition of `fqn`, names the message with
/// the full name `k`.
pub open spec fn refers(b: Seq<char>, i: int, o: int, fqn: Seq<char>, k: Seq<char>) -> bool {
    let c = name_end(b, i);
    let p = name_end(fqn, 0);
    if c == o {
        &&& 'A' <= b[i] && b[i] <= 'Z' && b[i] != 'H'
        &&& k.len() == p + 5 + (o - i)
        &&& same(k, 0, fqn, 0, p)
        &&& msg_at(k, p)
        &&& same(k, p + 5, b, i, o - i)
    } else {
        &&& i + 2 < c
        &&& c + 1 < o
        &&& b[i] != 'w'
        &&& b[i + 2] != 'r'
        &&& k.len() == o - i + 4
        &&& same(k, 0, b, i, c - i)
        &&& msg_at(k, c - i)
        &&& same(k, c - i + 5, b, c + 1, o - c - 1)
    }
}

/// Whether the base from `i` to `o` names one of the bundled messages `refs`, from the
/// `j`-th on.
pub open spec fn refers_to_one(
    b: Seq<char>,
    i: int,
    o: int,
    fqn: Seq<char>,
    refs: Seq<int>,
    j: int,
) -> bool
    decreases refs.len() - j,
{
    0 <= j < refs.len() && (refers(b, i, o, fqn, MESSAGES@[refs[j]].0@) || refers_to_one(
        b,
        i,
        o,
        fqn,
        refs,
        j + 1,
    ))
}

/// Where the line from `i` on ends, if it declares a field, with or without a default, or
/// a constant, or is empty.
pub open spec fn line_end(b: Seq<char>, i: int) -> Option<int> {
    let o = base_end(b, i);
    let s = type_end(b, o);
    let k = name_end(b, s + 1);
    let d = name_end(b, k + 1);
    let v = value_end(b, k + 1);
    if 0 <= i < b.len() && b[i] == '\n' {
        Some(i)
    } else if !(0 <= i < o && s + 1 < k && k < b.len() && b[s] == ' ' && wordy(b[o - 1])) {
        None
    } else if b[k] == '\n' {
        Some(k)
    } else if b[k] == ' ' && k + 1 < d && d < b.len() && b[d] == '\n' {
        Some(d)
    } else if b[k] == '=' && k + 1 < v && v < b.len() && b[v] == '\n' {
        Some(v)
    } else {
        None
    }
}

/// Whether every line from `i` on declares something that is known: of a field, the type
/// is a primitive or a string, or one of the bundled messages `refs`.
pub open spec fn loadable(b: Seq<char>, i: int, fqn: Seq<char>, refs: Seq<int>) -> bool
    decreases b.len() - i,
{
    if i == b.len() {
        true
    } else {
        match line_end(b, i) {
            Some(e) => i <= e < b.len() && (builtin(b, i, base_end(b, i)) || b[i] == '\n'
                || refers_to_one(b, i, base_end(b, i), fqn, refs, 0)) && loadable(
                b,
                e + 1,
                fqn,
                refs,
            ),
            None => false,
        }
    }
}

/// Whether a full name is three names with `/` between them.
pub open spec fn three_names(fqn: Seq<char>) -> bool {
    let p = name_end(fqn, 0);
    let q = name_end(fqn, p + 1);
    p < q < fqn.len() && fqn[p] == '/' && fqn[q] == '/' && name_end(fqn, q + 1) == fqn.len()
}

proof fn lemma_name_end(b: Seq<char>, i: int)
    requires
        0 <= i,
    ensures
        i <= name_end(b, i),
        i <= b.len() ==> name_end(b, i) <= b.len(),
        forall|j: int| i <= j < name_end(b, i) ==> j < b.len() && wordy(#[trigger] b[j]),
    decreases b.len() - i,
{
    if i < b.len() && wordy(b[i]) {
        lemma_name_end(b, i + 1);
    }
}

proof fn lemma_value_end(b: Seq<char>, i: int)
    requires
        0 <= i,
    ensures
        i <= value_end(b, i),
        i <= b.len() ==> value_end(b, i) <= b.len(),
        forall|j: int|
            i <= j < value_end(b, i) ==> j < b.len() && (digital(#[trigger] b[j]) || b[j] == '-'),
    decreases b.len() - i,
{
    if i < b.len() && (digital(b[i]) || b[i] == '-') {
        lemma_value_end(b, i + 1);
    }
}

proof fn lemma_same(a: Seq<char>, x: int, b: Seq<char>, y: int, n: int)
    requires
        same(a, x, b, y, n),
    ensures
        forall|d: int| 0 <= d < n ==> 0 <= x + d < a.len() && #[trigger] a[x + d] == b[y + d],
        n > 0 ==> 0 <= x && x + n <= a.len() && 0 <= y && y + n <= b.len(),
    decreases n,
{
    if n > 0 {
        lemma_same(a, x + 1, b, y + 1, n - 1);
        assert forall|d: int| 0 <= d < n implies 0 <= x + d < a.len() && #[trigger] a[x + d] == b[y
            + d] by {
            if d > 0 {
                let f = d - 1;
                assert(a[(x + 1) + f] == b[(y + 1) + f]);
            }
        }
    }
}

/// Neither white space nor a sign that a line is divided by.
spec fn solid(c: char) -> bool {
    !white(c) && c != '#' && c != '=' && c != '<' && c != '\n' && c != '\r'
}

proof fn lemma_solid(c: char)
    ensures
        wordy(c) || c == '/' || c == '[' || c == ']' ==> solid(c),
        digital(c) || c == '-' ==> solid(c),
        white(' '),
        !white('='),
{
}

proof fn lemma_trim_is_same(l: Seq<char>)
    requires
        l.len() > 0,
        !white(l[0]),
        !white(l.last()),
    ensures
        trim(l) == l,
        trim_start(l) == l,
{
    assert(trim_start(l) == l);
    assert(trim_end(l) == l);
}

proof fn lemma_word_len_is(l: Seq<char>, n: int)
    requires
        0 <= n <= l.len(),
        forall|j: int| 0 <= j < n ==> !white(#[trigger] l[j]),
        n < l.len() ==> white(l[n]),
    ensures
        word_len(l) == n,
{
    lemma_word_len(l);
    let k = word_len(l);
    if k < n {
        assert(white(l[k]));
    } else if k > n {
        assert(!white(l[n]));
    }
}

/// The characters of a line that declares a field or a constant.
proof fn lemma_shape(b: Seq<char>, i: int, e: int)
    requires
        line_end(b, i) == Some(e),
        b[i] != '\n',
    ensures
        ({
            let o = base_end(b, i);
            let s = type_end(b, o);
            let k = name_end(b, s + 1);
            &&& 0 <= i < o <= s
            &&& s + 1 < k <= e < b.len()
            &&& b[e] == '\n'
            &&& b[s] == ' '
            &&& forall|j: int| i <= j < s ==> solid(#[trigger] b[j])
            &&& forall|j: int| i <= j < o ==> wordy(#[trigger] b[j]) || b[j] == '/'
            &&& forall|j: int| s < j < k ==> solid(#[trigger] b[j])
            &&& forall|j: int| k < j < e ==> solid(#[trigger] b[j])
            &&& e == k || (b[k] == ' ' && k + 1 < e) || (b[k] == '=' && k + 1 < e)
        }),
{
    let c = name_end(b, i);
    let o = base_end(b, i);
    let s = type_end(b, o);
    let k = name_end(b, s + 1);
    lemma_name_end(b, i);
    if c < b.len() {
        lemma_name_end(b, c + 1);
    }
    lemma_name_end(b, s + 1);
    lemma_name_end(b, k + 1);
    lemma_value_end(b, k + 1);
    assert forall|j: int| i <= j < o implies wordy(#[trigger] b[j]) || b[j] == '/' by {
    }
    assert forall|j: int| i <= j < s implies solid(#[trigger] b[j]) by {
        lemma_solid(b[j]);
    }
    assert forall|j: int| s < j < k implies solid(#[trigger] b[j]) by {
        lemma_solid(b[j]);
    }
    assert forall|j: int| k < j < e implies solid(#[trigger] b[j]) by {
        lemma_solid(b[j]);
    }
}

/// The first line of what follows a position.
proof fn lemma_first_line(b: Seq<char>, i: int, e: int)
    requires
        0 <= i <= e < b.len(),
        b[e] == '\n',
        forall|j: int| i <= j < e ==> (#[trigger] b[j]) != '\n',
        i < e ==> b[e - 1] != '\r',
    ensures
        lines(b.skip(i)) == seq![b.subrange(i, e)] + lines(b.skip(e + 1)),
{
    let t = b.skip(i);
    assert forall|j: int| 0 <= j < e - i implies (#[trigger] t[j]) != '\n' by {
        assert(t[j] == b[i + j]);
    }
    lemma_find_at(t, '\n', e - i);
    assert(t.take(e - i) =~= b.subrange(i, e));
    assert(t.skip(e - i + 1) =~= b.skip(e + 1));
    let l = b.subrange(i, e);
    if i < e {
        assert(l.last() == b[e - 1]);
    }
    assert(without_cr(l) == l);
}

proof fn lemma_line_parts(l: Seq<char>, n: int)
    requires
        0 < n,
        n + 1 < l.len(),
        forall|j: int| 0 <= j < n ==> !white(#[trigger] l[j]),
        l[n] == ' ',
        !white(l[n + 1]),
        !white(l.last()),
    ensures
        trim(l) == l,
        trim_start(l) == l,
        word_len(l) == n,
        after_word(l) == l.skip(n + 1),
{
    lemma_trim_is_same(l);
    lemma_word_len_is(l, n);
    lemma_trim_is_same(l.skip(n + 1));
}

/// A type, a space, a name, `=` and something more declare a constant.
proof fn lemma_constant_line(l: Seq<char>, n: int, x: int, pkg: Seq<char>)
    requires
        0 < n,
        n + 1 < x,
        x + 1 < l.len(),
        forall|j: int| 0 <= j < n ==> solid(#[trigger] l[j]),
        l[n] == ' ',
        forall|j: int| n < j < x ==> solid(#[trigger] l[j]),
        l[x] == '=',
        !white(l.last()),
    ensures
        declared(l, pkg) matches Ok(Declared::Constant(_)),
{
    lemma_line_parts(l, n);
    let rest = l.skip(n + 1);
    let e = x - n - 1;
    assert forall|j: int| 0 <= j < e implies (#[trigger] rest[j]) != '=' by {
        assert(solid(l[n + 1 + j]));
    }
    lemma_find_at(rest, '=', e);
    let name = rest.take(e);
    assert forall|j: int| 0 <= j < e implies !white(#[trigger] name[j]) by {
        assert(solid(l[n + 1 + j]));
    }
    lemma_trim_is_same(name);
    lemma_word_len_is(name, e);
    assert(solid(l[0]));
}

/// A type, a space, a name and maybe a space and something more declare a field of that
/// type.
proof fn lemma_field_line(l: Seq<char>, n: int, k: int, pkg: Seq<char>)
    requires
        0 < n,
        n + 1 < k <= l.len(),
        forall|j: int| 0 <= j < n ==> solid(#[trigger] l[j]),
        l[n] == ' ',
        forall|j: int| n < j < k ==> solid(#[trigger] l[j]),
        k < l.len() ==> l[k] == ' ' && k + 1 < l.len(),
        forall|j: int| k < j < l.len() ==> solid(#[trigger] l[j]),
        field_type(l.take(n), pkg) is Ok,
    ensures
        declared(l, pkg) matches Ok(Declared::Field(f)) && Ok::<_, ParseFault>(f.ty) == field_type(
            l.take(n),
            pkg,
        ),
{
    assert(solid(l[0]));
    assert(solid(l[n + 1]));
    assert(solid(l.last()));
    lemma_line_parts(l, n);
    let rest = l.skip(n + 1);
    assert forall|j: int| 0 <= j < rest.len() implies (#[trigger] rest[j]) != '=' by {
        let y = n + 1 + j;
        assert(rest[j] == l[y]);
        if y != k {
            assert(solid(l[y]));
        }
    }
    lemma_find_at(rest, '=', rest.len() as int);
    assert forall|j: int| 0 <= j < l.len() implies (#[trigger] l[j]) != '#' by {
        if j != n && j != k {
            assert(solid(l[j]));
        }
    }
    lemma_find_at(l, '#', l.len() as int);
    assert(before_comment(l) =~= l);
    let m = l.skip(n);
    lemma_solid(' ');
    assert(m.drop_first() =~= rest);
    lemma_trim_is_same(rest);
    assert(trim_start(m) == rest);
    lemma_word_len(rest);
    assert(word_len(rest) > 0) by {
        lemma_word_len(rest.drop_first());
    }
    assert(words(m).len() > 0);
    assert(words(l) == seq![l.take(n)] + words(m));
    assert(words(l)[0] == l.take(n));
}

/// What a line declares that is not empty: a constant, or a field of the type that the
/// line begins with.
proof fn lemma_declares(b: Seq<char>, i: int, e: int, pkg: Seq<char>)
    requires
        line_end(b, i) == Some(e),
        b[i] != '\n',
        field_type(b.subrange(i, type_end(b, base_end(b, i))), pkg) is Ok,
    ensures
        ({
            let ty = field_type(b.subrange(i, type_end(b, base_end(b, i))), pkg);
            match declared(b.subrange(i, e), pkg) {
                Ok(Declared::Nothing) => false,
                Ok(Declared::Constant(_)) => true,
                Ok(Declared::Field(f)) => ty == Ok::<_, ParseFault>(f.ty),
                Err(_) => false,
            }
        }),
{
    lemma_shape(b, i, e);
    let s = type_end(b, base_end(b, i));
    let k = name_end(b, s + 1);
    let l = b.subrange(i, e);
    let n = s - i;
    assert forall|j: int| 0 <= j < n implies solid(#[trigger] l[j]) by {
        assert(solid(b[i + j]));
    }
    assert forall|j: int| n < j < k - i implies solid(#[trigger] l[j]) by {
        assert(solid(b[i + j]));
    }
    assert forall|j: int| k - i < j < l.len() implies solid(#[trigger] l[j]) by {
        assert(solid(b[i + j]));
    }
    assert(l.take(n) =~= b.subrange(i, s));
    if k < e && b[k] == '=' {
        assert(solid(b[e - 1]));
        lemma_constant_line(l, n, k - i, pkg);
    } else {
        lemma_field_line(l, n, k - i, pkg);
    }
}

/// Brackets round at most two digits can be read.
proof fn lemma_array_suffix(inside: Seq<char>, token: Seq<char>)
    requires
        inside.len() <= 2,
        forall|j: int| 0 <= j < inside.len() ==> digital(#[trigger] inside[j]),
    ensures
        array_suffix(inside, token) is Ok,
{
    reveal_strlit("<=");
    reveal_with_fuel(digits_value, 3);
    if inside.len() > 0 {
        assert(digital(inside[0]));
        if starts_with(inside, "<="@) {
            assert(inside.take(2)[0] == '<');
        }
        let v = digits_value(inside);
        if inside.len() == 1 {
            assert(inside.drop_last().len() == 0);
            assert(digital(inside.last()));
        } else {
            let p = inside.drop_last();
            assert(digital(inside.last()));
            assert(p.last() == inside[0]);
            assert(p.drop_last().len() == 0);
            assert(digits_value(p) is Some);
        }
        assert(v is Some && v.unwrap() <= 99);
    }
}

/// The type of a field has the base that it begins with.
proof fn lemma_type(b: Seq<char>, i: int, e: int, pkg: Seq<char>)
    requires
        line_end(b, i) == Some(e),
        b[i] != '\n',
        base_type(b.subrange(i, base_end(b, i)), pkg) is Ok,
    ensures
        field_type(b.subrange(i, type_end(b, base_end(b, i))), pkg) matches Ok(ty) && Ok::<
            _,
            ParseFault,
        >(ty.base) == base_type(b.subrange(i, base_end(b, i)), pkg),
{
    lemma_shape(b, i, e);
    reveal_strlit("sequence<");
    let o = base_end(b, i);
    let s = type_end(b, o);
    let t = b.subrange(i, s);
    let n = o - i;
    if starts_with(t, "sequence<"@) {
        assert(t.take(9)[8] == '<');
        assert(solid(b[i + 8]));
    }
    assert forall|j: int| 0 <= j < n implies (#[trigger] t[j]) != '[' by {
        assert(wordy(b[i + j]) || b[i + j] == '/');
    }
    assert(t.take(n) =~= b.subrange(i, o));
    if s == o {
        lemma_find_at(t, '[', n);
        assert(t =~= b.subrange(i, o));
    } else {
        assert(t[n] == b[o]);
        lemma_find_at(t, '[', n);
        assert(t.last() == b[s - 1]);
        let inside = t.subrange(n + 1, t.len() - 1);
        assert forall|j: int| 0 <= j < inside.len() implies digital(#[trigger] inside[j]) by {
            assert(inside[j] == b[o + 1 + j]);
        }
        lemma_array_suffix(inside, t);
    }
}

/// The words for primitives, and those that strings begin with.
proof fn lemma_tokens(t: Seq<char>)
    requires
        Primitive::of_token(t) is Some,
    ensures
        0 < t.len() < 8,
        forall|j: int| 0 <= j < t.len() ==> (#[trigger] t[j]) != '/',
        'a' <= t[0] && t[0] <= 'z' && t[0] != 'w',
{
    reveal_strlit("bool");
    reveal_strlit("boolean");
    reveal_strlit("byte");
    reveal_strlit("octet");
    reveal_strlit("char");
    reveal_strlit("int8");
    reveal_strlit("uint8");
    reveal_strlit("int16");
    reveal_strlit("uint16");
    reveal_strlit("int32");
    reveal_strlit("uint32");
    reveal_strlit("int64");
    reveal_strlit("uint64");
    reveal_strlit("float32");
    reveal_strlit("float");
    reveal_strlit("float64");
    reveal_strlit("double");
}

proof fn lemma_spelled(b: Seq<char>, i: int, o: int, t: Seq<char>)
    requires
        spelled(b, i, o, t),
        t.len() > 0,
    ensures
        0 <= i <= o <= b.len(),
        b.subrange(i, o) == t,
{
    let n = t.len() as int;
    lemma_same(b, i, t, 0, n);
    assert forall|d: int| 0 <= d < n implies b.subrange(i, o)[d] == t[d] by {
        assert(b[i + d] == t[0 + d]);
    }
    assert(b.subrange(i, o) =~= t);
}

proof fn lemma_primitive(b: Seq<char>, i: int, o: int)
    requires
        builtin(b, i, o),
    ensures
        spelled(b, i, o, seq!['s', 't', 'r', 'i', 'n', 'g']) || (Primitive::of_token(b.subrange(i, o)) is Some && b.subrange(i, o)[0]
            != 's'),
{
    let t = b.subrange(i, o);
    reveal_strlit("bool");
    reveal_strlit("byte");
    reveal_strlit("char");
    reveal_strlit("int8");
    reveal_strlit("uint8");
    reveal_strlit("int16");
    reveal_strlit("uint16");
    reveal_strlit("int32");
    reveal_strlit("uint32");
    reveal_strlit("int64");
    reveal_strlit("uint64");
    reveal_strlit("float32");
    reveal_strlit("float64");
    if spelled(b, i, o, seq!['b', 'o', 'o', 'l']) {
        lemma_spelled(b, i, o, seq!['b', 'o', 'o', 'l']);
        assert(t =~= "bool"@);
    }
    if spelled(b, i, o, seq!['b', 'y', 't', 'e']) {
        lemma_spelled(b, i, o, seq!['b', 'y', 't', 'e']);
        assert(t =~= "byte"@);
    }
    if spelled(b, i, o, seq!['c', 'h', 'a', 'r']) {
        lemma_spelled(b, i, o, seq!['c', 'h', 'a', 'r']);
        assert(t =~= "char"@);
    }
    if spelled(b, i, o, seq!['i', 'n', 't', '8']) {
        lemma_spelled(b, i, o, seq!['i', 'n', 't', '8']);
        assert(t =~= "int8"@);
    }
    if spelled(b, i, o, seq!['u', 'i', 'n', 't', '8']) {
        lemma_spelled(b, i, o, seq!['u', 'i', 'n', 't', '8']);
        assert(t =~= "uint8"@);
    }
    if spelled(b, i, o, seq!['i', 'n', 't', '1', '6']) {
        lemma_spelled(b, i, o, seq!['i', 'n', 't', '1', '6']);
        assert(t =~= "int16"@);
    }
    if spelled(b, i, o, seq!['u', 'i', 'n', 't', '1', '6']) {
        lemma_spelled(b, i, o, seq!['u', 'i', 'n', 't', '1', '6']);
        assert(t =~= "uint16"@);
    }
    if spelled(b, i, o, seq!['i', 'n', 't', '3', '2']) {
        lemma_spelled(b, i, o, seq!['i', 'n', 't', '3', '2']);
        assert(t =~= "int32"@);
    }
    if spelled(b, i, o, seq!['u', 'i', 'n', 't', '3', '2']) {
        lemma_spelled(b, i, o, seq!['u', 'i', 'n', 't', '3', '2']);
        assert(t =~= "uint32"@);
    }
    if spelled(b, i, o, seq!['i', 'n', 't', '6', '4']) {
        lemma_spelled(b, i, o, seq!['i', 'n', 't', '6', '4']);
        assert(t =~= "int64"@);
    }
    if spelled(b, i, o, seq!['u', 'i', 'n', 't', '6', '4']) {
        lemma_spelled(b, i, o, seq!['u', 'i', 'n', 't', '6', '4']);
        assert(t =~= "uint64"@);
    }
    if spelled(b, i, o, seq!['f', 'l', 'o', 'a', 't', '3', '2']) {
        lemma_spelled(b, i, o, seq!['f', 'l', 'o', 'a', 't', '3', '2']);
        assert(t =~= "float32"@);
    }
    if spelled(b, i, o, seq!['f', 'l', 'o', 'a', 't', '6', '4']) {
        lemma_spelled(b, i, o, seq!['f', 'l', 'o', 'a', 't', '6', '4']);
        assert(t =~= "float64"@);
    }
}

/// A base that is spelled like a primitive or a string is one.
proof fn lemma_builtin(b: Seq<char>, i: int, o: int, pkg: Seq<char>)
    requires
        builtin(b, i, o),
    ensures
        base_type(b.subrange(i, o), pkg) matches Ok(base) && !(base is Message),
{
    reveal_strlit("string");
    reveal_strlit("wstring");
    let t = b.subrange(i, o);
    let string = seq!['s', 't', 'r', 'i', 'n', 'g'];
    lemma_primitive(b, i, o);
    if spelled(b, i, o, string) {
        lemma_spelled(b, i, o, string);
        assert(t.take(6) =~= "string"@);
        assert(t.skip(6).len() == 0);
    } else {
        lemma_tokens(t);
        if starts_with(t, "string"@) {
            assert(t.take(6)[0] == 's');
        }
        if starts_with(t, "wstring"@) {
            assert(t.take(7)[0] == 'w');
        }
    }
}

/// A full name of three names belongs to the package that it begins with, and has its
/// kind.
pub proof fn lemma_three_names(fqn: Seq<char>)
    requires
        three_names(fqn),
    ensures
        package_of(fqn) == Some(fqn.take(name_end(fqn, 0))),
        with_kind(fqn, "msg"@) == fqn,
{
    let p = name_end(fqn, 0);
    let q = name_end(fqn, p + 1);
    let n = fqn.len() as int;
    lemma_name_end(fqn, 0);
    lemma_name_end(fqn, p + 1);
    lemma_name_end(fqn, q + 1);
    lemma_find_at(fqn, '/', p);
    let a = fqn.skip(p + 1);
    assert forall|j: int| 0 <= j < q - p - 1 implies (#[trigger] a[j]) != '/' by {
        assert(wordy(fqn[p + 1 + j]));
    }
    assert(a[q - p - 1] == fqn[q]);
    lemma_find_at(a, '/', q - p - 1);
    let c = a.skip(q - p);
    assert forall|j: int| 0 <= j < c.len() implies (#[trigger] c[j]) != '/' by {
        assert(wordy(fqn[q + 1 + j]));
    }
    lemma_find_at(c, '/', c.len() as int);
    assert(split(c, '/') == seq![c]);
    assert(split(a, '/') == seq![a.take(q - p - 1)] + split(c, '/'));
    assert(split(fqn, '/') == seq![fqn.take(p)] + split(a, '/'));
}

/// A base that refers to a message names it.
#[verifier::spinoff_prover]
#[verifier::rlimit(50)]
proof fn lemma_refers(b: Seq<char>, i: int, e: int, fqn: Seq<char>, k: Seq<char>)
    requires
        line_end(b, i) == Some(e),
        b[i] != '\n',
        refers(b, i, base_end(b, i), fqn, k),
        0 <= name_end(fqn, 0) <= fqn.len(),
    ensures
        base_type(b.subrange(i, base_end(b, i)), fqn.take(name_end(fqn, 0))) == Ok::<_, ParseFault>(
            BaseModel::Message(k),
        ),
{
    lemma_shape(b, i, e);
    lemma_name_end(b, i);
    reveal_strlit("/msg/");
    reveal_strlit("string");
    reveal_strlit("wstring");
    let o = base_end(b, i);
    let c = name_end(b, i);
    let p = name_end(fqn, 0);
    let pkg = fqn.take(p);
    let t = b.subrange(i, o);
    if starts_with(t, "string"@) {
        assert(t.take(6)[0] == 's');
        assert(t.take(6)[2] == 'r');
    }
    if starts_with(t, "wstring"@) {
        assert(t.take(7)[0] == 'w');
    }
    if Primitive::of_token(t) is Some {
        lemma_tokens(t);
        if c != o {
            assert(t[c - i] == '/');
        }
    }
    if c == o {
        assert forall|j: int| 0 <= j < t.len() implies (#[trigger] t[j]) != '/' by {
            assert(wordy(b[i + j]));
        }
        lemma_find_at(t, '/', t.len() as int);
        assert(split(t, '/') == seq![t]);
        reveal_strlit("Header");
        lemma_same(k, 0, fqn, 0, p);
        lemma_same(k, p + 5, b, i, o - i);
        assert forall|j: int| 0 <= j < k.len() implies k[j] == (pkg + "/msg/"@ + t)[j] by {
            if j < p {
                assert(k[0 + j] == fqn[0 + j]);
            } else if j >= p + 5 {
                let d = j - p - 5;
                assert(k[(p + 5) + d] == b[i + d]);
            }
        }
        assert(k =~= pkg + "/msg/"@ + t);
    } else {
        let n = c - i;
        lemma_name_end(b, c + 1);
        assert forall|j: int| 0 <= j < n implies (#[trigger] t[j]) != '/' by {
            assert(wordy(b[i + j]));
        }
        assert(t[n] == b[c]);
        lemma_find_at(t, '/', n);
        let u = t.skip(n + 1);
        assert forall|j: int| 0 <= j < u.len() implies (#[trigger] u[j]) != '/' by {
            assert(wordy(b[c + 1 + j]));
        }
        lemma_find_at(u, '/', u.len() as int);
        assert(split(u, '/') == seq![u]);
        assert(split(t, '/') == seq![t.take(n)] + split(u, '/'));
        lemma_same(k, 0, b, i, n);
        lemma_same(k, n + 5, b, c + 1, o - c - 1);
        let full = t.take(n) + "/msg/"@ + u;
        assert forall|j: int| 0 <= j < k.len() implies k[j] == full[j] by {
            if j < n {
                assert(k[0 + j] == b[i + j]);
            } else if j >= n + 5 {
                let d = j - n - 5;
                assert(k[(n + 5) + d] == b[(c + 1) + d]);
            }
        }
        assert(k =~= full);
    }
}

/// Whether the bundled messages `refs` are registered, under full names.
pub open spec fn registered(messages: Map<Seq<char>, MessageModel>, refs: Seq<int>) -> bool {
    forall|j: int|
        0 <= j < refs.len() ==> {
            let name = MESSAGES@[#[trigger] refs[j]].0@;
            three_names(name) && messages.dom().contains(name)
        }
}

proof fn lemma_refers_to_one(
    messages: Map<Seq<char>, MessageModel>,
    b: Seq<char>,
    i: int,
    e: int,
    fqn: Seq<char>,
    refs: Seq<int>,
    j: int,
)
    requires
        line_end(b, i) == Some(e),
        b[i] != '\n',
        refers_to_one(b, i, base_end(b, i), fqn, refs, j),
        three_names(fqn),
        registered(messages, refs),
    ensures
        base_type(b.subrange(i, base_end(b, i)), fqn.take(name_end(fqn, 0))) matches Ok(base)
            && known_in(messages, base),
    decreases refs.len() - j,
{
    let name = MESSAGES@[refs[j]].0@;
    if refers(b, i, base_end(b, i), fqn, name) {
        lemma_name_end(fqn, 0);
        lemma_refers(b, i, e, fqn, name);
        lemma_three_names(name);
    } else {
        lemma_refers_to_one(messages, b, i, e, fqn, refs, j + 1);
    }
}

/// A line that declares something separates no sections.
proof fn lemma_no_bar(b: Seq<char>, i: int, e: int)
    requires
        line_end(b, i) == Some(e),
    ensures
        trim(b.subrange(i, e)) != "---"@,
{
    let l = b.subrange(i, e);
    reveal_strlit("---");
    if b[i] == '\n' {
        assert(l.len() == 0);
        assert(trim_start(l) == l && trim_end(l) == l);
    } else {
        lemma_shape(b, i, e);
        assert(l[0] == b[i]);
        assert(solid(b[i]));
        assert(l.last() == b[e - 1]);
        assert(solid(b[e - 1]));
        lemma_trim_is_same(l);
        assert("---"@[0] == '-');
    }
}

/// The lines of a loadable definition, from `i` on, can be parsed; the fields name known
/// messages, and no line separates sections.
proof fn lemma_declarations(
    messages: Map<Seq<char>, MessageModel>,
    b: Seq<char>,
    i: int,
    fqn: Seq<char>,
    refs: Seq<int>,
    fields: Seq<FieldModel>,
    constants: Seq<ConstantModel>,
)
    requires
        0 <= i <= b.len(),
        loadable(b, i, fqn, refs),
        three_names(fqn),
        registered(messages, refs),
        forall|j: int|
            0 <= j < fields.len() ==> known_in(messages, (#[trigger] fields[j]).ty.base),
    ensures
        undivided(lines(b.skip(i))),
        declarations(lines(b.skip(i)), fqn.take(name_end(fqn, 0)), fields, constants) matches Ok(
            (f, _),
        ) && forall|j: int|
            0 <= j < f.len() ==> known_in(messages, (#[trigger] f[j]).ty.base),
    decreases b.len() - i,
{
    let pkg = fqn.take(name_end(fqn, 0));
    let all = lines(b.skip(i));
    if i == b.len() {
        assert(b.skip(i).len() == 0);
    } else {
        let e = line_end(b, i).unwrap();
        let l = b.subrange(i, e);
        lemma_no_bar(b, i, e);
        if b[i] != '\n' {
            lemma_shape(b, i, e);
            assert(solid(b[e - 1]));
            lemma_line_chars(b, i, e);
        }
        lemma_first_line(b, i, e);
        assert(all.drop_first() =~= lines(b.skip(e + 1)));
        assert(all[0] == l);
        if b[i] == '\n' {
            assert(l.len() == 0);
            assert(trim_start(l) == l && trim_end(l) == l);
            lemma_declarations(messages, b, e + 1, fqn, refs, fields, constants);
        } else {
            if builtin(b, i, base_end(b, i)) {
                lemma_builtin(b, i, base_end(b, i), pkg);
            } else {
                lemma_refers_to_one(messages, b, i, e, fqn, refs, 0);
            }
            lemma_type(b, i, e, pkg);
            lemma_declares(b, i, e, pkg);
            match declared(l, pkg) {
                Ok(Declared::Constant(c)) => {
                    lemma_declarations(messages, b, e + 1, fqn, refs, fields, constants.push(c));
                },
                Ok(Declared::Field(f)) => {
                    lemma_declarations(messages, b, e + 1, fqn, refs, fields.push(f), constants);
                },
                _ => {},
            }
        }
        assert forall|j: int| 0 <= j < all.len() implies trim(#[trigger] all[j]) != "---"@ by {
            if j > 0 {
                assert(all[j] == lines(b.skip(e + 1))[j - 1]);
            }
        }
    }
}

/// A line has no line ending in it.
proof fn lemma_line_chars(b: Seq<char>, i: int, e: int)
    requires
        line_end(b, i) == Some(e),
        b[i] != '\n',
    ensures
        forall|j: int| i <= j < e ==> (#[trigger] b[j]) != '\n',
{
    lemma_shape(b, i, e);
    let s = type_end(b, base_end(b, i));
    let k = name_end(b, s + 1);
    assert forall|j: int| i <= j < e implies (#[trigger] b[j]) != '\n' by {
        if j != s && j != k {
            assert(solid(b[j]));
        }
    }
}

/// A loadable definition can be parsed and names only known messages.
pub proof fn lemma_loadable(
    messages: Map<Seq<char>, MessageModel>,
    name: Seq<char>,
    b: Seq<char>,
    fqn: Seq<char>,
    refs: Seq<int>,
)
    requires
        loadable(b, 0, fqn, refs),
        three_names(fqn),
        registered(messages, refs),
    ensures
        package_of(fqn) == Some(fqn.take(name_end(fqn, 0))),
        undivided(lines(b)),
        message_model(name, fqn.take(name_end(fqn, 0)), b) matches Ok(m) && resolved_in(
            messages,
            m,
        ),
{
    lemma_three_names(fqn);
    assert(b.skip(0) =~= b);
    lemma_declarations(messages, b, 0, fqn, refs, Seq::empty(), Seq::empty());
}

} // verus!
