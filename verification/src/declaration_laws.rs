//! Laws of the lines of a definition: what a line declares is what was written, and
//! comments, blank lines and white space round it change nothing.
use vstd::prelude::*;
use crate::datatype::TypeModel;
use crate::interface::{ConstantModel, FieldModel, MessageModel};
use crate::parser::{
    after_word, before_comment, constant_name, constant_value, declarations, declared, field_type,
    message_model, Declared, ParseFault,
};
use crate::parser_laws::{lemma_lines_concat, lemma_trim_shorter};
use crate::text::{
    find, find_is_first, join, lemma_find_at, lemma_word_len, lines, starts_with, trim, trim_end,
    trim_start, white, without_cr, word_len, words,
};

verus! {

/// Whether a text is white space alone.
pub open spec fn all_white(s: Seq<char>) -> bool {
    forall|i: int| 0 <= i < s.len() ==> white(#[trigger] s[i])
}

/// Whether a text has no white space in it and is not empty.
pub open spec fn one_word(s: Seq<char>) -> bool {
    s.len() > 0 && forall|i: int| 0 <= i < s.len() ==> !white(#[trigger] s[i])
}

proof fn lemma_trim_start_more(s: Seq<char>, x: Seq<char>)
    requires
        trim_start(s).len() > 0,
    ensures
        trim_start(s + x) == trim_start(s) + x,
        !white(trim_start(s)[0]),
    decreases s.len(),
{
    if s.len() > 0 && white(s[0]) {
        assert((s + x).drop_first() =~= s.drop_first() + x);
        lemma_trim_start_more(s.drop_first(), x);
    }
}

pub proof fn lemma_trim_start_white(w: Seq<char>, s: Seq<char>)
    requires
        all_white(w),
    ensures
        trim_start(w + s) == trim_start(s),
    decreases w.len(),
{
    if w.len() == 0 {
        assert(w + s =~= s);
    } else {
        let v = w.drop_first();
        assert((w + s).drop_first() =~= v + s);
        assert forall|i: int| 0 <= i < v.len() implies white(#[trigger] v[i]) by {
            assert(v[i] == w[i + 1]);
        }
        lemma_trim_start_white(v, s);
    }
}

/// What stands before a character that is no white space is not trimmed from the end.
proof fn lemma_trim_end_more(s: Seq<char>, c: char, r: Seq<char>)
    requires
        !white(c),
    ensures
        trim_end(s + seq![c] + r) == s + seq![c] + trim_end(r),
    decreases r.len(),
{
    let all = s + seq![c] + r;
    if r.len() == 0 {
        assert(all.last() == c);
        assert(all =~= s + seq![c] + trim_end(r));
    } else {
        assert(all.last() == r.last());
        if white(r.last()) {
            assert(all.drop_last() =~= s + seq![c] + r.drop_last());
            lemma_trim_end_more(s, c, r.drop_last());
        }
    }
}

/// What is left of white space at the end is white space.
proof fn lemma_trim_end_parts(s: Seq<char>) -> (w: Seq<char>)
    ensures
        s == trim_end(s) + w,
        all_white(w),
        trim_end(s).len() > 0 ==> !white(trim_end(s).last()),
    decreases s.len(),
{
    if s.len() > 0 && white(s.last()) {
        let v = lemma_trim_end_parts(s.drop_last());
        let w = v.push(s.last());
        let t = trim_end(s.drop_last());
        assert(s.drop_last() == t + v);
        assert(s =~= s.drop_last().push(s.last()));
        assert(t + w =~= (t + v).push(s.last()));
        w
    } else {
        assert(s + Seq::<char>::empty() =~= s);
        Seq::empty()
    }
}

proof fn lemma_trim_start_first(s: Seq<char>)
    ensures
        trim_start(s).len() > 0 ==> !white(trim_start(s)[0]),
    decreases s.len(),
{
    if s.len() > 0 && white(s[0]) {
        lemma_trim_start_first(s.drop_first());
    }
}

/// A trimmed text has no white space at either end.
proof fn lemma_trimmed(s: Seq<char>)
    ensures
        trim(s).len() > 0 ==> !white(trim(s)[0]) && !white(trim(s).last()) && trim_start(s).len()
            > 0,
{
    lemma_trim_start_first(s);
    let w = lemma_trim_end_parts(trim_start(s));
    assert(trim_start(s) == trim(s) + w);
    if trim(s).len() > 0 {
        assert(trim(s)[0] == trim_start(s)[0]);
    }
}

proof fn lemma_trim_same(s: Seq<char>)
    requires
        s.len() > 0,
        !white(s[0]),
        !white(s.last()),
    ensures
        trim(s) == s,
        trim_start(s) == s,
{
}

proof fn lemma_word_len_is(s: Seq<char>, n: int)
    requires
        0 <= n <= s.len(),
        forall|i: int| 0 <= i < n ==> !white(#[trigger] s[i]),
        n < s.len() ==> white(s[n]),
    ensures
        word_len(s) == n,
{
    lemma_word_len(s);
    let k = word_len(s);
    if k < n {
        assert(white(s[k]));
    } else if n < k {
        assert(!white(s[n]));
    }
}

/// White space at the end makes no further word.
proof fn lemma_words_white(s: Seq<char>, w: Seq<char>)
    requires
        all_white(w),
    ensures
        words(s + w) == words(s),
    decreases s.len(),
{
    let t = trim_start(s);
    lemma_trim_start_shorter(s);
    lemma_trim_start_shorter(s + w);
    if t.len() == 0 {
        lemma_trim_start_empty(s);
        assert forall|i: int| 0 <= i < (s + w).len() implies white(#[trigger] (s + w)[i]) by {
            if i >= s.len() {
                assert((s + w)[i] == w[i - s.len()]);
            }
        }
        lemma_trim_start_white(s + w, Seq::empty());
        assert((s + w) + Seq::<char>::empty() =~= s + w);
        assert(trim_start(s + w).len() == 0);
    } else {
        lemma_trim_start_more(s, w);
        let k = word_len(t);
        lemma_word_len(t);
        assert(k > 0) by {
            lemma_word_len(t.drop_first());
        }
        let u = t + w;
        assert forall|i: int| 0 <= i < k implies !white(#[trigger] u[i]) by {
            assert(u[i] == t[i]);
        }
        if k < u.len() {
            if k < t.len() {
                assert(u[k] == t[k]);
            } else {
                assert(u[k] == w[0]);
            }
        }
        lemma_word_len_is(u, k);
        assert(u.take(k) =~= t.take(k));
        assert(u.skip(k) =~= t.skip(k) + w);
        lemma_words_white(t.skip(k), w);
    }
}

proof fn lemma_trim_start_shorter(s: Seq<char>)
    ensures
        trim_start(s).len() <= s.len(),
    decreases s.len(),
{
    if s.len() > 0 && white(s[0]) {
        lemma_trim_start_shorter(s.drop_first());
    }
}

proof fn lemma_trim_start_empty(s: Seq<char>)
    requires
        trim_start(s).len() == 0,
    ensures
        all_white(s),
    decreases s.len(),
{
    if s.len() > 0 {
        lemma_trim_start_empty(s.drop_first());
        assert forall|i: int| 0 <= i < s.len() implies white(#[trigger] s[i]) by {
            if i > 0 {
                assert(s.drop_first()[i - 1] == s[i]);
            }
        }
    }
}

/// What stands before the first `#`, without white space round it.
spec fn uncommented(s: Seq<char>) -> Seq<char> {
    trim(before_comment(s))
}

proof fn lemma_uncommented_start(s: Seq<char>)
    ensures
        uncommented(trim_start(s)) == uncommented(s),
    decreases s.len(),
{
    if s.len() > 0 && white(s[0]) {
        let t = s.drop_first();
        lemma_uncommented_start(t);
        find_is_first(t, '#');
        assert(find(s, '#') == 1 + find(t, '#'));
        let head = s.take(find(s, '#'));
        assert(head.drop_first() =~= t.take(find(t, '#')));
        assert(head[0] == s[0]);
        assert(trim_start(head) == trim_start(head.drop_first()));
    }
}

proof fn lemma_uncommented_end(s: Seq<char>)
    ensures
        uncommented(trim_end(s)) == uncommented(s),
    decreases s.len(),
{
    if s.len() > 0 && white(s.last()) {
        let t = s.drop_last();
        lemma_uncommented_end(t);
        find_is_first(t, '#');
        find_is_first(s, '#');
        let k = find(t, '#');
        if k < t.len() {
            assert forall|i: int| 0 <= i < k implies s[i] != '#' by {
                assert(s[i] == t[i]);
            }
            assert(s[k] == t[k]);
            lemma_find_at(s, '#', k);
            assert(s.take(k) =~= t.take(k));
        } else {
            assert forall|i: int| 0 <= i < s.len() implies s[i] != '#' by {
                if i < t.len() {
                    assert(s[i] == t[i]);
                }
            }
            lemma_find_at(s, '#', s.len() as int);
            assert(s.take(s.len() as int) =~= s);
            assert(t.take(k) =~= t);
            lemma_trim_shorter(s);
        }
    }
}

/// A comment behind white space does not count.
proof fn lemma_uncommented_more(v: Seq<char>, w: Seq<char>, r: Seq<char>)
    requires
        all_white(w),
    ensures
        uncommented(trim(v + w + seq!['#'] + r)) == uncommented(trim(v)),
{
    let x = v + w + seq!['#'] + r;
    lemma_uncommented_start(x);
    lemma_uncommented_end(trim_start(x));
    lemma_uncommented_start(v);
    lemma_uncommented_end(trim_start(v));
    find_is_first(v, '#');
    let k = find(v, '#');
    if k < v.len() {
        assert forall|i: int| 0 <= i < k implies x[i] != '#' by {
            assert(x[i] == v[i]);
        }
        assert(x[k] == v[k]);
        lemma_find_at(x, '#', k);
        assert(x.take(k) =~= v.take(k));
    } else {
        let n = (v.len() + w.len()) as int;
        assert forall|i: int| 0 <= i < n implies x[i] != '#' by {
            if i < v.len() {
                assert(x[i] == v[i]);
            } else {
                assert(x[i] == w[i - v.len()]);
                assert(white(w[i - v.len()]));
            }
        }
        assert(x[n] == '#');
        lemma_find_at(x, '#', n);
        assert(x.take(n) =~= v + w);
        assert(v.take(k) =~= v);
        lemma_trim_white(v, w);
    }
}

pub proof fn lemma_trim_white(v: Seq<char>, w: Seq<char>)
    requires
        all_white(w),
    ensures
        trim(v + w) == trim(v),
    decreases w.len(),
{
    if w.len() == 0 {
        assert(v + w =~= v);
    } else {
        let u = w.drop_last();
        assert((v + w).drop_last() =~= v + u);
        assert((v + w).last() == w.last());
        lemma_trim_shorter(v + w);
        assert forall|i: int| 0 <= i < u.len() implies white(#[trigger] u[i]) by {
            assert(u[i] == w[i]);
        }
        lemma_trim_white(v, u);
    }
}

/// A comment hides no `=` that makes a constant: what stands before it would be more than
/// one word.
proof fn lemma_constant_name_more(rest: Seq<char>, w: Seq<char>, r: Seq<char>)
    requires
        rest.len() > 0,
        !white(rest[0]),
        w.len() > 0,
        all_white(w),
    ensures
        constant_name(rest + w + seq!['#'] + r) == constant_name(rest),
        constant_name(rest) is Some ==> find(rest + w + seq!['#'] + r, '=') == find(rest, '='),
{
    let x = rest + w + seq!['#'] + r;
    find_is_first(rest, '=');
    find_is_first(x, '=');
    let k = find(rest, '=');
    let n = rest.len() as int;
    if k < n {
        assert forall|i: int| 0 <= i < k implies x[i] != '=' by {
            assert(x[i] == rest[i]);
        }
        assert(x[k] == rest[k]);
        lemma_find_at(x, '=', k);
        assert(x.take(k) =~= rest.take(k));
    } else {
        let e = find(x, '=');
        if e < x.len() {
            if e < n {
                assert(rest[e] == '=');
            } else if e < n + w.len() {
                assert(x[e] == w[e - n]);
                assert(white(w[e - n]));
            }
            assert(e > n + w.len());
            let tail = r.take(e - n - w.len() - 1);
            let head = rest + w;
            assert(x.take(e) =~= head + seq!['#'] + tail);
            let name = trim(x.take(e));
            assert(trim_start(x.take(e)) == x.take(e)) by {
                assert(x.take(e)[0] == rest[0]);
            }
            lemma_trim_end_more(head, '#', tail);
            assert(name == head + seq!['#'] + trim_end(tail));
            assert(name[n] == w[0]);
            assert(white(w[0]));
            lemma_word_len(name);
            if word_len(name) == name.len() {
                assert(!white(name[n]));
            }
        }
    }
}

/// Whether a type word is that of a string.
pub open spec fn names_string(tok: Seq<char>) -> bool {
    starts_with(tok, "string"@) || starts_with(tok, "wstring"@)
}

/// A comment behind a trimmed line.
proof fn lemma_commented_line(l: Seq<char>, w: Seq<char>, r: Seq<char>, pkg: Seq<char>)
    requires
        l.len() > 0,
        trim(l) == l,
        !white(l[0]),
        !white(l.last()),
        w.len() > 0,
        all_white(w),
        trim_end(r) == r,
        declared(l, pkg) is Ok,
        declared(l, pkg) matches Ok(Declared::Constant(c)) ==> !names_string(c.ty),
        !(declared(l, pkg) matches Ok(Declared::Nothing)),
    ensures
        declared(l + w + seq!['#'] + r, pkg) == declared(l, pkg),
{
    let x = l + w + seq!['#'] + r;
    let n = word_len(l);
    lemma_word_len(l);
    lemma_trim_end_more(l + w, '#', r);
    assert(trim_start(x) == x) by {
        assert(x[0] == l[0]);
    }
    assert(trim(x) == x);
    let rest = after_word(l);
    assert(rest.len() > 0 && n < l.len());
    assert forall|i: int| 0 <= i < n implies !white(#[trigger] x[i]) by {
        assert(x[i] == l[i]);
    }
    assert(x[n] == l[n]);
    lemma_word_len_is(x, n);
    assert(x.take(n) =~= l.take(n));
    let s = l.skip(n + 1);
    lemma_trimmed(s);
    lemma_trim_start_first(s);
    assert(s.len() > 0 && s.last() == l.last()) by {
        lemma_trim_start_shorter(s);
        assert(trim_start(s).len() > 0);
    }
    lemma_trim_start_more(s, w + seq!['#'] + r);
    assert(x.skip(n + 1) =~= s + (w + seq!['#'] + r));
    let t = trim_start(s);
    lemma_trim_start_last(s);
    assert(rest == t);
    assert(t + (w + seq!['#'] + r) =~= (t + w) + seq!['#'] + r);
    lemma_trim_end_more(t + w, '#', r);
    assert(after_word(x) == rest + w + seq!['#'] + r);
    lemma_constant_name_more(rest, w, r);
    assert(x[0] == l[0]);
    if constant_name(rest) is Some {
        let e = find(rest, '=');
        find_is_first(rest, '=');
        let v = rest.skip(e + 1);
        assert((rest + w + seq!['#'] + r).skip(e + 1) =~= v + w + seq!['#'] + r);
        lemma_uncommented_more(v, w, r);
        assert(!names_string(l.take(n)));
        assert(constant_value(x.take(n), after_word(x)) == constant_value(l.take(n), rest));
    } else {
        find_is_first(l, '#');
        let k = find(l, '#');
        if k < l.len() {
            assert forall|i: int| 0 <= i < k implies x[i] != '#' by {
                assert(x[i] == l[i]);
            }
            assert(x[k] == l[k]);
            lemma_find_at(x, '#', k);
            assert(x.take(k) =~= l.take(k));
        } else {
            let m = (l.len() + w.len()) as int;
            assert forall|i: int| 0 <= i < m implies x[i] != '#' by {
                if i < l.len() {
                    assert(x[i] == l[i]);
                } else {
                    assert(x[i] == w[i - l.len()]);
                    assert(white(w[i - l.len()]));
                }
            }
            assert(x[m] == '#');
            lemma_find_at(x, '#', m);
            assert(x.take(m) =~= l + w);
            assert(l.take(k) =~= l);
            lemma_words_white(l, w);
        }
        assert(words(before_comment(x)) == words(before_comment(l)));
    }
}

proof fn lemma_trim_start_last(s: Seq<char>)
    requires
        trim_start(s).len() > 0,
        !white(s.last()),
    ensures
        trim_start(s).last() == s.last(),
        trim_end(trim_start(s)) == trim_start(s),
    decreases s.len(),
{
    if white(s[0]) {
        lemma_trim_start_last(s.drop_first());
    }
}

/// What a line declares does not depend on white space round it.
pub proof fn white_space_round_a_line_does_not_count(
    before: Seq<char>,
    l: Seq<char>,
    after: Seq<char>,
    pkg: Seq<char>,
)
    requires
        all_white(before),
        all_white(after),
        declared(l, pkg) is Ok,
    ensures
        declared(before + l + after, pkg) == declared(l, pkg),
{
    assert(before + l + after =~= before + (l + after));
    lemma_trim_start_white(before, l + after);
    lemma_trim_white(l, after);
}

/// A comment after a declaration changes nothing: a line that declares a field, or a
/// constant that is no string, declares the very same with ` # ` and any text behind it.
pub proof fn comment_after_a_declaration_does_not_count(
    l: Seq<char>,
    text: Seq<char>,
    pkg: Seq<char>,
)
    requires
        match declared(l, pkg) {
            Ok(Declared::Field(_)) => true,
            Ok(Declared::Constant(c)) => !names_string(c.ty),
            _ => false,
        },
    ensures
        declared(l + " # "@ + text, pkg) == declared(l, pkg),
{
    reveal_strlit(" # ");
    let t = trim(l);
    lemma_trimmed(l);
    assert(trim_end(t) == t && trim_start(t) == t && trim(t) == t);
    let a = trim_start(l);
    let w = lemma_trim_end_parts(a);
    let space = w + seq![' '];
    assert(all_white(space)) by {
        assert forall|i: int| 0 <= i < space.len() implies white(#[trigger] space[i]) by {
            if i < w.len() {
                assert(space[i] == w[i]);
            }
        }
    }
    let x = l + " # "@ + text;
    let tail = seq![' '] + text;
    assert(x =~= l + (" # "@ + text));
    lemma_trim_start_more(l, " # "@ + text);
    assert(a + (" # "@ + text) =~= (t + space) + seq!['#'] + tail);
    lemma_trim_end_more(t + space, '#', tail);
    let r = trim_end(tail);
    assert(trim(x) == t + space + seq!['#'] + r);
    lemma_trim_end_twice(tail);
    assert(declared(l, pkg) == declared(t, pkg));
    lemma_commented_line(t, space, r, pkg);
    let y = t + space + seq!['#'] + r;
    lemma_trim_end_more(t + space, '#', r);
    assert(trim_start(y) == y) by {
        assert(y[0] == t[0]);
    }
    assert(trim(y) == y);
    assert(declared(x, pkg) == declared(y, pkg));
}

proof fn lemma_trim_end_twice(s: Seq<char>)
    ensures
        trim_end(trim_end(s)) == trim_end(s),
{
    let w = lemma_trim_end_parts(s);
}

/// A blank line and a line that is a comment declare nothing.
pub proof fn comments_and_blanks_declare_nothing(l: Seq<char>, text: Seq<char>, pkg: Seq<char>)
    requires
        all_white(l),
    ensures
        declared(l, pkg) == Ok::<Declared, ParseFault>(Declared::Nothing),
        declared(l + seq!['#'] + text, pkg) == Ok::<Declared, ParseFault>(Declared::Nothing),
{
    let e = Seq::<char>::empty();
    lemma_trim_start_white(l, e);
    assert(l + e =~= l);
    assert(trim_start(e) == e);
    assert(trim_end(e) == e);
    let c = seq!['#'] + text;
    assert(l + seq!['#'] + text =~= l + c);
    lemma_trim_start_white(l, c);
    assert(trim_start(c) == c) by {
        assert(c[0] == '#');
    }
    assert(e + seq!['#'] + text =~= c);
    lemma_trim_end_more(e, '#', text);
    assert((e + seq!['#'] + trim_end(text))[0] == '#');
}

proof fn lemma_word_is_trimmed(s: Seq<char>)
    requires
        one_word(s),
    ensures
        trim(s) == s,
        trim_start(s) == s,
        word_len(s) == s.len(),
        words(s) == seq![s],
{
    assert(!white(s[0]));
    assert(!white(s[s.len() - 1]));
    lemma_word_len_is(s, s.len() as int);
    assert(s.take(s.len() as int) =~= s);
    let e = s.skip(s.len() as int);
    assert(e.len() == 0);
    assert(words(e) =~= Seq::empty());
    assert(words(s) =~= seq![s]);
}

/// The words of a word, a space and more words.
proof fn lemma_words_of_two(a: Seq<char>, b: Seq<char>)
    requires
        one_word(a),
        b.len() > 0,
        !white(b[0]),
    ensures
        words(a + seq![' '] + b) == seq![a] + words(b),
        word_len(a + seq![' '] + b) == a.len(),
{
    let x = a + seq![' '] + b;
    let n = a.len() as int;
    assert forall|i: int| 0 <= i < n implies !white(#[trigger] x[i]) by {
        assert(x[i] == a[i]);
    }
    assert(x[n] == ' ');
    lemma_word_len_is(x, n);
    assert(trim_start(x) == x) by {
        assert(x[0] == a[0]);
    }
    assert(x.take(n) =~= a);
    let y = x.skip(n);
    assert(y.drop_first() =~= b);
    assert(y[0] == ' ');
    assert(trim_start(b) == b);
    assert(trim_start(y) == trim_start(y.drop_first()));
    assert(trim_start(y) == b);
    lemma_word_len(b);
    lemma_word_len(b.drop_first());
    assert(words(y) == words(b));
}

/// A line that begins with a type and has no comment: what its parts are.
proof fn lemma_uncommented_line(tok: Seq<char>, rest: Seq<char>)
    requires
        one_word(tok),
        rest.len() > 0,
        !white(rest[0]),
        !white(rest.last()),
        !tok.contains('#'),
    ensures
        ({
            let l = tok + seq![' '] + rest;
            &&& trim(l) == l
            &&& l.len() > 0 && l[0] != '#'
            &&& word_len(l) == tok.len()
            &&& l.take(tok.len() as int) == tok
            &&& after_word(l) == rest
            &&& !rest.contains('#') ==> words(before_comment(l)) == seq![tok] + words(rest)
        }),
{
    let l = tok + seq![' '] + rest;
    let n = tok.len() as int;
    lemma_words_of_two(tok, rest);
    lemma_trim_same(rest);
    lemma_no_char(tok, '#');
    assert(l.last() == rest.last());
    assert(l[0] == tok[0]);
    assert(!white(tok[0]));
    lemma_trim_same(l);
    assert(l.skip(n + 1) =~= rest);
    assert(l.take(n) =~= tok);
    if !rest.contains('#') {
        lemma_no_char(rest, '#');
        assert forall|i: int| 0 <= i < l.len() implies l[i] != '#' by {
            if i < n {
                assert(l[i] == tok[i]);
            } else if i > n {
                assert(l[i] == rest[i - n - 1]);
            }
        }
        lemma_find_at(l, '#', l.len() as int);
        assert(before_comment(l) =~= l);
    }
}

/// A line of a type and a name declares a field of that name and type, without a default.
pub proof fn field_line_declares_the_field(
    tok: Seq<char>,
    name: Seq<char>,
    ty: TypeModel,
    pkg: Seq<char>,
)
    requires
        one_word(tok),
        one_word(name),
        !tok.contains('#'),
        !name.contains('#'),
        !name.contains('='),
        field_type(tok, pkg) == Ok::<TypeModel, ParseFault>(ty),
    ensures
        declared(tok + seq![' '] + name, pkg) == Ok::<Declared, ParseFault>(
            Declared::Field(FieldModel { name, ty, default: None }),
        ),
{
    assert(!white(name[0]));
    assert(!white(name[name.len() - 1]));
    lemma_uncommented_line(tok, name);
    lemma_word_is_trimmed(name);
    lemma_no_char(name, '=');
    lemma_find_at(name, '=', name.len() as int);
    assert(seq![tok] + words(name) =~= seq![tok, name]);
}

/// A third word on the line of a field is its default.
pub proof fn third_word_is_the_default(
    tok: Seq<char>,
    name: Seq<char>,
    d: Seq<char>,
    ty: TypeModel,
    pkg: Seq<char>,
)
    requires
        one_word(tok),
        one_word(name),
        one_word(d),
        !tok.contains('#'),
        !name.contains('#'),
        !name.contains('='),
        !d.contains('#'),
        d[0] != '=',
        field_type(tok, pkg) == Ok::<TypeModel, ParseFault>(ty),
    ensures
        declared(tok + seq![' '] + name + seq![' '] + d, pkg) == Ok::<Declared, ParseFault>(
            Declared::Field(FieldModel { name, ty, default: Some(d) }),
        ),
{
    let rest = name + seq![' '] + d;
    assert(tok + seq![' '] + name + seq![' '] + d =~= tok + seq![' '] + rest);
    assert(!white(name[0]) && rest[0] == name[0]);
    assert(!white(d[d.len() - 1]) && rest.last() == d[d.len() - 1]);
    assert(!white(d[0]));
    lemma_uncommented_line(tok, rest);
    lemma_no_char(name, '#');
    lemma_no_char(d, '#');
    assert(!rest.contains('#')) by {
        assert forall|i: int| 0 <= i < rest.len() implies rest[i] != '#' by {
            if i < name.len() {
                assert(rest[i] == name[i]);
            } else if i > name.len() {
                assert(rest[i] == d[i - name.len() - 1]);
            }
        }
    }
    lemma_words_of_two(name, d);
    lemma_word_is_trimmed(d);
    let w = seq![tok] + words(rest);
    assert(w =~= seq![tok, name, d]);
    assert(w.skip(2) =~= seq![d]);
    lemma_join_one(d);
    lemma_no_char(name, '=');
    find_is_first(rest, '=');
    let e = find(rest, '=');
    if e < rest.len() {
        if e < name.len() {
            assert(rest[e] == name[e]);
        }
        if e == name.len() + 1 {
            assert(rest[e] == d[0]);
        }
        assert(e > name.len() + 1);
        lemma_prefix_has_space(name, d, e);
    }
    assert(constant_name(rest) is None);
}

/// A line of a type, a name, `=` and a value declares a constant of that name, type and
/// value. In a constant that is a string a `#` is part of the value.
pub proof fn constant_line_declares_the_constant(
    tok: Seq<char>,
    name: Seq<char>,
    value: Seq<char>,
    pkg: Seq<char>,
)
    requires
        one_word(tok),
        one_word(name),
        !tok.contains('#'),
        !name.contains('='),
        value.len() > 0,
        trim(value) == value,
        names_string(tok) || !value.contains('#'),
    ensures
        declared(tok + seq![' '] + name + seq!['='] + value, pkg) == Ok::<Declared, ParseFault>(
            Declared::Constant(ConstantModel { name, ty: tok, value }),
        ),
{
    let rest = name + seq!['='] + value;
    let e = name.len() as int;
    assert(tok + seq![' '] + name + seq!['='] + value =~= tok + seq![' '] + rest);
    lemma_trimmed(value);
    assert(!white(name[0]) && rest[0] == name[0]);
    assert(rest.last() == value.last());
    lemma_uncommented_line(tok, rest);
    lemma_no_char(name, '=');
    assert forall|i: int| 0 <= i < e implies rest[i] != '=' by {
        assert(rest[i] == name[i]);
    }
    assert(rest[e] == '=');
    lemma_find_at(rest, '=', e);
    assert(rest.take(e) =~= name);
    lemma_word_is_trimmed(name);
    assert(rest.skip(e + 1) =~= value);
    if !names_string(tok) {
        lemma_no_char(value, '#');
        lemma_find_at(value, '#', value.len() as int);
        assert(before_comment(value) =~= value);
    }
}

/// What stands before an `=` in a default is more than one word, or is not set off by it.
proof fn lemma_prefix_has_space(name: Seq<char>, d: Seq<char>, e: int)
    requires
        one_word(name),
        one_word(d),
        name.len() < e < name.len() + 1 + d.len(),
        (name + seq![' '] + d)[e] == '=',
        e > name.len() + 1,
    ensures
        word_len(trim((name + seq![' '] + d).take(e))) != trim((name + seq![' '] + d).take(e)).len(),
{
    let x = (name + seq![' '] + d).take(e);
    assert(x[0] == name[0]);
    assert(!white(name[0]));
    assert(x.last() == d[e - name.len() - 2]);
    lemma_trim_same(x);
    lemma_word_len(x);
    assert(x[name.len() as int] == ' ');
    if word_len(x) == x.len() {
        assert(!white(x[name.len() as int]));
    }
}

proof fn lemma_no_char(s: Seq<char>, c: char)
    requires
        !s.contains(c),
    ensures
        forall|i: int| 0 <= i < s.len() ==> #[trigger] s[i] != c,
{
    assert forall|i: int| 0 <= i < s.len() implies #[trigger] s[i] != c by {
        if s[i] == c {
            assert(s.contains(c));
        }
    }
}

proof fn lemma_join_one(d: Seq<char>)
    ensures
        join(seq![d], " "@) == d,
{
    assert(seq![d].len() == 1);
    reveal_with_fuel(join, 2);
}

/// What lines declare comes behind what was declared before them.
proof fn lemma_declared_behind(
    l: Seq<Seq<char>>,
    pkg: Seq<char>,
    fields: Seq<FieldModel>,
    constants: Seq<ConstantModel>,
    f: Seq<FieldModel>,
    c: Seq<ConstantModel>,
)
    requires
        declarations(l, pkg, f, c) is Ok,
    ensures
        declarations(l, pkg, fields + f, constants + c) is Ok,
        (declarations(l, pkg, fields + f, constants + c)->Ok_0).0 == fields + (declarations(
            l,
            pkg,
            f,
            c,
        )->Ok_0).0,
        (declarations(l, pkg, fields + f, constants + c)->Ok_0).1 == constants + (declarations(
            l,
            pkg,
            f,
            c,
        )->Ok_0).1,
    decreases l.len(),
{
    if l.len() > 0 {
        let t = l.drop_first();
        match declared(l[0], pkg) {
            Ok(Declared::Nothing) => {
                lemma_declared_behind(t, pkg, fields, constants, f, c);
            },
            Ok(Declared::Constant(x)) => {
                lemma_declared_behind(t, pkg, fields, constants, f, c.push(x));
                assert(constants + c.push(x) =~= (constants + c).push(x));
            },
            Ok(Declared::Field(x)) => {
                lemma_declared_behind(t, pkg, fields, constants, f.push(x), c);
                assert(fields + f.push(x) =~= (fields + f).push(x));
            },
            Err(_) => {},
        }
    }
}

/// What lines declare that follow others.
proof fn lemma_declared_in_turn(
    a: Seq<Seq<char>>,
    b: Seq<Seq<char>>,
    pkg: Seq<char>,
    f: Seq<FieldModel>,
    c: Seq<ConstantModel>,
)
    ensures
        declarations(a + b, pkg, f, c) == (match declarations(a, pkg, f, c) {
            Ok((g, d)) => declarations(b, pkg, g, d),
            Err(e) => Err(e),
        }),
    decreases a.len(),
{
    if a.len() == 0 {
        assert(a + b =~= b);
    } else {
        assert((a + b)[0] == a[0]);
        assert((a + b).drop_first() =~= a.drop_first() + b);
        match declared(a[0], pkg) {
            Ok(Declared::Nothing) => {
                lemma_declared_in_turn(a.drop_first(), b, pkg, f, c);
            },
            Ok(Declared::Constant(x)) => {
                lemma_declared_in_turn(a.drop_first(), b, pkg, f, c.push(x));
            },
            Ok(Declared::Field(x)) => {
                lemma_declared_in_turn(a.drop_first(), b, pkg, f.push(x), c);
            },
            Err(_) => {},
        }
    }
}

/// A definition is read line by line: two bodies, one behind the other, give the fields and
/// constants of the first and then those of the second.
pub proof fn bodies_are_read_in_turn(
    name: Seq<char>,
    pkg: Seq<char>,
    a: Seq<char>,
    b: Seq<char>,
)
    requires
        a.len() == 0 || a.last() == '\n',
        message_model(name, pkg, a) is Ok,
        message_model(name, pkg, b) is Ok,
    ensures
        message_model(name, pkg, a + b) == Ok::<MessageModel, ParseFault>(
            MessageModel {
                name,
                fields: (message_model(name, pkg, a)->Ok_0).fields + (message_model(
                    name,
                    pkg,
                    b,
                )->Ok_0).fields,
                constants: (message_model(name, pkg, a)->Ok_0).constants + (message_model(
                    name,
                    pkg,
                    b,
                )->Ok_0).constants,
            },
        ),
{
    let (nf, nc) = (Seq::<FieldModel>::empty(), Seq::<ConstantModel>::empty());
    lemma_lines_concat(a, b);
    lemma_declared_in_turn(lines(a), lines(b), pkg, nf, nc);
    let (f, c) = declarations(lines(a), pkg, nf, nc)->Ok_0;
    lemma_declared_behind(lines(b), pkg, f, c, nf, nc);
    assert(f + nf =~= f);
    assert(c + nc =~= c);
}

/// The lines of a line.
proof fn lemma_one_line(l: Seq<char>)
    requires
        !l.contains('\n'),
    ensures
        lines(l + seq!['\n']) == seq![without_cr(l)],
{
    let x = l + seq!['\n'];
    lemma_no_char(l, '\n');
    let n = l.len() as int;
    assert forall|i: int| 0 <= i < n implies x[i] != '\n' by {
        assert(x[i] == l[i]);
    }
    assert(x[n] == '\n');
    lemma_find_at(x, '\n', n);
    assert(x.take(n) =~= l);
    assert(x.skip(n + 1).len() == 0);
    assert(lines(x.skip(n + 1)) =~= Seq::empty());
    assert(lines(x) =~= seq![without_cr(l)]);
}

/// The lines of a body round one of them.
proof fn lemma_lines_round(a: Seq<char>, l: Seq<char>, b: Seq<char>)
    requires
        a.len() == 0 || a.last() == '\n',
        !l.contains('\n'),
    ensures
        lines(a + l + seq!['\n'] + b) == lines(a) + (seq![without_cr(l)] + lines(b)),
{
    let x = l + seq!['\n'];
    assert(a + l + seq!['\n'] + b =~= a + (x + b));
    assert(x.last() == '\n');
    lemma_lines_concat(a, x + b);
    lemma_lines_concat(x, b);
    lemma_one_line(l);
}

/// Lines that differ in the first, which declares the same, declare the same.
proof fn lemma_same_first(
    p: Seq<char>,
    q: Seq<char>,
    rest: Seq<Seq<char>>,
    pkg: Seq<char>,
    f: Seq<FieldModel>,
    c: Seq<ConstantModel>,
)
    requires
        declared(p, pkg) == declared(q, pkg),
    ensures
        declarations(seq![p] + rest, pkg, f, c) == declarations(seq![q] + rest, pkg, f, c),
{
    assert((seq![p] + rest).drop_first() =~= rest);
    assert((seq![q] + rest).drop_first() =~= rest);
    assert((seq![p] + rest)[0] == p);
    assert((seq![q] + rest)[0] == q);
}

/// A body whose line declares the same as that of another defines the same message.
proof fn lemma_same_line(
    name: Seq<char>,
    pkg: Seq<char>,
    a: Seq<char>,
    l: Seq<char>,
    k: Seq<char>,
    b: Seq<char>,
)
    requires
        a.len() == 0 || a.last() == '\n',
        !l.contains('\n'),
        !k.contains('\n'),
        declared(without_cr(l), pkg) == declared(without_cr(k), pkg),
    ensures
        message_model(name, pkg, a + l + seq!['\n'] + b) == message_model(
            name,
            pkg,
            a + k + seq!['\n'] + b,
        ),
{
    let (nf, nc) = (Seq::<FieldModel>::empty(), Seq::<ConstantModel>::empty());
    let (x, y) = (without_cr(l), without_cr(k));
    lemma_lines_round(a, l, b);
    lemma_lines_round(a, k, b);
    lemma_declared_in_turn(lines(a), seq![x] + lines(b), pkg, nf, nc);
    lemma_declared_in_turn(lines(a), seq![y] + lines(b), pkg, nf, nc);
    if let Ok((f, c)) = declarations(lines(a), pkg, nf, nc) {
        lemma_same_first(x, y, lines(b), pkg, f, c);
    }
}

/// A comment after a declaration in a body changes nothing of the message that the body
/// defines.
pub proof fn comment_in_a_body_does_not_count(
    name: Seq<char>,
    pkg: Seq<char>,
    a: Seq<char>,
    l: Seq<char>,
    text: Seq<char>,
    b: Seq<char>,
)
    requires
        a.len() == 0 || a.last() == '\n',
        !l.contains('\n'),
        !l.contains('\r'),
        !text.contains('\n'),
        match declared(l, pkg) {
            Ok(Declared::Field(_)) => true,
            Ok(Declared::Constant(c)) => !names_string(c.ty),
            _ => false,
        },
    ensures
        message_model(name, pkg, a + (l + " # "@ + text) + seq!['\n'] + b) == message_model(
            name,
            pkg,
            a + l + seq!['\n'] + b,
        ),
{
    reveal_strlit(" # ");
    let k = l + " # "@ + text;
    let short = without_cr(text);
    lemma_no_char(l, '\n');
    lemma_no_char(l, '\r');
    lemma_no_char(text, '\n');
    assert forall|i: int| 0 <= i < k.len() implies k[i] != '\n' by {
        if i < l.len() {
            assert(k[i] == l[i]);
        } else if i >= l.len() + 3 {
            assert(k[i] == text[i - l.len() - 3]);
        }
    }
    assert(!k.contains('\n'));
    assert(without_cr(k) =~= l + " # "@ + short) by {
        if text.len() > 0 {
            assert(k.last() == text.last());
        } else {
            assert(k.last() == ' ');
        }
    }
    assert(without_cr(l) == l) by {
        if l.len() > 0 {
            assert(l[l.len() - 1] != '\r');
        }
    }
    comment_after_a_declaration_does_not_count(l, short, pkg);
    lemma_same_line(name, pkg, a, k, l, b);
}

/// Several words behind the name of a field are its default, with one space between each two.
pub proof fn further_words_belong_to_the_default(
    tok: Seq<char>,
    name: Seq<char>,
    d: Seq<char>,
    more: Seq<char>,
    ty: TypeModel,
    pkg: Seq<char>,
)
    requires
        one_word(tok),
        one_word(name),
        one_word(d),
        one_word(more),
        !tok.contains('#'),
        !name.contains('#') && !name.contains('='),
        !d.contains('#') && !d.contains('='),
        !more.contains('#') && !more.contains('='),
        field_type(tok, pkg) == Ok::<TypeModel, ParseFault>(ty),
    ensures
        declared(tok + seq![' '] + name + seq![' '] + d + seq![' '] + more, pkg) == Ok::<
            Declared,
            ParseFault,
        >(Declared::Field(FieldModel { name, ty, default: Some(d + seq![' '] + more) })),
{
    let both = d + seq![' '] + more;
    let rest = name + seq![' '] + both;
    assert(tok + seq![' '] + name + seq![' '] + d + seq![' '] + more =~= tok + seq![' '] + rest);
    assert(!white(name[0]) && rest[0] == name[0]);
    assert(!white(more[more.len() - 1]) && rest.last() == more[more.len() - 1]);
    assert(!white(d[0]) && both[0] == d[0]);
    assert(!white(more[0]));
    lemma_uncommented_line(tok, rest);
    lemma_no_char(name, '#');
    lemma_no_char(d, '#');
    lemma_no_char(more, '#');
    lemma_no_char(name, '=');
    lemma_no_char(d, '=');
    lemma_no_char(more, '=');
    assert forall|i: int| 0 <= i < rest.len() implies rest[i] != '#' && rest[i] != '=' by {
        let (n, k) = (name.len(), name.len() + 1 + d.len());
        if i < n {
            assert(rest[i] == name[i]);
        } else if n < i && i < k {
            assert(rest[i] == d[i - n - 1]);
        } else if i > k {
            assert(rest[i] == more[i - k - 1]);
        }
    }
    lemma_words_of_two(name, both);
    lemma_words_of_two(d, more);
    lemma_word_is_trimmed(more);
    let w = seq![tok] + words(rest);
    assert(w =~= seq![tok, name, d, more]);
    assert(w.skip(2) =~= seq![d, more]);
    reveal_strlit(" ");
    reveal_with_fuel(join, 3);
    assert(join(seq![d, more], " "@) =~= both);
    find_is_first(rest, '=');
    assert(constant_name(rest) is None);
}

} // verus!
