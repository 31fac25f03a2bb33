//! Laws of the type words of a definition: brackets and `sequence` say how many values
//! there are and change nothing of what each of them is.
use vstd::prelude::*;
use crate::datatype::{BaseModel, Multiplicity, Primitive, TypeModel};
use crate::parser::{
    array_suffix, base_type, field_type, full_type_name, sequence_body, sized, ParseFault,
};
use crate::text::{
    decimal, decimal_reads_back, digit, find, find_is_first, lemma_find_at, rfind, split,
    starts_with, trim, trim_start, unsigned_value, white,
};

verus! {

/// A decimal numeral is read as its number.
proof fn lemma_numeral(n: usize)
    ensures
        unsigned_value(decimal(n as nat), usize::MAX as nat) == Some(n as nat),
        decimal(n as nat).len() > 0,
        forall|i: int|
            0 <= i < decimal(n as nat).len() ==> digit(#[trigger] decimal(n as nat)[i]) is Some,
{
    decimal_reads_back(n as nat);
    let s = decimal(n as nat);
    assert(digit(s[0]) is Some);
}

pub proof fn lemma_rfind(a: Seq<char>, c: char, b: Seq<char>)
    requires
        forall|i: int| 0 <= i < b.len() ==> #[trigger] b[i] != c,
    ensures
        rfind(a + seq![c] + b, c) == a.len(),
    decreases b.len(),
{
    let s = a + seq![c] + b;
    if b.len() == 0 {
        assert(s.last() == c);
    } else {
        let t = b.drop_last();
        assert(s.last() == b[b.len() - 1]);
        assert(s.drop_last() =~= a + seq![c] + t);
        assert forall|i: int| 0 <= i < t.len() implies #[trigger] t[i] != c by {
            assert(t[i] == b[i]);
        }
        lemma_rfind(a, c, t);
    }
}

pub proof fn lemma_rfind_none(b: Seq<char>, c: char)
    requires
        forall|i: int| 0 <= i < b.len() ==> #[trigger] b[i] != c,
    ensures
        rfind(b, c) == -1,
    decreases b.len(),
{
    if b.len() > 0 {
        let t = b.drop_last();
        assert(b.last() == b[b.len() - 1]);
        assert forall|i: int| 0 <= i < t.len() implies #[trigger] t[i] != c by {
            assert(t[i] == b[i]);
        }
        lemma_rfind_none(t, c);
    }
}

/// Whether a word is the type of one value, which has this base: it has no brackets, and
/// no comma or white space in it.
pub open spec fn single_type(tok: Seq<char>, pkg: Seq<char>, base: BaseModel) -> bool {
    &&& field_type(tok, pkg) == Ok::<TypeModel, ParseFault>(
        TypeModel { base, multiplicity: Multiplicity::Scalar },
    )
    &&& forall|i: int|
        0 <= i < tok.len() ==> #[trigger] tok[i] != '[' && tok[i] != ',' && !white(tok[i])
}

/// The type that a base has with a multiplicity.
pub open spec fn typed(base: BaseModel, multiplicity: Multiplicity) -> Result<
    TypeModel,
    ParseFault,
> {
    Ok(TypeModel { base, multiplicity })
}

proof fn lemma_single_base(tok: Seq<char>, pkg: Seq<char>, base: BaseModel)
    requires
        single_type(tok, pkg, base),
    ensures
        base_type(tok, pkg) == Ok::<BaseModel, ParseFault>(base),
        tok.len() > 0,
{
    find_is_first(tok, '[');
    if find(tok, '[') < tok.len() {
        assert(tok[find(tok, '[')] == '[');
    }
    reveal_strlit("string");
    reveal_strlit("wstring");
    if sequence_body(tok) is Some {
        let body = sequence_body(tok).unwrap();
        assert(field_type(tok, pkg) matches Ok(t) ==> t.multiplicity != Multiplicity::Scalar);
    }
    if tok.len() == 0 {
        lemma_empty_token(tok);
    }
}

proof fn lemma_empty_token(tok: Seq<char>)
    requires
        tok.len() == 0,
    ensures
        Primitive::of_token(tok) is None,
{
    reveal_strlit("bool");
    reveal_strlit("boolean");
    reveal_strlit("byte");
    reveal_strlit("octet");
    reveal_strlit("char");
    reveal_strlit("int8");
    reveal_strlit("uint8");
    reveal_strlit("int16");
    reveal_strlit("uint16");
    reveal_strlit("int32");
    reveal_strlit("uint32");
    reveal_strlit("int64");
    reveal_strlit("uint64");
    reveal_strlit("float32");
    reveal_strlit("float");
    reveal_strlit("float64");
    reveal_strlit("double");
}

proof fn lemma_bracketed(tok: Seq<char>, inside: Seq<char>, pkg: Seq<char>, base: BaseModel)
    requires
        single_type(tok, pkg, base),
    ensures
        ({
            let word = tok + seq!['['] + inside + seq![']'];
            field_type(word, pkg) == sized(Ok(base), array_suffix(inside, word))
        }),
{
    let word = tok + seq!['['] + inside + seq![']'];
    let n = tok.len() as int;
    lemma_single_base(tok, pkg, base);
    assert(word.last() == ']');
    assert forall|i: int| 0 <= i < n implies word[i] != '[' by {
        assert(word[i] == tok[i]);
    }
    assert(word[n] == '[');
    lemma_find_at(word, '[', n);
    assert(word.take(n) =~= tok);
    assert(word.subrange(n + 1, word.len() - 1) =~= inside);
}

/// Brackets behind a type make it an array or a sequence of values of that type: empty
/// ones a sequence without a bound, a number an array of that many, and a number behind
/// `<=` a sequence of at most that many.
pub proof fn brackets_say_how_many(tok: Seq<char>, pkg: Seq<char>, base: BaseModel, n: usize)
    requires
        single_type(tok, pkg, base),
    ensures
        field_type(tok + "[]"@, pkg) == typed(base, Multiplicity::UnboundedSequence),
        field_type(tok + "["@ + decimal(n as nat) + "]"@, pkg) == typed(
            base,
            Multiplicity::FixedArray(n),
        ),
        field_type(tok + "[<="@ + decimal(n as nat) + "]"@, pkg) == typed(
            base,
            Multiplicity::BoundedSequence(n),
        ),
{
    reveal_strlit("[]");
    reveal_strlit("[");
    reveal_strlit("]");
    reveal_strlit("[<=");
    reveal_strlit("<=");
    let d = decimal(n as nat);
    lemma_numeral(n);
    lemma_bracketed(tok, Seq::empty(), pkg, base);
    assert(tok + "[]"@ =~= tok + seq!['['] + Seq::<char>::empty() + seq![']']);
    lemma_bracketed(tok, d, pkg, base);
    assert(tok + "["@ + d + "]"@ =~= tok + seq!['['] + d + seq![']']);
    assert(!starts_with(d, "<="@)) by {
        assert(digit(d[0]) is Some);
        if starts_with(d, "<="@) {
            assert(d.take(2)[0] == '<');
        }
    }
    let bound = "<="@ + d;
    lemma_bracketed(tok, bound, pkg, base);
    assert(tok + "[<="@ + d + "]"@ =~= tok + seq!['['] + bound + seq![']']);
    assert(bound.take(2) =~= "<="@);
    assert(bound.skip(2) =~= d);
}

proof fn lemma_word_trimmed(tok: Seq<char>)
    requires
        tok.len() > 0,
        forall|i: int| 0 <= i < tok.len() ==> !white(#[trigger] tok[i]),
    ensures
        trim(tok) == tok,
{
    assert(!white(tok[0]));
    assert(!white(tok[tok.len() - 1]));
    assert(trim_start(tok) == tok);
}

/// `sequence<T>` is `T[]`, and `sequence<T, N>` is `T[<=N]`.
pub proof fn sequence_is_another_way_to_write_brackets(
    tok: Seq<char>,
    pkg: Seq<char>,
    base: BaseModel,
    n: usize,
)
    requires
        single_type(tok, pkg, base),
    ensures
        field_type("sequence<"@ + tok + ">"@, pkg) == field_type(tok + "[]"@, pkg),
        field_type("sequence<"@ + tok + ", "@ + decimal(n as nat) + ">"@, pkg) == field_type(
            tok + "[<="@ + decimal(n as nat) + "]"@,
            pkg,
        ),
{
    brackets_say_how_many(tok, pkg, base, n);
    lemma_plain_sequence(tok, pkg, base);
    lemma_bounded_sequence(tok, pkg, base, n);
}

proof fn lemma_plain_sequence(tok: Seq<char>, pkg: Seq<char>, base: BaseModel)
    requires
        single_type(tok, pkg, base),
    ensures
        field_type("sequence<"@ + tok + ">"@, pkg) == typed(base, Multiplicity::UnboundedSequence),
{
    lemma_single_base(tok, pkg, base);
    reveal_strlit("sequence<");
    reveal_strlit(">");
    let plain = "sequence<"@ + tok + ">"@;
    assert(plain.take(9) =~= "sequence<"@);
    assert(plain.last() == '>');
    assert(plain.subrange(9, plain.len() - 1) =~= tok);
    lemma_rfind_none(tok, ',');
    lemma_word_trimmed(tok);
}

/// What stands in the brackets of a sequence with a bound.
proof fn lemma_bound_in_body(tok: Seq<char>, n: usize)
    ensures
        ({
            let body = tok + ", "@ + decimal(n as nat);
            let k = tok.len() as int;
            &&& rfind(body, ',') == k
            &&& body.take(k) == tok
            &&& trim(body.skip(k + 1)) == decimal(n as nat)
        }),
{
    reveal_strlit(", ");
    lemma_numeral(n);
    let d = decimal(n as nat);
    let body = tok + ", "@ + d;
    let tail = seq![' '] + d;
    assert(body =~= tok + seq![','] + tail);
    assert forall|i: int| 0 <= i < tail.len() implies #[trigger] tail[i] != ',' by {
        if i > 0 {
            assert(tail[i] == d[i - 1]);
            assert(digit(d[i - 1]) is Some);
        }
    }
    lemma_rfind(tok, ',', tail);
    let k = tok.len() as int;
    assert(body.take(k) =~= tok);
    assert(body.skip(k + 1) =~= tail);
    assert forall|i: int| 0 <= i < d.len() implies !white(#[trigger] d[i]) by {
        assert(digit(d[i]) is Some);
    }
    lemma_word_trimmed(d);
    assert(tail.drop_first() =~= d);
    assert(tail[0] == ' ');
    assert(trim_start(tail) == trim_start(tail.drop_first()));
}

proof fn lemma_bounded_sequence(tok: Seq<char>, pkg: Seq<char>, base: BaseModel, n: usize)
    requires
        single_type(tok, pkg, base),
    ensures
        field_type("sequence<"@ + tok + ", "@ + decimal(n as nat) + ">"@, pkg) == typed(
            base,
            Multiplicity::BoundedSequence(n),
        ),
{
    lemma_single_base(tok, pkg, base);
    lemma_numeral(n);
    reveal_strlit("sequence<");
    reveal_strlit(">");
    let d = decimal(n as nat);
    let bounded = "sequence<"@ + tok + ", "@ + d + ">"@;
    let body = tok + ", "@ + d;
    assert(bounded.take(9) =~= "sequence<"@);
    assert(bounded.last() == '>');
    assert(bounded.subrange(9, bounded.len() - 1) =~= body);
    lemma_bound_in_body(tok, n);
    lemma_word_trimmed(tok);
}

/// A name without a `/` that is no primitive and no string is a message of the package, but
/// for `Header`, which is the one of `std_msgs`; `p/Type` is a message of `p`.
pub proof fn message_names_are_completed(
    name: Seq<char>,
    owner: Seq<char>,
    pkg: Seq<char>,
)
    requires
        name.len() > 0,
        !name.contains('/'),
        !owner.contains('/'),
    ensures
        full_type_name(name, pkg) == (if name == "Header"@ {
            "std_msgs/msg/Header"@
        } else {
            pkg + "/msg/"@ + name
        }),
        full_type_name(owner + "/"@ + name, pkg) == owner + "/msg/"@ + name,
        Primitive::of_token(name) is None && !starts_with(name, "string"@) && !starts_with(
            name,
            "wstring"@,
        ) ==> base_type(name, pkg) == Ok::<BaseModel, ParseFault>(
            BaseModel::Message(full_type_name(name, pkg)),
        ),
{
    reveal_strlit("/");
    find_is_first(name, '/');
    find_is_first(owner, '/');
    assert(split(name, '/') =~= seq![name]);
    let full = owner + "/"@ + name;
    let n = owner.len() as int;
    assert forall|i: int| 0 <= i < n implies full[i] != '/' by {
        assert(full[i] == owner[i]);
        if owner[i] == '/' {
            assert(owner.contains('/'));
        }
    }
    assert(full[n] == '/');
    lemma_find_at(full, '/', n);
    assert(full.take(n) =~= owner);
    assert(full.skip(n + 1) =~= name);
    assert(split(full, '/') =~= seq![owner, name]);
}

/// `string` and `wstring` are strings without a bound, and with `<=` and a number behind
/// them of at most that many.
pub proof fn strings_may_have_a_bound(pkg: Seq<char>, n: usize)
    ensures
        base_type("string"@, pkg) == Ok::<BaseModel, ParseFault>(BaseModel::String(None)),
        base_type("wstring"@, pkg) == Ok::<BaseModel, ParseFault>(BaseModel::WString(None)),
        base_type("string<="@ + decimal(n as nat), pkg) == Ok::<BaseModel, ParseFault>(
            BaseModel::String(Some(n)),
        ),
        base_type("wstring<="@ + decimal(n as nat), pkg) == Ok::<BaseModel, ParseFault>(
            BaseModel::WString(Some(n)),
        ),
{
    reveal_strlit("string");
    reveal_strlit("wstring");
    reveal_strlit("string<=");
    reveal_strlit("wstring<=");
    reveal_strlit("<=");
    lemma_numeral(n);
    let d = decimal(n as nat);
    assert("string"@.take(6) =~= "string"@);
    assert("string"@.skip(6).len() == 0);
    assert("wstring"@.take(6)[0] == 'w');
    assert("wstring"@.take(7) =~= "wstring"@);
    assert("wstring"@.skip(7).len() == 0);
    let s = "string<="@ + d;
    let w = "wstring<="@ + d;
    assert(s.take(6) =~= "string"@);
    assert(s.skip(6).take(2) =~= "<="@);
    assert(s.skip(6).skip(2) =~= d);
    assert(w.take(6)[0] == 'w');
    assert(w.take(7) =~= "wstring"@);
    assert(w.skip(7).take(2) =~= "<="@);
    assert(w.skip(7).skip(2) =~= d);
}

} // verus!
