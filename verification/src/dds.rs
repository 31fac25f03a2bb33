//! Topics and payloads as DDS has them.
use vstd::prelude::*;
use vstd::slice::{slice_subrange, slice_to_vec};
use crate::backend::{
    find_colons, split_colons, topic_of_dds, type_of_dds, unmangle_topic, unmangle_type, without_dds,
    BackendError,
};
use crate::text::{join, optional, same_text};

verus! {

/// The first of the discovered topics, from `i` on, that is the DDS name of a topic and
/// has a type that ROS knows: that type.
pub open spec fn type_found(topics: Seq<(String, String)>, topic: Seq<char>, i: int) -> Option<
    Seq<char>,
>
    decreases topics.len() - i,
{
    if i < 0 || i >= topics.len() {
        None
    } else if topic_of_dds(topics[i].0@) == Some(topic) && type_of_dds(topics[i].1@) is Some {
        type_of_dds(topics[i].1@)
    } else {
        type_found(topics, topic, i + 1)
    }
}

/// The type of a topic among the discovered ones, which are given by their DDS names
/// and types.
pub fn discover_type(topics: &[(String, String)], topic: &str) -> (r: Option<String>)
    ensures
        optional(r) == type_found(topics@, topic@, 0),
{
    for i in 0..topics.len()
        invariant
            type_found(topics@, topic@, 0) == type_found(topics@, topic@, i as int),
    {
        if let Some(name) = unmangle_topic(topics[i].0.as_str()) {
            if same_text(name.as_str(), topic) {
                if let Some(ty) = unmangle_type(topics[i].1.as_str()) {
                    return Some(ty);
                }
            }
        }
    }
    None
}

/// The body of an encapsulated message: what follows its header.
pub fn cdr_body(cdr: &[u8]) -> (r: Result<Vec<u8>, BackendError>)
    ensures
        match r {
            Ok(b) => cdr@.len() >= 4 && b@ == cdr@.skip(4),
            Err(e) => cdr@.len() < 4 && (e matches BackendError::Failed(s) && s@
                == "cdr too short"@),
        },
{
    if cdr.len() < 4 {
        return Err(BackendError::Failed("cdr too short".to_owned()));
    }
    let body = slice_subrange(cdr, 4, cdr.len());
    assert(body@ =~= cdr@.skip(4));
    Ok(slice_to_vec(body))
}

/// A body behind its header: the representation id and two bytes of options.
pub open spec fn encapsulated(id: Seq<u8>, body: Seq<u8>) -> Seq<u8> {
    id + seq![0u8, 0u8] + body
}

/// Puts a body behind a header with the given representation id.
pub fn encapsulate(id: [u8; 2], body: &[u8]) -> (r: Vec<u8>)
    ensures
        r@ == encapsulated(id@, body@),
{
    let mut out: Vec<u8> = Vec::new();
    out.push(id[0]);
    out.push(id[1]);
    out.push(0);
    out.push(0);
    for i in 0..body.len()
        invariant
            out@ == encapsulated(id@, body@.take(i as int)),
    {
        out.push(body[i]);
        assert(body@.take(i as int + 1) =~= body@.take(i as int).push(body@[i as int]));
        assert(out@ =~= encapsulated(id@, body@.take(i as int + 1)));
    }
    assert(body@.take(body@.len() as int) =~= body@);
    out
}

/// The body of an encapsulated message is the body that was put behind the header.
pub proof fn body_is_what_was_encapsulated(id: [u8; 2], body: Seq<u8>)
    ensures
        encapsulated(id@, body).len() >= 4,
        encapsulated(id@, body).skip(4) == body,
{
    assert(encapsulated(id@, body).skip(4) =~= body);
}

/// The DDS name of a topic stands for that topic.
pub proof fn topic_name_reads_back(topic: Seq<char>)
    ensures
        topic_of_dds("rt"@ + topic) == Some(topic),
{
    reveal_strlit("rt");
    let name = "rt"@ + topic;
    assert(name.take(2) =~= "rt"@);
    assert(name.skip(2) =~= topic);
}

/// The DDS name of a type.
pub open spec fn dds_type_name(package: Seq<char>, kind: Seq<char>, base: Seq<char>) -> Seq<char> {
    package + "::"@ + kind + "::dds_::"@ + base + "_"@
}

/// Whether a text holds no colon.
pub open spec fn colonless(s: Seq<char>) -> bool {
    forall|i: int| 0 <= i < s.len() ==> s[i] != ':'
}

proof fn lemma_split_piece(a: Seq<char>, b: Seq<char>)
    requires
        colonless(a),
    ensures
        split_colons(a + "::"@ + b) == seq![a] + split_colons(b),
{
    reveal_strlit("::");
    let s = a + "::"@ + b;
    lemma_find_after(a, b);
    assert(s.take(a.len() as int) =~= a);
    assert(s.skip(a.len() as int + 2) =~= b);
}

proof fn lemma_find_after(a: Seq<char>, b: Seq<char>)
    requires
        colonless(a),
    ensures
        find_colons(a + "::"@ + b) == a.len(),
    decreases a.len(),
{
    reveal_strlit("::");
    let s = a + "::"@ + b;
    if a.len() > 0 {
        let t = a.drop_first();
        assert(s[0] == a[0]);
        assert(s.drop_first() =~= t + "::"@ + b);
        lemma_find_after(t, b);
    }
}

proof fn lemma_find_none(a: Seq<char>)
    requires
        colonless(a),
    ensures
        find_colons(a) == a.len(),
    decreases a.len(),
{
    if a.len() >= 2 {
        lemma_find_none(a.drop_first());
    }
}

/// The DDS name of a type stands for that type, where no part of it holds a colon and
/// neither the package nor the kind is `dds_`.
pub proof fn type_name_reads_back(package: Seq<char>, kind: Seq<char>, base: Seq<char>)
    requires
        colonless(package),
        colonless(kind),
        colonless(base),
        package != "dds_"@,
        kind != "dds_"@,
        base + "_"@ != "dds_"@,
    ensures
        type_of_dds(dds_type_name(package, kind, base)) == Some(
            package + "/"@ + kind + "/"@ + base,
        ),
{
    reveal_strlit("::");
    reveal_strlit("dds_");
    reveal_strlit("::dds_::");
    reveal_strlit("_");
    reveal_strlit("/");
    let last = base + "_"@;
    let name = dds_type_name(package, kind, base);
    assert("::dds_::"@ =~= "::"@ + "dds_"@ + "::"@);
    let tail = "dds_"@ + "::"@ + last;
    assert(name =~= package + "::"@ + (kind + "::"@ + tail));
    lemma_split_piece(package, kind + "::"@ + tail);
    lemma_split_piece(kind, tail);
    lemma_split_piece("dds_"@, last);
    lemma_find_none(last);
    assert(split_colons(last) == seq![last]);
    let parts = seq![package, kind, "dds_"@, last];
    assert(split_colons(name) =~= parts);
    assert(parts.drop_last() =~= seq![package, kind, "dds_"@]);
    assert(parts.drop_last().drop_last() =~= seq![package, kind]);
    assert(parts.drop_last().drop_last().drop_last() =~= seq![package]);
    assert(parts.drop_last().drop_last().drop_last().drop_last() =~= Seq::empty());
    reveal_with_fuel(without_dds, 5);
    let kept = without_dds(parts);
    assert(kept =~= seq![package, kind, last]);
    reveal_with_fuel(join, 4);
    assert(kept.drop_last() =~= seq![package, kind]);
    assert(kept.drop_last().drop_last() =~= seq![package]);
    let joined = join(kept, "/"@);
    assert(joined =~= package + "/"@ + kind + "/"@ + last);
    assert(joined.drop_last() =~= package + "/"@ + kind + "/"@ + base);
}

/// The type that the topic at a place among those discovered has, where that is the given
/// topic and ROS knows the type.
#[verifier::opaque]
pub open spec fn type_at(topics: Seq<(String, String)>, topic: Seq<char>, k: int) -> Option<
    Seq<char>,
> {
    if topic_of_dds(topics[k].0@) == Some(topic) {
        type_of_dds(topics[k].1@)
    } else {
        None
    }
}

proof fn lemma_found_at(topics: Seq<(String, String)>, topic: Seq<char>, i: int)
    requires
        0 <= i < topics.len(),
    ensures
        type_found(topics, topic, i) == (match type_at(topics, topic, i) {
            Some(t) => Some(t),
            None => type_found(topics, topic, i + 1),
        }),
{
    reveal(type_at);
}

/// The type that is found for a topic is one that the topic has among those discovered, the
/// first that ROS knows; where there is none, no type is found.
pub proof fn found_type_is_the_topics(topics: Seq<(String, String)>, topic: Seq<char>, i: int)
    requires
        0 <= i <= topics.len(),
    ensures
        match type_found(topics, topic, i) {
            Some(t) => exists|j: int|
                i <= j < topics.len() && #[trigger] type_at(topics, topic, j) == Some(t)
                    && forall|k: int| i <= k < j ==> #[trigger] type_at(topics, topic, k) is None,
            None => forall|k: int|
                i <= k < topics.len() ==> #[trigger] type_at(topics, topic, k) is None,
        },
    decreases topics.len() - i,
{
    if i < topics.len() {
        lemma_found_at(topics, topic, i);
        if type_at(topics, topic, i) is None {
            found_type_is_the_topics(topics, topic, i + 1);
        }
    }
}

/// A name that does not begin with `rt` is not that of a topic.
pub proof fn other_names_are_no_topics(name: Seq<char>)
    ensures
        topic_of_dds(name) is Some <==> name.len() >= 2 && name[0] == 'r' && name[1] == 't',
{
    reveal_strlit("rt");
    if name.len() >= 2 {
        assert(name.take(2)[0] == name[0] && name.take(2)[1] == name[1]);
        if name[0] == 'r' && name[1] == 't' {
            assert(name.take(2) =~= "rt"@);
        }
    }
}

/// The header in front of a body is the two bytes that name the representation and two that
/// are zero.
pub proof fn header_names_the_representation(id: Seq<u8>, body: Seq<u8>)
    requires
        id.len() == 2,
    ensures
        ({
            let b = encapsulated(id, body);
            &&& b.len() == 4 + body.len()
            &&& b[0] == id[0] && b[1] == id[1] && b[2] == 0 && b[3] == 0
            &&& b.skip(4) == body
        }),
{
    assert(encapsulated(id, body).skip(4) =~= body);
}

} // verus!
