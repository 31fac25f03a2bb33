//! The ROS backend abstraction: what the protocol layer and a backend exchange.
//!
//! The boundary is JSON: the protocol layer hands messages as JSON and the backend
//! is responsible for any ROS serialization.
use vstd::prelude::*;
use vstd::slice::{slice_subrange, slice_to_vec};
use crate::json::JsonValue;
use crate::registry::with_kind;
use crate::text::{
    begins, concat2, find_last, join, join_chars, lemma_pieces_push, pieces, rfind, same_chars,
    split, split_char, starts_with, to_chars, to_text,
};

verus! {

/// Normalized QoS, derived from the protocol `qos` object plus deprecated
/// `latch`/`queue_size` shortcuts.
#[derive(Debug, Clone, Copy, PartialEq, Eq, Structural)]
pub struct QosSpec {
    pub history_keep_all: bool,
    pub depth: usize,
    pub reliability: Reliability,
    pub durability: Durability,
}

#[derive(Debug, Clone, Copy, PartialEq, Eq, Structural)]
pub enum Reliability {
    Reliable,
    BestEffort,
    SystemDefault,
    BestAvailable,
}

#[derive(Debug, Clone, Copy, PartialEq, Eq, Structural)]
pub enum Durability {
    Volatile,
    TransientLocal,
    SystemDefault,
    BestAvailable,
}

/// Reliable, transient-local, keep-last depth 100.
pub open spec fn publisher_qos() -> QosSpec {
    QosSpec {
        history_keep_all: false,
        depth: 100,
        reliability: Reliability::Reliable,
        durability: Durability::TransientLocal,
    }
}

/// Best-effort, volatile, keep-last depth 10.
pub open spec fn subscriber_qos() -> QosSpec {
    QosSpec {
        history_keep_all: false,
        depth: 10,
        reliability: Reliability::BestEffort,
        durability: Durability::Volatile,
    }
}

impl QosSpec {
    /// Default publisher QoS per the protocol: reliable, transient-local,
    /// keep-last depth 100.
    pub fn default_publisher() -> (r: Self)
        ensures
            r == publisher_qos(),
    {
        QosSpec {
            history_keep_all: false,
            depth: 100,
            reliability: Reliability::Reliable,
            durability: Durability::TransientLocal,
        }
    }

    /// Default subscriber QoS per the protocol: best-effort, volatile,
    /// keep-last depth 10.
    pub fn default_subscriber() -> (r: Self)
        ensures
            r == subscriber_qos(),
    {
        QosSpec {
            history_keep_all: false,
            depth: 10,
            reliability: Reliability::BestEffort,
            durability: Durability::Volatile,
        }
    }
}

/// What a middleware is asked for: how many samples to keep (`None` is all), and
/// whether delivery is best-effort and samples outlive their delivery.
#[derive(Debug, Clone, Copy, PartialEq, Eq, Structural)]
pub struct QosPolicy {
    pub keep_last: Option<i32>,
    pub best_effort: bool,
    pub transient_local: bool,
}

/// The 32 low bits of a number as a signed number.
pub open spec fn low_i32(n: nat) -> int {
    let low = n % 0x1_0000_0000;
    if low >= 0x8000_0000 {
        low - 0x1_0000_0000
    } else {
        low as int
    }
}

/// The policy of a QoS: only what is asked for by name is best-effort or
/// transient-local.
pub open spec fn policy_of(qos: QosSpec) -> QosPolicy {
    QosPolicy {
        keep_last: if qos.history_keep_all {
            None
        } else {
            Some(low_i32(qos.depth as nat) as i32)
        },
        best_effort: qos.reliability == Reliability::BestEffort,
        transient_local: qos.durability == Durability::TransientLocal,
    }
}

/// Maps a normalized [`QosSpec`] to what a middleware is asked for.
pub fn to_qos(qos: &QosSpec) -> (r: QosPolicy)
    ensures
        r == policy_of(*qos),
{
    let low: u64 = (qos.depth as u64) % 0x1_0000_0000;
    let depth: i32 = if low >= 0x8000_0000 {
        (low as i64 - 0x1_0000_0000) as i32
    } else {
        low as i32
    };
    QosPolicy {
        keep_last: if qos.history_keep_all {
            None
        } else {
            Some(depth)
        },
        best_effort: match qos.reliability {
            Reliability::BestEffort => true,
            _ => false,
        },
        transient_local: match qos.durability {
            Durability::TransientLocal => true,
            _ => false,
        },
    }
}

/// The number after `n`; after the last one comes 0 again.
pub open spec fn next_number(n: u64) -> u64 {
    if n == u64::MAX {
        0
    } else {
        (n + 1) as u64
    }
}

/// The number after `n`.
pub fn bump(n: u64) -> (r: u64)
    ensures
        r == next_number(n),
{
    if n == u64::MAX {
        0
    } else {
        n + 1
    }
}

/// An opaque handle identifying a created publisher.
#[derive(Debug, Clone, Copy, PartialEq, Eq, Hash, Structural)]
pub struct PublisherId(pub u64);

/// An opaque handle identifying a created subscription.
#[derive(Debug, Clone, Copy, PartialEq, Eq, Hash, Structural)]
pub struct SubscriptionId(pub u64);

/// An opaque handle identifying a hosted (advertised) service server.
#[derive(Debug, Clone, Copy, PartialEq, Eq, Hash, Structural)]
pub struct ServiceServerId(pub u64);

/// An opaque handle identifying a hosted (advertised) action server.
#[derive(Debug, Clone, Copy, PartialEq, Eq, Hash, Structural)]
pub struct ActionServerId(pub u64);

/// A received topic sample (the message as JSON).
#[derive(Debug)]
pub struct Sample {
    pub value: JsonValue,
}

/// Backend errors.
#[derive(Debug, PartialEq)]
pub enum BackendError {
    Failed(String),
    Timeout,
    Unsupported(&'static str),
}

impl BackendError {
    /// The error in words.
    pub open spec fn text(&self) -> Seq<char> {
        match self {
            BackendError::Failed(s) => "backend operation failed: "@ + s@,
            BackendError::Timeout => "service call timed out"@,
            BackendError::Unsupported(s) => "unsupported by this backend: "@ + s@,
        }
    }

    /// The error in words.
    pub fn message(&self) -> (r: String)
        ensures
            r@ == self.text(),
    {
        match self {
            BackendError::Failed(s) => concat2("backend operation failed: ", s.as_str()),
            BackendError::Timeout => "service call timed out".to_owned(),
            BackendError::Unsupported(s) => concat2("unsupported by this backend: ", s),
        }
    }
}

/// `rt/foo/bar` is the DDS name of the topic `/foo/bar`.
pub open spec fn topic_of_dds(name: Seq<char>) -> Option<Seq<char>> {
    if starts_with(name, "rt"@) {
        Some(name.skip(2))
    } else {
        None
    }
}

/// `rt/foo/bar` -> `/foo/bar` (ROS 2 topic DDS-name prefix is `rt`).
pub fn unmangle_topic(dds_name: &str) -> (r: Option<String>)
    ensures
        match r {
            Some(s) => topic_of_dds(dds_name@) == Some(s@),
            None => topic_of_dds(dds_name@) is None,
        },
{
    proof {
        reveal_strlit("rt");
    }
    let chars = to_chars(dds_name);
    if begins(chars.as_slice(), "rt") {
        let rest = slice_subrange(chars.as_slice(), 2, chars.len());
        assert(rest@ =~= dds_name@.skip(2));
        Some(to_text(rest))
    } else {
        None
    }
}

/// The position of the first `::`, or the length where there is none.
pub open spec fn find_colons(s: Seq<char>) -> int
    decreases s.len(),
{
    if s.len() < 2 {
        s.len() as int
    } else if s[0] == ':' && s[1] == ':' {
        0
    } else {
        1 + find_colons(s.drop_first())
    }
}

/// The pieces of `s` between the occurrences of `::`.
pub open spec fn split_colons(s: Seq<char>) -> Seq<Seq<char>>
    decreases s.len(),
{
    let i = find_colons(s);
    if 0 <= i && i + 1 < s.len() {
        seq![s.take(i)] + split_colons(s.skip(i + 2))
    } else {
        seq![s]
    }
}

/// The parts that are not `dds_`.
pub open spec fn without_dds(parts: Seq<Seq<char>>) -> Seq<Seq<char>>
    decreases parts.len(),
{
    if parts.len() == 0 {
        Seq::empty()
    } else {
        let rest = without_dds(parts.drop_last());
        if parts.last() == "dds_"@ {
            rest
        } else {
            rest.push(parts.last())
        }
    }
}

/// `std_msgs::msg::dds_::String_` is the DDS name of the type `std_msgs/msg/String`.
pub open spec fn type_of_dds(name: Seq<char>) -> Option<Seq<char>> {
    let parts = without_dds(split_colons(name));
    let joined = join(parts, "/"@);
    if parts.len() < 2 {
        None
    } else if joined.len() > 0 && joined.last() == '_' {
        Some(joined.drop_last())
    } else {
        Some(joined)
    }
}

proof fn lemma_find_colons(s: Seq<char>, k: int)
    requires
        0 <= k <= s.len(),
        forall|j: int| 0 <= j < k && j + 1 < s.len() ==> !((#[trigger] s[j]) == ':' && s[j + 1] == ':'),
        k + 1 >= s.len() || (s[k] == ':' && s[k + 1] == ':'),
    ensures
        k + 1 < s.len() ==> find_colons(s) == k,
        k + 1 >= s.len() ==> find_colons(s) == s.len(),
    decreases s.len(),
{
    if s.len() >= 2 && !(s[0] == ':' && s[1] == ':') {
        let t = s.drop_first();
        if k == 0 {
            assert(false);
        }
        assert forall|j: int| 0 <= j < k - 1 && j + 1 < t.len() implies !((#[trigger] t[j]) == ':'
            && t[j + 1] == ':') by {
            assert(t[j] == s[j + 1]);
        }
        lemma_find_colons(t, k - 1);
    } else if s.len() >= 2 {
        if k > 0 {
            assert(s[0] == ':');
        }
    }
}

fn colons_at(s: &[char]) -> (r: usize)
    ensures
        r as int == find_colons(s@),
        r <= s@.len(),
        r + 1 < s@.len() || r == s@.len(),
{
    let n = s.len();
    let mut i: usize = 0;
    while i < n && n - i > 1
        invariant
            n == s@.len(),
            i <= n,
            forall|j: int|
                0 <= j < i && j + 1 < n ==> !((#[trigger] s@[j]) == ':' && s@[j + 1] == ':'),
        decreases n - i,
    {
        if s[i] == ':' && s[i + 1] == ':' {
            proof {
                lemma_find_colons(s@, i as int);
            }
            return i;
        }
        i = i + 1;
    }
    proof {
        lemma_find_colons(s@, i as int);
    }
    n
}

fn split_at_colons(s: &[char]) -> (r: Vec<Vec<char>>)
    ensures
        pieces(r@) == split_colons(s@),
{
    let mut out: Vec<Vec<char>> = Vec::new();
    let n = s.len();
    let mut start: usize = 0;
    assert(s@.skip(0) =~= s@);
    assert(pieces(out@) =~= Seq::empty());
    loop
        invariant
            n == s@.len(),
            start <= n,
            split_colons(s@) == pieces(out@) + split_colons(s@.skip(start as int)),
        decreases n - start,
    {
        let rest = slice_subrange(s, start, n);
        assert(rest@ =~= s@.skip(start as int));
        let i = colons_at(rest);
        let ghost before = out@;
        let piece = slice_to_vec(slice_subrange(rest, 0, i));
        out.push(piece);
        proof {
            lemma_pieces_push(before, piece);
            assert(piece@ =~= rest@.take(i as int));
        }
        if i < rest.len() {
            assert(rest@.skip(i + 2) =~= s@.skip(start + i + 2));
            assert(split_colons(s@) =~= pieces(out@) + split_colons(s@.skip(start + i + 2)));
            start = start + i + 2;
        } else {
            assert(piece@ =~= rest@);
            assert(split_colons(s@) =~= pieces(out@));
            return out;
        }
    }
}

/// `std_msgs::msg::dds_::String_` -> `std_msgs/msg/String`.
pub fn unmangle_type(dds_type: &str) -> (r: Option<String>)
    ensures
        match r {
            Some(s) => type_of_dds(dds_type@) == Some(s@),
            None => type_of_dds(dds_type@) is None,
        },
{
    let all = split_at_colons(to_chars(dds_type).as_slice());
    let dds = to_chars("dds_");
    let ghost every = pieces(all@);
    let mut parts: Vec<Vec<char>> = Vec::new();
    assert(pieces(parts@) =~= Seq::empty());
    assert(every.take(0) =~= Seq::empty());
    for i in 0..all.len()
        invariant
            every == pieces(all@),
            dds@ == "dds_"@,
            pieces(parts@) == without_dds(every.take(i as int)),
    {
        let ghost before = parts@;
        proof {
            assert(every.take(i as int + 1).drop_last() =~= every.take(i as int));
            assert(every.take(i as int + 1).last() == all@[i as int]@);
        }
        if !same_chars(all[i].as_slice(), dds.as_slice()) {
            let part = slice_to_vec(all[i].as_slice());
            parts.push(part);
            proof {
                lemma_pieces_push(before, part);
            }
        }
    }
    assert(every.take(every.len() as int) =~= every);
    if parts.len() < 2 {
        return None;
    }
    let joined = join_chars(parts.as_slice(), to_chars("/").as_slice());
    let n = joined.len();
    if n > 0 && joined[n - 1] == '_' {
        let cut = slice_subrange(joined.as_slice(), 0, n - 1);
        assert(cut@ =~= joined@.drop_last());
        Some(to_text(cut))
    } else {
        Some(to_text(joined.as_slice()))
    }
}

/// Why a namespace and a base name do not make a ROS 2 name, if they do not.
pub uninterp spec fn name_fault(namespace: Seq<char>, base: Seq<char>) -> Option<Seq<char>>;

/// Whether a text can be one part of a ROS 2 name: ASCII letters, digits and underscores,
/// no digit in front and no two underscores in a row.
pub open spec fn name_part(t: Seq<char>) -> bool {
    &&& t.len() > 0
    &&& !('0' <= t[0] && t[0] <= '9')
    &&& forall|i: int|
        0 <= i < t.len() ==> {
            let c = #[trigger] t[i];
            ('a' <= c && c <= 'z') || ('A' <= c && c <= 'Z') || ('0' <= c && c <= '9') || c == '_'
        }
    &&& forall|i: int, j: int|
        0 <= i && j == i + 1 && j < t.len() ==> !(#[trigger] t[i] == '_' && #[trigger] t[j] == '_')
}

/// A namespace without the `/` that it may begin with.
pub open spec fn relative(namespace: Seq<char>) -> Seq<char> {
    if namespace.len() > 0 && namespace[0] == '/' {
        namespace.skip(1)
    } else {
        namespace
    }
}

/// Whether a namespace and a base name make a ROS 2 name: the base name is one part, and
/// the namespace, after the `/` that it may begin with, is nothing or parts with `/`
/// between them.
pub open spec fn is_ros_name(namespace: Seq<char>, base: Seq<char>) -> bool {
    let rel = relative(namespace);
    let parts = split(rel, '/');
    name_part(base) && (rel.len() == 0 || forall|i: int|
        0 <= i < parts.len() ==> name_part(#[trigger] parts[i]))
}

/// `ros2_client::Name::new`, of which only the error is of interest. It accepts the two
/// texts where they make a ROS 2 name, and no others; with which words it refuses them
/// depends on the two texts alone.
#[verifier::external_body]
fn check_name(namespace: &str, base: &str) -> (r: Option<String>)
    ensures
        r is None <==> is_ros_name(namespace@, base@),
        match r {
            Some(s) => name_fault(namespace@, base@) == Some(s@),
            None => name_fault(namespace@, base@) is None,
        },
{
    ros2_client::Name::new(namespace, base).err().map(|e| e.to_string())
}

/// The parts of a topic name and of a type name, as a ROS 2 client library takes
/// them.
#[derive(Debug, PartialEq)]
pub struct RosNames {
    pub namespace: String,
    pub base: String,
    pub package: String,
    pub ros_type: String,
}

/// The namespace and the base name of a topic: what stands before and behind its last
/// `/`. The namespace of a topic without another `/` is `/`.
pub open spec fn topic_parts(topic: Seq<char>) -> (Seq<char>, Seq<char>) {
    let i = rfind(topic, '/');
    if i > 0 {
        (topic.take(i), topic.skip(i + 1))
    } else if i == 0 {
        ("/"@, topic.skip(1))
    } else {
        ("/"@, topic)
    }
}

/// The package and the type of `package/kind/Type` or `package/Type`.
pub open spec fn type_parts(name: Seq<char>) -> Option<(Seq<char>, Seq<char>)> {
    let parts = split(name, '/');
    if parts.len() == 3 {
        Some((parts[0], parts[2]))
    } else if parts.len() == 2 {
        Some((parts[0], parts[1]))
    } else {
        None
    }
}

/// Splits a topic into its namespace and its base name.
pub fn split_topic(topic: &str) -> (r: (String, String))
    ensures
        (r.0@, r.1@) == topic_parts(topic@),
{
    let chars = to_chars(topic);
    let n = chars.len();
    match find_last(chars.as_slice(), '/') {
        Some(i) => {
            let base = slice_subrange(chars.as_slice(), i + 1, n);
            assert(base@ =~= topic@.skip(i + 1));
            if i == 0 {
                ("/".to_owned(), to_text(base))
            } else {
                let ns = slice_subrange(chars.as_slice(), 0, i);
                assert(ns@ =~= topic@.take(i as int));
                (to_text(ns), to_text(base))
            }
        },
        None => ("/".to_owned(), topic.to_owned()),
    }
}

/// What the names of a topic and of its type come to, given why the topic is refused,
/// if it is.
pub open spec fn named(
    topic: Seq<char>,
    ros_type: Seq<char>,
    fault: Option<Seq<char>>,
    r: Result<RosNames, BackendError>,
) -> bool {
    let (ns, base) = topic_parts(topic);
    match fault {
        Some(why) => r matches Err(BackendError::Failed(s)) && s@ == "bad topic '"@ + topic + "': "@
            + why,
        None => match type_parts(ros_type) {
            None => r matches Err(BackendError::Failed(s)) && s@ == "bad type '"@ + ros_type
                + "'"@,
            Some((package, ty)) => r matches Ok(n) && n.namespace@ == ns && n.base@ == base
                && n.package@ == package && n.ros_type@ == ty,
        },
    }
}

/// Converts a rosbridge topic and a `pkg/msg/Type` name into the parts that a ROS 2
/// client library takes, given why it refuses the topic, if it does.
pub fn names_of(topic: &str, ros_type: &str, fault: Option<String>) -> (r: Result<
    RosNames,
    BackendError,
>)
    ensures
        named(
            topic@,
            ros_type@,
            match fault {
                Some(s) => Some(s@),
                None => None,
            },
            r,
        ),
{
    if let Some(why) = fault {
        let mut s = "bad topic '".to_owned();
        s.append(topic);
        s.append("': ");
        s.append(why.as_str());
        return Err(BackendError::Failed(s));
    }
    let (namespace, base) = split_topic(topic);
    let parts = split_char(to_chars(ros_type).as_slice(), '/');
    let ghost p = pieces(parts@);
    if parts.len() == 3 {
        assert(p[0] == parts@[0]@ && p[2] == parts@[2]@);
        Ok(
            RosNames {
                namespace,
                base,
                package: to_text(parts[0].as_slice()),
                ros_type: to_text(parts[2].as_slice()),
            },
        )
    } else if parts.len() == 2 {
        assert(p[0] == parts@[0]@ && p[1] == parts@[1]@);
        Ok(
            RosNames {
                namespace,
                base,
                package: to_text(parts[0].as_slice()),
                ros_type: to_text(parts[1].as_slice()),
            },
        )
    } else {
        let mut s = "bad type '".to_owned();
        s.append(ros_type);
        s.append("'");
        Err(BackendError::Failed(s))
    }
}

/// Converts a rosbridge topic and a `pkg/msg/Type` name into the parts that a ROS 2
/// client library takes.
pub fn ros_names(topic: &str, ros_type: &str) -> (r: Result<RosNames, BackendError>)
    ensures
        named(
            topic@,
            ros_type@,
            name_fault(topic_parts(topic@).0, topic_parts(topic@).1),
            r,
        ),
        r is Ok <==> is_ros_name(topic_parts(topic@).0, topic_parts(topic@).1) && type_parts(
            ros_type@,
        ) is Some,
{
    let (namespace, base) = split_topic(topic);
    let fault = check_name(namespace.as_str(), base.as_str());
    names_of(topic, ros_type, fault)
}

/// A ROS 2 type string in the `pkg/msg/Type` form: normalizes category-omitted names.
pub fn ros_type_string(ros_type: &str) -> (r: String)
    ensures
        r@ == with_kind(ros_type@, "msg"@),
{
    crate::registry::normalize(ros_type, "msg")
}

/// The base name of a topic is what follows its last `/`, and its namespace what stands
/// before that; without one, or with nothing before it, the namespace is `/`.
pub proof fn topic_is_its_parts(ns: Seq<char>, base: Seq<char>)
    requires
        !base.contains('/'),
    ensures
        ns.len() > 0 ==> topic_parts(ns + "/"@ + base) == (ns, base),
        topic_parts("/"@ + base) == ("/"@, base),
        topic_parts(base) == ("/"@, base),
{
    reveal_strlit("/");
    assert forall|i: int| 0 <= i < base.len() implies #[trigger] base[i] != '/' by {
        if base[i] == '/' {
            assert(base.contains('/'));
        }
    }
    let full = ns + "/"@ + base;
    let e = Seq::<char>::empty();
    crate::type_laws::lemma_rfind(ns, '/', base);
    crate::type_laws::lemma_rfind(e, '/', base);
    crate::type_laws::lemma_rfind_none(base, '/');
    assert(full =~= ns + seq!['/'] + base);
    assert("/"@ + base =~= e + seq!['/'] + base);
    assert(full.take(ns.len() as int) =~= ns);
    assert(full.skip(ns.len() as int + 1) =~= base);
    assert(("/"@ + base).skip(1) =~= base);
}

/// The package and the type of a full name are its first and its last part, with the kind
/// or without it.
pub proof fn type_is_its_parts(package: Seq<char>, kind: Seq<char>, base: Seq<char>)
    requires
        !package.contains('/'),
        !kind.contains('/'),
        !base.contains('/'),
    ensures
        type_parts(package + "/"@ + kind + "/"@ + base) == Some((package, base)),
        type_parts(package + "/"@ + base) == Some((package, base)),
        type_parts(base) is None,
{
    reveal_strlit("/");
    let rest = kind + seq!['/'] + base;
    assert(package + "/"@ + base =~= package + seq!['/'] + base);
    assert(package + "/"@ + kind + "/"@ + base =~= package + seq!['/'] + rest);
    crate::text::split_at_separator(package, base, '/');
    crate::text::split_at_separator(package, rest, '/');
    crate::text::split_at_separator(kind, base, '/');
    crate::text::find_is_first(package, '/');
    crate::text::find_is_first(kind, '/');
    crate::text::find_is_first(base, '/');
    assert(split(package, '/') =~= seq![package]);
    assert(split(kind, '/') =~= seq![kind]);
    assert(split(base, '/') =~= seq![base]);
    assert(split(package + "/"@ + base, '/') =~= seq![package, base]);
    assert(split(package + "/"@ + kind + "/"@ + base, '/') =~= seq![package, kind, base]);
}

/// Whether a character can stand in a part of a ROS 2 name.
pub open spec fn name_char(c: char) -> bool {
    ('a' <= c && c <= 'z') || ('A' <= c && c <= 'Z') || ('0' <= c && c <= '9') || c == '_'
}

/// A part of a name begins with one of its characters that is no digit, and goes on with
/// further ones, of which two underscores do not follow each other.
pub proof fn name_parts_grow(t: Seq<char>, c: char)
    ensures
        !name_part(Seq::<char>::empty()),
        name_part(seq![c]) <==> name_char(c) && !('0' <= c && c <= '9'),
        t.len() > 0 ==> (name_part(t.push(c)) <==> name_part(t) && name_char(c) && !(c == '_'
            && t.last() == '_')),
{
    let u = t.push(c);
    if t.len() > 0 {
        assert(u[0] == t[0]);
        if name_part(u) {
            assert forall|i: int| 0 <= i < t.len() implies name_char(#[trigger] t[i]) by {
                assert(u[i] == t[i]);
            }
            assert(u[t.len() - 1] == t.last() && u[t.len() as int] == c);
            assert forall|i: int, j: int| 0 <= i && j == i + 1 && j < t.len() implies !(#[trigger]
            t[i] == '_' && #[trigger] t[j] == '_') by {
                assert(u[i] == t[i] && u[j] == t[j]);
            }
        }
        if name_part(t) && name_char(c) && !(c == '_' && t.last() == '_') {
            assert forall|i: int| 0 <= i < u.len() implies name_char(#[trigger] u[i]) by {
                if i < t.len() {
                    assert(u[i] == t[i]);
                }
            }
            assert forall|i: int, j: int| 0 <= i && j == i + 1 && j < u.len() implies !(#[trigger]
            u[i] == '_' && #[trigger] u[j] == '_') by {
                if j < t.len() {
                    assert(u[i] == t[i] && u[j] == t[j]);
                } else {
                    assert(u[i] == t.last() && u[j] == c);
                }
            }
        }
    }
    if name_char(c) && !('0' <= c && c <= '9') {
        assert(seq![c][0] == c);
    }
    if name_part(seq![c]) {
        assert(name_char(seq![c][0]));
    }
}

/// A namespace of a ROS 2 name is parts with `/` between them, the first of which may have a
/// `/` in front.
pub proof fn namespaces_grow(part: Seq<char>, rest: Seq<char>, base: Seq<char>)
    requires
        !part.contains('/'),
        rest.len() > 0,
        rest[0] != '/',
    ensures
        is_ros_name("/"@, base) <==> name_part(base),
        is_ros_name(""@, base) <==> name_part(base),
        is_ros_name("/"@ + rest, base) <==> is_ros_name(rest, base),
        part.len() > 0 ==> (is_ros_name(part, base) <==> name_part(part) && name_part(base)),
        part.len() > 0 ==> (is_ros_name(part + "/"@ + rest, base) <==> name_part(part)
            && is_ros_name(rest, base)),
{
    reveal_strlit("/");
    reveal_strlit("");
    assert("/"@.skip(1).len() == 0);
    assert(("/"@ + rest).skip(1) =~= rest);
    assert(("/"@ + rest)[0] == '/');
    assert(relative("/"@ + rest) == rest && relative(rest) == rest);
    crate::text::find_is_first(part, '/');
    assert(split(part, '/') =~= seq![part]);
    if part.len() > 0 {
        if part[0] == '/' {
            assert(part.contains('/'));
        }
        let full = part + "/"@ + rest;
        assert(full =~= part + seq!['/'] + rest);
        assert(full[0] == part[0]);
        crate::text::split_at_separator(part, rest, '/');
        let (p, q) = (split(full, '/'), split(rest, '/'));
        assert(relative(full) == full && relative(part) == part);
        assert(p =~= seq![part] + q);
        if is_ros_name(full, base) {
            assert(p[0] == part);
            assert forall|i: int| 0 <= i < q.len() implies name_part(#[trigger] q[i]) by {
                assert(p[i + 1] == q[i]);
            }
        }
        if name_part(part) && is_ros_name(rest, base) {
            assert forall|i: int| 0 <= i < p.len() implies name_part(#[trigger] p[i]) by {
                if i > 0 {
                    assert(p[i] == q[i - 1]);
                }
            }
        }
        if is_ros_name(part, base) {
            assert(split(part, '/')[0] == part);
        }
    }
}

} // verus!
