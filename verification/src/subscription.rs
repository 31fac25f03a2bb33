//! Per-subscription parameters and the multi-subscription coalescing rules used
//! when one client subscribes to the same topic more than once.
use vstd::prelude::*;
use crate::compression::Compression;
use crate::dict::{lemma_dict_dom, Dict};
use crate::text::texts;

verus! {

/// Parameters for a single `subscribe` request (one `id`/`sid`).
#[derive(Debug, Clone, Copy, PartialEq, Eq, Structural)]
pub struct SubParams {
    /// Minimum milliseconds between forwarded messages (0 = unthrottled).
    pub throttle_rate: u64,
    /// Buffer length when throttling (0 = drop instead of queue).
    pub queue_length: usize,
    /// Maximum characters before fragmenting (None = never fragment).
    pub fragment_size: Option<usize>,
    pub compression: Compression,
}

/// Unthrottled, without a queue, without fragments and without compression.
pub open spec fn default_params() -> SubParams {
    SubParams {
        throttle_rate: 0,
        queue_length: 0,
        fragment_size: None,
        compression: Compression::Plain,
    }
}

impl Default for SubParams {
    fn default() -> (r: Self)
        ensures
            r == default_params(),
    {
        SubParams {
            throttle_rate: 0,
            queue_length: 0,
            fragment_size: None,
            compression: Compression::Plain,
        }
    }
}

/// The lesser of two sizes; none is no limit.
pub open spec fn lesser_size(a: Option<usize>, b: Option<usize>) -> Option<usize> {
    match (a, b) {
        (Some(x), Some(y)) => Some(
            if x <= y {
                x
            } else {
                y
            },
        ),
        (Some(x), None) => Some(x),
        (None, y) => y,
    }
}

/// The lowest common denominator of two requests.
pub open spec fn combined(a: SubParams, b: SubParams) -> SubParams {
    SubParams {
        throttle_rate: if a.throttle_rate <= b.throttle_rate {
            a.throttle_rate
        } else {
            b.throttle_rate
        },
        queue_length: if a.queue_length <= b.queue_length {
            a.queue_length
        } else {
            b.queue_length
        },
        fragment_size: lesser_size(a.fragment_size, b.fragment_size),
        compression: if b.compression.precedence() > a.compression.precedence() {
            b.compression
        } else {
            a.compression
        },
    }
}

/// The lowest common denominator of requests; without any it is the default.
pub open spec fn coalesced(s: Seq<SubParams>) -> SubParams
    decreases s.len(),
{
    if s.len() == 0 {
        default_params()
    } else if s.len() == 1 {
        s[0]
    } else {
        combined(coalesced(s.drop_last()), s.last())
    }
}

/// Coalesces multiple subscriptions on the same topic to the "lowest common
/// denominator": min throttle_rate, min queue_length, min (non-None) fragment_size,
/// and the highest-precedence compression.
pub fn coalesce(params: &[SubParams]) -> (r: SubParams)
    ensures
        r == coalesced(params@),
{
    if params.len() == 0 {
        return SubParams::default();
    }
    let mut out = params[0];
    assert(params@.take(1) =~= seq![params@[0]]);
    for i in 1..params.len()
        invariant
            params@.len() > 0,
            out == coalesced(params@.take(i as int)),
    {
        let p = params[i];
        if p.throttle_rate < out.throttle_rate {
            out.throttle_rate = p.throttle_rate;
        }
        if p.queue_length < out.queue_length {
            out.queue_length = p.queue_length;
        }
        out.fragment_size = match (out.fragment_size, p.fragment_size) {
            (Some(a), Some(b)) => Some(
                if a <= b {
                    a
                } else {
                    b
                },
            ),
            (Some(a), None) => Some(a),
            (None, b) => b,
        };
        if p.compression.rank() > out.compression.rank() {
            out.compression = p.compression;
        }
        assert(params@.take(i as int + 1).drop_last() =~= params@.take(i as int));
    }
    assert(params@.take(params@.len() as int) =~= params@);
    out
}

/// Whether `r` is the lowest common denominator of requests, field by field: the
/// least throttle rate, queue length and fragment size that one of them has, and
/// the compression of highest precedence.
pub open spec fn is_lowest(s: Seq<SubParams>, r: SubParams) -> bool {
    &&& forall|i: int| 0 <= i < s.len() ==> r.throttle_rate <= (#[trigger] s[i]).throttle_rate
    &&& exists|i: int| 0 <= i < s.len() && r.throttle_rate == (#[trigger] s[i]).throttle_rate
    &&& forall|i: int| 0 <= i < s.len() ==> r.queue_length <= (#[trigger] s[i]).queue_length
    &&& exists|i: int| 0 <= i < s.len() && r.queue_length == (#[trigger] s[i]).queue_length
    &&& forall|i: int|
        0 <= i < s.len() ==> ((#[trigger] s[i]).fragment_size matches Some(x) ==> (
        r.fragment_size matches Some(y) && y <= x))
    &&& exists|i: int| 0 <= i < s.len() && r.fragment_size == (#[trigger] s[i]).fragment_size
    &&& forall|i: int|
        0 <= i < s.len() ==> (#[trigger] s[i]).compression.precedence()
            <= r.compression.precedence()
    &&& exists|i: int| 0 <= i < s.len() && r.compression == (#[trigger] s[i]).compression
}

/// Coalescing takes the lowest of each parameter and the highest compression.
pub proof fn coalesced_is_lowest(s: Seq<SubParams>)
    requires
        s.len() > 0,
    ensures
        is_lowest(s, coalesced(s)),
    decreases s.len(),
{
    let r = coalesced(s);
    if s.len() == 1 {
        assert(r == s[0]);
    } else {
        let t = s.drop_last();
        let q = coalesced(t);
        coalesced_is_lowest(t);
        let n = s.len() - 1;
        assert(s[n] == s.last());
        assert forall|i: int| 0 <= i < s.len() implies r.throttle_rate <= (
        #[trigger] s[i]).throttle_rate && r.queue_length <= s[i].queue_length && (
        s[i].fragment_size matches Some(x) ==> (r.fragment_size matches Some(y) && y <= x))
            && s[i].compression.precedence() <= r.compression.precedence() by {
            if i < n {
                assert(t[i] == s[i]);
            }
        }
        let a = choose|i: int| 0 <= i < t.len() && q.throttle_rate == (#[trigger] t[i]).throttle_rate;
        let b = choose|i: int| 0 <= i < t.len() && q.queue_length == (#[trigger] t[i]).queue_length;
        let c = choose|i: int| 0 <= i < t.len() && q.fragment_size == (#[trigger] t[i]).fragment_size;
        let d = choose|i: int| 0 <= i < t.len() && q.compression == (#[trigger] t[i]).compression;
        assert(t[a] == s[a] && t[b] == s[b] && t[c] == s[c] && t[d] == s[d]);
        assert(r.throttle_rate == s[a].throttle_rate || r.throttle_rate == s[n].throttle_rate);
        assert(r.queue_length == s[b].queue_length || r.queue_length == s[n].queue_length);
        assert(r.fragment_size == s[c].fragment_size || r.fragment_size == s[n].fragment_size);
        assert(r.compression == s[d].compression || r.compression == s[n].compression);
    }
}

/// The order of the requests does not matter, nor does how often one occurs.
pub proof fn coalescing_ignores_order(a: Seq<SubParams>, b: Seq<SubParams>)
    requires
        forall|p: SubParams| a.contains(p) <==> b.contains(p),
    ensures
        coalesced(a) == coalesced(b),
{
    if a.len() == 0 || b.len() == 0 {
        if a.len() > 0 {
            assert(a.contains(a[0]));
        }
        if b.len() > 0 {
            assert(b.contains(b[0]));
        }
    } else {
        coalesced_is_lowest(a);
        coalesced_is_lowest(b);
        lemma_lowest_unique(a, b, coalesced(a), coalesced(b));
    }
}

proof fn lemma_lowest_unique(a: Seq<SubParams>, b: Seq<SubParams>, x: SubParams, y: SubParams)
    requires
        forall|p: SubParams| a.contains(p) <==> b.contains(p),
        is_lowest(a, x),
        is_lowest(b, y),
    ensures
        x == y,
{
    lemma_below(a, b, x, y);
    lemma_below(b, a, y, x);
    assert(x.fragment_size == y.fragment_size);
    assert(x.compression == y.compression);
}

/// What is lowest of `a` is at most what is lowest of `b`.
proof fn lemma_below(a: Seq<SubParams>, b: Seq<SubParams>, x: SubParams, y: SubParams)
    requires
        forall|p: SubParams| b.contains(p) ==> a.contains(p),
        is_lowest(a, x),
        is_lowest(b, y),
    ensures
        x.throttle_rate <= y.throttle_rate,
        x.queue_length <= y.queue_length,
        y.fragment_size matches Some(v) ==> (x.fragment_size matches Some(u) && u <= v),
        y.compression.precedence() <= x.compression.precedence(),
{
    let i = choose|i: int| 0 <= i < b.len() && y.throttle_rate == (#[trigger] b[i]).throttle_rate;
    lemma_found(a, b, i);
    let i = choose|i: int| 0 <= i < b.len() && y.queue_length == (#[trigger] b[i]).queue_length;
    lemma_found(a, b, i);
    let i = choose|i: int| 0 <= i < b.len() && y.fragment_size == (#[trigger] b[i]).fragment_size;
    lemma_found(a, b, i);
    let i = choose|i: int| 0 <= i < b.len() && y.compression == (#[trigger] b[i]).compression;
    lemma_found(a, b, i);
}

proof fn lemma_found(a: Seq<SubParams>, b: Seq<SubParams>, i: int)
    requires
        forall|p: SubParams| b.contains(p) ==> a.contains(p),
        0 <= i < b.len(),
    ensures
        exists|j: int| 0 <= j < a.len() && #[trigger] a[j] == b[i],
{
    assert(b.contains(b[i]));
}

/// The requests of a dictionary, in some order.
pub open spec fn requests(m: Map<Seq<char>, SubParams>) -> Seq<SubParams> {
    m.dom().to_seq().map_values(|k: Seq<char>| m[k])
}

/// The lowest common denominator of the requests of a dictionary.
pub open spec fn agreed(m: Map<Seq<char>, SubParams>) -> SubParams {
    coalesced(requests(m))
}

proof fn lemma_requests(m: Map<Seq<char>, SubParams>, p: SubParams)
    requires
        m.dom().finite(),
    ensures
        requests(m).contains(p) <==> exists|k: Seq<char>| #[trigger] m.dom().contains(k) && m[k] == p,
{
    let keys = m.dom().to_seq();
    m.dom().lemma_to_seq_to_set_id();
    assert(keys.to_set() == m.dom());
    if requests(m).contains(p) {
        let i = choose|i: int| 0 <= i < requests(m).len() && requests(m)[i] == p;
        assert(keys.to_set().contains(keys[i]));
        assert(m.dom().contains(keys[i]) && m[keys[i]] == p);
    }
    if exists|k: Seq<char>| #[trigger] m.dom().contains(k) && m[k] == p {
        let k = choose|k: Seq<char>| #[trigger] m.dom().contains(k) && m[k] == p;
        assert(keys.to_set().contains(k));
        let i = choose|i: int| 0 <= i < keys.len() && keys[i] == k;
        assert(requests(m)[i] == p);
    }
}

/// Coalesces the requests of a dictionary.
pub fn coalesce_all(d: &Dict<SubParams>) -> (r: SubParams)
    ensures
        r == agreed(d@),
{
    let keys = d.keys();
    let mut all: Vec<SubParams> = Vec::new();
    for i in 0..keys.len()
        invariant
            texts(keys@).to_set() == d@.dom(),
            all@.len() == i,
            forall|j: int| 0 <= j < i ==> #[trigger] all@[j] == d@[texts(keys@)[j]],
    {
        let key = keys[i].as_str();
        assert(texts(keys@)[i as int] == key@);
        assert(texts(keys@).to_set().contains(key@));
        if let Some(p) = d.get(key) {
            all.push(*p);
        }
    }
    proof {
        lemma_dict_dom(d.entries@, Seq::empty());
        assert forall|p: SubParams| all@.contains(p) <==> requests(d@).contains(p) by {
            lemma_requests(d@, p);
            if all@.contains(p) {
                let j = choose|j: int| 0 <= j < all@.len() && all@[j] == p;
                assert(texts(keys@).to_set().contains(texts(keys@)[j]));
                assert(d@.dom().contains(texts(keys@)[j]));
            }
            if exists|k: Seq<char>| #[trigger] d@.dom().contains(k) && d@[k] == p {
                let k = choose|k: Seq<char>| #[trigger] d@.dom().contains(k) && d@[k] == p;
                assert(texts(keys@).to_set().contains(k));
                let j = choose|j: int| 0 <= j < texts(keys@).len() && texts(keys@)[j] == k;
                assert(all@[j] == p);
            }
        }
        coalescing_ignores_order(all@, requests(d@));
    }
    coalesce(all.as_slice())
}

/// What is agreed is, field by field, the lowest that one of the requests asks for,
/// and of the compressions the one of highest precedence.
pub proof fn agreed_is_lowest(m: Map<Seq<char>, SubParams>, k: Seq<char>)
    requires
        m.dom().finite(),
        m.dom().contains(k),
    ensures
        is_lowest(requests(m), agreed(m)),
        requests(m).contains(m[k]),
{
    lemma_requests(m, m[k]);
    let i = choose|i: int| 0 <= i < requests(m).len() && requests(m)[i] == m[k];
    coalesced_is_lowest(requests(m));
}

/// A single request is what is agreed.
pub proof fn single_request_is_agreed(k: Seq<char>, p: SubParams)
    ensures
        agreed(Map::<Seq<char>, SubParams>::empty().insert(k, p)) == p,
{
    let m = Map::<Seq<char>, SubParams>::empty().insert(k, p);
    assert(m.dom() =~= Set::<Seq<char>>::empty().insert(k));
    assert forall|q: SubParams| requests(m).contains(q) <==> seq![p].contains(q) by {
        lemma_requests(m, q);
        assert(m.dom().contains(k));
        assert(seq![p][0] == p);
    }
    coalescing_ignores_order(requests(m), seq![p]);
}

} // verus!
