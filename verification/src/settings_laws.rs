//! Laws of the words and numbers by which clients and the operator say how things are to
//! be done: qualities of service, compressions, levels and lists of patterns.
use vstd::prelude::*;
use crate::backend::{policy_of, Durability, QosSpec, Reliability};
use crate::compression::Compression;
use crate::config::{glob_item, glob_items, glob_of, strip_back, strip_front, Config};
use crate::declaration_laws::{all_white, lemma_trim_start_white, lemma_trim_white};
use crate::dispatch::step;
use crate::effect::EffectModel;
use crate::incoming::{Advertise, IncomingMessage, Publish, SetLevel, Subscribe};
use crate::outgoing::{label_names_level, StatusLevel};
use crate::qos::{QosDuration, QosProfile};
use crate::session::{forwards, SessionModel};
use crate::text::{lower, split, split_at_separator, trim, trim_end, trim_start, white};
use crate::topics::profiled;

verus! {

/// A profile decides each quality on its own: what it says of one counts, and what it does
/// not say stays as it was.
pub proof fn each_quality_is_decided_on_its_own(q: QosProfile, base: QosSpec)
    ensures
        ({
            let r = profiled(Some(q), base);
            &&& match q.history {
                Some(h) => r.history_keep_all <==> h@ == "keep_all"@,
                None => r.history_keep_all == base.history_keep_all,
            }
            &&& match q.depth {
                Some(d) => r.depth == d,
                None => r.depth == base.depth,
            }
            &&& match q.reliability {
                Some(w) => {
                    &&& r.reliability is Reliable <==> w@ == "reliable"@
                    &&& r.reliability is BestEffort <==> w@ == "best_effort"@
                    &&& r.reliability is BestAvailable <==> w@ == "best_available"@
                },
                None => r.reliability == base.reliability,
            }
            &&& match q.durability {
                Some(w) => {
                    &&& r.durability is TransientLocal <==> w@ == "transient_local"@
                    &&& r.durability is Volatile <==> w@ == "volatile"@
                    &&& r.durability is BestAvailable <==> w@ == "best_available"@
                },
                None => r.durability == base.durability,
            }
        }),
{
    reveal_strlit("reliable");
    reveal_strlit("best_effort");
    reveal_strlit("best_available");
    reveal_strlit("transient_local");
    reveal_strlit("volatile");
    assert("reliable"@.len() == 8 && "best_effort"@.len() == 11 && "best_available"@.len() == 14);
    assert("transient_local"@.len() == 15 && "volatile"@.len() == 8);
}

/// What is asked for without a profile: publishers are reliable and keep their last samples
/// for those who come later, subscribers take what comes. What the client says in its
/// operation is what is asked of the backend.
pub proof fn asked_qualities_are_the_clients(
    s: SessionModel,
    cfg: Config,
    types: Map<Seq<char>, Seq<char>>,
    a: Advertise,
    p: Publish,
    q: Subscribe,
    found: Option<Seq<char>>,
    now: (i32, u32),
    clock: u64,
)
    ensures
        step(s, cfg, types, IncomingMessage::Advertise(a), found, now, clock).1 matches
            EffectModel::Advertise { qos, .. } ==> {
            &&& a.latch == Some(true) ==> qos.durability is TransientLocal
            &&& a.queue_size matches Some(n) ==> qos.depth == n
            &&& a.qos is None && a.latch is None && a.queue_size is None ==> qos == (QosSpec {
                history_keep_all: false,
                depth: 100,
                reliability: Reliability::Reliable,
                durability: Durability::TransientLocal,
            })
            &&& (a.qos matches Some(w) && w.depth matches Some(d) && a.queue_size is None) ==> qos.depth
                == a.qos.unwrap().depth.unwrap()
        },
        step(s, cfg, types, IncomingMessage::Publish(p), found, now, clock).1 matches
            EffectModel::AdvertiseAndPublish { qos, .. } ==> {
            &&& p.latch == Some(true) ==> qos.durability is TransientLocal
            &&& p.qos is None && p.latch is None ==> qos == (QosSpec {
                history_keep_all: false,
                depth: 100,
                reliability: Reliability::Reliable,
                durability: Durability::TransientLocal,
            })
            &&& (p.qos matches Some(w) && w.depth is Some) ==> qos.depth
                == p.qos.unwrap().depth.unwrap()
        },
        step(s, cfg, types, IncomingMessage::Subscribe(q), found, now, clock).1 matches
            EffectModel::Subscribe { qos, .. } ==> {
            &&& q.qos is None ==> qos == (QosSpec {
                history_keep_all: false,
                depth: 10,
                reliability: Reliability::BestEffort,
                durability: Durability::Volatile,
            })
            &&& (q.qos matches Some(w) && w.depth is Some) ==> qos.depth
                == q.qos.unwrap().depth.unwrap()
        },
{
}

/// The backend keeps as many samples as were asked for, is best-effort and keeps samples
/// for later exactly where that was asked for.
pub proof fn policy_is_what_was_asked(q: QosSpec)
    ensures
        policy_of(q).best_effort <==> q.reliability is BestEffort,
        policy_of(q).transient_local <==> q.durability is TransientLocal,
        q.history_keep_all ==> policy_of(q).keep_last is None,
        !q.history_keep_all && q.depth <= i32::MAX ==> (policy_of(q).keep_last matches Some(n) && n
            == q.depth),
{
}

/// A duration in parts is those parts, one in seconds has their whole number and the rest in
/// billionths, and one in words is without end.
pub proof fn durations_are_read(d: QosDuration)
    ensures
        d matches QosDuration::Parts(p) ==> d.parts() == (p.sec as int, p.nanosec as nat),
        d matches QosDuration::Seconds(x) ==> d.parts() == (x.truncated(), x.billionths()),
        d is Keyword ==> d.parts().0 == i64::MAX,
{
}

/// Each compression has its name, any other name is none, and of several that are asked for
/// `cbor-raw` goes before `cbor`, that before `png`, and that before none.
pub proof fn compressions_have_names_and_an_order(s: Seq<char>)
    ensures
        Compression::named(s) is Png <==> s == "png"@,
        Compression::named(s) is Cbor <==> s == "cbor"@,
        Compression::named(s) is CborRaw <==> s == "cbor-raw"@,
        Compression::CborRaw.precedence() > Compression::Cbor.precedence(),
        Compression::Cbor.precedence() > Compression::Png.precedence(),
        Compression::Png.precedence() > Compression::Plain.precedence(),
{
    reveal_strlit("png");
    reveal_strlit("cbor");
    reveal_strlit("cbor-raw");
    assert("png"@.len() == 3 && "cbor"@.len() == 4 && "cbor-raw"@.len() == 8);
}

/// A client that sets a level by its name gets what is at most as verbose as that level, in
/// letters of either case; any other name is refused, and the level stays.
pub proof fn set_level_counts(
    s: SessionModel,
    cfg: Config,
    types: Map<Seq<char>, Seq<char>>,
    m: SetLevel,
    level: StatusLevel,
    other: StatusLevel,
    found: Option<Seq<char>>,
    now: (i32, u32),
    clock: u64,
)
    ensures
        ({
            let (t, e) = step(s, cfg, types, IncomingMessage::SetLevel(m), found, now, clock);
            let small = m.level@.map_values(|c: char| lower(c));
            &&& t == (SessionModel { status_level: t.status_level, ..s })
            &&& m.level@ == level.label() ==> e is Nothing && t.status_level == level
            &&& m.level@ == level.label() ==> (forwards(t, other) <==> match level {
                StatusLevel::Off => other is Off,
                StatusLevel::Error => other is Off || other is Error,
                StatusLevel::Warning => !(other is Info),
                StatusLevel::Info => true,
            })
            &&& small == level.label() ==> e is Nothing && t.status_level == level
            &&& small != "none"@ && small != "error"@ && small != "warning"@ && small != "warn"@
                && small != "info"@ ==> e is Report && t == s
        }),
{
    label_names_level(level);
    let small = m.level@.map_values(|c: char| lower(c));
    if small == level.label() {
        let again = small.map_values(|c: char| lower(c));
        assert(again =~= small) by {
            assert forall|i: int| 0 <= i < small.len() implies again[i] == small[i] by {
                assert(small[i] == lower(m.level@[i]));
            }
        }
        assert(StatusLevel::named(small) == Some(level));
        assert(StatusLevel::named(m.level@) == StatusLevel::named(small));
    }
}

proof fn lemma_strip_front(q: char, s: Seq<char>)
    requires
        q == '\'' || q == '"',
        s.len() > 0,
        s[0] != '\'' && s[0] != '"',
    ensures
        strip_front(seq![q] + s, '\'', '"') == s,
        strip_front(s, '\'', '"') == s,
{
    reveal_with_fuel(strip_front, 2);
    assert((seq![q] + s)[0] == q);
    assert((seq![q] + s).drop_first() =~= s);
}

proof fn lemma_strip_back(s: Seq<char>, q: char)
    requires
        q == '\'' || q == '"',
        s.len() > 0,
        s.last() != '\'' && s.last() != '"',
    ensures
        strip_back(s + seq![q], '\'', '"') == s,
        strip_back(s, '\'', '"') == s,
{
    reveal_with_fuel(strip_back, 2);
    assert((s + seq![q]).drop_last() =~= s);
    assert((s + seq![q]).last() == q);
}

/// Whether a text is a pattern that can stand in a list: it has no quotes and no white
/// space at its ends.
pub open spec fn listable(p: Seq<char>) -> bool {
    &&& p.len() > 0
    &&& p[0] != '\'' && p[0] != '"' && !white(p[0])
    &&& p.last() != '\'' && p.last() != '"' && !white(p.last())
}

/// An item of a list is the pattern between its quotes; white space round it, and whether
/// there are quotes at all, does not matter.
pub proof fn item_is_what_is_quoted(before: Seq<char>, p: Seq<char>, after: Seq<char>, q: char)
    requires
        listable(p),
        all_white(before),
        all_white(after),
        q == '\'' || q == '"',
    ensures
        glob_item(before + p + after) == p,
        glob_item(before + (seq![q] + p + seq![q]) + after) == p,
{
    let r = seq![q] + p + seq![q];
    assert(before + p + after =~= before + (p + after));
    assert(before + r + after =~= before + (r + after));
    lemma_trim_start_white(before, p + after);
    lemma_trim_start_white(before, r + after);
    lemma_trim_white(p, after);
    lemma_trim_white(r, after);
    assert(trim(p) == p) by {
        assert(trim_start(p) == p);
    }
    assert(trim(r) == r) by {
        assert(r[0] == q && r.last() == q);
        assert(!white('\'') && !white('"'));
        assert(trim_start(r) == r);
    }
    let tail = p + seq![q];
    assert(r =~= seq![q] + tail);
    assert(tail[0] == p[0]);
    lemma_strip_front(q, tail);
    lemma_strip_back(p, q);
    lemma_strip_front(q, p);
}

proof fn lemma_items_in_turn(a: Seq<Seq<char>>, b: Seq<Seq<char>>)
    ensures
        glob_items(a + b) == glob_items(a) + glob_items(b),
    decreases b.len(),
{
    if b.len() == 0 {
        assert(a + b =~= a);
        assert(glob_items(a) + glob_items(b) =~= glob_items(a));
    } else {
        assert((a + b).drop_last() =~= a + b.drop_last());
        assert((a + b).last() == b.last());
        lemma_items_in_turn(a, b.drop_last());
        assert(glob_items(a + b) =~= glob_items(a) + glob_items(b));
    }
}

/// A list is read item by item: what stands before a comma gives its patterns, then what
/// stands behind it.
pub proof fn list_is_read_in_turn(a: Seq<char>, b: Seq<char>)
    ensures
        glob_items(split(a + seq![','] + b, ',')) == glob_items(split(a, ',')) + glob_items(
            split(b, ','),
        ),
{
    split_at_separator(a, b, ',');
    lemma_items_in_turn(split(a, ','), split(b, ','));
}

/// A list in brackets is its items; brackets round nothing keep everything out, and no list
/// at all lets everything pass.
pub proof fn brackets_hold_the_list(inner: Seq<char>, blank: Seq<char>)
    requires
        all_white(blank),
        inner.len() > 0,
        !white(inner[0]) && inner[0] != '[',
        !white(inner.last()) && inner.last() != ']',
    ensures
        glob_of(seq!['['] + inner + seq![']']) == Some(glob_items(split(inner, ','))),
        glob_of(inner) == Some(glob_items(split(inner, ','))) || inner[0] == ']' || inner.last()
            == '[',
        glob_of(seq!['['] + blank + seq![']']) == Some(Seq::<Seq<char>>::empty()),
        glob_of(blank) is None,
{
    let x = seq!['['] + inner + seq![']'];
    let tail = inner + seq![']'];
    assert(x[0] == '[' && x.last() == ']');
    assert(!white('[') && !white(']'));
    assert(trim(x) == x) by {
        assert(trim_start(x) == x);
    }
    assert(x.drop_first() =~= tail);
    assert(tail[0] == inner[0]);
    assert(strip_front(tail, '[', '[') == tail);
    assert(strip_front(x, '[', '[') == tail);
    assert(tail.drop_last() =~= inner);
    assert(tail.last() == ']');
    assert(strip_back(inner, ']', ']') == inner);
    assert(strip_back(tail, ']', ']') == inner);
    assert(trim(inner) == inner) by {
        assert(trim_start(inner) == inner);
    }
    assert(strip_front(inner, '[', '[') == inner);
    let e = Seq::<char>::empty();
    assert(trim_start(e) == e && trim_end(e) == e);
    lemma_trim_start_white(blank, e);
    assert(blank + e =~= blank);
    let y = seq!['['] + blank + seq![']'];
    let rest = blank + seq![']'];
    assert(y[0] == '[' && y.last() == ']');
    assert(trim(y) == y) by {
        assert(trim_start(y) == y);
    }
    assert(y.drop_first() =~= rest);
    assert(rest[0] != '[') by {
        if blank.len() > 0 {
            assert(rest[0] == blank[0]);
            assert(white(blank[0]));
        }
    }
    assert(strip_front(rest, '[', '[') == rest);
    assert(strip_front(y, '[', '[') == rest);
    assert(rest.drop_last() =~= blank);
    assert(strip_back(blank, ']', ']') == blank) by {
        if blank.len() > 0 {
            assert(white(blank[blank.len() - 1]));
        }
    }
    assert(strip_back(rest, ']', ']') == blank);
    assert(trim(blank) == e);
}

/// A capital letter is lowered to the small letter of the same place in the alphabet, and no
/// other character changes.
pub proof fn capitals_are_lowered(c: char)
    ensures
        'A' <= c && c <= 'Z' ==> 'a' <= lower(c) && lower(c) <= 'z' && lower(c) as int - 'a' as int
            == c as int - 'A' as int,
        !('A' <= c && c <= 'Z') ==> lower(c) == c,
{
}

} // verus!
