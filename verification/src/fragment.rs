//! Outgoing fragmentation and incoming defragmentation (op `fragment`).
use vstd::prelude::*;
use crate::dict::{dict_map, Dict};
use crate::document::{json_text, op, Operation};
use crate::json::{Json, JsonValue, Number};
use crate::text::{same_text, texts, to_chars, to_text};

verus! {

/// A text cut into pieces of `size` characters, the last of which may be shorter.
pub open spec fn chunks(s: Seq<char>, size: nat) -> Seq<Seq<char>>
    decreases s.len(),
{
    if size == 0 || s.len() <= size {
        seq![s]
    } else {
        seq![s.take(size as int)] + chunks(s.skip(size as int), size)
    }
}

/// The text that pieces are put together to.
pub open spec fn flat(parts: Seq<Seq<char>>) -> Seq<char>
    decreases parts.len(),
{
    if parts.len() == 0 {
        Seq::empty()
    } else {
        flat(parts.drop_last()) + parts.last()
    }
}

/// The `fragment` operation that carries the `num`-th of `total` pieces.
pub open spec fn fragment_op(id: Seq<char>, data: Seq<char>, num: nat, total: nat) -> Map<
    Seq<char>,
    Json,
> {
    op("fragment"@).insert("id"@, Json::String(id)).insert("data"@, Json::String(data)).insert(
        "num"@,
        Json::Number(Number::PosInt(num as u64)),
    ).insert("total"@, Json::Number(Number::PosInt(total as u64)))
}

/// The operations that carry a text in pieces.
pub open spec fn fragment_texts(s: Seq<char>, size: nat, id: Seq<char>) -> Seq<Seq<char>> {
    let parts = chunks(s, size);
    Seq::new(
        parts.len(),
        |i: int| json_text(Json::Object(fragment_op(id, parts[i], i as nat, parts.len()))),
    )
}

fn cut(s: &[char], size: usize) -> (r: Vec<String>)
    requires
        size > 0,
    ensures
        texts(r@) == chunks(s@, size as nat),
{
    let mut out: Vec<String> = Vec::new();
    let mut start: usize = 0;
    let n = s.len();
    assert(s@.skip(0) =~= s@);
    assert(texts(out@) =~= Seq::empty());
    while n - start > size
        invariant
            n == s@.len(),
            size > 0,
            start <= n,
            chunks(s@, size as nat) == texts(out@) + chunks(s@.skip(start as int), size as nat),
        decreases n - start,
    {
        let ghost before = out@;
        let piece = vstd::slice::slice_subrange(s, start, start + size);
        let text = to_text(piece);
        out.push(text);
        proof {
            let rest = s@.skip(start as int);
            assert(piece@ =~= rest.take(size as int));
            assert(rest.skip(size as int) =~= s@.skip(start + size));
            assert(texts(out@) =~= texts(before).push(text@));
            assert(chunks(s@, size as nat) =~= texts(out@) + chunks(
                s@.skip(start + size),
                size as nat,
            ));
        }
        start = start + size;
    }
    let ghost before = out@;
    let last = vstd::slice::slice_subrange(s, start, n);
    let text = to_text(last);
    out.push(text);
    proof {
        assert(last@ =~= s@.skip(start as int));
        assert(texts(out@) =~= texts(before).push(text@));
        assert(chunks(s@, size as nat) =~= texts(out@));
    }
    out
}

/// Splits a serialized message into `fragment` op JSON strings if it exceeds
/// `fragment_size` (measured in characters). Returns `None` if no fragmentation is
/// needed.
pub fn fragment(serialized: &str, fragment_size: usize, id: &str) -> (r: Option<Vec<String>>)
    ensures
        match r {
            None => fragment_size == 0 || serialized@.len() <= fragment_size,
            Some(v) => fragment_size > 0 && serialized@.len() > fragment_size && texts(v@)
                == fragment_texts(serialized@, fragment_size as nat, id@),
        },
{
    let chars = to_chars(serialized);
    if fragment_size == 0 || chars.len() <= fragment_size {
        return None;
    }
    let parts = cut(chars.as_slice(), fragment_size);
    let total = parts.len();
    let ghost pieces = chunks(serialized@, fragment_size as nat);
    assert(pieces.len() == total);
    let mut out: Vec<String> = Vec::new();
    for i in 0..total
        invariant
            total == parts@.len(),
            texts(parts@) == pieces,
            pieces.len() == total,
            out@.len() == i,
            forall|j: int|
                0 <= j < i ==> (#[trigger] out@[j])@ == json_text(
                    Json::Object(fragment_op(id@, pieces[j], j as nat, total as nat)),
                ),
    {
        assert(pieces[i as int] == parts@[i as int]@);
        let text = Operation::new("fragment").with("id", JsonValue::text(id)).with(
            "data",
            JsonValue::text(parts[i].as_str()),
        ).with("num", JsonValue::from_u64(i as u64)).with(
            "total",
            JsonValue::from_u64(total as u64),
        ).text();
        out.push(text);
    }
    assert(texts(out@) =~= fragment_texts(serialized@, fragment_size as nat, id@));
    Some(out)
}

/// The pieces that a text is cut into are the text when put together.
pub proof fn chunks_are_the_text(s: Seq<char>, size: nat)
    requires
        size > 0,
    ensures
        flat(chunks(s, size)) == s,
    decreases s.len(),
{
    if s.len() <= size {
        let one = seq![s];
        assert(one.drop_last() =~= Seq::empty());
        assert(flat(one.drop_last()) =~= Seq::empty());
        assert(one.last() == s);
        assert(flat(one) =~= s);
    } else {
        let rest = chunks(s.skip(size as int), size);
        chunks_are_the_text(s.skip(size as int), size);
        lemma_flat_cons(s.take(size as int), rest);
        assert(s.take(size as int) + s.skip(size as int) =~= s);
    }
}

/// No piece of a text is longer than the size, and none is empty where the text is
/// not.
pub proof fn chunks_are_small(s: Seq<char>, size: nat, i: int)
    requires
        size > 0,
        0 <= i < chunks(s, size).len(),
    ensures
        chunks(s, size)[i].len() <= size,
        s.len() > 0 ==> chunks(s, size)[i].len() > 0,
    decreases s.len(),
{
    if s.len() > size && i > 0 {
        chunks_are_small(s.skip(size as int), size, i - 1);
        assert(chunks(s, size)[i] == chunks(s.skip(size as int), size)[i - 1]);
    }
}

proof fn lemma_flat_cons(a: Seq<char>, parts: Seq<Seq<char>>)
    ensures
        flat(seq![a] + parts) == a + flat(parts),
    decreases parts.len(),
{
    let all = seq![a] + parts;
    if parts.len() == 0 {
        assert(all.drop_last() =~= Seq::empty());
        assert(flat(all.drop_last()) =~= Seq::empty());
        assert(all.last() == a);
        assert(flat(all) =~= a + flat(parts));
    } else {
        lemma_flat_cons(a, parts.drop_last());
        assert(all.drop_last() =~= seq![a] + parts.drop_last());
        assert(flat(all) =~= a + flat(parts));
    }
}

/// State for a single in-progress reassembly: the pieces received so far, each with
/// its number, and the time of the last one in nanoseconds.
pub struct Pending {
    total: usize,
    parts: Vec<(usize, String)>,
    last_touched: u64,
}

/// A reassembly as mathematics.
pub ghost struct PendingModel {
    pub total: nat,
    pub parts: Map<nat, Seq<char>>,
    pub last_touched: nat,
}

/// The pieces by their numbers.
pub open spec fn parts_map(s: Seq<(usize, String)>) -> Map<nat, Seq<char>>
    decreases s.len(),
{
    if s.len() == 0 {
        Map::empty()
    } else {
        parts_map(s.drop_last()).insert(s.last().0 as nat, s.last().1@)
    }
}

/// Whether no number occurs twice.
pub open spec fn distinct(s: Seq<(usize, String)>) -> bool {
    forall|i: int, j: int|
        0 <= i < j < s.len() ==> (#[trigger] s[i]).0 != (#[trigger] s[j]).0
}

impl View for Pending {
    type V = PendingModel;

    closed spec fn view(&self) -> PendingModel {
        PendingModel {
            total: self.total as nat,
            parts: parts_map(self.parts@),
            last_touched: self.last_touched as nat,
        }
    }
}

impl Pending {
    /// The numbers of the pieces are in range, none occurs twice, and some piece is
    /// missing.
    pub closed spec fn wf(&self) -> bool {
        &&& distinct(self.parts@)
        &&& forall|i: int| 0 <= i < self.parts@.len() ==> (#[trigger] self.parts@[i]).0 < self.total
        &&& self.parts@.len() < self.total
    }
}

proof fn lemma_parts_map(s: Seq<(usize, String)>, k: nat)
    ensures
        parts_map(s).dom().contains(k) <==> exists|i: int|
            0 <= i < s.len() && (#[trigger] s[i]).0 == k,
        parts_map(s).dom().finite(),
        distinct(s) ==> parts_map(s).dom().len() == s.len(),
    decreases s.len(),
{
    if s.len() > 0 {
        let t = s.drop_last();
        lemma_parts_map(t, k);
        if parts_map(s).dom().contains(k) {
            if k == s.last().0 {
                assert(s[s.len() - 1].0 == k);
            } else {
                let i = choose|i: int| 0 <= i < t.len() && (#[trigger] t[i]).0 == k;
                assert(s[i].0 == k);
            }
        }
        if exists|i: int| 0 <= i < s.len() && (#[trigger] s[i]).0 == k {
            let i = choose|i: int| 0 <= i < s.len() && (#[trigger] s[i]).0 == k;
            if i < t.len() {
                assert(t[i].0 == k);
            }
        }
        if distinct(s) {
            assert forall|i: int, j: int| 0 <= i < j < t.len() implies (#[trigger] t[i]).0 != (
            #[trigger] t[j]).0 by {
                assert(s[i].0 != s[j].0);
            }
            lemma_parts_map(t, s.last().0 as nat);
            if parts_map(t).dom().contains(s.last().0 as nat) {
                let i = choose|i: int| 0 <= i < t.len() && (#[trigger] t[i]).0 == s.last().0;
                assert(s[i].0 != s[s.len() - 1].0);
            }
            assert(parts_map(s).dom() =~= parts_map(t).dom().insert(s.last().0 as nat));
        }
    }
}

proof fn lemma_parts_value(s: Seq<(usize, String)>, i: int)
    requires
        distinct(s),
        0 <= i < s.len(),
    ensures
        parts_map(s).dom().contains(s[i].0 as nat),
        parts_map(s)[s[i].0 as nat] == s[i].1@,
    decreases s.len(),
{
    if i < s.len() - 1 {
        let t = s.drop_last();
        assert forall|x: int, y: int| 0 <= x < y < t.len() implies (#[trigger] t[x]).0 != (
        #[trigger] t[y]).0 by {
            assert(s[x].0 != s[y].0);
        }
        assert(t[i] == s[i]);
        assert(s[i].0 != s[s.len() - 1].0);
        lemma_parts_value(t, i);
    }
}

/// The first `n` pieces put together.
pub open spec fn joined(parts: Map<nat, Seq<char>>, n: nat) -> Seq<char>
    decreases n,
{
    if n == 0 {
        Seq::empty()
    } else {
        joined(parts, (n - 1) as nat) + parts[(n - 1) as nat]
    }
}

/// Reassembles fragmented inbound messages, expiring stale partial groups.
pub struct Defragmenter {
    pending: Dict<Pending>,
    timeout_secs: u64,
}

/// Result of feeding a fragment.
#[derive(Debug)]
pub enum FragmentOutcome {
    /// More fragments needed.
    Incomplete,
    /// The full message was reconstructed.
    Complete(String),
    /// The fragment was invalid (duplicate/out-of-range/mismatched total).
    Invalid(&'static str),
}

/// The result of feeding a fragment as mathematics.
pub ghost enum Outcome {
    Incomplete,
    Complete(Seq<char>),
    Invalid(Seq<char>),
}

impl View for FragmentOutcome {
    type V = Outcome;

    open spec fn view(&self) -> Outcome {
        match self {
            FragmentOutcome::Incomplete => Outcome::Incomplete,
            FragmentOutcome::Complete(s) => Outcome::Complete(s@),
            FragmentOutcome::Invalid(s) => Outcome::Invalid(s@),
        }
    }
}

/// Whether a group is younger than the timeout: fewer than that many whole seconds
/// have passed since it was last touched.
pub open spec fn fresh(p: PendingModel, now: nat, timeout: nat) -> bool {
    (if now >= p.last_touched {
        (now - p.last_touched) / 1_000_000_000
    } else {
        0
    }) < timeout
}

/// The groups that outlive a sweep: the one with the id `keep`, and those that are
/// younger than the timeout.
pub open spec fn swept(
    pending: Map<Seq<char>, PendingModel>,
    keep: Seq<char>,
    now: nat,
    timeout: nat,
) -> Map<Seq<char>, PendingModel> {
    pending.restrict(
        Set::new(
            |k: Seq<char>|
                pending.dom().contains(k) && (k == keep || fresh(pending[k], now, timeout)),
        ),
    )
}

/// The group that a fragment belongs to: the one in progress, or a new one.
pub open spec fn group_of(
    pending: Map<Seq<char>, PendingModel>,
    id: Seq<char>,
    total: nat,
    now: nat,
) -> PendingModel {
    if pending.dom().contains(id) {
        pending[id]
    } else {
        PendingModel { total, parts: Map::empty(), last_touched: now }
    }
}

/// The groups after a fragment was fed, and what that comes to.
pub open spec fn pushed(
    pending: Map<Seq<char>, PendingModel>,
    timeout: nat,
    id: Seq<char>,
    num: nat,
    total: nat,
    data: Seq<char>,
    now: nat,
) -> (Map<Seq<char>, PendingModel>, Outcome) {
    let rest = swept(pending, id, now, timeout);
    let group = group_of(rest, id, total, now);
    if total == 0 || num >= total {
        (rest, Outcome::Invalid("fragment index out of range"@))
    } else if group.total != total {
        (rest, Outcome::Invalid("inconsistent fragment total"@))
    } else if group.parts.dom().contains(num) {
        (rest, Outcome::Invalid("duplicate fragment"@))
    } else {
        let parts = group.parts.insert(num, data);
        if parts.dom().len() == total {
            (rest.remove(id), Outcome::Complete(joined(parts, total)))
        } else {
            (
                rest.insert(id, PendingModel { total, parts, last_touched: now }),
                Outcome::Incomplete,
            )
        }
    }
}

impl Defragmenter {
    /// The groups in progress.
    pub closed spec fn groups(&self) -> Map<Seq<char>, PendingModel> {
        self.pending@.map_values(|p: Pending| p@)
    }

    /// The timeout in seconds.
    pub closed spec fn timeout(&self) -> nat {
        self.timeout_secs as nat
    }

    /// Every group in progress is well-formed.
    pub closed spec fn wf(&self) -> bool {
        forall|k: Seq<char>| #[trigger]
            self.pending@.dom().contains(k) ==> self.pending@[k].wf()
    }

    /// A defragmenter without groups in progress.
    pub fn new(timeout_secs: u64) -> (r: Self)
        ensures
            r.wf(),
            r.groups() == Map::<Seq<char>, PendingModel>::empty(),
            r.timeout() == timeout_secs,
    {
        let r = Defragmenter { pending: Dict::new(), timeout_secs };
        assert(r.groups() =~= Map::empty());
        r
    }

    /// Feeds one fragment, at the time `now` in nanoseconds. On the final piece,
    /// returns the reassembled string.
    pub fn push(&mut self, id: &str, num: usize, total: usize, data: String, now: u64) -> (r:
        FragmentOutcome)
        requires
            old(self).wf(),
        ensures
            final(self).wf(),
            final(self).timeout() == old(self).timeout(),
            (final(self).groups(), r@) == pushed(
                old(self).groups(),
                old(self).timeout(),
                id@,
                num as nat,
                total as nat,
                data@,
                now as nat,
            ),
    {
        self.sweep(id, now);
        let ghost rest = self.groups();
        if total == 0 || num >= total {
            return FragmentOutcome::Invalid("fragment index out of range");
        }
        let ghost before = self.pending@;
        let found = self.pending.remove(id);
        let ghost group = group_of(rest, id@, total as nat, now as nat);
        let mut entry = match found {
            Some(p) => p,
            None => Pending { total, parts: Vec::new(), last_touched: now },
        };
        assert(entry.parts@.len() == 0 ==> parts_map(entry.parts@) =~= Map::empty());
        assert(entry.wf());
        assert(entry@ == group);
        if entry.total != total {
            self.pending.insert(id.to_owned(), entry);
            proof {
                assert(before.dom().contains(id@));
                assert(self.pending@ =~= before);
            }
            return FragmentOutcome::Invalid("inconsistent fragment total");
        }
        if has_part(&entry.parts, num) {
            self.pending.insert(id.to_owned(), entry);
            proof {
                assert(before.dom().contains(id@));
                assert(self.pending@ =~= before);
            }
            return FragmentOutcome::Invalid("duplicate fragment");
        }
        let ghost parts0 = entry.parts@;
        let ghost text = data@;
        entry.parts.push((num, data));
        entry.last_touched = now;
        proof {
            assert(entry.parts@.drop_last() =~= parts0);
            assert forall|i: int, j: int| 0 <= i < j < entry.parts@.len() implies (
            #[trigger] entry.parts@[i]).0 != (#[trigger] entry.parts@[j]).0 by {
                if j == parts0.len() {
                    lemma_parts_map(parts0, num as nat);
                    assert(parts0[i].0 != num);
                } else {
                    assert(parts0[i].0 != parts0[j].0);
                }
            }
            lemma_parts_map(entry.parts@, 0);
            assert(entry@.parts == group.parts.insert(num as nat, text));
            assert forall|i: int| 0 <= i < entry.parts@.len() implies (
            #[trigger] entry.parts@[i]).0 < entry.total by {
                if i < parts0.len() {
                    assert(parts0[i].0 < entry.total);
                }
            }
        }
        if entry.parts.len() == entry.total {
            proof {
                assert(self.groups() =~= rest.remove(id@));
            }
            FragmentOutcome::Complete(put_together(&entry.parts, total))
        } else {
            let ghost model = entry@;
            self.pending.insert(id.to_owned(), entry);
            proof {
                assert(self.groups() =~= rest.insert(id@, model));
            }
            FragmentOutcome::Incomplete
        }
    }

    /// Drops partial groups older than the timeout (except `keep`, the group
    /// currently being appended to).
    fn sweep(&mut self, keep: &str, now: u64)
        requires
            old(self).wf(),
        ensures
            final(self).wf(),
            final(self).timeout() == old(self).timeout(),
            final(self).groups() == swept(
                old(self).groups(),
                keep@,
                now as nat,
                old(self).timeout(),
            ),
    {
        let ghost all = self.pending.entries@;
        let ghost timeout = self.timeout();
        let mut kept: Dict<Pending> = Dict::new();
        assert(all.skip(all.len() as int) =~= Seq::empty());
        assert(all.take(all.len() as int) =~= all);
        while self.pending.entries.len() > 0
            invariant
                self.pending.entries@ == all.take(self.pending.entries@.len() as int),
                self.pending.entries@.len() <= all.len(),
                self.timeout_secs as nat == timeout,
                kept_of(
                    kept@,
                    dict_map(all.skip(self.pending.entries@.len() as int)),
                    keep@,
                    now as nat,
                    timeout,
                ),
            decreases self.pending.entries@.len(),
        {
            let ghost n = self.pending.entries@.len() - 1;
            let ghost later = dict_map(all.skip(n + 1));
            proof {
                assert(all.skip(n).drop_first() =~= all.skip(n + 1));
                assert(all.skip(n)[0] == all[n]);
                assert(all.take(n + 1).last() == all[n]);
                assert(all.take(n + 1).drop_last() =~= all.take(n));
            }
            match self.pending.entries.pop() {
                Some((key, p)) => {
                    let elapsed: u64 = if now >= p.last_touched {
                        (now - p.last_touched) / 1_000_000_000
                    } else {
                        0
                    };
                    if same_text(key.as_str(), keep) || elapsed < self.timeout_secs {
                        kept.insert(key, p);
                    } else {
                        let dropped = kept.remove(key.as_str());
                    }
                },
                None => {},
            }
        }
        assert(all.skip(0) =~= all);
        self.pending = kept;
        assert(self.groups() =~= swept(old(self).groups(), keep@, now as nat, timeout));
    }
}

/// Whether `kept` holds the groups of `all` that outlive a sweep.
spec fn kept_of(
    kept: Map<Seq<char>, Pending>,
    all: Map<Seq<char>, Pending>,
    keep: Seq<char>,
    now: nat,
    timeout: nat,
) -> bool {
    forall|k: Seq<char>|
        #![trigger kept.dom().contains(k)]
        #![trigger all.dom().contains(k)]
        (kept.dom().contains(k) <==> all.dom().contains(k) && (k == keep || fresh(
            all[k]@,
            now,
            timeout,
        ))) && (kept.dom().contains(k) ==> kept[k] == all[k])
}

fn has_part(parts: &Vec<(usize, String)>, num: usize) -> (r: bool)
    ensures
        r == parts_map(parts@).dom().contains(num as nat),
{
    proof {
        lemma_parts_map(parts@, num as nat);
    }
    for i in 0..parts.len()
        invariant
            forall|j: int| 0 <= j < i ==> (#[trigger] parts@[j]).0 != num,
    {
        if parts[i].0 == num {
            proof {
                lemma_parts_map(parts@, num as nat);
                assert(parts@[i as int].0 == num);
            }
            return true;
        }
    }
    false
}

/// Puts the pieces together in the order of their numbers.
fn put_together(parts: &Vec<(usize, String)>, total: usize) -> (r: String)
    requires
        distinct(parts@),
        parts@.len() == total,
        forall|i: int| 0 <= i < parts@.len() ==> (#[trigger] parts@[i]).0 < total,
    ensures
        r@ == joined(parts_map(parts@), total as nat),
{
    let ghost all = parts_map(parts@);
    proof {
        lemma_parts_map(parts@, 0);
        lemma_all_present(parts@, total as nat);
    }
    let mut out = String::new();
    for n in 0..total
        invariant
            distinct(parts@),
            all == parts_map(parts@),
            forall|k: nat| k < total ==> #[trigger] all.dom().contains(k),
            out@ == joined(all, n as nat),
    {
        let mut i: usize = 0;
        assert(all.dom().contains(n as nat));
        proof {
            lemma_parts_map(parts@, n as nat);
        }
        while i < parts.len() && parts[i].0 != n
            invariant
                i <= parts@.len(),
                forall|j: int| 0 <= j < i ==> (#[trigger] parts@[j]).0 != n,
            decreases parts@.len() - i,
        {
            i = i + 1;
        }
        proof {
            let w = choose|w: int| 0 <= w < parts@.len() && (#[trigger] parts@[w]).0 == n;
            assert(i <= w);
            lemma_parts_value(parts@, i as int);
        }
        out.append(parts[i].1.as_str());
    }
    out
}

/// As many distinct numbers below `total` as `total` are all of them.
proof fn lemma_all_present(s: Seq<(usize, String)>, total: nat)
    requires
        distinct(s),
        s.len() == total,
        forall|i: int| 0 <= i < s.len() ==> (#[trigger] s[i]).0 < total,
    ensures
        forall|k: nat| k < total ==> #[trigger] parts_map(s).dom().contains(k),
{
    let d = parts_map(s).dom();
    lemma_parts_map(s, 0);
    let full = below(total);
    lemma_below(total);
    assert(d.subset_of(full)) by {
        assert forall|k: nat| d.contains(k) implies full.contains(k) by {
            lemma_parts_map(s, k);
        }
    }
    vstd::set_lib::lemma_subset_equality(d, full);
}

/// The numbers below `n`.
pub open spec fn below(n: nat) -> Set<nat> {
    Set::new(|k: nat| k < n)
}

pub proof fn lemma_below(n: nat)
    ensures
        below(n).finite(),
        below(n).len() == n,
    decreases n,
{
    if n == 0 {
        assert(below(n) =~= Set::empty());
    } else {
        lemma_below((n - 1) as nat);
        assert(below(n) =~= below((n - 1) as nat).insert((n - 1) as nat));
    }
}

/// The groups, and what the last feeding came to, after pieces of a text were fed
/// under one id: those numbered `order`, in that order, at the given times.
pub open spec fn fed(
    pending: Map<Seq<char>, PendingModel>,
    timeout: nat,
    id: Seq<char>,
    parts: Seq<Seq<char>>,
    order: Seq<nat>,
    times: Seq<nat>,
) -> (Map<Seq<char>, PendingModel>, Outcome)
    decreases order.len(),
{
    if order.len() == 0 {
        (pending, Outcome::Incomplete)
    } else {
        pushed(
            fed(pending, timeout, id, parts, order.drop_last(), times).0,
            timeout,
            id,
            order.last(),
            parts.len(),
            parts[order.last() as int],
            times[order.len() - 1],
        )
    }
}

/// The pieces with the given numbers.
spec fn some_parts(parts: Seq<Seq<char>>, order: Seq<nat>) -> Map<nat, Seq<char>> {
    Map::new(|k: nat| order.contains(k), |k: nat| parts[k as int])
}

proof fn lemma_fed(
    pending: Map<Seq<char>, PendingModel>,
    timeout: nat,
    id: Seq<char>,
    parts: Seq<Seq<char>>,
    order: Seq<nat>,
    times: Seq<nat>,
)
    requires
        !pending.dom().contains(id),
        order.no_duplicates(),
        forall|i: int| 0 <= i < order.len() ==> (#[trigger] order[i]) < parts.len(),
        order.len() < parts.len(),
    ensures
        fed(pending, timeout, id, parts, order, times).1 == Outcome::Incomplete,
        ({
            let after = fed(pending, timeout, id, parts, order, times).0;
            &&& after.dom().contains(id) <==> order.len() > 0
            &&& order.len() > 0 ==> after[id].total == parts.len() && after[id].parts
                == some_parts(parts, order)
        }),
    decreases order.len(),
{
    if order.len() > 0 {
        let first = order.drop_last();
        let num = order.last();
        let before = fed(pending, timeout, id, parts, first, times).0;
        lemma_fed(pending, timeout, id, parts, first, times);
        let now = times[order.len() - 1];
        let rest = swept(before, id, now, timeout);
        let group = group_of(rest, id, parts.len(), now);
        lemma_order(order);
        assert(group.parts =~= some_parts(parts, first));
        assert(!first.contains(num));
        let all = group.parts.insert(num, parts[num as int]);
        assert(all =~= some_parts(parts, order)) by {
            assert forall|k: nat| #[trigger] order.contains(k) <==> (first.contains(k) || k
                == num) by {
                lemma_contains_last(order, k);
            }
        }
        assert(all.dom() =~= order.to_set()) by {
            assert forall|k: nat| #[trigger] order.to_set().contains(k) <==> order.contains(k) by {
            }
        }
        order.unique_seq_to_set();
        assert(all.dom().len() == order.len());
    }
}

proof fn lemma_order(order: Seq<nat>)
    requires
        order.len() > 0,
        order.no_duplicates(),
    ensures
        order.drop_last().no_duplicates(),
        !order.drop_last().contains(order.last()),
        forall|i: int| 0 <= i < order.len() - 1 ==> order.drop_last()[i] == order[i],
{
}

proof fn lemma_contains_last(order: Seq<nat>, k: nat)
    requires
        order.len() > 0,
    ensures
        order.contains(k) <==> (order.drop_last().contains(k) || k == order.last()),
{
    if order.contains(k) {
        let i = choose|i: int| 0 <= i < order.len() && order[i] == k;
        if i < order.len() - 1 {
            assert(order.drop_last()[i] == k);
        }
    }
    if order.drop_last().contains(k) {
        let i = choose|i: int| 0 <= i < order.len() - 1 && order.drop_last()[i] == k;
        assert(order[i] == k);
    }
    assert(order[order.len() - 1] == order.last());
}

pub proof fn lemma_joined(parts: Seq<Seq<char>>, all: Map<nat, Seq<char>>, n: nat)
    requires
        n <= parts.len(),
        forall|k: nat| k < n ==> #[trigger] all[k] == parts[k as int],
    ensures
        joined(all, n) == flat(parts.take(n as int)),
    decreases n,
{
    if n == 0 {
        assert(parts.take(0) =~= Seq::empty());
    } else {
        lemma_joined(parts, all, (n - 1) as nat);
        assert(parts.take(n as int).drop_last() =~= parts.take(n - 1));
    }
}

/// Pieces under one id, each fed once, in any order and at any times, give what they are
/// when put together in the order of their numbers. That comes with the last of them and
/// nothing before; afterwards the id is free again.
pub proof fn pieces_reassemble(
    pending: Map<Seq<char>, PendingModel>,
    timeout: nat,
    id: Seq<char>,
    parts: Seq<Seq<char>>,
    order: Seq<nat>,
    times: Seq<nat>,
)
    requires
        parts.len() > 0,
        !pending.dom().contains(id),
        order.len() == parts.len(),
        order.no_duplicates(),
        forall|i: int| 0 <= i < order.len() ==> (#[trigger] order[i]) < order.len(),
    ensures
        fed(pending, timeout, id, parts, order, times).1 == Outcome::Complete(flat(parts)),
        !fed(pending, timeout, id, parts, order, times).0.dom().contains(id),
        forall|n: int|
            0 < n < order.len() ==> (#[trigger] fed(
                pending,
                timeout,
                id,
                parts,
                order.take(n),
                times,
            )).1 == Outcome::Incomplete,
{
    let first = order.drop_last();
    let num = order.last();
    let before = fed(pending, timeout, id, parts, first, times).0;
    lemma_order(order);
    lemma_fed(pending, timeout, id, parts, first, times);
    let now = times[order.len() - 1];
    let rest = swept(before, id, now, timeout);
    let group = group_of(rest, id, parts.len(), now);
    assert(group.parts =~= some_parts(parts, first));
    let all = group.parts.insert(num, parts[num as int]);
    assert(all =~= some_parts(parts, order)) by {
        assert forall|k: nat| #[trigger] order.contains(k) <==> (first.contains(k) || k == num) by {
            lemma_contains_last(order, k);
        }
    }
    assert(all.dom() =~= order.to_set());
    order.unique_seq_to_set();
    lemma_below(order.len());
    assert(order.to_set().subset_of(below(order.len())));
    vstd::set_lib::lemma_subset_equality(order.to_set(), below(order.len()));
    assert forall|k: nat| k < parts.len() implies #[trigger] all[k] == parts[k as int] by {
        assert(below(order.len()).contains(k));
        assert(order.to_set().contains(k));
    }
    lemma_joined(parts, all, parts.len());
    assert(parts.take(parts.len() as int) =~= parts);
    assert forall|n: int| 0 < n < order.len() implies (#[trigger] fed(
        pending,
        timeout,
        id,
        parts,
        order.take(n),
        times,
    )).1 == Outcome::Incomplete by {
        let some = order.take(n);
        assert(some.no_duplicates());
        assert forall|i: int| 0 <= i < some.len() implies (#[trigger] some[i]) < parts.len() by {
            assert(some[i] == order[i]);
        }
        lemma_fed(pending, timeout, id, parts, some, times);
    }
}

/// Pieces that were fed can be fed again, in another order and at other times, with the
/// same outcome.
pub proof fn pieces_can_be_fed_again(
    pending: Map<Seq<char>, PendingModel>,
    timeout: nat,
    id: Seq<char>,
    parts: Seq<Seq<char>>,
    order: Seq<nat>,
    times: Seq<nat>,
    later_order: Seq<nat>,
    later_times: Seq<nat>,
)
    requires
        parts.len() > 0,
        !pending.dom().contains(id),
        order.len() == parts.len(),
        order.no_duplicates(),
        forall|i: int| 0 <= i < order.len() ==> (#[trigger] order[i]) < order.len(),
        later_order.len() == parts.len(),
        later_order.no_duplicates(),
        forall|i: int|
            0 <= i < later_order.len() ==> (#[trigger] later_order[i]) < later_order.len(),
    ensures
        fed(
            fed(pending, timeout, id, parts, order, times).0,
            timeout,
            id,
            parts,
            later_order,
            later_times,
        ).1 == fed(pending, timeout, id, parts, order, times).1,
{
    pieces_reassemble(pending, timeout, id, parts, order, times);
    pieces_reassemble(
        fed(pending, timeout, id, parts, order, times).0,
        timeout,
        id,
        parts,
        later_order,
        later_times,
    );
}

/// The pieces of a text, fed in any order and at any times, give the text with the
/// last of them and nothing before; afterwards the id is free again.
pub proof fn fragments_reassemble(
    pending: Map<Seq<char>, PendingModel>,
    timeout: nat,
    id: Seq<char>,
    s: Seq<char>,
    size: nat,
    order: Seq<nat>,
    times: Seq<nat>,
)
    requires
        size > 0,
        !pending.dom().contains(id),
        order.len() == chunks(s, size).len(),
        order.no_duplicates(),
        forall|i: int| 0 <= i < order.len() ==> (#[trigger] order[i]) < order.len(),
    ensures
        fed(pending, timeout, id, chunks(s, size), order, times).1 == Outcome::Complete(s),
        !fed(pending, timeout, id, chunks(s, size), order, times).0.dom().contains(id),
        forall|n: int|
            0 < n < order.len() ==> (#[trigger] fed(
                pending,
                timeout,
                id,
                chunks(s, size),
                order.take(n),
                times,
            )).1 == Outcome::Incomplete,
{
    chunks_are_the_text(s, size);
    pieces_reassemble(pending, timeout, id, chunks(s, size), order, times);
}

/// A group that is not touched for the timeout is dropped when another group gets a
/// fragment.
pub proof fn stale_groups_are_dropped(
    pending: Map<Seq<char>, PendingModel>,
    timeout: nat,
    id: Seq<char>,
    num: nat,
    total: nat,
    data: Seq<char>,
    now: nat,
    other: Seq<char>,
)
    requires
        other != id,
    ensures
        pushed(pending, timeout, id, num, total, data, now).0.dom().contains(other) <==> (
        pending.dom().contains(other) && fresh(pending[other], now, timeout)),
{
}

} // verus!
