//! Dictionaries keyed by text.
use vstd::prelude::*;
use crate::text::{same_text, texts};

verus! {

/// A dictionary from text to values. Each entry is a key with its value; where
/// entries share a key, the first of them counts.
#[derive(Debug, PartialEq)]
pub struct Dict<V> {
    pub entries: Vec<(String, V)>,
}

/// What a list of entries stands for.
pub open spec fn dict_map<V>(s: Seq<(String, V)>) -> Map<Seq<char>, V>
    decreases s.len(),
{
    if s.len() == 0 {
        Map::empty()
    } else {
        dict_map(s.drop_first()).insert(s[0].0@, s[0].1)
    }
}

/// Whether the strings are the members of a set, each once.
pub open spec fn lists(v: Seq<String>, s: Set<Seq<char>>) -> bool {
    texts(v).no_duplicates() && texts(v).to_set() == s
}

/// Whether no entry of `s` before `n` has the key `k`.
pub open spec fn no_key<V>(s: Seq<(String, V)>, n: int, k: Seq<char>) -> bool {
    forall|j: int| 0 <= j < n ==> (#[trigger] s[j]).0@ != k
}

impl<V> View for Dict<V> {
    type V = Map<Seq<char>, V>;

    open spec fn view(&self) -> Map<Seq<char>, V> {
        dict_map(self.entries@)
    }
}

/// A key is in the dictionary exactly where some entry has it.
pub proof fn lemma_dict_dom<V>(s: Seq<(String, V)>, k: Seq<char>)
    ensures
        dict_map(s).dom().contains(k) <==> !no_key(s, s.len() as int, k),
        dict_map(s).dom().finite(),
    decreases s.len(),
{
    if s.len() > 0 {
        let t = s.drop_first();
        lemma_dict_dom(t, k);
        if s[0].0@ != k {
            if no_key(s, s.len() as int, k) {
                assert forall|j: int| 0 <= j < t.len() implies (#[trigger] t[j]).0@ != k by {
                    assert(t[j] == s[j + 1]);
                }
            } else {
                let j = choose|j: int| 0 <= j < s.len() && (#[trigger] s[j]).0@ == k;
                assert(t[j - 1].0@ == k);
            }
        }
    }
}

/// The first entry with a key gives its value.
pub proof fn lemma_dict_first<V>(s: Seq<(String, V)>, i: int, k: Seq<char>)
    requires
        0 <= i < s.len(),
        no_key(s, i, k),
        s[i].0@ == k,
    ensures
        dict_map(s).dom().contains(k),
        dict_map(s)[k] == s[i].1,
    decreases s.len(),
{
    if i > 0 {
        let t = s.drop_first();
        assert(s[0].0@ != k);
        assert forall|j: int| 0 <= j < i - 1 implies (#[trigger] t[j]).0@ != k by {
            assert(t[j] == s[j + 1]);
        }
        assert(t[i - 1] == s[i]);
        lemma_dict_first(t, i - 1, k);
    }
}

/// An entry with a new key adds that key.
pub proof fn lemma_dict_push<V>(s: Seq<(String, V)>, e: (String, V))
    requires
        no_key(s, s.len() as int, e.0@),
    ensures
        dict_map(s.push(e)) == dict_map(s).insert(e.0@, e.1),
    decreases s.len(),
{
    let u = s.push(e);
    if s.len() == 0 {
        assert(u.drop_first() =~= s);
    } else {
        let t = s.drop_first();
        assert(u.drop_first() =~= t.push(e));
        assert forall|j: int| 0 <= j < t.len() implies (#[trigger] t[j]).0@ != e.0@ by {
            assert(t[j] == s[j + 1]);
        }
        lemma_dict_push(t, e);
        assert(s[0].0@ != e.0@);
        assert(dict_map(u) =~= dict_map(s).insert(e.0@, e.1));
    }
}

/// A new value in the first entry with a key replaces the key's value.
pub proof fn lemma_dict_update<V>(s: Seq<(String, V)>, i: int, e: (String, V))
    requires
        0 <= i < s.len(),
        no_key(s, i, e.0@),
        s[i].0@ == e.0@,
    ensures
        dict_map(s.update(i, e)) == dict_map(s).insert(e.0@, e.1),
    decreases s.len(),
{
    let u = s.update(i, e);
    let t = s.drop_first();
    if i == 0 {
        assert(u.drop_first() =~= t);
        assert(dict_map(u) =~= dict_map(s).insert(e.0@, e.1));
    } else {
        assert(u.drop_first() =~= t.update(i - 1, e));
        assert(s[0].0@ != e.0@);
        assert forall|j: int| 0 <= j < i - 1 implies (#[trigger] t[j]).0@ != e.0@ by {
            assert(t[j] == s[j + 1]);
        }
        assert(t[i - 1] == s[i]);
        lemma_dict_update(t, i - 1, e);
        assert(dict_map(u) =~= dict_map(s).insert(e.0@, e.1));
    }
}

/// The entries of `s` whose key is not `k`.
pub open spec fn without_key<V>(s: Seq<(String, V)>, k: Seq<char>) -> Seq<(String, V)>
    decreases s.len(),
{
    if s.len() == 0 {
        s
    } else if s[0].0@ == k {
        without_key(s.drop_first(), k)
    } else {
        seq![s[0]] + without_key(s.drop_first(), k)
    }
}

proof fn lemma_dict_without<V>(s: Seq<(String, V)>, k: Seq<char>)
    ensures
        dict_map(without_key(s, k)) == dict_map(s).remove(k),
    decreases s.len(),
{
    if s.len() > 0 {
        let t = s.drop_first();
        lemma_dict_without(t, k);
        if s[0].0@ != k {
            let w = seq![s[0]] + without_key(t, k);
            assert(w.drop_first() =~= without_key(t, k));
            assert(w[0] == s[0]);
            assert(dict_map(w) =~= dict_map(s).remove(k));
        } else {
            assert(dict_map(t).remove(k) =~= dict_map(s).remove(k));
        }
    } else {
        assert(dict_map(s).remove(k) =~= dict_map(s));
    }
}

impl<V> Dict<V> {
    /// The empty dictionary.
    pub fn new() -> (r: Self)
        ensures
            r@ == Map::<Seq<char>, V>::empty(),
            r.entries@.len() == 0,
    {
        Dict { entries: Vec::new() }
    }

    /// The position of the first entry with a key.
    pub fn position(&self, key: &str) -> (r: Option<usize>)
        ensures
            match r {
                Some(i) => i < self.entries@.len() && self.entries@[i as int].0@ == key@ && no_key(
                    self.entries@,
                    i as int,
                    key@,
                ) && self@.dom().contains(key@) && self@[key@] == self.entries@[i as int].1,
                None => no_key(self.entries@, self.entries@.len() as int, key@)
                    && !self@.dom().contains(key@),
            },
    {
        let n = self.entries.len();
        let mut i: usize = 0;
        while i < n
            invariant
                n == self.entries@.len(),
                i <= n,
                no_key(self.entries@, i as int, key@),
            decreases n - i,
        {
            if same_text(self.entries[i].0.as_str(), key) {
                proof {
                    lemma_dict_first(self.entries@, i as int, key@);
                }
                return Some(i);
            }
            i = i + 1;
        }
        proof {
            lemma_dict_dom(self.entries@, key@);
        }
        None
    }

    /// Looks a key up.
    pub fn get(&self, key: &str) -> (r: Option<&V>)
        ensures
            match r {
                Some(v) => self@.dom().contains(key@) && *v == self@[key@],
                None => !self@.dom().contains(key@),
            },
    {
        match self.position(key) {
            Some(i) => Some(&self.entries[i].1),
            None => None,
        }
    }

    /// Whether a key is present.
    pub fn contains_key(&self, key: &str) -> (r: bool)
        ensures
            r == self@.dom().contains(key@),
    {
        self.position(key).is_some()
    }

    /// Gives a key a value, in place of the one it had.
    pub fn insert(&mut self, key: String, value: V)
        ensures
            final(self)@ == old(self)@.insert(key@, value),
    {
        match self.position(key.as_str()) {
            Some(i) => {
                proof {
                    lemma_dict_update(self.entries@, i as int, (key, value));
                }
                self.entries.set(i, (key, value));
            },
            None => {
                proof {
                    lemma_dict_push(self.entries@, (key, value));
                }
                self.entries.push((key, value));
            },
        }
    }

    /// Takes a key out, with the value it had.
    pub fn remove(&mut self, key: &str) -> (r: Option<V>)
        ensures
            final(self)@ == old(self)@.remove(key@),
            match r {
                Some(v) => old(self)@.dom().contains(key@) && v == old(self)@[key@],
                None => !old(self)@.dom().contains(key@),
            },
    {
        let ghost all = self.entries@;
        match self.position(key) {
            None => {
                proof {
                    assert(self@.remove(key@) =~= self@);
                }
                None
            },
            Some(i) => {
                let (_, value) = self.entries.remove(i);
                let ghost rest = self.entries@;
                let mut kept: Vec<(String, V)> = Vec::new();
                let mut left: Vec<(String, V)> = Vec::new();
                std::mem::swap(&mut left, &mut self.entries);
                proof {
                    lemma_without_at(all, i as int, key@);
                }
                while left.len() > 0
                    invariant
                        without_key(rest, key@) == without_key(left@, key@) + kept@.reverse(),
                    decreases left@.len(),
                {
                    let ghost before = left@;
                    let ghost tail = kept@.reverse();
                    let last = left.pop();
                    if let Some(e) = last {
                        proof {
                            lemma_without_last(before, key@);
                        }
                        if !same_text(e.0.as_str(), key) {
                            kept.push(e);
                            assert(kept@.reverse() =~= seq![e] + tail);
                        }
                        assert(without_key(rest, key@) =~= without_key(left@, key@)
                            + kept@.reverse());
                    }
                }
                let mut out: Vec<(String, V)> = Vec::new();
                let ghost goal = kept@.reverse();
                assert(without_key(left@, key@).len() == 0);
                assert(without_key(rest, key@) =~= goal);
                while kept.len() > 0
                    invariant
                        goal == out@ + kept@.reverse(),
                    decreases kept@.len(),
                {
                    let ghost before = kept@;
                    let first = kept.pop();
                    if let Some(e) = first {
                        out.push(e);
                        assert(before.reverse() =~= seq![e] + kept@.reverse());
                        assert(goal =~= out@ + kept@.reverse());
                    }
                }
                assert(goal =~= out@);
                self.entries = out;
                proof {
                    lemma_dict_without(all, key@);
                }
                Some(value)
            },
        }
    }

    /// The keys, each once.
    pub fn keys(&self) -> (r: Vec<String>)
        ensures
            lists(r@, self@.dom()),
    {
        let mut out: Vec<String> = Vec::new();
        let ghost mut seen: Seq<Seq<char>> = Seq::empty();
        assert(self.entries@.take(0) =~= Seq::empty());
        assert(texts(out@) =~= seen);
        for i in 0..self.entries.len()
            invariant
                texts(out@) == seen,
                seen.no_duplicates(),
                forall|k: Seq<char>|
                    seen.contains(k) <==> !no_key(self.entries@, i as int, k),
        {
            let key = self.entries[i].0.as_str();
            let first = match self.position(key) {
                Some(p) => p == i,
                None => false,
            };
            proof {
                assert forall|k: Seq<char>|
                    !no_key(self.entries@, i as int + 1, k) <==> !no_key(self.entries@, i as int, k)
                        || k == key@ by {
                    if !no_key(self.entries@, i as int + 1, k) && k != key@ {
                        let j = choose|j: int|
                            0 <= j < i + 1 && (#[trigger] self.entries@[j]).0@ == k;
                        assert(self.entries@[j].0@ == k);
                        assert(j < i);
                    }
                    if k == key@ {
                        assert(self.entries@[i as int].0@ == k);
                    }
                }
            }
            if first {
                let ghost before = out@;
                let ghost was = seen;
                out.push(key.to_owned());
                proof {
                    seen = seen.push(key@);
                    assert(texts(out@) =~= seen);
                    assert(!was.contains(key@));
                    assert forall|k: Seq<char>| seen.contains(k) <==> was.contains(k) || k == key@ by {
                        if was.contains(k) {
                            let j = choose|j: int| 0 <= j < was.len() && was[j] == k;
                            assert(seen[j] == k);
                        }
                        assert(seen[was.len() as int] == key@);
                    }
                }
            } else {
                assert(!no_key(self.entries@, i as int, key@));
            }
        }
        proof {
            assert forall|k: Seq<char>| texts(out@).contains(k) <==> self@.dom().contains(k) by {
                lemma_dict_dom(self.entries@, k);
            }
            assert(texts(out@).to_set() =~= self@.dom());
        }
        out
    }

    /// Whether the dictionary holds nothing.
    pub fn is_empty(&self) -> (r: bool)
        ensures
            r == (self@.dom() =~= Set::<Seq<char>>::empty()),
    {
        let r = self.entries.len() == 0;
        proof {
            if !r {
                let k = self.entries@[0].0@;
                lemma_dict_dom(self.entries@, k);
                assert(self@.dom().contains(k));
            }
        }
        r
    }

    /// The number of keys.
    pub fn len(&self) -> (r: usize)
        ensures
            r == self@.dom().len(),
    {
        let n = self.entries.len();
        let mut count: usize = 0;
        let mut i: usize = n;
        assert(self.entries@.skip(n as int) =~= Seq::empty());
        while i > 0
            invariant
                n == self.entries@.len(),
                i <= n,
                count <= n - i,
                count == dict_map(self.entries@.skip(i as int)).dom().len(),
            decreases i,
        {
            let ghost tail = self.entries@.skip(i as int);
            i = i - 1;
            let ghost here = self.entries@.skip(i as int);
            assert(here.drop_first() =~= tail);
            let mut again = false;
            let mut j: usize = i + 1;
            while j < n
                invariant
                    n == self.entries@.len(),
                    i < j <= n,
                    tail == self.entries@.skip(i as int + 1),
                    again == !no_key(tail, j - i - 1, self.entries@[i as int].0@),
                decreases n - j,
            {
                assert(tail[j - i - 1] == self.entries@[j as int]);
                if same_text(self.entries[j].0.as_str(), self.entries[i].0.as_str()) {
                    again = true;
                }
                j = j + 1;
            }
            proof {
                lemma_dict_dom(tail, self.entries@[i as int].0@);
            }
            if !again {
                count = count + 1;
            } else {
                assert(dict_map(here).dom() =~= dict_map(tail).dom());
            }
        }
        assert(self.entries@.skip(0) =~= self.entries@);
        count
    }
}

proof fn lemma_without_last<V>(s: Seq<(String, V)>, k: Seq<char>)
    requires
        s.len() > 0,
    ensures
        without_key(s, k) == (if s.last().0@ == k {
            without_key(s.drop_last(), k)
        } else {
            without_key(s.drop_last(), k).push(s.last())
        }),
    decreases s.len(),
{
    if s.len() == 1 {
        assert(s.drop_first() =~= Seq::empty());
        assert(s.drop_last() =~= Seq::empty());
        assert(without_key(s, k) =~= (if s.last().0@ == k {
            without_key(s.drop_last(), k)
        } else {
            without_key(s.drop_last(), k).push(s.last())
        }));
    } else {
        let t = s.drop_first();
        lemma_without_last(t, k);
        assert(t.drop_last() =~= s.drop_last().drop_first());
        assert(without_key(s, k) =~= (if s.last().0@ == k {
            without_key(s.drop_last(), k)
        } else {
            without_key(s.drop_last(), k).push(s.last())
        }));
    }
}

proof fn lemma_without_at<V>(s: Seq<(String, V)>, i: int, k: Seq<char>)
    requires
        0 <= i < s.len(),
        s[i].0@ == k,
    ensures
        without_key(s.remove(i), k) == without_key(s, k),
    decreases s.len(),
{
    if i == 0 {
        assert(s.remove(0) =~= s.drop_first());
    } else {
        let t = s.drop_first();
        assert(s.remove(i).drop_first() =~= t.remove(i - 1));
        lemma_without_at(t, i - 1, k);
    }
}

} // verus!
