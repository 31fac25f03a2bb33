//! Laws of patterns that are put together of others.
use vstd::prelude::*;
use crate::glob::{
    accepts, after_item, class_end, class_has, class_start, lemma_after_item, matched, range_at,
    star_matches_any_sequence,
};

verus! {

/// Whether a pattern has no character class.
pub open spec fn classless(p: Seq<char>) -> bool {
    forall|j: int| 0 <= j < p.len() ==> (#[trigger] p[j]) != '['
}

proof fn lemma_class_end_shifts(a: Seq<char>, q: Seq<char>, i: int, start: int)
    requires
        0 <= i,
        0 <= start,
    ensures
        class_end(a + q, a.len() + i, a.len() + start) == (match class_end(q, i, start) {
            Some(e) => Some(a.len() + e),
            None => None,
        }),
    decreases q.len() - i,
{
    if i < q.len() {
        let p = a + q;
        assert(p[a.len() + i] == q[i]);
        if i + 2 < q.len() {
            assert(p[a.len() + i + 1] == q[i + 1]);
            assert(p[a.len() + i + 2] == q[i + 2]);
            lemma_class_end_shifts(a, q, i + 3, start);
        }
        lemma_class_end_shifts(a, q, i + 1, start);
    }
}

proof fn lemma_class_has_shifts(a: Seq<char>, q: Seq<char>, i: int, start: int, c: char)
    requires
        0 <= i,
        0 <= start,
    ensures
        class_has(a + q, a.len() + i, a.len() + start, c) == class_has(q, i, start, c),
    decreases q.len() - i,
{
    if i < q.len() {
        let p = a + q;
        assert(p[a.len() + i] == q[i]);
        if i + 2 < q.len() {
            assert(p[a.len() + i + 1] == q[i + 1]);
            assert(p[a.len() + i + 2] == q[i + 2]);
            lemma_class_has_shifts(a, q, i + 3, start, c);
        }
        lemma_class_has_shifts(a, q, i + 1, start, c);
    }
}

proof fn lemma_item_shifts(a: Seq<char>, q: Seq<char>, j: int, c: char)
    requires
        0 <= j < q.len(),
    ensures
        (a + q)[a.len() + j] == q[j],
        after_item(a + q, a.len() + j) == a.len() + after_item(q, j),
        accepts(a + q, a.len() + j, c) == accepts(q, j, c),
{
    let p = a + q;
    let k = a.len() + j;
    assert(p[k] == q[j]);
    if j + 1 < q.len() {
        assert(p[k + 1] == q[j + 1]);
    }
    let start = class_start(q, j);
    assert(class_start(p, k) == a.len() + start);
    lemma_class_end_shifts(a, q, start, start);
    lemma_class_has_shifts(a, q, start, start, c);
}

/// A name matches the rest of a pattern as it matches that rest alone.
proof fn lemma_pattern_shifts(n: Seq<char>, i: int, a: Seq<char>, q: Seq<char>, j: int)
    requires
        0 <= i <= n.len(),
        0 <= j <= q.len(),
    ensures
        matched(n, i, a + q, a.len() + j) == matched(n, i, q, j),
    decreases q.len() - j, n.len() - i,
{
    let p = a + q;
    if j < q.len() {
        let c = if i < n.len() {
            n[i]
        } else {
            'x'
        };
        lemma_item_shifts(a, q, j, c);
        lemma_after_item(q, j);
        if q[j] == '*' {
            lemma_pattern_shifts(n, i, a, q, j + 1);
            if i < n.len() {
                lemma_pattern_shifts(n, i + 1, a, q, j);
            }
        } else if i < n.len() {
            lemma_pattern_shifts(n, i + 1, a, q, after_item(q, j));
        }
    }
}

/// The rest of a name matches as a name of its own.
proof fn lemma_name_shifts(n: Seq<char>, k: int, i: int, q: Seq<char>, j: int)
    requires
        0 <= k,
        0 <= i,
        k + i <= n.len(),
        0 <= j <= q.len(),
    ensures
        matched(n, k + i, q, j) == matched(n.skip(k), i, q, j),
    decreases q.len() - j, n.len() - i,
{
    let m = n.skip(k);
    if j < q.len() {
        lemma_after_item(q, j);
        if i < m.len() {
            assert(m[i] == n[k + i]);
        }
        if q[j] == '*' {
            lemma_name_shifts(n, k, i, q, j + 1);
            if i < m.len() {
                lemma_name_shifts(n, k, i + 1, q, j);
            }
        } else if i < m.len() {
            lemma_name_shifts(n, k, i + 1, q, after_item(q, j));
        }
    }
}

/// A name that matches two patterns in a row has a part that matches the first.
proof fn lemma_cut(n: Seq<char>, i: int, a: Seq<char>, q: Seq<char>, j: int) -> (k: int)
    requires
        classless(a),
        0 <= i <= n.len(),
        0 <= j <= a.len(),
        matched(n, i, a + q, j),
    ensures
        i <= k <= n.len(),
        matched(n.take(k), i, a, j),
        matched(n, k, a + q, a.len() as int),
    decreases a.len() - j, n.len() - i,
{
    let p = a + q;
    if j == a.len() {
        i
    } else {
        assert(p[j] == a[j]);
        assert(a[j] != '[');
        if a[j] == '*' {
            if matched(n, i, p, j + 1) {
                lemma_cut(n, i, a, q, j + 1)
            } else {
                lemma_cut(n, i + 1, a, q, j)
            }
        } else {
            let k = lemma_cut(n, i + 1, a, q, j + 1);
            assert(n.take(k)[i] == n[i]);
            assert(accepts(a, j, n[i]) == accepts(p, j, n[i]));
            k
        }
    }
}

/// Where a part of a name matches the first pattern and the rest matches the second,
/// the name matches the two in a row.
proof fn lemma_paste(n: Seq<char>, i: int, a: Seq<char>, q: Seq<char>, j: int, k: int)
    requires
        classless(a),
        0 <= i <= k <= n.len(),
        0 <= j <= a.len(),
        matched(n.take(k), i, a, j),
        matched(n, k, a + q, a.len() as int),
    ensures
        matched(n, i, a + q, j),
    decreases a.len() - j, n.len() - i,
{
    let p = a + q;
    if j < a.len() {
        assert(p[j] == a[j]);
        assert(a[j] != '[');
        if a[j] == '*' {
            if matched(n.take(k), i, a, j + 1) {
                lemma_paste(n, i, a, q, j + 1, k);
            } else {
                lemma_paste(n, i + 1, a, q, j, k);
            }
        } else {
            assert(n.take(k)[i] == n[i]);
            assert(accepts(a, j, n[i]) == accepts(p, j, n[i]));
            lemma_paste(n, i + 1, a, q, j + 1, k);
        }
    }
}

/// A name matches two patterns in a row exactly where it can be cut into a part that
/// matches the first and one that matches the second. The first has no class: a `[` in
/// it might be closed in the second.
pub proof fn row_matches_in_parts(n: Seq<char>, a: Seq<char>, b: Seq<char>)
    requires
        classless(a),
    ensures
        matched(n, 0, a + b, 0) <==> exists|k: int|
            0 <= k <= n.len() && matched(n.take(k), 0, a, 0) && #[trigger] matched(
                n.skip(k),
                0,
                b,
                0,
            ),
{
    if matched(n, 0, a + b, 0) {
        let k = lemma_cut(n, 0, a, b, 0);
        lemma_pattern_shifts(n, k, a, b, 0);
        lemma_name_shifts(n, k, 0, b, 0);
        assert(matched(n.skip(k), 0, b, 0));
    }
    if exists|k: int|
        0 <= k <= n.len() && matched(n.take(k), 0, a, 0) && #[trigger] matched(
            n.skip(k),
            0,
            b,
            0,
        ) {
        let k = choose|k: int|
            0 <= k <= n.len() && matched(n.take(k), 0, a, 0) && #[trigger] matched(
                n.skip(k),
                0,
                b,
                0,
            );
        lemma_pattern_shifts(n, k, a, b, 0);
        lemma_name_shifts(n, k, 0, b, 0);
        lemma_paste(n, 0, a, b, 0, k);
    }
}

/// Whether a name is a part that matches `a`, anything, and a part that matches `b`.
pub open spec fn flanked(n: Seq<char>, a: Seq<char>, b: Seq<char>) -> bool {
    exists|x: Seq<char>, y: Seq<char>, z: Seq<char>|
        #![trigger matched(x, 0, a, 0), matched(z, 0, b, 0), x + y]
        n == x + y + z && matched(x, 0, a, 0) && matched(z, 0, b, 0)
}

/// A name matches `a*b` exactly where it is a part that matches `a`, any characters, and
/// a part that matches `b`.
pub proof fn star_stands_between(n: Seq<char>, a: Seq<char>, b: Seq<char>)
    requires
        classless(a),
    ensures
        matched(n, 0, a + seq!['*'] + b, 0) <==> flanked(n, a, b),
{
    let star = seq!['*'];
    let q = star + b;
    assert(a + star + b =~= a + q);
    assert(q[0] == '*');
    row_matches_in_parts(n, a, q);
    if matched(n, 0, a + q, 0) {
        let k = choose|k: int|
            0 <= k <= n.len() && matched(n.take(k), 0, a, 0) && #[trigger] matched(
                n.skip(k),
                0,
                q,
                0,
            );
        let m = n.skip(k);
        star_matches_any_sequence(m, 0, q, 0);
        let l = choose|l: int| 0 <= l <= m.len() && #[trigger] matched(m, l, q, 1);
        lemma_pattern_shifts(m, l, star, b, 0);
        lemma_name_shifts(m, l, 0, b, 0);
        let (x, y, z) = (n.take(k), m.take(l), m.skip(l));
        assert(n =~= x + y + z);
        assert(matched(x, 0, a, 0) && matched(z, 0, b, 0));
    }
    if flanked(n, a, b) {
        let (x, y, z) = choose|x: Seq<char>, y: Seq<char>, z: Seq<char>|
            #![trigger matched(x, 0, a, 0), matched(z, 0, b, 0), x + y]
            n == x + y + z && matched(x, 0, a, 0) && matched(z, 0, b, 0);
        let k = x.len() as int;
        let l = y.len() as int;
        let m = n.skip(k);
        assert(n.take(k) =~= x);
        assert(m =~= y + z);
        assert(m.skip(l) =~= z);
        lemma_name_shifts(m, l, 0, b, 0);
        lemma_pattern_shifts(m, l, star, b, 0);
        assert(matched(m, l, q, 1));
        star_matches_any_sequence(m, 0, q, 0);
        assert(matched(n.skip(k), 0, q, 0));
    }
}

/// A name matches `a?` exactly where it matches `a` without its last character.
pub proof fn question_mark_takes_one(n: Seq<char>, a: Seq<char>)
    requires
        classless(a),
    ensures
        matched(n, 0, a + seq!['?'], 0) <==> n.len() > 0 && matched(n.drop_last(), 0, a, 0),
{
    let q = seq!['?'];
    row_matches_in_parts(n, a, q);
    if matched(n, 0, a + q, 0) {
        let k = choose|k: int|
            0 <= k <= n.len() && matched(n.take(k), 0, a, 0) && #[trigger] matched(
                n.skip(k),
                0,
                q,
                0,
            );
        let m = n.skip(k);
        assert(matched(m, 1, q, 1));
        assert(m.len() == 1);
        assert(n.take(k) =~= n.drop_last());
    }
    if n.len() > 0 && matched(n.drop_last(), 0, a, 0) {
        let k = n.len() - 1;
        assert(n.take(k) =~= n.drop_last());
        let m = n.skip(k);
        assert(matched(m, 1, q, 1));
        assert(matched(m, 0, q, 0));
    }
}

/// Whether characters can stand for themselves in a class.
pub open spec fn plain_set(set: Seq<char>) -> bool {
    &&& set.len() > 0
    &&& forall|i: int| 0 <= i < set.len() ==> (#[trigger] set[i]) != ']' && set[i] != '-'
}

/// The items of a class of such characters, which begins at `start` and ends in `]`.
proof fn lemma_set(p: Seq<char>, start: int, set: Seq<char>, i: int, c: char)
    requires
        plain_set(set),
        0 <= start <= i <= start + set.len(),
        p.len() == start + set.len() + 1,
        forall|j: int| 0 <= j < set.len() ==> #[trigger] set[j] == p[start + j],
        p[start + set.len()] == ']',
    ensures
        class_end(p, i, start) == Some(p.len() as int),
        class_has(p, i, start, c) <==> exists|j: int|
            i - start <= j < set.len() && #[trigger] set[j] == c,
    decreases p.len() - i,
{
    if i < start + set.len() {
        let j = i - start;
        assert(set[j] == p[start + j]);
        assert(p[i] != ']');
        if i + 2 < p.len() {
            assert(set[j + 1] == p[start + (j + 1)]);
            assert(p[i + 1] != '-');
        }
        assert(!range_at(p, i));
        lemma_set(p, start, set, i + 1, c);
        if class_has(p, i, start, c) && p[i] != c {
            let k = choose|k: int| i + 1 - start <= k < set.len() && #[trigger] set[k] == c;
            assert(i - start <= k < set.len() && set[k] == c);
        }
        if exists|k: int| i - start <= k < set.len() && #[trigger] set[k] == c {
            let k = choose|k: int| i - start <= k < set.len() && #[trigger] set[k] == c;
            if k > j {
                assert(i + 1 - start <= k < set.len() && set[k] == c);
            }
        }
    } else {
        assert(p[i] == ']' && i > start);
    }
}

/// A pattern of one item matches the names of one character that the item takes.
proof fn lemma_one_item(n: Seq<char>, p: Seq<char>)
    requires
        p.len() > 0,
        p[0] != '*',
        after_item(p, 0) == p.len(),
    ensures
        matched(n, 0, p, 0) <==> n.len() == 1 && accepts(p, 0, n[0]),
{
    if n.len() > 0 {
        assert(matched(n, 1, p, p.len() as int) <==> n.len() == 1);
    }
}

/// A class matches one character, one of those in it; with `!` in front one that is not in
/// it.
pub proof fn class_takes_one_of_its_characters(n: Seq<char>, set: Seq<char>)
    requires
        plain_set(set),
        set[0] != '!',
    ensures
        matched(n, 0, seq!['['] + set + seq![']'], 0) <==> n.len() == 1 && set.contains(n[0]),
        matched(n, 0, seq!['[', '!'] + set + seq![']'], 0) <==> n.len() == 1 && !set.contains(n[0]),
{
    let p = seq!['['] + set + seq![']'];
    let q = seq!['[', '!'] + set + seq![']'];
    let c = n[0];
    assert(p[1] == set[0]);
    assert(q[1] == '!');
    assert forall|j: int| 0 <= j < set.len() implies #[trigger] set[j] == p[1 + j] && set[j] == q[2
        + j] by {
    }
    lemma_set(p, 1, set, 1, c);
    lemma_set(q, 2, set, 2, c);
    lemma_one_item(n, p);
    lemma_one_item(n, q);
    if set.contains(c) {
        let k = choose|k: int| 0 <= k < set.len() && set[k] == c;
        assert(set[k] == c);
    }
}

/// A range in a class takes the characters from its first to its last.
pub proof fn range_takes_what_lies_between(n: Seq<char>, a: char, b: char)
    requires
        a != '!',
        a != ']',
        b != ']',
    ensures
        matched(n, 0, seq!['[', a, '-', b, ']'], 0) <==> n.len() == 1 && a <= n[0] && n[0] <= b,
        matched(n, 0, seq!['[', '!', a, '-', b, ']'], 0) <==> n.len() == 1 && !(a <= n[0] && n[0]
            <= b),
{
    let p = seq!['[', a, '-', b, ']'];
    let q = seq!['[', '!', a, '-', b, ']'];
    reveal_with_fuel(class_end, 3);
    reveal_with_fuel(class_has, 3);
    assert(p[1] == a && p[2] == '-' && p[3] == b && p[4] == ']');
    assert(q[1] == '!' && q[2] == a && q[3] == '-' && q[4] == b && q[5] == ']');
    assert(class_end(p, 4, 1) == Some(5int));
    assert(class_end(q, 5, 2) == Some(6int));
    lemma_one_item(n, p);
    lemma_one_item(n, q);
}

proof fn lemma_never_closed(p: Seq<char>, i: int, start: int)
    requires
        0 <= start,
        forall|j: int| start <= j < p.len() ==> (#[trigger] p[j]) != ']',
        start <= i,
    ensures
        class_end(p, i, start) is None,
    decreases p.len() - i,
{
    if i < p.len() {
        assert(p[i] != ']');
        lemma_never_closed(p, i + 1, start);
        if i + 2 < p.len() {
            lemma_never_closed(p, i + 3, start);
        }
    }
}

/// A `[` that nothing closes stands for itself.
pub proof fn open_bracket_stands_for_itself(n: Seq<char>, r: Seq<char>)
    requires
        forall|j: int| 0 <= j < r.len() ==> (#[trigger] r[j]) != ']',
    ensures
        matched(n, 0, seq!['['] + r, 0) <==> n.len() > 0 && n[0] == '[' && matched(
            n.skip(1),
            0,
            r,
            0,
        ),
{
    let a = seq!['['];
    let p = a + r;
    assert forall|j: int| 1 <= j < p.len() implies (#[trigger] p[j]) != ']' by {
        assert(p[j] == r[j - 1]);
    }
    let s = class_start(p, 0);
    lemma_never_closed(p, s, s);
    if n.len() > 0 {
        lemma_pattern_shifts(n, 1, a, r, 0);
        lemma_name_shifts(n, 1, 0, r, 0);
    }
}

} // verus!
