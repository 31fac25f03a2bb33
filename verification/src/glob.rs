//! Glob-based security filtering with `fnmatch` semantics.
//!
//! `*` matches any sequence (including `/`), `?` matches a single character, and
//! `[seq]`/`[!seq]` are character classes. A `[` that is not closed stands for
//! itself.
use vstd::prelude::*;
use crate::config::GlobList;
use crate::text::to_chars;

verus! {

/// Where the items of the class that opens at `j` begin: after `[` or `[!`.
pub open spec fn class_start(p: Seq<char>, j: int) -> int {
    if j + 1 < p.len() && p[j + 1] == '!' {
        j + 2
    } else {
        j + 1
    }
}

/// Whether a class item at `i` is a range `a-b`.
pub open spec fn range_at(p: Seq<char>, i: int) -> bool {
    i + 2 < p.len() && p[i + 1] == '-' && p[i + 2] != ']'
}

/// The position behind the `]` that closes a class, seen from the item at `i`. A `]`
/// that is the first item does not close it.
pub open spec fn class_end(p: Seq<char>, i: int, start: int) -> Option<int>
    decreases p.len() - i,
{
    if i < 0 || i >= p.len() {
        None
    } else if p[i] == ']' && i > start {
        Some(i + 1)
    } else if range_at(p, i) {
        class_end(p, i + 3, start)
    } else {
        class_end(p, i + 1, start)
    }
}

/// Whether one of the class items from `i` on names the character.
pub open spec fn class_has(p: Seq<char>, i: int, start: int, c: char) -> bool
    decreases p.len() - i,
{
    if i < 0 || i >= p.len() || (p[i] == ']' && i > start) {
        false
    } else if range_at(p, i) {
        (p[i] <= c && c <= p[i + 2]) || class_has(p, i + 3, start, c)
    } else {
        p[i] == c || class_has(p, i + 1, start, c)
    }
}

/// The position behind the class that opens at `j`, if it is closed.
pub open spec fn class_at(p: Seq<char>, j: int) -> Option<int> {
    class_end(p, class_start(p, j), class_start(p, j))
}

/// The position behind the pattern item at `j`.
pub open spec fn after_item(p: Seq<char>, j: int) -> int {
    if p[j] == '[' && class_at(p, j) is Some {
        class_at(p, j).unwrap()
    } else {
        j + 1
    }
}

/// Whether the pattern item at `j`, which is not `*`, matches the character.
pub open spec fn accepts(p: Seq<char>, j: int, c: char) -> bool {
    if p[j] == '?' {
        true
    } else if p[j] == '[' && class_at(p, j) is Some {
        class_has(p, class_start(p, j), class_start(p, j), c) != (class_start(p, j) == j + 2)
    } else {
        p[j] == c
    }
}

proof fn lemma_class_end(p: Seq<char>, i: int, start: int)
    requires
        0 <= i,
    ensures
        class_end(p, i, start) matches Some(e) ==> i < e <= p.len(),
    decreases p.len() - i,
{
    if i < p.len() && !(p[i] == ']' && i > start) {
        if range_at(p, i) {
            lemma_class_end(p, i + 3, start);
        } else {
            lemma_class_end(p, i + 1, start);
        }
    }
}

/// A pattern item takes at least one character of the pattern.
pub proof fn lemma_after_item(p: Seq<char>, j: int)
    requires
        0 <= j < p.len(),
    ensures
        j < after_item(p, j) <= p.len(),
{
    lemma_class_end(p, class_start(p, j), class_start(p, j));
}

/// Whether the name from `i` on matches the pattern from `j` on.
pub open spec fn matched(n: Seq<char>, i: int, p: Seq<char>, j: int) -> bool
    decreases p.len() - j, n.len() - i,
{
    if i < 0 || i > n.len() || j < 0 {
        false
    } else if j >= p.len() {
        i == n.len()
    } else if p[j] == '*' {
        matched(n, i, p, j + 1) || (i < n.len() && matched(n, i + 1, p, j))
    } else {
        proof {
            lemma_after_item(p, j);
        }
        i < n.len() && accepts(p, j, n[i]) && matched(n, i + 1, p, after_item(p, j))
    }
}

/// The position behind `m` pattern items from `j` on, none of which is `*`.
spec fn after_items(p: Seq<char>, j: int, m: nat) -> Option<int>
    decreases m,
{
    if m == 0 {
        Some(j)
    } else {
        match after_items(p, j, (m - 1) as nat) {
            Some(k) => if 0 <= k < p.len() && p[k] != '*' {
                Some(after_item(p, k))
            } else {
                None
            },
            None => None,
        }
    }
}

/// Items that are not `*` match one character each.
proof fn lemma_items(n: Seq<char>, i: int, p: Seq<char>, j: int, m: nat)
    requires
        matched(n, i, p, j),
        after_items(p, j, m) is Some,
    ensures
        i + m <= n.len(),
        matched(n, i + m, p, after_items(p, j, m).unwrap()),
    decreases m,
{
    if m > 0 {
        lemma_items(n, i, p, j, (m - 1) as nat);
    }
}

/// A `*` that matches from `b` on matches from an earlier position on.
proof fn lemma_star_earlier(n: Seq<char>, a: int, b: int, p: Seq<char>, j: int)
    requires
        0 <= a <= b,
        0 <= j < p.len(),
        p[j] == '*',
        matched(n, b, p, j),
    ensures
        matched(n, a, p, j),
    decreases b - a,
{
    if a < b {
        lemma_star_earlier(n, a + 1, b, p, j);
    }
}

/// What a `*` matches, some rest of the name matches without it.
proof fn lemma_star_rest(n: Seq<char>, i: int, p: Seq<char>, j: int) -> (k: int)
    requires
        0 <= j < p.len(),
        p[j] == '*',
        matched(n, i, p, j),
    ensures
        i <= k <= n.len(),
        matched(n, k, p, j + 1),
    decreases n.len() - i,
{
    if matched(n, i, p, j + 1) {
        i
    } else {
        lemma_star_rest(n, i + 1, p, j)
    }
}

/// `*` matches any sequence of characters.
pub proof fn star_matches_any_sequence(n: Seq<char>, i: int, p: Seq<char>, j: int)
    requires
        0 <= i <= n.len(),
        0 <= j < p.len(),
        p[j] == '*',
    ensures
        matched(n, i, p, j) <==> exists|k: int|
            i <= k <= n.len() && #[trigger] matched(n, k, p, j + 1),
{
    if matched(n, i, p, j) {
        let k = lemma_star_rest(n, i, p, j);
    }
    if exists|k: int| i <= k <= n.len() && #[trigger] matched(n, k, p, j + 1) {
        let k = choose|k: int| i <= k <= n.len() && #[trigger] matched(n, k, p, j + 1);
        assert(matched(n, k, p, j));
        lemma_star_earlier(n, i, k, p, j);
    }
}

/// The pattern `*` matches every name.
pub proof fn star_matches_everything(n: Seq<char>)
    ensures
        matched(n, 0, seq!['*'], 0),
{
    star_matches_any_sequence(n, 0, seq!['*'], 0);
    assert(matched(n, n.len() as int, seq!['*'], 1));
}

/// A pattern without `*`, `?` and `[` matches itself and nothing else.
pub proof fn plain_pattern_matches_itself(n: Seq<char>, p: Seq<char>)
    requires
        forall|j: int|
            0 <= j < p.len() ==> (#[trigger] p[j]) != '*' && p[j] != '?' && p[j] != '[',
    ensures
        matched(n, 0, p, 0) <==> n == p,
{
    lemma_plain(n, p, 0);
    assert(n.skip(0) =~= n);
    assert(p.skip(0) =~= p);
}

proof fn lemma_plain(n: Seq<char>, p: Seq<char>, i: int)
    requires
        0 <= i <= n.len(),
        i <= p.len(),
        forall|j: int|
            0 <= j < p.len() ==> (#[trigger] p[j]) != '*' && p[j] != '?' && p[j] != '[',
    ensures
        matched(n, i, p, i) <==> n.skip(i) == p.skip(i),
    decreases p.len() - i,
{
    if i == p.len() {
        assert(p.skip(i).len() == 0);
        if i == n.len() {
            assert(n.skip(i) =~= p.skip(i));
        } else {
            assert(n.skip(i).len() > 0);
        }
    } else if i == n.len() {
        assert(n.skip(i).len() == 0);
        assert(p.skip(i).len() > 0);
    } else {
        lemma_plain(n, p, i + 1);
        if n.skip(i) == p.skip(i) {
            assert(n[i] == n.skip(i)[0]);
            assert(p[i] == p.skip(i)[0]);
            assert(n.skip(i + 1) =~= n.skip(i).skip(1));
            assert(p.skip(i + 1) =~= p.skip(i).skip(1));
        }
        if n[i] == p[i] && n.skip(i + 1) == p.skip(i + 1) {
            assert(n.skip(i) =~= seq![n[i]] + n.skip(i + 1));
            assert(p.skip(i) =~= seq![p[i]] + p.skip(i + 1));
        }
    }
}

/// An empty rest of a name matches stars only.
proof fn lemma_trailing(n: Seq<char>, p: Seq<char>, j: int)
    requires
        0 <= j <= p.len(),
    ensures
        j < p.len() && p[j] == '*' ==> matched(n, n.len() as int, p, j) == matched(
            n,
            n.len() as int,
            p,
            j + 1,
        ),
        j < p.len() && p[j] != '*' ==> !matched(n, n.len() as int, p, j),
        j == p.len() ==> matched(n, n.len() as int, p, j),
{
}

/// Matches a `[...]` character class starting at `p[pi] == '['`. Returns whether it
/// matched and the index after the class, or `None` if it is not closed.
fn match_class(c: char, p: &[char], pi: usize) -> (r: Option<(bool, usize)>)
    requires
        pi < p@.len(),
        p@[pi as int] == '[',
    ensures
        match r {
            Some((matched, next)) => class_at(p@, pi as int) == Some(next as int) && matched
                == accepts(p@, pi as int, c) && next <= p@.len(),
            None => class_at(p@, pi as int) is None,
        },
{
    let len = p.len();
    let mut i: usize = pi + 1;
    let negate = i < len && p[i] == '!';
    if negate {
        i = i + 1;
    }
    let mut matched = false;
    let start = i;
    let ghost s = start as int;
    assert(s == class_start(p@, pi as int));
    while i < len
        invariant
            len == p@.len(),
            s == start,
            start <= i <= len,
            class_end(p@, s, s) == class_end(p@, i as int, s),
            class_has(p@, s, s, c) == (matched || class_has(p@, i as int, s, c)),
            s == class_start(p@, pi as int),
            negate == (s == pi + 2),
            p@[pi as int] == '[',
        decreases len - i,
    {
        if p[i] == ']' && i > start {
            return Some((matched != negate, i + 1));
        }
        // Range a-b
        if len - i > 2 && p[i + 1] == '-' && p[i + 2] != ']' {
            if c >= p[i] && c <= p[i + 2] {
                matched = true;
            }
            i = i + 3;
        } else {
            if p[i] == c {
                matched = true;
            }
            i = i + 1;
        }
    }
    None
}

fn item_accepts(p: &[char], pi: usize, c: char) -> (r: Option<usize>)
    requires
        pi < p@.len(),
        p@[pi as int] != '*',
    ensures
        match r {
            Some(next) => accepts(p@, pi as int, c) && next as int == after_item(p@, pi as int),
            None => !accepts(p@, pi as int, c),
        },
{
    match p[pi] {
        '?' => Some(pi + 1),
        '[' => match match_class(c, p, pi) {
            Some((matched, next)) => if matched {
                Some(next)
            } else {
                None
            },
            // A class that is not closed: '[' stands for itself.
            None => if c == '[' {
                Some(pi + 1)
            } else {
                None
            },
        },
        x => if x == c {
            Some(pi + 1)
        } else {
            None
        },
    }
}

/// Matches with backtracking to the last `*`.
fn matches_from(n: &[char], p: &[char]) -> (r: bool)
    ensures
        r == matched(n@, 0, p@, 0),
{
    let ghost whole = matched(n@, 0, p@, 0);
    let mut ni: usize = 0;
    let mut pi: usize = 0;
    let mut star: Option<usize> = None;
    let mut star_ni: usize = 0;
    while ni < n.len()
        invariant
            whole == matched(n@, 0, p@, 0),
            ni <= n@.len(),
            pi <= p@.len(),
            star_ni <= ni,
            match star {
                None => whole == matched(n@, ni as int, p@, pi as int),
                Some(sp) => {
                    &&& sp < pi
                    &&& p@[sp as int] == '*'
                    &&& whole == matched(n@, star_ni as int, p@, sp as int)
                    &&& matched(n@, star_ni as int, p@, sp + 1) == matched(
                        n@,
                        ni as int,
                        p@,
                        pi as int,
                    )
                    &&& after_items(p@, sp + 1, (ni - star_ni) as nat) == Some(pi as int)
                },
            },
        decreases
                p@.len() - (match star {
                    Some(sp) => sp + 1,
                    None => 0,
                }),
                n@.len() - star_ni,
                n@.len() - ni,
    {
        if pi < p.len() {
            if p[pi] == '*' {
                proof {
                    if let Some(sp) = star {
                        let m = (ni - star_ni) as nat;
                        if whole {
                            let k = lemma_star_rest(n@, star_ni as int, p@, sp as int);
                            lemma_items(n@, k, p@, sp + 1, m);
                            lemma_star_earlier(n@, ni as int, k + m, p@, pi as int);
                        } else {
                            assert(!matched(n@, star_ni as int, p@, sp + 1));
                        }
                    }
                }
                star = Some(pi);
                star_ni = ni;
                pi = pi + 1;
                continue;
            }
            if let Some(next) = item_accepts(p, pi, n[ni]) {
                proof {
                    lemma_after_item(p@, pi as int);
                    if let Some(sp) = star {
                        assert(after_items(p@, sp + 1, (ni + 1 - star_ni) as nat) == Some(
                            next as int,
                        ));
                    }
                }
                pi = next;
                ni = ni + 1;
                continue;
            }
        }
        // Mismatch: backtrack to the last '*' if any.
        match star {
            Some(sp) => {
                pi = sp + 1;
                star_ni = star_ni + 1;
                ni = star_ni;
            },
            None => {
                return false;
            },
        }
    }
    proof {
        if let Some(sp) = star {
            let m = (ni - star_ni) as nat;
            if whole && !matched(n@, star_ni as int, p@, sp + 1) {
                let k = lemma_star_rest(n@, star_ni as int, p@, sp as int);
                lemma_items(n@, k, p@, sp + 1, m);
            }
        }
        lemma_trailing(n@, p@, pi as int);
    }
    assert(whole == matched(n@, n@.len() as int, p@, pi as int));
    // Consume trailing '*'.
    while pi < p.len() && p[pi] == '*'
        invariant
            pi <= p@.len(),
            whole == matched(n@, n@.len() as int, p@, pi as int),
        decreases p@.len() - pi,
    {
        proof {
            lemma_trailing(n@, p@, pi as int);
        }
        pi = pi + 1;
    }
    proof {
        lemma_trailing(n@, p@, pi as int);
    }
    pi == p.len()
}

/// True if `name` matches `pattern` using `fnmatch` rules.
pub fn fnmatch(name: &str, pattern: &str) -> (r: bool)
    ensures
        r == matched(name@, 0, pattern@, 0),
{
    matches_from(to_chars(name).as_slice(), to_chars(pattern).as_slice())
}

/// Whether one of the patterns matches a name.
pub open spec fn some_matches(list: Seq<String>, name: Seq<char>) -> bool {
    exists|i: int| 0 <= i < list.len() && matched(name, 0, (#[trigger] list[i])@, 0)
}

/// Whether a glob list lets a name pass.
pub open spec fn passes(globs: GlobList, name: Seq<char>) -> bool {
    match globs {
        None => true,
        Some(list) => some_matches(list@, name),
    }
}

/// Applies a glob list to `name`. `None` allows everything; an empty list denies
/// everything; otherwise the name must match at least one pattern.
pub fn allowed(globs: &GlobList, name: &str) -> (r: bool)
    ensures
        r == passes(*globs, name@),
{
    match globs {
        None => true,
        Some(list) => {
            for i in 0..list.len()
                invariant
                    *globs == Some(*list),
                    forall|j: int|
                        0 <= j < i ==> !matched(name@, 0, (#[trigger] list@[j])@, 0),
            {
                if fnmatch(name, list[i].as_str()) {
                    assert(matched(name@, 0, list@[i as int]@, 0));
                    return true;
                }
            }
            false
        },
    }
}

/// No list allows everything, and an empty list denies everything.
pub proof fn absent_list_allows_and_empty_list_denies(list: Vec<String>, name: Seq<char>)
    requires
        list@.len() == 0,
    ensures
        passes(None, name),
        !passes(Some(list), name),
{
}

/// A longer list allows what a shorter one does.
pub proof fn more_patterns_allow_more(list: Vec<String>, longer: Vec<String>, name: Seq<char>)
    requires
        list@.len() <= longer@.len(),
        forall|i: int| 0 <= i < list@.len() ==> (#[trigger] longer@[i])@ == list@[i]@,
        passes(Some(list), name),
    ensures
        passes(Some(longer), name),
{
    let i = choose|i: int| 0 <= i < list@.len() && matched(name, 0, (#[trigger] list@[i])@, 0);
    assert(matched(name, 0, longer@[i]@, 0));
}

} // verus!
