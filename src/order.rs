use vstd::prelude::*;

use crate::config::views;
use crate::text::collect_chars;

verus! {

/// Whether `a` comes strictly before `b` in character order, the order of `String`'s `Ord`.
pub open spec fn precedes(a: Seq<char>, b: Seq<char>) -> bool
    decreases a.len(),
{
    if a.len() == 0 {
        b.len() > 0
    } else if b.len() == 0 {
        false
    } else if a[0] != b[0] {
        a[0] < b[0]
    } else {
        precedes(a.drop_first(), b.drop_first())
    }
}

/// Whether each entry of `s` comes strictly before the next ones.
pub open spec fn sorted(s: Seq<Seq<char>>) -> bool {
    forall|i: int, j: int| 0 <= i < j < s.len() ==> precedes(#[trigger] s[i], #[trigger] s[j])
}

pub proof fn lemma_precedes_irreflexive(a: Seq<char>)
    ensures
        !precedes(a, a),
    decreases a.len(),
{
    if a.len() > 0 {
        lemma_precedes_irreflexive(a.drop_first());
    }
}

pub proof fn lemma_precedes_transitive(a: Seq<char>, b: Seq<char>, c: Seq<char>)
    requires
        precedes(a, b),
        precedes(b, c),
    ensures
        precedes(a, c),
    decreases a.len(),
{
    if a.len() > 0 && b.len() > 0 && c.len() > 0 && a[0] == b[0] && b[0] == c[0] {
        lemma_precedes_transitive(a.drop_first(), b.drop_first(), c.drop_first());
    }
}

pub proof fn lemma_precedes_total(a: Seq<char>, b: Seq<char>)
    requires
        a != b,
    ensures
        precedes(a, b) || precedes(b, a),
    decreases a.len(),
{
    if a.len() > 0 && b.len() > 0 && a[0] == b[0] {
        if a.drop_first() == b.drop_first() {
            assert(a =~= seq![a[0]] + a.drop_first());
            assert(b =~= seq![b[0]] + b.drop_first());
        }
        lemma_precedes_total(a.drop_first(), b.drop_first());
    } else if a.len() == 0 && b.len() == 0 {
        assert(a =~= b);
    }
}

/// Whether `a` comes strictly before `b` in character order.
pub fn text_precedes(a: &String, b: &String) -> (r: bool)
    ensures
        r == precedes(a@, b@),
{
    let x = collect_chars(a.as_str());
    let y = collect_chars(b.as_str());
    let mut i: usize = 0;
    assert(x@.subrange(0, x@.len() as int) == x@);
    assert(y@.subrange(0, y@.len() as int) == y@);
    while i < x.len() && i < y.len() && x[i] == y[i]
        invariant
            i <= x@.len(),
            i <= y@.len(),
            precedes(x@, y@) == precedes(x@.subrange(i as int, x@.len() as int), y@.subrange(i as int, y@.len() as int)),
        decreases x@.len() - i,
    {
        assert(x@.subrange(i as int, x@.len() as int).drop_first() == x@.subrange(i + 1, x@.len() as int));
        assert(y@.subrange(i as int, y@.len() as int).drop_first() == y@.subrange(i + 1, y@.len() as int));
        i = i + 1;
    }
    if i == x.len() {
        i < y.len()
    } else if i == y.len() {
        false
    } else {
        x[i] < y[i]
    }
}

/// The first index of `s` whose entry `a` precedes, or the length of `s`.
pub open spec fn insert_pos(s: Seq<Seq<char>>, a: Seq<char>, i: int) -> int
    decreases s.len() - i,
{
    if i >= s.len() {
        s.len() as int
    } else if precedes(a, s[i]) {
        i
    } else {
        insert_pos(s, a, i + 1)
    }
}

/// `s` with `a` placed before the first entry that it precedes.
pub open spec fn insert_sorted(s: Seq<Seq<char>>, a: Seq<char>) -> Seq<Seq<char>> {
    s.insert(insert_pos(s, a, 0), a)
}

proof fn lemma_insert_pos(s: Seq<Seq<char>>, a: Seq<char>, i: int)
    requires
        0 <= i <= s.len(),
    ensures
        i <= insert_pos(s, a, i) <= s.len(),
        forall|j: int| i <= j < insert_pos(s, a, i) ==> !precedes(a, #[trigger] s[j]),
        insert_pos(s, a, i) < s.len() ==> precedes(a, s[insert_pos(s, a, i)]),
    decreases s.len() - i,
{
    if i < s.len() && !precedes(a, s[i]) {
        lemma_insert_pos(s, a, i + 1);
    }
}

/// Placing a new entry keeps a sorted sequence sorted.
pub proof fn lemma_insert_sorted(s: Seq<Seq<char>>, a: Seq<char>)
    requires
        sorted(s),
        !s.contains(a),
    ensures
        sorted(insert_sorted(s, a)),
        insert_sorted(s, a).contains(a),
        forall|x: Seq<char>| s.contains(x) ==> insert_sorted(s, a).contains(x),
        forall|x: Seq<char>| #[trigger] insert_sorted(s, a).contains(x) ==> x == a || s.contains(x),
{
    lemma_insert_pos(s, a, 0);
    let k = insert_pos(s, a, 0);
    let r = insert_sorted(s, a);
    assert(r.len() == s.len() + 1);
    assert forall|j: int| 0 <= j < k implies precedes(#[trigger] s[j], a) by {
        if s[j] == a {
            assert(s.contains(a));
        }
        lemma_precedes_total(s[j], a);
    }
    assert forall|j: int| k <= j < s.len() implies precedes(a, #[trigger] s[j]) by {
        if j > k {
            lemma_precedes_transitive(a, s[k], s[j]);
        }
    }
    assert forall|i: int, j: int| 0 <= i < j < r.len() implies precedes(#[trigger] r[i], #[trigger] r[j]) by {
        if i < k && j < k {
        } else if i < k && j == k {
        } else if i < k {
            assert(r[j] == s[j - 1]);
            lemma_precedes_transitive(s[i], a, s[j - 1]);
        } else if i == k {
            assert(r[j] == s[j - 1]);
        } else {
            assert(r[i] == s[i - 1]);
            assert(r[j] == s[j - 1]);
        }
    }
    assert(r[k] == a);
    assert forall|x: Seq<char>| s.contains(x) implies r.contains(x) by {
        let j = choose|j: int| 0 <= j < s.len() && s[j] == x;
        if j < k {
            assert(r[j] == x);
        } else {
            assert(r[j + 1] == x);
        }
    }
    assert forall|x: Seq<char>| #[trigger] r.contains(x) implies x == a || s.contains(x) by {
        let j = choose|j: int| 0 <= j < r.len() && r[j] == x;
        if j < k {
            assert(s[j] == x);
        } else if j > k {
            assert(s[j - 1] == x);
        }
    }
}

/// Index at which `c` belongs in the sorted vector `v`.
pub fn find_insert_pos(v: &Vec<String>, c: &String) -> (r: usize)
    ensures
        r == insert_pos(views(v@), c@, 0),
        r <= v@.len(),
{
    let ghost s = views(v@);
    let mut i: usize = 0;
    while i < v.len() && !text_precedes(c, &v[i])
        invariant
            i <= v@.len(),
            s == views(v@),
            insert_pos(s, c@, 0) == insert_pos(s, c@, i as int),
        decreases v@.len() - i,
    {
        i = i + 1;
    }
    i
}

} // verus!
