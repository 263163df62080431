//! The icons of one workspace: ordered, free of duplicates, joined by a
//! separator.
//!
//! Strings are ordered as `String` orders them: character by character, by
//! code point, a proper prefix before the longer text.
use crate::text::{chars_of, views};
use vstd::prelude::*;
use vstd::relations::{sorted_by, total_ordering};
use vstd::seq_lib::{
    group_to_multiset_ensures, lemma_sorted_unique, to_multiset_build, to_multiset_insert,
};
use vstd::string::StringExecFns;

verus! {

/// `a` comes before `b` in the lexicographic order by code point, or equals it.
pub open spec fn lex_le(a: Seq<char>, b: Seq<char>) -> bool
    decreases a.len(),
{
    if a.len() == 0 {
        true
    } else if b.len() == 0 {
        false
    } else if a[0] != b[0] {
        a[0] < b[0]
    } else {
        lex_le(a.skip(1), b.skip(1))
    }
}

/// `lex_le` as a relation.
pub open spec fn lex_order() -> spec_fn(Seq<char>, Seq<char>) -> bool {
    |a: Seq<char>, b: Seq<char>| lex_le(a, b)
}

/// `s` without the elements that equal the one before them: of each run of
/// equal neighbours the first stays.
pub open spec fn dedup(s: Seq<Seq<char>>) -> Seq<Seq<char>>
    decreases s.len(),
{
    if s.len() <= 1 {
        s
    } else if s[s.len() - 2] == s.last() {
        dedup(s.drop_last())
    } else {
        dedup(s.drop_last()).push(s.last())
    }
}

/// The icons in lexicographic order, each of them once.
pub open spec fn normalize(icons: Seq<Seq<char>>) -> Seq<Seq<char>> {
    dedup(icons.sort_by(lex_order()))
}

/// The parts one after the other, with `sep` between each two.
pub open spec fn join(parts: Seq<Seq<char>>, sep: Seq<char>) -> Seq<char>
    decreases parts.len(),
{
    if parts.len() == 0 {
        Seq::empty()
    } else if parts.len() == 1 {
        parts[0]
    } else {
        join(parts.drop_last(), sep) + sep + parts.last()
    }
}

/// The text shown for a workspace's icons.
pub open spec fn icon_text(icons: Seq<Seq<char>>, sep: Seq<char>) -> Seq<char> {
    join(normalize(icons), sep)
}

/// No two neighbours in `s` are equal.
pub open spec fn no_equal_neighbours(s: Seq<Seq<char>>) -> bool {
    forall|i: int| 0 < i < s.len() ==> s[i - 1] != #[trigger] s[i]
}

/// Each element of `s` comes strictly before the next ones.
pub open spec fn strictly_increasing(s: Seq<Seq<char>>) -> bool {
    forall|i: int, j: int| 0 <= i < j < s.len() ==> lex_le(s[i], s[j]) && s[i] != s[j]
}

proof fn lemma_lex_reflexive(a: Seq<char>)
    ensures
        lex_le(a, a),
    decreases a.len(),
{
    if a.len() > 0 {
        lemma_lex_reflexive(a.skip(1));
    }
}

proof fn lemma_lex_antisymmetric(a: Seq<char>, b: Seq<char>)
    requires
        lex_le(a, b),
        lex_le(b, a),
    ensures
        a == b,
    decreases a.len(),
{
    if a.len() == 0 {
        assert(b.len() == 0);
        assert(a =~= b);
    } else {
        assert(a[0] == b[0]);
        lemma_lex_antisymmetric(a.skip(1), b.skip(1));
        assert(a =~= seq![a[0]] + a.skip(1));
        assert(b =~= seq![b[0]] + b.skip(1));
    }
}

proof fn lemma_lex_transitive(a: Seq<char>, b: Seq<char>, c: Seq<char>)
    requires
        lex_le(a, b),
        lex_le(b, c),
    ensures
        lex_le(a, c),
    decreases a.len(),
{
    if a.len() > 0 && a[0] == b[0] && b[0] == c[0] {
        lemma_lex_transitive(a.skip(1), b.skip(1), c.skip(1));
    }
}

proof fn lemma_lex_connected(a: Seq<char>, b: Seq<char>)
    ensures
        lex_le(a, b) || lex_le(b, a),
    decreases a.len(),
{
    if a.len() > 0 && b.len() > 0 && a[0] == b[0] {
        lemma_lex_connected(a.skip(1), b.skip(1));
    }
}

/// The lexicographic order is a total order on texts.
pub proof fn lemma_lex_total()
    ensures
        total_ordering(lex_order()),
{
    let r = lex_order();
    assert forall|x: Seq<char>| #[trigger] r(x, x) by {
        lemma_lex_reflexive(x);
    }
    assert forall|x: Seq<char>, y: Seq<char>| #[trigger] r(x, y) && #[trigger] r(y, x) implies x
        == y by {
        lemma_lex_antisymmetric(x, y);
    }
    assert forall|x: Seq<char>, y: Seq<char>, z: Seq<char>| #[trigger]
        r(x, y) && #[trigger] r(y, z) implies r(x, z) by {
        lemma_lex_transitive(x, y, z);
    }
    assert forall|x: Seq<char>, y: Seq<char>| #[trigger] r(x, y) || #[trigger] r(y, x) by {
        lemma_lex_connected(x, y);
    }
}

/// Sorting is decided by the elements alone: a sorted sequence with the
/// elements of `s`, each as often as in `s`, is the sorted form of `s`.
pub proof fn lemma_sort_unique(s: Seq<Seq<char>>, t: Seq<Seq<char>>)
    requires
        sorted_by(t, lex_order()),
        t.to_multiset() == s.to_multiset(),
    ensures
        s.sort_by(lex_order()) == t,
{
    lemma_lex_total();
    s.lemma_sort_by_ensures(lex_order());
    lemma_sorted_unique(s.sort_by(lex_order()), t, lex_order());
}

/// What `dedup` keeps: the elements of `s`, in their order, with no two equal
/// neighbours; the first and the last element stay.
pub proof fn lemma_dedup_properties(s: Seq<Seq<char>>)
    ensures
        no_equal_neighbours(dedup(s)),
        dedup(s).len() <= s.len(),
        s.len() > 0 ==> dedup(s).len() > 0 && dedup(s).last() == s.last() && dedup(s)[0] == s[0],
        forall|x: Seq<char>| s.contains(x) <==> dedup(s).contains(x),
        sorted_by(s, lex_order()) ==> sorted_by(dedup(s), lex_order()),
    decreases s.len(),
{
    if s.len() <= 1 {
    } else {
        let p = s.drop_last();
        let d = dedup(p);
        lemma_dedup_properties(p);
        assert(p.last() == s[s.len() - 2]);
        assert forall|x: Seq<char>| s.contains(x) <==> dedup(s).contains(x) by {
            if s.contains(x) {
                let i = choose|i: int| 0 <= i < s.len() && s[i] == x;
                if i < s.len() - 1 {
                    assert(p[i] == x);
                    assert(p.contains(x));
                    assert(d.contains(x));
                    let j = choose|j: int| 0 <= j < d.len() && d[j] == x;
                    assert(dedup(s)[j] == x);
                } else if s[s.len() - 2] == s.last() {
                    assert(d[d.len() - 1] == x);
                } else {
                    assert(dedup(s)[d.len() as int] == x);
                }
            }
            if dedup(s).contains(x) {
                let j = choose|j: int| 0 <= j < dedup(s).len() && dedup(s)[j] == x;
                if j < d.len() {
                    assert(d[j] == x);
                    assert(d.contains(x));
                    assert(p.contains(x));
                    let i = choose|i: int| 0 <= i < p.len() && p[i] == x;
                    assert(s[i] == x);
                } else {
                    assert(s[s.len() - 1] == x);
                }
            }
        }
        if sorted_by(s, lex_order()) {
            assert forall|i: int, j: int| 0 <= i < j < p.len() implies #[trigger] lex_order()(
                p[i],
                p[j],
            ) by {
                assert(lex_order()(s[i], s[j]));
            }
            if s[s.len() - 2] != s.last() {
                let e = dedup(s);
                assert forall|i: int, j: int| 0 <= i < j < e.len() implies #[trigger] lex_order()(
                    e[i],
                    e[j],
                ) by {
                    if j < d.len() {
                        assert(lex_order()(d[i], d[j]));
                    } else {
                        assert(d.contains(d[i]));
                        assert(p.contains(d[i]));
                        let k = choose|k: int| 0 <= k < p.len() && p[k] == d[i];
                        assert(lex_order()(s[k], s[s.len() - 1]));
                    }
                }
            }
        }
    }
}

/// A sequence without equal neighbours is left as it is.
pub proof fn lemma_dedup_fixed(s: Seq<Seq<char>>)
    requires
        no_equal_neighbours(s),
    ensures
        dedup(s) == s,
    decreases s.len(),
{
    if s.len() > 1 {
        let p = s.drop_last();
        assert forall|i: int| 0 < i < p.len() implies p[i - 1] != #[trigger] p[i] by {
            assert(s[i - 1] != s[i]);
        }
        lemma_dedup_fixed(p);
        assert(s[s.len() - 2] != s[s.len() - 1]);
        assert(p.push(s.last()) == s);
    }
}

/// The normal form is in strictly increasing order and holds exactly the
/// icons that were given.
pub proof fn lemma_normalize_properties(icons: Seq<Seq<char>>)
    ensures
        strictly_increasing(normalize(icons)),
        forall|x: Seq<char>| icons.contains(x) <==> normalize(icons).contains(x),
{
    broadcast use group_to_multiset_ensures;

    lemma_lex_total();
    let sorted = icons.sort_by(lex_order());
    icons.lemma_sort_by_ensures(lex_order());
    lemma_dedup_properties(sorted);
    let n = normalize(icons);
    assert forall|x: Seq<char>| icons.contains(x) <==> n.contains(x) by {
        assert(icons.contains(x) <==> icons.to_multiset().count(x) > 0);
        assert(sorted.contains(x) <==> sorted.to_multiset().count(x) > 0);
    }
    lemma_sorted_strict(n);
}

/// In a sorted sequence without equal neighbours no element occurs twice.
proof fn lemma_sorted_strict(n: Seq<Seq<char>>)
    requires
        sorted_by(n, lex_order()),
        no_equal_neighbours(n),
    ensures
        strictly_increasing(n),
{
    assert forall|i: int, j: int| 0 <= i < j < n.len() implies lex_le(n[i], n[j]) && n[i]
        != n[j] by {
        assert(lex_order()(n[i], n[j]));
        if n[i] == n[j] {
            assert(lex_order()(n[i], n[j - 1]) || i == j - 1);
            if i < j - 1 {
                assert(lex_order()(n[j - 1], n[j]));
                lemma_lex_antisymmetric(n[i], n[j - 1]);
            }
            assert(n[j - 1] != n[j]);
        }
    }
}

/// Putting a list of icons into normal form a second time changes nothing.
pub proof fn lemma_normalize_idempotent(icons: Seq<Seq<char>>)
    ensures
        normalize(normalize(icons)) == normalize(icons),
{
    lemma_lex_total();
    let sorted = icons.sort_by(lex_order());
    icons.lemma_sort_by_ensures(lex_order());
    lemma_dedup_properties(sorted);
    let n = normalize(icons);
    lemma_sort_unique(n, n);
    lemma_dedup_fixed(n);
}

/// The normal form does not depend on the order in which the icons are given.
pub proof fn lemma_normalize_permutation(a: Seq<Seq<char>>, b: Seq<Seq<char>>)
    requires
        a.to_multiset() == b.to_multiset(),
    ensures
        normalize(a) == normalize(b),
{
    lemma_lex_total();
    b.lemma_sort_by_ensures(lex_order());
    lemma_sort_unique(a, b.sort_by(lex_order()));
}

/// Whether `a` comes before `b` in the lexicographic order, or equals it.
pub fn le_text(a: &str, b: &str) -> (le: bool)
    ensures
        le == lex_le(a@, b@),
{
    let ac = chars_of(a);
    let bc = chars_of(b);
    let mut i: usize = 0;
    assert(ac@.skip(0) == ac@ && bc@.skip(0) == bc@);
    while i < ac.len() && i < bc.len()
        invariant
            i <= ac.len(),
            i <= bc.len(),
            ac@ == a@,
            bc@ == b@,
            lex_le(a@, b@) == lex_le(ac@.skip(i as int), bc@.skip(i as int)),
        decreases ac.len() - i,
    {
        let x = ac[i];
        let y = bc[i];
        assert(ac@.skip(i as int)[0] == x && bc@.skip(i as int)[0] == y);
        if x != y {
            return x < y;
        }
        assert(ac@.skip(i as int).skip(1) == ac@.skip(i + 1));
        assert(bc@.skip(i as int).skip(1) == bc@.skip(i + 1));
        i += 1;
    }
    i == ac.len()
}

/// The strings of `v` in lexicographic order.
pub fn sort_texts(v: &Vec<String>) -> (out: Vec<String>)
    ensures
        views(out@) == views(v@).sort_by(lex_order()),
{
    let mut out: Vec<String> = Vec::new();
    let mut i: usize = 0;
    assert(views(out@) =~= views(v@).take(0));
    while i < v.len()
        invariant
            i <= v.len(),
            sorted_by(views(out@), lex_order()),
            views(out@).to_multiset() == views(v@).take(i as int).to_multiset(),
        decreases v.len() - i,
    {
        let item = v[i].clone();
        let ghost before = views(out@);
        let mut p: usize = 0;
        while p < out.len() && le_text(out[p].as_str(), item.as_str())
            invariant
                p <= out.len(),
                i < v.len(),
                before == views(out@),
                item@ == v@[i as int]@,
                forall|k: int| 0 <= k < p ==> lex_le(#[trigger] before[k], item@),
            decreases out.len() - p,
        {
            p += 1;
        }
        out.insert(p, item);
        proof {
            let after = views(out@);
            assert(after =~= before.insert(p as int, item@));
            assert(views(v@).take(i + 1) =~= views(v@).take(i as int).push(item@));
            to_multiset_insert(before, p as int, item@);
            to_multiset_build(views(v@).take(i as int), item@);
            assert forall|x: int, y: int| 0 <= x < y < after.len() implies #[trigger] lex_order()(
                after[x],
                after[y],
            ) by {
                if y < p {
                    assert(lex_order()(before[x], before[y]));
                } else if y == p {
                    assert(lex_le(before[x], item@));
                } else if x == p {
                    assert(!lex_le(before[p as int], item@));
                    lemma_lex_connected(before[p as int], item@);
                    if y - 1 > p {
                        assert(lex_order()(before[p as int], before[y - 1]));
                        lemma_lex_transitive(item@, before[p as int], before[y - 1]);
                    }
                } else if x < p {
                    assert(lex_order()(before[x], before[y - 1]));
                } else {
                    assert(lex_order()(before[x - 1], before[y - 1]));
                }
            }
        }
        i += 1;
    }
    proof {
        assert(views(v@).take(v.len() as int) == views(v@));
        lemma_sort_unique(views(v@), views(out@));
    }
    out
}

/// The strings of `v` without those that equal the one before them.
pub fn dedup_texts(v: &Vec<String>) -> (out: Vec<String>)
    ensures
        views(out@) == dedup(views(v@)),
{
    let mut out: Vec<String> = Vec::new();
    let mut i: usize = 0;
    assert(views(out@) =~= dedup(views(v@).take(0)));
    while i < v.len()
        invariant
            i <= v.len(),
            views(out@) == dedup(views(v@).take(i as int)),
        decreases v.len() - i,
    {
        let ghost before = views(out@);
        let ghost upto = views(v@).take(i + 1);
        assert(upto.drop_last() == views(v@).take(i as int));
        assert(upto.last() == v@[i as int]@);
        if i == 0 || v[i - 1] != v[i] {
            out.push(v[i].clone());
            assert(views(out@) =~= before.push(v@[i as int]@));
            if i > 0 {
                assert(upto[upto.len() - 2] == v@[i - 1]@);
            } else {
                assert(before.push(v@[i as int]@) =~= upto);
            }
        } else {
            assert(upto[upto.len() - 2] == v@[i - 1]@);
        }
        i += 1;
    }
    assert(views(v@).take(v.len() as int) == views(v@));
    out
}

/// The strings of `parts` one after the other, with `sep` between each two.
pub fn join_texts(parts: &Vec<String>, sep: &str) -> (out: String)
    ensures
        out@ == join(views(parts@), sep@),
{
    let mut out = String::new();
    let mut i: usize = 0;
    assert(views(parts@).take(0).len() == 0);
    while i < parts.len()
        invariant
            i <= parts.len(),
            out@ == join(views(parts@).take(i as int), sep@),
        decreases parts.len() - i,
    {
        let ghost upto = views(parts@).take(i + 1);
        assert(upto.drop_last() == views(parts@).take(i as int));
        assert(upto.last() == parts@[i as int]@);
        if i > 0 {
            out.append(sep);
        } else {
            assert(Seq::<char>::empty() + parts@[i as int]@ == parts@[i as int]@);
        }
        out.append(parts[i].as_str());
        i += 1;
    }
    assert(views(parts@).take(parts.len() as int) == views(parts@));
    out
}

/// The text shown for the given icons: sorted, each once, joined by `sep`.
pub fn icon_string(icons: &Vec<String>, sep: &str) -> (out: String)
    ensures
        out@ == icon_text(views(icons@), sep@),
{
    let sorted = sort_texts(icons);
    let unique = dedup_texts(&sorted);
    join_texts(&unique, sep)
}

} // verus!
