//! The order of strings (by Unicode scalar value, which is also the byte order
//! of their UTF-8 encodings) and sorting of name lists.
use vstd::prelude::*;
use vstd::multiset::Multiset;
use crate::text::{chars_of, string_views};

verus! {

/// `a` comes strictly before `b` in lexicographic order.
pub open spec fn seq_lt(a: Seq<char>, b: Seq<char>) -> bool
    decreases a.len(),
{
    if a.len() == 0 {
        b.len() > 0
    } else if b.len() == 0 {
        false
    } else if a[0] != b[0] {
        a[0] < b[0]
    } else {
        seq_lt(a.drop_first(), b.drop_first())
    }
}

/// No element of `s` comes strictly before an earlier one.
pub open spec fn names_sorted(s: Seq<Seq<char>>) -> bool {
    forall|i: int, j: int| 0 <= i < j < s.len() ==> !seq_lt(#[trigger] s[j], #[trigger] s[i])
}

pub proof fn lemma_lt_irreflexive(a: Seq<char>)
    ensures
        !seq_lt(a, a),
    decreases a.len(),
{
    if a.len() > 0 {
        lemma_lt_irreflexive(a.drop_first());
    }
}

pub proof fn lemma_lt_asymmetric(a: Seq<char>, b: Seq<char>)
    requires
        seq_lt(a, b),
    ensures
        !seq_lt(b, a),
    decreases a.len(),
{
    if a.len() > 0 && b.len() > 0 && a[0] == b[0] {
        lemma_lt_asymmetric(a.drop_first(), b.drop_first());
    }
}

pub proof fn lemma_lt_transitive(a: Seq<char>, b: Seq<char>, c: Seq<char>)
    requires
        seq_lt(a, b),
        seq_lt(b, c),
    ensures
        seq_lt(a, c),
    decreases a.len(),
{
    if a.len() > 0 && b.len() > 0 && c.len() > 0 && a[0] == b[0] && b[0] == c[0] {
        lemma_lt_transitive(a.drop_first(), b.drop_first(), c.drop_first());
    }
}

pub proof fn lemma_lt_total(a: Seq<char>, b: Seq<char>)
    ensures
        seq_lt(a, b) || a == b || seq_lt(b, a),
    decreases a.len(),
{
    if a.len() > 0 && b.len() > 0 && a[0] == b[0] {
        lemma_lt_total(a.drop_first(), b.drop_first());
        if a.drop_first() == b.drop_first() {
            assert(a =~= seq![a[0]] + a.drop_first());
            assert(b =~= seq![b[0]] + b.drop_first());
        }
    } else if a.len() == 0 && b.len() == 0 {
        assert(a =~= b);
    }
}

/// Whether `a` comes strictly before `b`.
pub fn str_lt(a: &str, b: &str) -> (r: bool)
    ensures
        r == seq_lt(a@, b@),
{
    let x = chars_of(a);
    let y = chars_of(b);
    let mut i: usize = 0;
    proof {
        assert(a@.skip(0) =~= a@);
        assert(b@.skip(0) =~= b@);
    }
    while i < x.len() && i < y.len()
        invariant
            x@ == a@,
            y@ == b@,
            i <= x@.len(),
            i <= y@.len(),
            seq_lt(a@, b@) == seq_lt(a@.skip(i as int), b@.skip(i as int)),
        decreases x@.len() - i,
    {
        if x[i] != y[i] {
            proof {
                assert(a@.skip(i as int)[0] == x@[i as int]);
                assert(b@.skip(i as int)[0] == y@[i as int]);
            }
            return x[i] < y[i];
        }
        proof {
            assert(a@.skip(i as int).drop_first() =~= a@.skip(i + 1));
            assert(b@.skip(i as int).drop_first() =~= b@.skip(i + 1));
        }
        i += 1;
    }
    proof {
        assert(a@.skip(i as int).len() == a@.len() - i);
        assert(b@.skip(i as int).len() == b@.len() - i);
    }
    i < y.len()
}

/// The elements of `s`, counted with multiplicity.
pub open spec fn name_bag(s: Seq<String>) -> Multiset<Seq<char>> {
    string_views(s).to_multiset()
}

proof fn lemma_insert_bag(s: Seq<Seq<char>>, i: int, x: Seq<char>)
    requires
        0 <= i <= s.len(),
    ensures
        s.insert(i, x).to_multiset() =~= s.to_multiset().insert(x),
{
    broadcast use vstd::seq_lib::group_seq_properties, vstd::multiset::group_multiset_axioms;
    let t = s.insert(i, x);
    assert(t.remove(i) =~= s);
    t.to_multiset_ensures();
    assert(t.to_multiset().count(x) > 0) by {
        assert(t[i] == x);
        assert(t.contains(x));
    }
}

/// Two sorted lists of the same names, counted with multiplicity, are the
/// same list.
pub proof fn lemma_sorted_unique(a: Seq<Seq<char>>, b: Seq<Seq<char>>)
    requires
        names_sorted(a),
        names_sorted(b),
        a.to_multiset() == b.to_multiset(),
    ensures
        a == b,
    decreases a.len(),
{
    broadcast use vstd::seq_lib::group_seq_properties, vstd::multiset::group_multiset_axioms;
    a.to_multiset_ensures();
    b.to_multiset_ensures();
    if a.len() == 0 {
        assert(a =~= b);
    } else {
        vstd::seq_lib::to_multiset_contains(a, a[0]);
        vstd::seq_lib::to_multiset_contains(b, a[0]);
        vstd::seq_lib::to_multiset_contains(a, b[0]);
        vstd::seq_lib::to_multiset_contains(b, b[0]);
        assert(a.contains(a[0]));
        assert(b.contains(b[0]));
        let k = choose|k: int| 0 <= k < b.len() && b[k] == a[0];
        let m = choose|m: int| 0 <= m < a.len() && a[m] == b[0];
        lemma_lt_total(a[0], b[0]);
        if seq_lt(a[0], b[0]) {
            if k > 0 {
                assert(!seq_lt(b[k], b[0]));
            } else {
                lemma_lt_irreflexive(a[0]);
            }
        }
        if seq_lt(b[0], a[0]) {
            if m > 0 {
                assert(!seq_lt(a[m], a[0]));
            } else {
                lemma_lt_irreflexive(b[0]);
            }
        }
        assert(a[0] == b[0]);
        let ra = a.drop_first();
        let rb = b.drop_first();
        assert(a.remove(0) =~= ra);
        assert(b.remove(0) =~= rb);
        assert(ra.to_multiset() == a.to_multiset().remove(a[0]));
        assert(rb.to_multiset() == b.to_multiset().remove(b[0]));
        assert(names_sorted(ra)) by {
            assert forall|i: int, j: int| 0 <= i < j < ra.len() implies !seq_lt(#[trigger] ra[j], #[trigger] ra[i]) by {
                assert(ra[i] == a[i + 1] && ra[j] == a[j + 1]);
            }
        }
        assert(names_sorted(rb)) by {
            assert forall|i: int, j: int| 0 <= i < j < rb.len() implies !seq_lt(#[trigger] rb[j], #[trigger] rb[i]) by {
                assert(rb[i] == b[i + 1] && rb[j] == b[j + 1]);
            }
        }
        lemma_sorted_unique(ra, rb);
        assert(a =~= seq![a[0]] + ra);
        assert(b =~= seq![b[0]] + rb);
    }
}

/// Each element of `s` comes strictly before every later one: `s` is in
/// ascending order and holds no element twice.
pub open spec fn strictly_sorted(s: Seq<Seq<char>>) -> bool {
    forall|i: int, j: int| 0 <= i < j < s.len() ==> seq_lt(#[trigger] s[i], #[trigger] s[j])
}

/// Two strictly sorted lists with the same elements are the same list.
pub proof fn lemma_strict_same_set(a: Seq<Seq<char>>, b: Seq<Seq<char>>)
    requires
        strictly_sorted(a),
        strictly_sorted(b),
        forall|x: Seq<char>| a.contains(x) <==> b.contains(x),
    ensures
        a == b,
    decreases a.len() + b.len(),
{
    if a.len() == 0 || b.len() == 0 {
        if a.len() > 0 {
            assert(a.contains(a[0]));
        }
        if b.len() > 0 {
            assert(b.contains(b[0]));
        }
        assert(a =~= b);
    } else {
        assert(a.contains(a[0]));
        assert(b.contains(b[0]));
        let k = choose|k: int| 0 <= k < b.len() && b[k] == a[0];
        let m = choose|m: int| 0 <= m < a.len() && a[m] == b[0];
        lemma_lt_total(a[0], b[0]);
        if seq_lt(a[0], b[0]) {
            if k > 0 {
                lemma_lt_asymmetric(b[0], b[k]);
            } else {
                lemma_lt_irreflexive(a[0]);
            }
        }
        if seq_lt(b[0], a[0]) {
            if m > 0 {
                lemma_lt_asymmetric(a[0], a[m]);
            } else {
                lemma_lt_irreflexive(b[0]);
            }
        }
        assert(a[0] == b[0]);
        let ra = a.drop_first();
        let rb = b.drop_first();
        assert forall|x: Seq<char>| ra.contains(x) <==> rb.contains(x) by {
            if ra.contains(x) {
                let i = choose|i: int| 0 <= i < ra.len() && ra[i] == x;
                assert(a[i + 1] == x);
                assert(a.contains(x));
                let j = choose|j: int| 0 <= j < b.len() && b[j] == x;
                if j == 0 {
                    lemma_lt_irreflexive(x);
                    assert(seq_lt(a[0], a[i + 1]));
                }
                assert(rb[j - 1] == x);
            }
            if rb.contains(x) {
                let i = choose|i: int| 0 <= i < rb.len() && rb[i] == x;
                assert(b[i + 1] == x);
                assert(b.contains(x));
                let j = choose|j: int| 0 <= j < a.len() && a[j] == x;
                if j == 0 {
                    lemma_lt_irreflexive(x);
                    assert(seq_lt(b[0], b[i + 1]));
                }
                assert(ra[j - 1] == x);
            }
        }
        assert(strictly_sorted(ra)) by {
            assert forall|i: int, j: int| 0 <= i < j < ra.len() implies seq_lt(#[trigger] ra[i], #[trigger] ra[j]) by {
                assert(ra[i] == a[i + 1] && ra[j] == a[j + 1]);
            }
        }
        assert(strictly_sorted(rb)) by {
            assert forall|i: int, j: int| 0 <= i < j < rb.len() implies seq_lt(#[trigger] rb[i], #[trigger] rb[j]) by {
                assert(rb[i] == b[i + 1] && rb[j] == b[j + 1]);
            }
        }
        lemma_strict_same_set(ra, rb);
        assert(a =~= seq![a[0]] + ra);
        assert(b =~= seq![b[0]] + rb);
    }
}

/// The names of `s` in sorted order.
pub open spec fn sorted_view(s: Seq<Seq<char>>) -> Seq<Seq<char>> {
    choose|t: Seq<Seq<char>>| names_sorted(t) && t.to_multiset() == s.to_multiset()
}

/// A sorted list of the names of `s` is the sorted view of `s`.
pub proof fn lemma_sorted_view(s: Seq<Seq<char>>, t: Seq<Seq<char>>)
    requires
        names_sorted(t),
        t.to_multiset() == s.to_multiset(),
    ensures
        sorted_view(s) == t,
{
    let u = sorted_view(s);
    assert(names_sorted(u) && u.to_multiset() == s.to_multiset());
    lemma_sorted_unique(u, t);
}

/// `names` in order: a permutation of it in which no name comes before an
/// earlier one.
pub fn sort_names(names: Vec<String>) -> (r: Vec<String>)
    ensures
        names_sorted(string_views(r@)),
        name_bag(r@) == name_bag(names@),
        r@.len() == names@.len(),
{
    broadcast use vstd::seq_lib::group_seq_properties;
    let ghost orig = names@;
    let mut out: Vec<String> = Vec::new();
    proof {
        assert(string_views(out@) =~= Seq::<Seq<char>>::empty());
        assert(orig.take(0) =~= Seq::<String>::empty());
        assert(string_views(orig.take(0)) =~= Seq::<Seq<char>>::empty());
    }
    for name in it: names.into_iter()
        invariant
            it.seq() == orig,
            names_sorted(string_views(out@)),
            name_bag(out@) == name_bag(orig.take(it.index())),
            out@.len() == it.index(),
    {
        let ghost before = string_views(out@);
        let mut j: usize = 0;
        while j < out.len() && !str_lt(name.as_str(), out[j].as_str())
            invariant
                j <= out@.len(),
                before == string_views(out@),
                names_sorted(before),
                forall|k: int| 0 <= k < j ==> !seq_lt(name@, #[trigger] before[k]),
            decreases out@.len() - j,
        {
            j += 1;
        }
        let ghost x = name@;
        out.insert(j, name);
        proof {
            let after = string_views(out@);
            assert(after =~= before.insert(j as int, x));
            assert forall|a: int, b: int| 0 <= a < b < after.len() implies !seq_lt(#[trigger] after[b], #[trigger] after[a]) by {
                if a < j && b == j {
                    assert(after[a] == before[a]);
                } else if a == j && b > j {
                    assert(after[b] == before[b - 1]);
                    assert(seq_lt(x, before[j as int]));
                    if seq_lt(before[b - 1], x) {
                        lemma_lt_transitive(before[b - 1], x, before[j as int]);
                        if b - 1 > j {
                            assert(!seq_lt(before[b - 1], before[j as int]));
                        } else {
                            lemma_lt_irreflexive(before[j as int]);
                        }
                    }
                } else if a < j && b > j {
                    assert(after[a] == before[a]);
                    assert(after[b] == before[b - 1]);
                } else if a > j {
                    assert(after[a] == before[a - 1]);
                    assert(after[b] == before[b - 1]);
                } else {
                    assert(after[a] == before[a]);
                    assert(after[b] == before[b]);
                }
            }
            lemma_insert_bag(before, j as int, x);
            let k = it.index();
            assert(orig.take(k + 1) =~= orig.take(k).push(orig[k]));
            assert(string_views(orig.take(k + 1)) =~= string_views(orig.take(k)).push(x));
            string_views(orig.take(k)).to_multiset_ensures();
        }
    }
    proof {
        assert(orig.take(orig.len() as int) =~= orig);
    }
    out
}

} // verus!
