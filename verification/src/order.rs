//! Lexicographic order on integer sequences, and a verified selection sort
//! by such keys.
use vstd::prelude::*;

verus! {

/// Strict lexicographic order: the first differing element decides, and a
/// proper prefix is smaller.
pub open spec fn lex_lt(a: Seq<i64>, b: Seq<i64>) -> bool
    decreases a.len(),
{
    if a.len() == 0 {
        b.len() > 0
    } else if b.len() == 0 {
        false
    } else if a[0] < b[0] {
        true
    } else if a[0] > b[0] {
        false
    } else {
        lex_lt(a.drop_first(), b.drop_first())
    }
}

pub open spec fn lex_le(a: Seq<i64>, b: Seq<i64>) -> bool {
    lex_lt(a, b) || a == b
}

pub proof fn lemma_lex_irreflexive(a: Seq<i64>)
    ensures
        !lex_lt(a, a),
    decreases a.len(),
{
    if a.len() > 0 {
        lemma_lex_irreflexive(a.drop_first());
    }
}

pub proof fn lemma_lex_transitive(a: Seq<i64>, b: Seq<i64>, c: Seq<i64>)
    requires
        lex_lt(a, b),
        lex_lt(b, c),
    ensures
        lex_lt(a, c),
    decreases a.len(),
{
    if a.len() > 0 && b.len() > 0 && c.len() > 0 {
        if a[0] == b[0] && b[0] == c[0] {
            lemma_lex_transitive(a.drop_first(), b.drop_first(), c.drop_first());
        }
    }
}

pub proof fn lemma_lex_total(a: Seq<i64>, b: Seq<i64>)
    ensures
        lex_lt(a, b) || lex_lt(b, a) || a == b,
    decreases a.len(),
{
    if a.len() > 0 && b.len() > 0 {
        if a[0] == b[0] {
            lemma_lex_total(a.drop_first(), b.drop_first());
            if a.drop_first() == b.drop_first() {
                assert(a =~= seq![a[0]] + a.drop_first());
                assert(b =~= seq![b[0]] + b.drop_first());
            }
        }
    } else if a.len() == 0 && b.len() == 0 {
        assert(a =~= b);
    }
}

pub proof fn lemma_lex_asymmetric(a: Seq<i64>, b: Seq<i64>)
    requires
        lex_lt(a, b),
    ensures
        !lex_lt(b, a),
{
    if lex_lt(b, a) {
        lemma_lex_transitive(a, b, a);
        lemma_lex_irreflexive(a);
    }
}

/// Exec comparison of two keys.
pub fn key_lt(a: &[i64], b: &[i64]) -> (r: bool)
    ensures
        r == lex_lt(a@, b@),
{
    let mut i: usize = 0;
    assert(a@.skip(0) =~= a@);
    assert(b@.skip(0) =~= b@);
    while i < a.len() && i < b.len()
        invariant
            i <= a.len(),
            i <= b.len(),
            lex_lt(a@, b@) == lex_lt(a@.skip(i as int), b@.skip(i as int)),
        decreases a.len() - i,
    {
        let ghost sa = a@.skip(i as int);
        let ghost sb = b@.skip(i as int);
        assert(sa[0] == a@[i as int]);
        assert(sb[0] == b@[i as int]);
        if a[i] < b[i] {
            return true;
        }
        if a[i] > b[i] {
            return false;
        }
        assert(sa.drop_first() =~= a@.skip(i + 1));
        assert(sb.drop_first() =~= b@.skip(i + 1));
        i += 1;
    }
    i == a.len() && i < b.len()
}

/// The keys of a keyed sequence.
pub open spec fn keys_of<T>(s: Seq<(Vec<i64>, T)>) -> Seq<Seq<i64>> {
    s.map_values(|p: (Vec<i64>, T)| p.0@)
}

/// The keys of a keyed sequence are in non-decreasing order.
pub open spec fn keys_sorted<T>(s: Seq<(Vec<i64>, T)>) -> bool {
    forall|i: int, j: int| 0 <= i < j < s.len() ==> lex_le(s[i].0@, s[j].0@)
}

/// An element of a sequence occurs in any sequence with the same multiset.
pub proof fn lemma_mset_has<T>(a: Seq<T>, b: Seq<T>, i: int)
    requires
        a.to_multiset() == b.to_multiset(),
        0 <= i < a.len(),
    ensures
        exists|j: int| 0 <= j < b.len() && b[j] == a[i],
{
    broadcast use vstd::seq_lib::group_to_multiset_ensures;

    assert(a.contains(a[i]));
    assert(a.to_multiset().count(a[i]) > 0);
    assert(b.contains(a[i]));
}

/// A sequence of keys in non-decreasing order.
pub open spec fn seq_sorted(s: Seq<Seq<i64>>) -> bool {
    forall|i: int, j: int| 0 <= i < j < s.len() ==> lex_le(#[trigger] s[i], #[trigger] s[j])
}

/// Two keys each no greater than the other are equal.
pub proof fn lemma_lex_antisymmetric(a: Seq<i64>, b: Seq<i64>)
    requires
        lex_le(a, b),
        lex_le(b, a),
    ensures
        a == b,
{
    if a != b {
        lemma_lex_asymmetric(a, b);
    }
}

/// Two sorted sequences with the same elements are equal.
pub proof fn lemma_sorted_unique(a: Seq<Seq<i64>>, b: Seq<Seq<i64>>)
    requires
        seq_sorted(a),
        seq_sorted(b),
        a.to_multiset() == b.to_multiset(),
    ensures
        a == b,
    decreases a.len(),
{
    broadcast use vstd::seq_lib::group_to_multiset_ensures;

    assert(a.len() == a.to_multiset().len());
    assert(b.len() == b.to_multiset().len());
    if a.len() == 0 {
        assert(a =~= b);
    } else {
        lemma_mset_has(a, b, 0);
        let j = choose|j: int| 0 <= j < b.len() && b[j] == a[0];
        lemma_mset_has(b, a, 0);
        let i = choose|i: int| 0 <= i < a.len() && a[i] == b[0];
        if j > 0 {
            assert(lex_le(b[0], b[j]));
        }
        if i > 0 {
            assert(lex_le(a[0], a[i]));
        }
        lemma_lex_antisymmetric(a[0], b[0]);
        assert(a.remove(0) =~= a.drop_first());
        assert(b.remove(0) =~= b.drop_first());
        assert(a.drop_first().to_multiset() == b.drop_first().to_multiset());
        assert forall|p: int, q: int| 0 <= p < q < a.drop_first().len() implies lex_le(
            #[trigger] a.drop_first()[p],
            #[trigger] a.drop_first()[q],
        ) by {
            assert(lex_le(a[p + 1], a[q + 1]));
        }
        assert forall|p: int, q: int| 0 <= p < q < b.drop_first().len() implies lex_le(
            #[trigger] b.drop_first()[p],
            #[trigger] b.drop_first()[q],
        ) by {
            assert(lex_le(b[p + 1], b[q + 1]));
        }
        lemma_sorted_unique(a.drop_first(), b.drop_first());
        assert(a =~= seq![a[0]] + a.drop_first());
        assert(b =~= seq![b[0]] + b.drop_first());
    }
}

/// Index of an element with the least key.
fn min_index<T>(v: &Vec<(Vec<i64>, T)>) -> (m: usize)
    requires
        v.len() > 0,
    ensures
        m < v.len(),
        forall|j: int| 0 <= j < v.len() ==> lex_le(v@[m as int].0@, #[trigger] v@[j].0@),
{
    let mut m: usize = 0;
    let mut j: usize = 1;
    while j < v.len()
        invariant
            m < j <= v.len(),
            forall|k: int| 0 <= k < j ==> lex_le(v@[m as int].0@, #[trigger] v@[k].0@),
        decreases v.len() - j,
    {
        if key_lt(v[j].0.as_slice(), v[m].0.as_slice()) {
            proof {
                assert forall|k: int| 0 <= k < j + 1 implies lex_le(v@[j as int].0@, #[trigger] v@[k].0@) by {
                    if k < j {
                        if lex_lt(v@[m as int].0@, v@[k].0@) {
                            lemma_lex_transitive(v@[j as int].0@, v@[m as int].0@, v@[k].0@);
                        }
                    }
                }
            }
            m = j;
        } else {
            proof {
                lemma_lex_total(v@[m as int].0@, v@[j as int].0@);
            }
        }
        j += 1;
    }
    m
}

/// Sorts by key (selection sort): the result has the same elements and
/// keys in non-decreasing order.
pub fn sort_by_key<T>(v: Vec<(Vec<i64>, T)>) -> (r: Vec<(Vec<i64>, T)>)
    ensures
        r@.to_multiset() == v@.to_multiset(),
        keys_of(r@).to_multiset() == keys_of(v@).to_multiset(),
        keys_sorted(r@),
    decreases v.len(),
{
    broadcast use vstd::seq_lib::group_to_multiset_ensures;

    let mut rest = v;
    let mut out: Vec<(Vec<i64>, T)> = Vec::new();
    let ghost total = rest@.to_multiset();
    let ghost ktotal = keys_of(rest@).to_multiset();
    assert(keys_of(out@).to_multiset() =~= vstd::multiset::Multiset::empty());
    assert(out@.to_multiset() =~= vstd::multiset::Multiset::empty());
    while rest.len() > 0
        invariant
            out@.to_multiset().add(rest@.to_multiset()) == total,
            keys_of(out@).to_multiset().add(keys_of(rest@).to_multiset()) == ktotal,
            keys_sorted(out@),
            forall|i: int, j: int|
                0 <= i < out@.len() && 0 <= j < rest@.len() ==> lex_le(
                    #[trigger] out@[i].0@,
                    #[trigger] rest@[j].0@,
                ),
        decreases rest.len(),
    {
        let m = min_index(&rest);
        let ghost old_rest = rest@;
        let ghost old_out = out@;
        let item = rest.remove(m);
        assert(item == old_rest[m as int]);
        out.push(item);
        proof {
            assert(out@ == old_out.push(item));
            assert(rest@ == old_rest.remove(m as int));
            broadcast use vstd::seq_lib::group_to_multiset_ensures;
            assert(old_out.push(item).to_multiset() =~= old_out.to_multiset().insert(item));
            assert(old_rest.remove(m as int).to_multiset() =~= old_rest.to_multiset().remove(old_rest[m as int]));
            assert(out@.to_multiset().add(rest@.to_multiset()) =~= total);
            assert(keys_of(out@) =~= keys_of(old_out).push(item.0@));
            assert(keys_of(rest@) =~= keys_of(old_rest).remove(m as int));
            assert(keys_of(old_out).push(item.0@).to_multiset() =~= keys_of(old_out).to_multiset().insert(item.0@));
            assert(keys_of(old_rest).remove(m as int).to_multiset() =~= keys_of(old_rest).to_multiset().remove(keys_of(old_rest)[m as int]));
            assert(keys_of(out@).to_multiset().add(keys_of(rest@).to_multiset()) =~= ktotal);
            assert forall|i: int, j: int| 0 <= i < j < out@.len() implies lex_le(
                out@[i].0@,
                out@[j].0@,
            ) by {
                if j == out@.len() - 1 {
                    assert(out@[j] == old_rest[m as int]);
                } else {
                    assert(out@[i] == old_out[i]);
                    assert(out@[j] == old_out[j]);
                }
            }
            assert forall|i: int, j: int|
                0 <= i < out@.len() && 0 <= j < rest@.len() implies lex_le(
                #[trigger] out@[i].0@,
                #[trigger] rest@[j].0@,
            ) by {
                let jj = if j < m { j } else { j + 1 };
                assert(rest@[j] == old_rest[jj]);
                if i < old_out.len() {
                    assert(out@[i] == old_out[i]);
                } else {
                    assert(out@[i] == old_rest[m as int]);
                }
            }
        }
    }
    assert(rest@.to_multiset() =~= vstd::multiset::Multiset::empty());
    assert(out@.to_multiset() =~= total);
    assert(keys_of(rest@).to_multiset() =~= vstd::multiset::Multiset::empty()) by {
        broadcast use vstd::seq_lib::group_to_multiset_ensures;
    }
    assert(keys_of(out@).to_multiset() =~= ktotal);
    out
}

} // verus!
