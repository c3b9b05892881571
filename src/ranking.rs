//! Top-N ranking of a keyed numeric mapping.
use vstd::prelude::*;

verus! {

/// A ranked entry: its name and its value.
pub type Ranked = (Seq<char>, int);

/// Lexicographic order of names, by character code.
pub open spec fn name_lt(a: Seq<char>, b: Seq<char>) -> bool
    decreases a.len(),
{
    if a.len() == 0 {
        b.len() > 0
    } else if b.len() == 0 {
        false
    } else if a[0] != b[0] {
        (a[0] as int) < (b[0] as int)
    } else {
        name_lt(a.drop_first(), b.drop_first())
    }
}

/// `a` comes before `b` in a ranking: a larger value first, equal values by
/// ascending name.
pub open spec fn ranks_before(a: Ranked, b: Ranked) -> bool {
    a.1 > b.1 || (a.1 == b.1 && name_lt(a.0, b.0))
}

pub open spec fn pair_view(p: (String, u128)) -> Ranked {
    (p.0@, p.1 as int)
}

pub open spec fn pairs_view(v: Seq<(String, u128)>) -> Seq<Ranked> {
    v.map_values(|p: (String, u128)| pair_view(p))
}

pub open spec fn names_distinct(s: Seq<Ranked>) -> bool {
    forall|i: int, j: int| 0 <= i < j < s.len() ==> (#[trigger] s[i]).0 != (#[trigger] s[j]).0
}

/// `r` is the first `n` entries of `m` in ranking order: as many as `n` and
/// the size of `m` allow, each an entry of `m`, in strictly ranking order, and
/// every entry of `m` left out ranks after all of them.
pub open spec fn is_top(m: Seq<Ranked>, n: int, r: Seq<Ranked>) -> bool {
    &&& r.len() == if n < m.len() { n } else { m.len() as int }
    &&& forall|j: int| 0 <= j < r.len() ==> listed(m, #[trigger] r[j])
    &&& forall|j: int, k: int| 0 <= j < k < r.len() ==> ranks_before(#[trigger] r[j], #[trigger] r[k])
    &&& forall|i: int| 0 <= i < m.len() ==> listed(r, #[trigger] m[i]) || ranks_after_all(r, m[i])
}

pub open spec fn listed(r: Seq<Ranked>, e: Ranked) -> bool {
    exists|j: int| 0 <= j < r.len() && #[trigger] r[j] == e
}

pub open spec fn ranks_after_all(r: Seq<Ranked>, e: Ranked) -> bool {
    forall|j: int| 0 <= j < r.len() ==> ranks_before(#[trigger] r[j], e)
}

proof fn lemma_name_lt_irreflexive(a: Seq<char>)
    ensures
        !name_lt(a, a),
    decreases a.len(),
{
    if a.len() > 0 {
        lemma_name_lt_irreflexive(a.drop_first());
    }
}

proof fn lemma_name_lt_transitive(a: Seq<char>, b: Seq<char>, c: Seq<char>)
    requires
        name_lt(a, b),
        name_lt(b, c),
    ensures
        name_lt(a, c),
    decreases a.len(),
{
    if a.len() > 0 && b.len() > 0 && c.len() > 0 && a[0] == b[0] && b[0] == c[0] {
        lemma_name_lt_transitive(a.drop_first(), b.drop_first(), c.drop_first());
    }
}

proof fn lemma_name_lt_total(a: Seq<char>, b: Seq<char>)
    requires
        a != b,
    ensures
        name_lt(a, b) || name_lt(b, a),
    decreases a.len(),
{
    if a.len() == 0 && b.len() == 0 {
        assert(a =~= b);
    } else if a.len() > 0 && b.len() > 0 && a[0] == b[0] {
        let ta = a.drop_first();
        let tb = b.drop_first();
        if ta == tb {
            assert(ta.len() == a.len() - 1);
            assert(tb.len() == b.len() - 1);
            assert(a.len() == b.len());
            assert forall|i: int| 0 <= i < a.len() implies a[i] == b[i] by {
                if i > 0 {
                    assert(a[i] == ta[i - 1]);
                    assert(b[i] == tb[i - 1]);
                }
            }
            assert(a =~= b);
        }
        lemma_name_lt_total(ta, tb);
    }
}

proof fn lemma_ranks_transitive(a: Ranked, b: Ranked, c: Ranked)
    requires
        ranks_before(a, b),
        ranks_before(b, c),
    ensures
        ranks_before(a, c),
{
    if a.1 == b.1 && b.1 == c.1 {
        lemma_name_lt_transitive(a.0, b.0, c.0);
    }
}

proof fn lemma_ranks_total(a: Ranked, b: Ranked)
    requires
        a.0 != b.0,
    ensures
        ranks_before(a, b) || ranks_before(b, a),
{
    lemma_name_lt_total(a.0, b.0);
}

/// Whether name `a` sorts before name `b`.
pub fn name_less(a: &String, b: &String) -> (r: bool)
    ensures
        r == name_lt(a@, b@),
{
    let sa = a.as_str();
    let sb = b.as_str();
    let la = sa.unicode_len();
    let lb = sb.unicode_len();
    let mut i: usize = 0;
    assert(a@.skip(0) =~= a@);
    assert(b@.skip(0) =~= b@);
    while i < la && i < lb
        invariant
            la == a@.len(),
            lb == b@.len(),
            sa@ == a@,
            sb@ == b@,
            i <= la,
            i <= lb,
            name_lt(a@, b@) == name_lt(a@.skip(i as int), b@.skip(i as int)),
        decreases la - i,
    {
        let ca = sa.get_char(i);
        let cb = sb.get_char(i);
        assert(a@.skip(i as int)[0] == ca && b@.skip(i as int)[0] == cb);
        if ca != cb {
            return (ca as u32) < (cb as u32);
        }
        assert(a@.skip(i as int).drop_first() =~= a@.skip(i + 1));
        assert(b@.skip(i as int).drop_first() =~= b@.skip(i + 1));
        i = i + 1;
    }
    i == la && i < lb
}

/// Number of `true` flags.
spec fn count_true(s: Seq<bool>) -> int
    decreases s.len(),
{
    if s.len() == 0 {
        0
    } else {
        count_true(s.drop_last()) + if s.last() { 1int } else { 0 }
    }
}

proof fn lemma_count_true_set(s: Seq<bool>, i: int)
    requires
        0 <= i < s.len(),
        !s[i],
    ensures
        count_true(s.update(i, true)) == count_true(s) + 1,
    decreases s.len(),
{
    if i == s.len() - 1 {
        assert(s.update(i, true).drop_last() =~= s.drop_last());
    } else {
        assert(s.update(i, true).drop_last() =~= s.drop_last().update(i, true));
        lemma_count_true_set(s.drop_last(), i);
    }
}

proof fn lemma_count_true_all(s: Seq<bool>)
    requires
        forall|i: int| 0 <= i < s.len() ==> s[i],
    ensures
        count_true(s) == s.len(),
    decreases s.len(),
{
    if s.len() > 0 {
        lemma_count_true_all(s.drop_last());
    }
}

/// The `n` entries of `pairs` with the largest values, largest first; equal
/// values in ascending order of name.
pub fn top_values(pairs: &Vec<(String, u128)>, n: usize) -> (r: Vec<(String, u128)>)
    requires
        names_distinct(pairs_view(pairs@)),
    ensures
        is_top(pairs_view(pairs@), n as int, pairs_view(r@)),
{
    let ghost m = pairs_view(pairs@);
    let len = pairs.len();
    let mut taken: Vec<bool> = Vec::new();
    let mut k: usize = 0;
    while k < len
        invariant
            k <= len,
            taken@.len() == k,
            forall|i: int| 0 <= i < k ==> !taken@[i],
        decreases len - k,
    {
        taken.push(false);
        k = k + 1;
    }
    proof {
        assert(count_true(taken@) == 0) by {
            lemma_count_true_none(taken@);
        }
    }
    let mut out: Vec<(String, u128)> = Vec::new();
    let ghost mut idx: Seq<int> = Seq::empty();
    while out.len() < n && out.len() < len
        invariant
            len == pairs@.len(),
            m == pairs_view(pairs@),
            m.len() == len,
            names_distinct(m),
            taken@.len() == len,
            out@.len() == count_true(taken@),
            out@.len() <= n,
            out@.len() <= len,
            idx.len() == out@.len(),
            forall|j: int| 0 <= j < idx.len() ==> 0 <= #[trigger] idx[j] < len && taken@[idx[j]]
                && pairs_view(out@)[j] == m[idx[j]],
            forall|i: int| 0 <= i < len && #[trigger] taken@[i] ==> exists|j: int|
                0 <= j < idx.len() && idx[j] == i,
            forall|j: int, k: int|
                0 <= j < k < out@.len() ==> ranks_before(
                    #[trigger] pairs_view(out@)[j],
                    #[trigger] pairs_view(out@)[k],
                ),
            forall|j: int, i: int|
                0 <= j < out@.len() && 0 <= i < len && !taken@[i] ==> ranks_before(
                    #[trigger] pairs_view(out@)[j],
                    #[trigger] m[i],
                ),
        decreases len - out@.len(),
    {
        let mut best: usize = len;
        let mut i: usize = 0;
        while i < len
            invariant
                len == pairs@.len(),
                m == pairs_view(pairs@),
                names_distinct(m),
                taken@.len() == len,
                i <= len,
                best == len || (best < i && !taken@[best as int]),
                best == len ==> forall|j: int| 0 <= j < i ==> #[trigger] taken@[j],
                best < len ==> forall|j: int|
                    0 <= j < i && !taken@[j] && j != best ==> ranks_before(
                        m[best as int],
                        #[trigger] m[j],
                    ),
            decreases len - i,
        {
            if !taken[i] {
                assert(m[i as int] == pair_view(pairs@[i as int]));
                if best == len {
                    best = i;
                } else {
                    assert(m[best as int] == pair_view(pairs@[best as int]));
                    let better = pairs[i].1 > pairs[best].1 || (pairs[i].1 == pairs[best].1
                        && name_less(&pairs[i].0, &pairs[best].0));
                    if better {
                        proof {
                            assert forall|j: int|
                                0 <= j < i + 1 && !taken@[j] && j != i implies ranks_before(
                                m[i as int],
                                #[trigger] m[j],
                            ) by {
                                if j != best {
                                    lemma_ranks_transitive(m[i as int], m[best as int], m[j]);
                                }
                            }
                        }
                        best = i;
                    } else {
                        proof {
                            lemma_ranks_total(m[i as int], m[best as int]);
                        }
                    }
                }
            }
            i = i + 1;
        }
        proof {
            if best == len {
                lemma_count_true_all(taken@);
            }
        }
        assert(best < len);
        proof {
            lemma_count_true_set(taken@, best as int);
        }
        assert(m[best as int] == pair_view(pairs@[best as int]));
        let ghost old_out = pairs_view(out@);
        let ghost old_taken = taken@;
        let ghost old_idx = idx;
        taken.set(best, true);
        out.push((pairs[best].0.clone(), pairs[best].1));
        proof {
            assert(pairs_view(out@) =~= old_out.push(m[best as int]));
            idx = idx.push(best as int);
            assert forall|i: int| 0 <= i < len && #[trigger] taken@[i] implies exists|j: int|
                0 <= j < idx.len() && idx[j] == i by {
                if i == best as int {
                    assert(idx[idx.len() - 1] == i);
                } else {
                    assert(old_taken[i]);
                    let j = choose|j: int| 0 <= j < old_idx.len() && old_idx[j] == i;
                    assert(idx[j] == i);
                }
            }
            assert forall|j: int, i: int|
                0 <= j < out@.len() && 0 <= i < len && !taken@[i] implies ranks_before(
                #[trigger] pairs_view(out@)[j],
                #[trigger] m[i],
            ) by {
                assert(!old_taken[i]);
                if j < out@.len() - 1 {
                    assert(pairs_view(out@)[j] == old_out[j]);
                }
            }
            assert forall|j: int, k: int|
                0 <= j < k < out@.len() implies ranks_before(
                #[trigger] pairs_view(out@)[j],
                #[trigger] pairs_view(out@)[k],
            ) by {
                assert(pairs_view(out@)[j] == old_out[j]);
                if k < out@.len() - 1 {
                    assert(pairs_view(out@)[k] == old_out[k]);
                }
            }
        }
    }
    proof {
        let r = pairs_view(out@);
        assert(r.len() == if n < m.len() { n as int } else { m.len() as int });
        assert forall|j: int| 0 <= j < r.len() implies listed(m, #[trigger] r[j]) by {
            assert(m[idx[j]] == r[j]);
        }
        assert forall|i: int| 0 <= i < m.len() implies listed(r, #[trigger] m[i]) || ranks_after_all(
            r,
            m[i],
        ) by {
            if taken@[i] {
                let j = choose|j: int| 0 <= j < idx.len() && idx[j] == i;
                assert(r[j] == m[i]);
            }
        }
    }
    out
}

proof fn lemma_count_true_none(s: Seq<bool>)
    requires
        forall|i: int| 0 <= i < s.len() ==> !s[i],
    ensures
        count_true(s) == 0,
    decreases s.len(),
{
    if s.len() > 0 {
        lemma_count_true_none(s.drop_last());
    }
}

} // verus!
