//! The order of `String` values (code point by code point, as `str::cmp`
//! orders UTF-8 text) and a stable sort of records by a text key.
use vstd::prelude::*;

verus! {

broadcast use vstd::seq_lib::group_to_multiset_ensures;

/// Strict lexicographic order of texts, by code point.
pub open spec fn lex_lt(a: Seq<char>, b: Seq<char>) -> bool
    decreases a.len(),
{
    if b.len() == 0 {
        false
    } else if a.len() == 0 {
        true
    } else if a[0] != b[0] {
        a[0] < b[0]
    } else {
        lex_lt(a.drop_first(), b.drop_first())
    }
}

/// No text comes before itself.
pub proof fn lemma_lex_irreflexive(a: Seq<char>)
    ensures
        !lex_lt(a, a),
    decreases a.len(),
{
    if a.len() > 0 {
        lemma_lex_irreflexive(a.drop_first());
    }
}

/// The order is transitive.
pub proof fn lemma_lex_transitive(a: Seq<char>, b: Seq<char>, c: Seq<char>)
    requires
        lex_lt(a, b),
        lex_lt(b, c),
    ensures
        lex_lt(a, c),
    decreases a.len(),
{
    if a.len() > 0 && b.len() > 0 && c.len() > 0 && a[0] == b[0] && b[0] == c[0] {
        lemma_lex_transitive(a.drop_first(), b.drop_first(), c.drop_first());
    }
}

/// Two different texts are ordered one way or the other.
pub proof fn lemma_lex_total(a: Seq<char>, b: Seq<char>)
    requires
        a != b,
    ensures
        lex_lt(a, b) || lex_lt(b, a),
    decreases a.len(),
{
    if a.len() > 0 && b.len() > 0 && a[0] == b[0] {
        if a.drop_first() == b.drop_first() {
            assert(a =~= seq![a[0]] + a.drop_first());
            assert(b =~= seq![b[0]] + b.drop_first());
        }
        lemma_lex_total(a.drop_first(), b.drop_first());
    } else if a.len() > 0 && b.len() > 0 {
    } else if a.len() == 0 && b.len() == 0 {
        assert(a =~= b);
    }
}

/// Does `a` come strictly before `b`?
pub fn chars_lt(a: &Vec<char>, b: &Vec<char>) -> (r: bool)
    ensures
        r == lex_lt(a@, b@),
{
    let mut i: usize = 0;
    assert(a@.skip(0) =~= a@);
    assert(b@.skip(0) =~= b@);
    loop
        invariant
            i <= a@.len(),
            i <= b@.len(),
            lex_lt(a@, b@) == lex_lt(a@.skip(i as int), b@.skip(i as int)),
        decreases a@.len() - i,
    {
        if i == b.len() {
            return false;
        }
        if i == a.len() {
            return true;
        }
        let x = a[i];
        let y = b[i];
        assert(a@.skip(i as int)[0] == x);
        assert(b@.skip(i as int)[0] == y);
        if x != y {
            return x < y;
        }
        assert(a@.skip(i as int).drop_first() =~= a@.skip(i + 1));
        assert(b@.skip(i as int).drop_first() =~= b@.skip(i + 1));
        i = i + 1;
    }
}

/// A record ordered by a text key.
pub trait Keyed: Sized {
    spec fn key(&self) -> Seq<char>;

    fn key_chars(&self) -> (k: Vec<char>)
        ensures
            k@ == self.key(),
    ;
}

/// `idx` maps each position of `out` to a different position of `v` holding
/// the same record.
pub open spec fn is_permutation<T>(idx: Seq<int>, v: Seq<T>, out: Seq<T>) -> bool {
    &&& idx.len() == out.len()
    &&& forall|k: int| 0 <= k < idx.len() ==> 0 <= #[trigger] idx[k] < v.len() && out[k] == v[idx[k]]
    &&& forall|a: int, b: int| 0 <= a < b < idx.len() ==> #[trigger] idx[a] != #[trigger] idx[b]
}

/// Records with equal keys keep the order they had: `idx` places them in
/// increasing positions of the sequence they came from.
pub open spec fn keeps_ties_in_order<T: Keyed>(idx: Seq<int>, out: Seq<T>) -> bool {
    forall|a: int, b: int|
        0 <= a < b < out.len() && #[trigger] out[a].key() == #[trigger] out[b].key() ==> idx[a] < idx[b]
}

/// Keys never decrease along the sequence.
pub open spec fn sorted_by_key<T: Keyed>(s: Seq<T>) -> bool {
    forall|i: int, j: int| 0 <= i < j < s.len() ==> !lex_lt(#[trigger] s[j].key(), #[trigger] s[i].key())
}

/// The records of `v` ordered by key; records with equal keys keep their order
/// (`slice::sort_by` on the key).
pub fn sort_by_key<T: Keyed>(v: Vec<T>) -> (out: Vec<T>)
    ensures
        sorted_by_key(out@),
        out@.to_multiset() == v@.to_multiset(),
        exists|idx: Seq<int>| #[trigger] is_permutation(idx, v@, out@) && keeps_ties_in_order(idx, out@),
{
    let mut input = v;
    let ghost initial = input@;
    let mut out: Vec<T> = Vec::new();
    let mut taken: usize = 0;
    assert(initial.take(0) =~= Seq::<T>::empty());
    let n0 = input.len();
    let ghost mut idx: Seq<int> = Seq::empty();
    while input.len() > 0
        invariant
            initial.len() == n0,
            idx.len() == out@.len(),
            forall|k: int| 0 <= k < idx.len() ==> 0 <= #[trigger] idx[k] < taken && out@[k] == initial[idx[k]],
            forall|a: int, b: int| 0 <= a < b < idx.len() ==> #[trigger] idx[a] != #[trigger] idx[b],
            keeps_ties_in_order(idx, out@),
            sorted_by_key(out@),
            taken + input@.len() == initial.len(),
            input@ == initial.skip(taken as int),
            out@.to_multiset() == initial.take(taken as int).to_multiset(),
        decreases input@.len(),
    {
        let x = input.remove(0);
        assert(x == initial[taken as int]);
        assert(input@ =~= initial.skip(taken + 1));
        let xk = x.key_chars();
        let mut p: usize = 0;
        while p < out.len()
            invariant_except_break
                p <= out@.len(),
                xk@ == x.key(),
                forall|k: int| 0 <= k < p ==> !lex_lt(x.key(), #[trigger] out@[k].key()),
            ensures
                p <= out@.len(),
                forall|k: int| 0 <= k < p ==> !lex_lt(x.key(), #[trigger] out@[k].key()),
                p < out@.len() ==> lex_lt(x.key(), out@[p as int].key()),
            decreases out@.len() - p,
        {
            let ok = out[p].key_chars();
            if chars_lt(&xk, &ok) {
                break;
            }
            p = p + 1;
        }
        let ghost before = out@;
        let ghost before_idx = idx;
        out.insert(p, x);
        proof {
            idx = before_idx.insert(p as int, taken as int);
            assert forall|k: int| 0 <= k < idx.len() implies 0 <= #[trigger] idx[k] < taken + 1 && out@[k]
                == initial[idx[k]] by {
                if k < p {
                    assert(idx[k] == before_idx[k]);
                    assert(out@[k] == before[k]);
                } else if k == p {
                } else {
                    assert(idx[k] == before_idx[k - 1]);
                    assert(out@[k] == before[k - 1]);
                }
            }
            assert forall|a: int, b: int| 0 <= a < b < idx.len() implies #[trigger] idx[a]
                != #[trigger] idx[b] by {
                if a < p && b < p {
                    assert(idx[a] == before_idx[a] && idx[b] == before_idx[b]);
                } else if a < p && b == p {
                    assert(idx[a] == before_idx[a]);
                } else if a < p && b > p {
                    assert(idx[a] == before_idx[a] && idx[b] == before_idx[b - 1]);
                } else if a == p {
                    assert(idx[b] == before_idx[b - 1]);
                } else {
                    assert(idx[a] == before_idx[a - 1] && idx[b] == before_idx[b - 1]);
                }
            }
        }
        proof {
            let t = out@;
            assert(t =~= before.insert(p as int, x));
            assert forall|a: int, b: int|
                0 <= a < b < t.len() && #[trigger] t[a].key() == #[trigger] t[b].key() implies idx[a] < idx[b] by {
                if a < p && b < p {
                    assert(t[a] == before[a] && t[b] == before[b]);
                } else if a < p && b == p {
                } else if a < p && b > p {
                    assert(t[a] == before[a] && t[b] == before[b - 1]);
                } else if a == p {
                    assert(t[b] == before[b - 1]);
                    assert(p < before.len());
                    if b - 1 == p {
                        lemma_lex_irreflexive(x.key());
                    } else {
                        assert(!lex_lt(before[b - 1].key(), before[p as int].key()));
                    }
                } else {
                    assert(t[a] == before[a - 1] && t[b] == before[b - 1]);
                }
            }
            assert forall|i: int, j: int| 0 <= i < j < t.len() implies !lex_lt(
                #[trigger] t[j].key(),
                #[trigger] t[i].key(),
            ) by {
                if i < p && j == p {
                } else if i == p && j > p {
                    if lex_lt(t[j].key(), x.key()) {
                        // before[p] is the first record strictly after x; before[j-1] comes no earlier
                        assert(p < before.len());
                        assert(t[j] == before[j - 1]);
                        if j - 1 == p {
                            lemma_lex_transitive(before[p as int].key(), x.key(), before[p as int].key());
                            lemma_lex_irreflexive(before[p as int].key());
                        } else {
                            assert(!lex_lt(before[j - 1].key(), before[p as int].key()));
                            lemma_lex_transitive(before[j - 1].key(), x.key(), before[p as int].key());
                        }
                    }
                } else if i < p && j > p {
                    assert(t[i] == before[i]);
                    assert(t[j] == before[j - 1]);
                } else if j < p {
                    assert(t[i] == before[i]);
                    assert(t[j] == before[j]);
                } else {
                    assert(t[i] == before[i - 1]);
                    assert(t[j] == before[j - 1]);
                }
            }
            assert(t.remove(p as int) =~= before);
            assert(t.to_multiset().remove(x) == before.to_multiset());
            assert(t.contains(x)) by {
                assert(t[p as int] == x);
            }
            assert(initial.take(taken + 1) =~= initial.take(taken as int).push(x));
            assert(t.to_multiset() =~= before.to_multiset().insert(x));
        }
        taken = taken + 1;
    }
    assert(initial.take(taken as int) =~= initial);
    assert(is_permutation(idx, initial, out@));
    assert(keeps_ties_in_order(idx, out@));
    out
}

} // verus!
