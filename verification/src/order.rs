//! Lexicographic order on character sequences, and a stable sort of names by their ASCII-lowercase
//! spelling.
//!
//! `String`'s own ordering compares UTF-8 bytes, and UTF-8 preserves code-point order byte by
//! byte, so comparing the characters lexicographically by code point orders names exactly as
//! sorting the `String`s would.
use vstd::prelude::*;
use crate::text::{lower_seq, lower_chars, chars_of};

verus! {

/// `a` sorts strictly before `b`: the first differing character is smaller, or `a` is a proper
/// prefix of `b`.
pub open spec fn lex_lt(a: Seq<char>, b: Seq<char>) -> bool
    decreases a.len(),
{
    if a.len() == 0 {
        b.len() > 0
    } else if b.len() == 0 {
        false
    } else if a[0] != b[0] {
        (a[0] as int) < (b[0] as int)
    } else {
        lex_lt(a.drop_first(), b.drop_first())
    }
}

/// `a` sorts before or level with `b`.
pub open spec fn lex_le(a: Seq<char>, b: Seq<char>) -> bool {
    !lex_lt(b, a)
}

pub proof fn lemma_lex_irreflexive(a: Seq<char>)
    ensures
        !lex_lt(a, a),
    decreases a.len(),
{
    if a.len() > 0 {
        lemma_lex_irreflexive(a.drop_first());
    }
}

pub proof fn lemma_lex_total(a: Seq<char>, b: Seq<char>)
    ensures
        lex_lt(a, b) || a == b || lex_lt(b, a),
    decreases a.len(),
{
    if a.len() > 0 && b.len() > 0 && a[0] == b[0] {
        lemma_lex_total(a.drop_first(), b.drop_first());
        if a.drop_first() == b.drop_first() {
            assert(a =~= b) by {
                assert(a == seq![a[0]] + a.drop_first());
                assert(b == seq![b[0]] + b.drop_first());
            }
        }
    } else if a.len() == 0 && b.len() == 0 {
        assert(a =~= b);
    } else if a.len() > 0 && b.len() > 0 {
        assert((a[0] as int) != (b[0] as int));
    }
}

pub proof fn lemma_lex_asymmetric(a: Seq<char>, b: Seq<char>)
    ensures
        !(lex_lt(a, b) && lex_lt(b, a)),
    decreases a.len(),
{
    if a.len() > 0 && b.len() > 0 && a[0] == b[0] {
        lemma_lex_asymmetric(a.drop_first(), b.drop_first());
    }
}

pub proof fn lemma_lex_transitive(a: Seq<char>, b: Seq<char>, c: Seq<char>)
    requires
        lex_lt(a, b),
        lex_lt(b, c),
    ensures
        lex_lt(a, c),
    decreases a.len(),
{
    if a.len() > 0 && b.len() > 0 && c.len() > 0 && a[0] == b[0] && b[0] == c[0] {
        lemma_lex_transitive(a.drop_first(), b.drop_first(), c.drop_first());
    }
}

/// Executable [`lex_lt`].
pub fn chars_lt(a: &[char], b: &[char]) -> (r: bool)
    ensures
        r == lex_lt(a@, b@),
{
    let mut i: usize = 0;
    assert(a@.skip(0) =~= a@);
    assert(b@.skip(0) =~= b@);
    while i < a.len() && i < b.len()
        invariant
            i <= a@.len(),
            i <= b@.len(),
            lex_lt(a@, b@) == lex_lt(a@.skip(i as int), b@.skip(i as int)),
        decreases a@.len() - i,
    {
        if a[i] != b[i] {
            assert(a@.skip(i as int)[0] == a@[i as int]);
            assert(b@.skip(i as int)[0] == b@[i as int]);
            return a[i] < b[i];
        }
        assert(a@.skip(i as int).drop_first() =~= a@.skip(i + 1));
        assert(b@.skip(i as int).drop_first() =~= b@.skip(i + 1));
        i = i + 1;
    }
    i < b.len()
}

/// The sort key of a name: its ASCII-lowercase spelling.
pub open spec fn fold_key(name: Seq<char>) -> Seq<char> {
    lower_seq(name)
}

/// `m` is `f` stably sorted by [`fold_key`]: a rearrangement of `f` in non-decreasing key order in
/// which names of equal key keep the relative order they had in `f`.
pub open spec fn is_stable_fold_sort(m: Seq<Seq<char>>, f: Seq<Seq<char>>) -> bool {
    exists|perm: Seq<int>| is_stable_fold_sort_by(m, f, perm)
}

/// [`is_stable_fold_sort`] with the rearrangement named: `m[i]` is `f[perm[i]]`.
pub open spec fn is_stable_fold_sort_by(m: Seq<Seq<char>>, f: Seq<Seq<char>>, perm: Seq<int>) -> bool {
    &&& m.len() == f.len()
    &&& perm.len() == m.len()
    &&& forall|i: int| 0 <= i < m.len() ==> 0 <= #[trigger] perm[i] < f.len()
    &&& forall|i: int, j: int| 0 <= i < j < m.len() ==> perm[i] != perm[j]
    &&& forall|i: int| 0 <= i < m.len() ==> m[i] == f[#[trigger] perm[i]]
    &&& forall|i: int, j: int|
        0 <= i < j < m.len() ==> lex_le(fold_key(#[trigger] m[i]), fold_key(#[trigger] m[j]))
    &&& forall|i: int, j: int|
        0 <= i < j < m.len() && fold_key(#[trigger] m[i]) == fold_key(#[trigger] m[j]) ==> perm[i]
            < perm[j]
}

/// The characters of each string.
pub open spec fn views_of(v: Seq<String>) -> Seq<Seq<char>> {
    v.map_values(|s: String| s@)
}

/// Stably sort `names` by their ASCII-lowercase spelling (`sort_by_key(to_ascii_lowercase)`).
pub fn sort_by_fold(names: Vec<String>) -> (out: Vec<String>)
    ensures
        is_stable_fold_sort(views_of(out@), views_of(names@)),
{
    let ghost f = views_of(names@);
    let n = names.len();
    let mut keys: Vec<Vec<char>> = Vec::new();
    let mut out: Vec<String> = Vec::new();
    let ghost mut perm: Seq<int> = Seq::empty();
    let mut t: usize = 0;
    while t < n
        invariant
            n == names@.len(),
            f == views_of(names@),
            t <= n,
            out@.len() == t,
            keys@.len() == t,
            forall|i: int| 0 <= i < t ==> (#[trigger] keys@[i])@ == fold_key(out@[i]@),
            is_stable_fold_sort_by(views_of(out@), f.take(t as int), perm),
        decreases n - t,
    {
        let name = names[t].clone();
        let key = lower_chars(chars_of(name.as_str()).as_slice());
        // First position whose key sorts strictly after this one.
        let mut p: usize = 0;
        while p < out.len() && !chars_lt(key.as_slice(), keys[p].as_slice())
            invariant
                p <= out@.len(),
                out@.len() == t,
                keys@.len() == t,
                key@ == fold_key(name@),
                forall|i: int| 0 <= i < t ==> (#[trigger] keys@[i])@ == fold_key(out@[i]@),
                forall|i: int| 0 <= i < p ==> lex_le(fold_key(out@[i]@), key@),
            decreases t - p,
        {
            proof {
                lemma_lex_total(keys@[p as int]@, key@);
            }
            p = p + 1;
        }
        let ghost m0 = views_of(out@);
        let ghost perm0 = perm;
        let ghost k0 = keys@;
        let ghost o0 = out@;
        proof {
            assert(f.take(t + 1) =~= f.take(t as int).push(f[t as int]));
            assert(name@ == f[t as int]);
        }
        keys.insert(p, key);
        out.insert(p, name);
        proof {
            perm = perm0.insert(p as int, t as int);
            let m = views_of(out@);
            let ft = f.take(t + 1);
            assert(m =~= m0.insert(p as int, f[t as int]));
            assert forall|i: int| 0 <= i < t + 1 implies (#[trigger] keys@[i])@ == fold_key(
                out@[i]@,
            ) by {
                assert(keys@ == k0.insert(p as int, key));
                assert(out@ == o0.insert(p as int, name));
                if i > p {
                    assert(keys@[i] == k0[i - 1]);
                    assert(out@[i] == o0[i - 1]);
                } else if i < p {
                    assert(keys@[i] == k0[i]);
                    assert(out@[i] == o0[i]);
                }
            }
            // The elements after the insertion point all sort strictly after the new key.
            assert forall|j: int| p < j < t + 1 implies lex_lt(key@, fold_key(#[trigger] m[j])) by {
                assert(lex_lt(key@, fold_key(m0[p as int])));
                if j > p + 1 {
                    assert(lex_le(fold_key(m0[p as int]), fold_key(m0[j - 1])));
                    lemma_lex_total(fold_key(m0[p as int]), fold_key(m0[j - 1]));
                    if fold_key(m0[p as int]) != fold_key(m0[j - 1]) {
                        lemma_lex_transitive(key@, fold_key(m0[p as int]), fold_key(m0[j - 1]));
                    }
                }
                assert(m[j] == m0[j - 1]);
            }
            assert(is_stable_fold_sort_by(m, ft, perm)) by {
                assert forall|i: int| 0 <= i < m.len() implies 0 <= #[trigger] perm[i] < ft.len() by {
                    if i < p {
                        assert(perm[i] == perm0[i]);
                    } else if i > p {
                        assert(perm[i] == perm0[i - 1]);
                    }
                }
                assert forall|i: int| 0 <= i < m.len() implies m[i] == ft[#[trigger] perm[i]] by {
                    if i < p {
                        assert(perm[i] == perm0[i]);
                        assert(m[i] == m0[i]);
                    } else if i > p {
                        assert(perm[i] == perm0[i - 1]);
                        assert(m[i] == m0[i - 1]);
                    }
                }
                assert forall|i: int, j: int| 0 <= i < j < m.len() implies perm[i] != perm[j] by {
                    let ii = if i < p { i } else { i - 1 };
                    let jj = if j < p { j } else { j - 1 };
                    if i != p && j != p {
                        assert(perm[i] == perm0[ii]);
                        assert(perm[j] == perm0[jj]);
                    } else if i == p {
                        assert(perm[j] == perm0[jj]);
                    } else {
                        assert(perm[i] == perm0[ii]);
                    }
                }
                assert forall|i: int, j: int| 0 <= i < j < m.len() implies lex_le(
                    fold_key(#[trigger] m[i]),
                    fold_key(#[trigger] m[j]),
                ) by {
                    if i < p && j < p {
                        assert(m[i] == m0[i] && m[j] == m0[j]);
                    } else if i < p && j == p {
                        assert(m[i] == m0[i]);
                    } else if i < p && j > p {
                        assert(m[i] == m0[i] && m[j] == m0[j - 1]);
                    } else if i == p {
                        lemma_lex_asymmetric(key@, fold_key(m[j]));
                    } else {
                        assert(m[i] == m0[i - 1] && m[j] == m0[j - 1]);
                    }
                }
                assert forall|i: int, j: int|
                    0 <= i < j < m.len() && fold_key(#[trigger] m[i]) == fold_key(
                        #[trigger] m[j],
                    ) implies perm[i] < perm[j] by {
                    if i == p {
                        lemma_lex_irreflexive(key@);
                    } else if j == p {
                        assert(perm[i] == perm0[i]);
                    } else {
                        let ii = if i < p { i } else { i - 1 };
                        let jj = if j < p { j } else { j - 1 };
                        assert(perm[i] == perm0[ii]);
                        assert(perm[j] == perm0[jj]);
                        assert(m[i] == m0[ii] && m[j] == m0[jj]);
                    }
                }
            }
        }
        t = t + 1;
    }
    assert(f.take(n as int) =~= f);
    out
}

} // verus!
