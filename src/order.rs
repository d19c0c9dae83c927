//! Lexicographic order on character sequences, compared by code point, as
//! `Ord` for `str` orders them.
use vstd::prelude::*;
use crate::text::{chars_of, lower_of, lowercase};

verus! {

/// `a` comes no later than `b` in lexicographic order by code point.
pub open spec fn lex_le(a: Seq<char>, b: Seq<char>) -> bool
    decreases a.len(),
{
    if a.len() == 0 {
        true
    } else if b.len() == 0 {
        false
    } else if a[0] != b[0] {
        a[0] < b[0]
    } else {
        lex_le(a.drop_first(), b.drop_first())
    }
}

pub proof fn lemma_lex_le_reflexive(a: Seq<char>)
    ensures
        lex_le(a, a),
    decreases a.len(),
{
    if a.len() > 0 {
        lemma_lex_le_reflexive(a.drop_first());
    }
}

pub proof fn lemma_lex_le_total(a: Seq<char>, b: Seq<char>)
    ensures
        lex_le(a, b) || lex_le(b, a),
    decreases a.len(),
{
    if a.len() > 0 && b.len() > 0 && a[0] == b[0] {
        lemma_lex_le_total(a.drop_first(), b.drop_first());
    }
}

pub proof fn lemma_lex_le_transitive(a: Seq<char>, b: Seq<char>, c: Seq<char>)
    requires
        lex_le(a, b),
        lex_le(b, c),
    ensures
        lex_le(a, c),
    decreases a.len(),
{
    if a.len() > 0 && b.len() > 0 && c.len() > 0 && a[0] == b[0] && b[0] == c[0] {
        lemma_lex_le_transitive(a.drop_first(), b.drop_first(), c.drop_first());
    }
}

/// Compares two character sequences lexicographically by code point.
pub fn lex_le_chars(a: &Vec<char>, b: &Vec<char>) -> (r: bool)
    ensures
        r == lex_le(a@, b@),
{
    let mut i: usize = 0;
    assert(a@.skip(0) =~= a@);
    assert(b@.skip(0) =~= b@);
    while i < a.len() && i < b.len()
        invariant
            i <= a@.len(),
            i <= b@.len(),
            lex_le(a@, b@) == lex_le(a@.skip(i as int), b@.skip(i as int)),
        decreases a@.len() - i,
    {
        assert(a@.skip(i as int)[0] == a@[i as int]);
        assert(b@.skip(i as int)[0] == b@[i as int]);
        if a[i] != b[i] {
            return a[i] < b[i];
        }
        assert(a@.skip(i as int).drop_first() =~= a@.skip(i + 1));
        assert(b@.skip(i as int).drop_first() =~= b@.skip(i + 1));
        i = i + 1;
    }
    a.len() <= b.len()
}

/// `a` sorts no later than `b` once both are lowercased.
pub open spec fn folded_le(a: Seq<char>, b: Seq<char>) -> bool {
    lex_le(lower_of(a), lower_of(b))
}

/// The character sequences held by a sequence of strings.
pub open spec fn texts(v: Seq<String>) -> Seq<Seq<char>> {
    v.map_values(|s: String| s@)
}

/// Ascending in case-insensitive order.
pub open spec fn sorted_folded(r: Seq<Seq<char>>) -> bool {
    forall|k: int, l: int| 0 <= k < l < r.len() ==> folded_le(r[k], r[l])
}

/// `r` holds the items of `s` rearranged: its `k`-th item is the
/// `perm[k]`-th of `s`, and no item of `s` is taken twice.
pub open spec fn rearranges(r: Seq<Seq<char>>, s: Seq<Seq<char>>, perm: Seq<int>) -> bool {
    &&& r.len() == s.len()
    &&& perm.len() == s.len()
    &&& forall|k: int| 0 <= k < r.len() ==> 0 <= #[trigger] perm[k] < s.len() && r[k] == s[perm[k]]
    &&& forall|k: int, l: int| 0 <= k < l < r.len() ==> perm[k] != perm[l]
}

/// Items that are equal once lowercased keep their relative order.
pub open spec fn keeps_tie_order(r: Seq<Seq<char>>, perm: Seq<int>) -> bool {
    forall|k: int, l: int|
        0 <= k < l < r.len() && lower_of(r[k]) == lower_of(r[l]) ==> perm[k] < perm[l]
}

/// `r` is `s` sorted case-insensitively and stably.
pub open spec fn is_folded_sort_of(r: Seq<Seq<char>>, s: Seq<Seq<char>>) -> bool {
    &&& sorted_folded(r)
    &&& exists|perm: Seq<int>| rearranges(r, s, perm) && keeps_tie_order(r, perm)
}

/// The first `i` items, ordered by `o`: a sorted, stable selection of
/// distinct indices below `i`.
spec fn order_inv(keys: Seq<Seq<char>>, o: Seq<usize>, i: int) -> bool {
    &&& o.len() == i
    &&& forall|k: int| 0 <= k < i ==> #[trigger] o[k] < i
    &&& forall|k: int, l: int| 0 <= k < l < i ==> o[k] != o[l]
    &&& forall|k: int, l: int|
        0 <= k < l < i ==> lex_le(keys[o[k] as int], keys[o[l] as int])
    &&& forall|k: int, l: int|
        0 <= k < l < i && keys[o[k] as int] == keys[o[l] as int] ==> o[k] < o[l]
}

proof fn lemma_insert_keeps_order(keys: Seq<Seq<char>>, o: Seq<usize>, i: int, j: int)
    requires
        0 <= j <= i < keys.len(),
        i < usize::MAX,
        order_inv(keys, o, i),
        j > 0 ==> lex_le(keys[o[j - 1] as int], keys[i]),
        forall|l: int| j <= l < i ==> !lex_le(#[trigger] keys[o[l] as int], keys[i]),
    ensures
        order_inv(keys, o.insert(j, i as usize), i + 1),
{
    let no = o.insert(j, i as usize);
    assert forall|k: int| 0 <= k < i + 1 implies #[trigger] no[k] < i + 1 by {
        if k < j {
            assert(no[k] == o[k]);
        } else if k > j {
            assert(no[k] == o[k - 1]);
        }
    }
    assert forall|k: int, l: int| 0 <= k < l < i + 1 implies {
        &&& no[k] != no[l]
        &&& lex_le(keys[no[k] as int], keys[no[l] as int])
        &&& (keys[no[k] as int] == keys[no[l] as int] ==> no[k] < no[l])
    } by {
        if l < j {
            assert(no[k] == o[k] && no[l] == o[l]);
        } else if l == j {
            assert(no[k] == o[k]);
            assert(o[k] < i);
            if k < j - 1 {
                lemma_lex_le_transitive(keys[o[k] as int], keys[o[j - 1] as int], keys[i]);
            }
        } else if k == j {
            assert(no[l] == o[l - 1]);
            assert(!lex_le(keys[o[l - 1] as int], keys[i]));
            lemma_lex_le_total(keys[o[l - 1] as int], keys[i]);
            lemma_lex_le_reflexive(keys[i]);
        } else if k < j {
            assert(no[k] == o[k] && no[l] == o[l - 1]);
        } else {
            assert(no[k] == o[k - 1] && no[l] == o[l - 1]);
        }
    }
}

/// `r` is `s` ordered by the keys of its items, the key of `s[i]` being
/// `keys[i]`; items with equal keys keep the order they came in.
pub open spec fn is_key_sort_of(r: Seq<Seq<char>>, s: Seq<Seq<char>>, keys: Seq<Seq<char>>) -> bool {
    exists|perm: Seq<int>|
        {
            &&& rearranges(r, s, perm)
            &&& forall|k: int, l: int|
                0 <= k < l < r.len() ==> lex_le(keys[perm[k]], keys[perm[l]])
            &&& forall|k: int, l: int|
                0 <= k < l < r.len() && keys[perm[k]] == keys[perm[l]] ==> perm[k] < perm[l]
        }
}

/// Sorts `items` stably by the keys `keys`, `keys[i]` being the key of
/// `items[i]`.
pub fn sort_by_keys(items: Vec<String>, keys: &Vec<Vec<char>>) -> (r: Vec<String>)
    requires
        keys@.len() == items@.len(),
    ensures
        is_key_sort_of(texts(r@), texts(items@), keys@.map_values(|v: Vec<char>| v@)),
{
    let n: usize = items.len();
    let ghost ks: Seq<Seq<char>> = keys@.map_values(|v: Vec<char>| v@);
    let mut order: Vec<usize> = Vec::new();
    for i in 0..n
        invariant
            n == items@.len(),
            keys@.len() == n,
            ks == keys@.map_values(|v: Vec<char>| v@),
            order_inv(ks, order@, i as int),
    {
        let mut j: usize = i;
        loop
            invariant
                j <= i < n,
                keys@.len() == n,
                ks == keys@.map_values(|v: Vec<char>| v@),
                order_inv(ks, order@, i as int),
                forall|l: int| j <= l < i ==> !lex_le(#[trigger] ks[order@[l] as int], ks[i as int]),
            ensures
                j <= i,
                forall|l: int| j <= l < i ==> !lex_le(#[trigger] ks[order@[l] as int], ks[i as int]),
                j > 0 ==> lex_le(ks[order@[j - 1] as int], ks[i as int]),
            decreases j,
        {
            if j == 0 {
                break;
            }
            if lex_le_chars(&keys[order[j - 1]], &keys[i]) {
                break;
            }
            j = j - 1;
        }
        proof {
            lemma_insert_keeps_order(ks, order@, i as int, j as int);
        }
        order.insert(j, i);
    }
    let mut r: Vec<String> = Vec::new();
    for k in 0..n
        invariant
            n == items@.len(),
            order_inv(ks, order@, n as int),
            r@.len() == k,
            forall|t: int| 0 <= t < k ==> #[trigger] r@[t]@ == items@[order@[t] as int]@,
    {
        r.push(items[order[k]].clone());
    }
    proof {
        let perm = order@.map_values(|x: usize| x as int);
        assert(rearranges(texts(r@), texts(items@), perm));
    }
    r
}

/// Sorts `items` case-insensitively, keeping items that are equal once
/// lowercased in the order they came in.
pub fn sort_folded(items: Vec<String>) -> (r: Vec<String>)
    ensures
        is_folded_sort_of(texts(r@), texts(items@)),
{
    let n: usize = items.len();
    let mut keys: Vec<Vec<char>> = Vec::new();
    for i in 0..n
        invariant
            n == items@.len(),
            keys@.len() == i,
            forall|t: int| 0 <= t < i ==> #[trigger] keys@[t]@ == lower_of(items@[t]@),
    {
        let low = lowercase(items[i].as_str());
        keys.push(chars_of(low.as_str()));
    }
    let ghost s = texts(items@);
    let ghost ks: Seq<Seq<char>> = keys@.map_values(|v: Vec<char>| v@);
    let r = sort_by_keys(items, &keys);
    proof {
        let rs = texts(r@);
        let perm = choose|perm: Seq<int>|
            {
                &&& rearranges(rs, s, perm)
                &&& forall|k: int, l: int|
                    0 <= k < l < rs.len() ==> lex_le(ks[perm[k]], ks[perm[l]])
                &&& forall|k: int, l: int|
                    0 <= k < l < rs.len() && ks[perm[k]] == ks[perm[l]] ==> perm[k] < perm[l]
            };
        assert forall|k: int| 0 <= k < rs.len() implies lower_of(rs[k]) == ks[perm[k]] by {
            assert(keys@[perm[k]]@ == lower_of(s[perm[k]]));
        }
        assert forall|k: int, l: int| 0 <= k < l < rs.len() implies folded_le(rs[k], rs[l]) by {
            assert(lower_of(rs[k]) == ks[perm[k]]);
            assert(lower_of(rs[l]) == ks[perm[l]]);
        }
        assert forall|k: int, l: int|
            0 <= k < l < rs.len() && lower_of(rs[k]) == lower_of(rs[l]) implies perm[k] < perm[l] by {
            assert(lower_of(rs[k]) == ks[perm[k]]);
            assert(lower_of(rs[l]) == ks[perm[l]]);
        }
        assert(keeps_tie_order(rs, perm));
    }
    r
}

} // verus!
