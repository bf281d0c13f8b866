use vstd::prelude::*;
use crate::text::{lemma_text_lt_irreflexive, lemma_text_lt_transitive, text_less, text_lt};

verus! {

/// A sort key: entries whose flag is set come first, then entries are
/// ordered by name.
pub struct SortKey {
    pub first: bool,
    pub name: String,
}

/// Key `a` sorts strictly before key `b`.
pub open spec fn key_lt(a: SortKey, b: SortKey) -> bool {
    (a.first && !b.first) || (a.first == b.first && text_lt(a.name@, b.name@))
}

/// Two keys are the same key.
pub open spec fn key_eq(a: SortKey, b: SortKey) -> bool {
    a.first == b.first && a.name@ == b.name@
}

/// The key order is irreflexive.
pub proof fn lemma_key_lt_irreflexive(a: SortKey)
    ensures
        !key_lt(a, a),
{
    lemma_text_lt_irreflexive(a.name@);
}

/// The key order is transitive.
pub proof fn lemma_key_lt_transitive(a: SortKey, b: SortKey, c: SortKey)
    requires
        key_lt(a, b),
        key_lt(b, c),
    ensures
        key_lt(a, c),
{
    if a.first == b.first && b.first == c.first {
        lemma_text_lt_transitive(a.name@, b.name@, c.name@);
    }
}

/// Whether key `a` sorts strictly before key `b`.
pub fn key_less(a: &SortKey, b: &SortKey) -> (r: bool)
    ensures
        r == key_lt(*a, *b),
{
    if a.first && !b.first {
        true
    } else if a.first == b.first {
        text_less(a.name.as_str(), b.name.as_str())
    } else {
        false
    }
}

/// `order` lists the positions of `keys` in a stable sorted order: every
/// position once, no key sorting before one listed earlier, and positions of
/// equal keys in the order they were given.
pub open spec fn is_stable_order(keys: Seq<SortKey>, order: Seq<usize>) -> bool {
    &&& order.len() == keys.len()
    &&& forall|k: int| 0 <= k < order.len() ==> order[k] < keys.len()
    &&& forall|k: int, l: int| 0 <= k < order.len() && 0 <= l < order.len() && k != l ==> order[k] != order[l]
    &&& forall|k: int, l: int|
        0 <= k < l < order.len() ==> !key_lt(keys[order[l] as int], keys[order[k] as int])
    &&& forall|k: int, l: int|
        0 <= k < l < order.len() && key_eq(keys[order[k] as int], keys[order[l] as int])
            ==> order[k] < order[l]
}

/// The positions of `keys` in a stable sorted order, as a stable sort would
/// leave them.
pub fn stable_order(keys: &Vec<SortKey>) -> (order: Vec<usize>)
    ensures
        is_stable_order(keys@, order@),
{
    let n = keys.len();
    let mut out: Vec<usize> = Vec::new();
    let mut i: usize = 0;
    while i < n
        invariant
            n == keys@.len(),
            i <= n,
            out@.len() == i,
            forall|k: int| 0 <= k < out@.len() ==> out@[k] < i,
            forall|k: int, l: int|
                0 <= k < out@.len() && 0 <= l < out@.len() && k != l ==> out@[k] != out@[l],
            forall|k: int, l: int|
                0 <= k < l < out@.len() ==> !key_lt(keys@[out@[l] as int], keys@[out@[k] as int]),
            forall|k: int, l: int|
                0 <= k < l < out@.len() && key_eq(keys@[out@[k] as int], keys@[out@[l] as int])
                    ==> out@[k] < out@[l],
        decreases n - i,
    {
        let m = out.len();
        let mut p: usize = 0;
        while p < m && !key_less(&keys[i], &keys[out[p]])
            invariant
                m == out@.len(),
                i < n,
                n == keys@.len(),
                p <= m,
                forall|k: int| 0 <= k < out@.len() ==> out@[k] < i,
                forall|q: int| 0 <= q < p ==> !key_lt(keys@[i as int], keys@[out@[q] as int]),
            decreases m - p,
        {
            p = p + 1;
        }
        let ghost old_out = out@;
        let ghost x = keys@[i as int];
        proof {
            if p < m {
                assert(key_lt(x, keys@[old_out[p as int] as int]));
            }
        }
        out.insert(p, i);
        proof {
            let o = out@;
            assert(o =~= old_out.insert(p as int, i));
            assert forall|k: int| 0 <= k < o.len() implies o[k] < i + 1 by {
                if k < p {
                    assert(o[k] == old_out[k]);
                } else if k > p {
                    assert(o[k] == old_out[k - 1]);
                }
            }
            assert forall|k: int, l: int|
                0 <= k < o.len() && 0 <= l < o.len() && k != l implies o[k] != o[l] by {
                let ok = if k < p {
                    k
                } else {
                    k - 1
                };
                let ol = if l < p {
                    l
                } else {
                    l - 1
                };
                if k != p && l != p {
                    assert(o[k] == old_out[ok]);
                    assert(o[l] == old_out[ol]);
                } else if k == p {
                    assert(o[l] == old_out[ol]);
                } else {
                    assert(o[k] == old_out[ok]);
                }
            }
            assert forall|k: int, l: int| 0 <= k < l < o.len() implies !key_lt(
                keys@[o[l] as int],
                keys@[o[k] as int],
            ) by {
                if l < p {
                    assert(o[k] == old_out[k] && o[l] == old_out[l]);
                } else if l == p {
                    assert(o[k] == old_out[k]);
                } else if k == p {
                    let mm = l - 1;
                    assert(o[l] == old_out[mm]);
                    if key_lt(keys@[old_out[mm] as int], x) {
                        lemma_key_lt_transitive(
                            keys@[old_out[mm] as int],
                            x,
                            keys@[old_out[p as int] as int],
                        );
                        if mm == p {
                            lemma_key_lt_irreflexive(keys@[old_out[p as int] as int]);
                        }
                    }
                } else if k < p {
                    assert(o[k] == old_out[k] && o[l] == old_out[l - 1]);
                } else {
                    assert(o[k] == old_out[k - 1] && o[l] == old_out[l - 1]);
                }
            }
            assert forall|k: int, l: int|
                0 <= k < l < o.len() && key_eq(
                    keys@[o[k] as int],
                    keys@[o[l] as int],
                ) implies o[k] < o[l] by {
                if l < p {
                    assert(o[k] == old_out[k] && o[l] == old_out[l]);
                } else if l == p {
                    assert(o[k] == old_out[k]);
                } else if k == p {
                    let mm = l - 1;
                    assert(o[l] == old_out[mm]);
                    assert(key_lt(keys@[old_out[mm] as int], keys@[old_out[p as int] as int]));
                    if mm == p {
                        lemma_key_lt_irreflexive(keys@[old_out[p as int] as int]);
                    }
                } else if k < p {
                    assert(o[k] == old_out[k] && o[l] == old_out[l - 1]);
                } else {
                    assert(o[k] == old_out[k - 1] && o[l] == old_out[l - 1]);
                }
            }
        }
        i = i + 1;
    }
    out
}

} // verus!
