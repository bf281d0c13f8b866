use vstd::prelude::*;
use crate::paths::{spec_to_lowercase, to_lowercase};
use crate::sorting::{is_stable_order, key_eq, key_lt, stable_order, SortKey};
use crate::text::text_lt;

verus! {

/// An entry listed by name, such as a box or a group.
pub trait Named: Sized {
    /// The entry's name.
    spec fn name_view(&self) -> Seq<char>;

    /// The entry's name.
    fn entry_name(&self) -> (r: &String)
        ensures
            r@ == self.name_view(),
    ;

    /// A copy of the entry.
    fn duplicate(&self) -> (r: Self)
        ensures
            r == *self,
    ;
}

/// Entry `a` is listed before entry `b`: by lower-case name.
pub open spec fn named_before<T: Named>(a: T, b: T) -> bool {
    text_lt(spec_to_lowercase(a.name_view()), spec_to_lowercase(b.name_view()))
}

/// `sorted` holds the entries of `boxes` as a stable sort by lower-case name
/// leaves them.
pub open spec fn is_name_listing<T: Named>(boxes: Seq<T>, sorted: Seq<T>) -> bool {
    exists|order: Seq<usize>|
        {
            &&& order.len() == boxes.len()
            &&& sorted.len() == boxes.len()
            &&& forall|k: int| 0 <= k < order.len() ==> order[k] < boxes.len()
            &&& forall|k: int, l: int|
                0 <= k < order.len() && 0 <= l < order.len() && k != l ==> order[k] != order[l]
            &&& forall|k: int| 0 <= k < sorted.len() ==> #[trigger] sorted[k] == boxes[order[k] as int]
            &&& forall|k: int, l: int|
                0 <= k < l < sorted.len() ==> !named_before(sorted[l], sorted[k])
            &&& forall|k: int, l: int|
                0 <= k < l < sorted.len() && spec_to_lowercase(sorted[k].name_view())
                    == spec_to_lowercase(sorted[l].name_view()) ==> order[k] < order[l]
        }
}

/// The entries sorted alphabetically by lower-case name, keeping the given
/// order among equal names.
pub fn sort_by_name<T: Named>(boxes: &Vec<T>) -> (r: Vec<T>)
    ensures
        is_name_listing(boxes@, r@),
{
    let n = boxes.len();
    let mut keys: Vec<SortKey> = Vec::new();
    let mut i: usize = 0;
    while i < n
        invariant
            n == boxes@.len(),
            i <= n,
            keys@.len() == i,
            forall|k: int|
                0 <= k < i ==> !(#[trigger] keys@[k]).first && keys@[k].name@ == spec_to_lowercase(
                    boxes@[k].name_view(),
                ),
        decreases n - i,
    {
        let lower = to_lowercase(boxes[i].entry_name().as_str());
        keys.push(SortKey { first: false, name: lower });
        i = i + 1;
    }
    let order = stable_order(&keys);
    proof {
        assert forall|a: int, b: int| 0 <= a < n && 0 <= b < n implies (key_lt(
            keys@[a],
            keys@[b],
        ) == named_before(boxes@[a], boxes@[b]) && key_eq(keys@[a], keys@[b]) == (
        spec_to_lowercase(boxes@[a].name_view()) == spec_to_lowercase(boxes@[b].name_view()))) by {
            assert(!keys@[a].first && !keys@[b].first);
        }
    }
    let mut out: Vec<T> = Vec::new();
    let mut j: usize = 0;
    while j < n
        invariant
            n == boxes@.len(),
            n == keys@.len(),
            is_stable_order(keys@, order@),
            j <= n,
            out@.len() == j,
            forall|k: int| 0 <= k < j ==> out@[k] == boxes@[order@[k] as int],
        decreases n - j,
    {
        out.push(boxes[order[j]].duplicate());
        j = j + 1;
    }
    proof {
        let o = order@;
        let f = out@;
        assert forall|k: int, l: int| 0 <= k < l < f.len() implies !named_before(f[l], f[k]) by {
            assert(f[k] == boxes@[o[k] as int]);
            assert(f[l] == boxes@[o[l] as int]);
            assert(key_lt(keys@[o[l] as int], keys@[o[k] as int]) == named_before(
                boxes@[o[l] as int],
                boxes@[o[k] as int],
            ));
        }
        assert forall|k: int, l: int|
            0 <= k < l < f.len() && spec_to_lowercase(f[k].name_view()) == spec_to_lowercase(
                f[l].name_view(),
            ) implies o[k] < o[l] by {
            assert(f[k] == boxes@[o[k] as int]);
            assert(f[l] == boxes@[o[l] as int]);
            assert(key_eq(keys@[o[k] as int], keys@[o[l] as int]));
        }
        assert forall|k: int| 0 <= k < f.len() implies #[trigger] f[k] == boxes@[o[k] as int] by {}
    }
    out
}

} // verus!
