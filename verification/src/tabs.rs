use vstd::prelude::*;
use crate::text::concat_text;

verus! {

/// Represents a tab in the DAW UI.
pub struct Tab {
    pub id: usize,
    pub name: String,
    pub is_group: bool,
    pub group_name: Option<String>,
}

impl Default for Tab {
    /// The main project tab: id 0, named `Main`.
    fn default() -> (r: Self)
        ensures
            r.id == 0,
            r.name@ == "Main"@,
            !r.is_group,
            r.group_name is None,
    {
        Tab { id: 0, name: "Main".to_owned(), is_group: false, group_name: None }
    }
}

impl Clone for Tab {
    fn clone(&self) -> (r: Self)
        ensures
            r == *self,
    {
        let group_name = match &self.group_name {
            Some(n) => Some(n.clone()),
            None => None,
        };
        Tab { id: self.id, name: self.name.clone(), is_group: self.is_group, group_name }
    }
}

/// The tabs a project starts with: the main tab alone.
pub fn default_tabs() -> (r: Vec<Tab>)
    ensures
        r@.len() == 1,
        r@[0].id == 0,
        r@[0].name@ == "Main"@,
        !r@[0].is_group,
        r@[0].group_name is None,
{
    let mut v = Vec::new();
    v.push(Tab::default());
    v
}

/// The label of the tab that edits the group `group`.
pub open spec fn group_tab_label_spec(group: Seq<char>) -> Seq<char> {
    "Box: "@ + group
}

/// The label of the tab that edits the group `group`.
pub fn group_tab_label(group: &str) -> (r: String)
    ensures
        r@ == group_tab_label_spec(group@),
{
    concat_text("Box: ", group)
}

/// The tab is the editor of the group named `group`.
pub open spec fn is_tab_of_group(tab: Tab, group: Seq<char>) -> bool {
    &&& tab.is_group
    &&& tab.group_name matches Some(n) && n@ == group
}

/// `i` is the first position of a tab with id `id`.
pub open spec fn is_first_tab_with_id(tabs: Seq<Tab>, id: usize, i: int) -> bool {
    &&& 0 <= i < tabs.len()
    &&& tabs[i].id == id
    &&& forall|j: int| 0 <= j < i ==> tabs[j].id != id
}

/// Some tab has id `id`.
pub open spec fn has_tab_id(tabs: Seq<Tab>, id: usize) -> bool {
    exists|i: int| 0 <= i < tabs.len() && tabs[i].id == id
}

/// No two tabs share an id.
pub open spec fn tab_ids_unique(tabs: Seq<Tab>) -> bool {
    forall|i: int, j: int|
        0 <= i < tabs.len() && 0 <= j < tabs.len() && i != j ==> tabs[i].id != tabs[j].id
}

/// The position of the first tab with id `id`.
pub fn tab_index(tabs: &Vec<Tab>, id: usize) -> (r: Option<usize>)
    ensures
        r matches Some(i) ==> is_first_tab_with_id(tabs@, id, i as int),
        r is None <==> !has_tab_id(tabs@, id),
{
    let n = tabs.len();
    let mut i: usize = 0;
    while i < n
        invariant
            n == tabs@.len(),
            i <= n,
            forall|j: int| 0 <= j < i ==> tabs@[j].id != id,
        decreases n - i,
    {
        if tabs[i].id == id {
            return Some(i);
        }
        i = i + 1;
    }
    None
}

/// `i` is the first position of a tab that edits the group `group`.
pub open spec fn is_first_group_tab(tabs: Seq<Tab>, group: Seq<char>, i: int) -> bool {
    &&& 0 <= i < tabs.len()
    &&& is_tab_of_group(tabs[i], group)
    &&& forall|j: int| 0 <= j < i ==> !is_tab_of_group(tabs[j], group)
}

/// Some tab edits the group `group`.
pub open spec fn has_group_tab(tabs: Seq<Tab>, group: Seq<char>) -> bool {
    exists|i: int| 0 <= i < tabs.len() && is_tab_of_group(tabs[i], group)
}

fn tab_is_of_group(tab: &Tab, group: &String) -> (r: bool)
    ensures
        r == is_tab_of_group(*tab, group@),
{
    if !tab.is_group {
        return false;
    }
    match &tab.group_name {
        Some(n) => *n == *group,
        None => false,
    }
}

/// The position of the first tab that edits the group `group`.
pub fn group_tab_index(tabs: &Vec<Tab>, group: &String) -> (r: Option<usize>)
    ensures
        r matches Some(i) ==> is_first_group_tab(tabs@, group@, i as int),
        r is None <==> !has_group_tab(tabs@, group@),
{
    let n = tabs.len();
    let mut i: usize = 0;
    while i < n
        invariant
            n == tabs@.len(),
            i <= n,
            forall|j: int| 0 <= j < i ==> !is_tab_of_group(tabs@[j], group@),
        decreases n - i,
    {
        if tab_is_of_group(&tabs[i], group) {
            return Some(i);
        }
        i = i + 1;
    }
    None
}

/// The id a newly opened tab gets: one more than the largest id, or 0 when
/// there are no tabs.
pub open spec fn next_tab_id(tabs: Seq<Tab>) -> int
    decreases tabs.len(),
{
    if tabs.len() == 0 {
        0
    } else {
        let rest = next_tab_id(tabs.drop_last());
        let cand = tabs.last().id + 1;
        if rest < cand {
            cand
        } else {
            rest
        }
    }
}

/// Every tab id is below `usize::MAX`.
pub open spec fn tab_ids_bounded(tabs: Seq<Tab>) -> bool {
    forall|i: int| 0 <= i < tabs.len() ==> tabs[i].id < usize::MAX
}

/// The next tab id is larger than every tab id, and fits when they are
/// bounded.
pub proof fn lemma_next_tab_id(tabs: Seq<Tab>)
    ensures
        next_tab_id(tabs) >= 0,
        forall|i: int| 0 <= i < tabs.len() ==> tabs[i].id < next_tab_id(tabs),
        tab_ids_bounded(tabs) ==> next_tab_id(tabs) <= usize::MAX,
    decreases tabs.len(),
{
    if tabs.len() > 0 {
        let rest = tabs.drop_last();
        lemma_next_tab_id(rest);
        assert forall|i: int| 0 <= i < tabs.len() implies tabs[i].id < next_tab_id(tabs) by {
            if i < tabs.len() - 1 {
                assert(tabs[i] == rest[i]);
            }
        }
    }
}

/// The id a newly opened tab gets.
pub fn new_tab_id(tabs: &Vec<Tab>) -> (r: usize)
    requires
        tab_ids_bounded(tabs@),
    ensures
        r == next_tab_id(tabs@),
{
    let n = tabs.len();
    let mut best: usize = 0;
    let mut i: usize = 0;
    while i < n
        invariant
            n == tabs@.len(),
            i <= n,
            tab_ids_bounded(tabs@),
            best == next_tab_id(tabs@.take(i as int)),
        decreases n - i,
    {
        proof {
            assert(tabs@.take(i + 1).drop_last() =~= tabs@.take(i as int));
            assert(tabs@.take(i + 1).last() == tabs@[i as int]);
        }
        let cand = tabs[i].id + 1;
        if best < cand {
            best = cand;
        }
        i = i + 1;
    }
    proof {
        assert(tabs@.take(n as int) =~= tabs@);
    }
    best
}

/// The first position of a tab with id `id`, if any.
pub open spec fn first_tab_index(tabs: Seq<Tab>, id: usize) -> Option<int> {
    if has_tab_id(tabs, id) {
        Some(choose|i: int| is_first_tab_with_id(tabs, id, i))
    } else {
        None
    }
}

proof fn lemma_first_tab_exists(tabs: Seq<Tab>, id: usize, k: int)
    requires
        0 <= k < tabs.len(),
        tabs[k].id == id,
    ensures
        exists|i: int| is_first_tab_with_id(tabs, id, i),
    decreases k,
{
    if forall|j: int| 0 <= j < k ==> tabs[j].id != id {
        assert(is_first_tab_with_id(tabs, id, k));
    } else {
        let j = choose|j: int| 0 <= j < k && tabs[j].id == id;
        lemma_first_tab_exists(tabs, id, j);
    }
}

/// The first position with a given tab id exists when the id does, and is
/// unique; with distinct ids it is the only position holding the id.
pub proof fn lemma_first_tab_index(tabs: Seq<Tab>, id: usize)
    ensures
        first_tab_index(tabs, id) matches Some(i) ==> is_first_tab_with_id(tabs, id, i),
        first_tab_index(tabs, id) is None <==> !has_tab_id(tabs, id),
        forall|i: int| is_first_tab_with_id(tabs, id, i) ==> first_tab_index(tabs, id) == Some(i),
        tab_ids_unique(tabs) ==> forall|i: int|
            0 <= i < tabs.len() && tabs[i].id == id ==> first_tab_index(tabs, id) == Some(i),
{
    if has_tab_id(tabs, id) {
        let k = choose|k: int| 0 <= k < tabs.len() && tabs[k].id == id;
        lemma_first_tab_exists(tabs, id, k);
        let f = choose|i: int| is_first_tab_with_id(tabs, id, i);
        assert forall|i: int| is_first_tab_with_id(tabs, id, i) implies i == f by {
            if i < f {
                assert(tabs[i].id == id);
            } else if f < i {
                assert(tabs[f].id == id);
            }
        }
        if tab_ids_unique(tabs) {
            assert forall|i: int| 0 <= i < tabs.len() && tabs[i].id == id implies first_tab_index(
                tabs,
                id,
            ) == Some(i) by {
                assert(is_first_tab_with_id(tabs, id, i));
            }
        }
    }
}

/// The id of the tab before the active one, wrapping to the last tab.
pub open spec fn tab_before(tabs: Seq<Tab>, active: usize) -> Option<usize> {
    match first_tab_index(tabs, active) {
        Some(i) => Some(
            if i == 0 {
                tabs[tabs.len() - 1].id
            } else {
                tabs[i - 1].id
            },
        ),
        None => None,
    }
}

/// The id of the tab after the active one, wrapping to the first tab.
pub open spec fn tab_after(tabs: Seq<Tab>, active: usize) -> Option<usize> {
    match first_tab_index(tabs, active) {
        Some(i) => Some(tabs[(i + 1) % (tabs.len() as int)].id),
        None => None,
    }
}

/// With distinct tab ids, stepping to the next tab and then to the previous
/// one comes back to the tab one started from, and the other way round.
pub proof fn lemma_next_then_previous_tab(tabs: Seq<Tab>, active: usize)
    requires
        tab_ids_unique(tabs),
        has_tab_id(tabs, active),
    ensures
        tab_after(tabs, active) matches Some(b) && tab_before(tabs, b) == Some(active),
        tab_before(tabs, active) matches Some(b) && tab_after(tabs, b) == Some(active),
{
    lemma_first_tab_index(tabs, active);
    let i = first_tab_index(tabs, active)->0;
    let n = tabs.len() as int;
    let j = (i + 1) % n;
    let b = tabs[j].id;
    lemma_first_tab_index(tabs, b);
    assert(first_tab_index(tabs, b) == Some(j));
    if i + 1 < n {
        assert((i + 1) % n == i + 1) by (nonlinear_arith)
            requires
                0 <= i + 1 < n,
        ;
    } else {
        assert((i + 1) % n == 0) by (nonlinear_arith)
            requires
                i + 1 == n,
                n > 0,
        ;
    }
    let k = if i == 0 {
        n - 1
    } else {
        i - 1
    };
    let c = tabs[k].id;
    lemma_first_tab_index(tabs, c);
    assert(first_tab_index(tabs, c) == Some(k));
    if k + 1 < n {
        assert((k + 1) % n == k + 1) by (nonlinear_arith)
            requires
                0 <= k + 1 < n,
        ;
    } else {
        assert((k + 1) % n == 0) by (nonlinear_arith)
            requires
                k + 1 == n,
                n > 0,
        ;
    }
}

} // verus!
