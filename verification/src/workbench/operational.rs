//! The operational timeline of a generic matter workspace: the loaded entries
//! in state-date, start-time and event order, each operational event once, and
//! how many distinct targets they link.
use vstd::prelude::*;

use crate::refs::{
    compare_refs, lemma_ref_lt_asymmetric, lemma_ref_lt_irreflexive, lemma_ref_lt_total, lemma_ref_lt_transitive, ref_lt,
    RefOrder, RefSet,
};

verus! {

/// What the matter workspace orders an operational timeline entry by, and the
/// targets the entry links.
#[derive(Debug, Clone, PartialEq, Eq)]
pub struct OperationalEntryKey {
    pub state_date: String,
    pub start_time_ref: String,
    pub operational_event_ref: String,
    pub target_refs: Vec<String>,
}

pub struct EntryKeyView {
    pub state_date: Seq<char>,
    pub start_time_ref: Seq<char>,
    pub operational_event_ref: Seq<char>,
    pub target_refs: Seq<Seq<char>>,
}

impl View for OperationalEntryKey {
    type V = EntryKeyView;

    open spec fn view(&self) -> EntryKeyView {
        EntryKeyView {
            state_date: self.state_date@,
            start_time_ref: self.start_time_ref@,
            operational_event_ref: self.operational_event_ref@,
            target_refs: self.target_refs.deep_view(),
        }
    }
}

pub open spec fn key_views(keys: Seq<OperationalEntryKey>) -> Seq<EntryKeyView> {
    keys.map_values(|k: OperationalEntryKey| k@)
}

/// The two keys agree on state date, start time and event.
pub open spec fn key_same(a: EntryKeyView, b: EntryKeyView) -> bool {
    a.state_date == b.state_date && a.start_time_ref == b.start_time_ref && a.operational_event_ref
        == b.operational_event_ref
}

/// `a` sorts strictly before `b`: by state date, then start time, then event.
pub open spec fn key_lt(a: EntryKeyView, b: EntryKeyView) -> bool {
    ||| ref_lt(a.state_date, b.state_date)
    ||| a.state_date == b.state_date && ref_lt(a.start_time_ref, b.start_time_ref)
    ||| a.state_date == b.state_date && a.start_time_ref == b.start_time_ref && ref_lt(
        a.operational_event_ref,
        b.operational_event_ref,
    )
}

/// Entry `i` comes before entry `j` in a stable sort by key: a smaller key
/// first, and of equal keys the one loaded first.
pub open spec fn entry_before(keys: Seq<EntryKeyView>, i: int, j: int) -> bool {
    key_lt(keys[i], keys[j]) || (key_same(keys[i], keys[j]) && i < j)
}

/// `order` lists every entry index once, in stable key order.
pub open spec fn sorted_order(keys: Seq<EntryKeyView>, order: Seq<usize>) -> bool {
    &&& order.len() == keys.len()
    &&& forall|k: int| 0 <= k < order.len() ==> #[trigger] order[k] < keys.len()
    &&& forall|a: int, b: int| 0 <= a < b < order.len() ==> entry_before(keys, #[trigger] order[a] as int, #[trigger] order[b] as int)
}

proof fn lemma_key_order(a: EntryKeyView, b: EntryKeyView, c: EntryKeyView)
    ensures
        !key_lt(a, a),
        key_lt(a, b) ==> !key_lt(b, a) && !key_same(a, b),
        key_same(a, b) || key_lt(a, b) || key_lt(b, a),
        key_lt(a, b) && key_lt(b, c) ==> key_lt(a, c),
        key_lt(a, b) && key_same(b, c) ==> key_lt(a, c),
        key_same(a, b) && key_lt(b, c) ==> key_lt(a, c),
{
    lemma_ref_lt_irreflexive(a.state_date);
    lemma_ref_lt_irreflexive(a.start_time_ref);
    lemma_ref_lt_irreflexive(a.operational_event_ref);
    lemma_ref_lt_irreflexive(b.state_date);
    lemma_ref_lt_irreflexive(b.start_time_ref);
    lemma_ref_lt_irreflexive(b.operational_event_ref);
    lemma_ref_lt_asymmetric(a.state_date, b.state_date);
    lemma_ref_lt_asymmetric(a.start_time_ref, b.start_time_ref);
    lemma_ref_lt_asymmetric(a.operational_event_ref, b.operational_event_ref);
    lemma_ref_lt_total(a.state_date, b.state_date);
    lemma_ref_lt_total(a.start_time_ref, b.start_time_ref);
    lemma_ref_lt_total(a.operational_event_ref, b.operational_event_ref);
    if ref_lt(a.state_date, b.state_date) && ref_lt(b.state_date, c.state_date) {
        lemma_ref_lt_transitive(a.state_date, b.state_date, c.state_date);
    }
    if ref_lt(a.start_time_ref, b.start_time_ref) && ref_lt(b.start_time_ref, c.start_time_ref) {
        lemma_ref_lt_transitive(a.start_time_ref, b.start_time_ref, c.start_time_ref);
    }
    if ref_lt(a.operational_event_ref, b.operational_event_ref) && ref_lt(b.operational_event_ref, c.operational_event_ref) {
        lemma_ref_lt_transitive(a.operational_event_ref, b.operational_event_ref, c.operational_event_ref);
    }
}

proof fn lemma_entry_order(keys: Seq<EntryKeyView>, i: int, j: int, k: int)
    ensures
        !entry_before(keys, i, i),
        entry_before(keys, i, j) ==> !entry_before(keys, j, i),
        i != j ==> entry_before(keys, i, j) || entry_before(keys, j, i),
        entry_before(keys, i, j) && entry_before(keys, j, k) ==> entry_before(keys, i, k),
{
    lemma_key_order(keys[i], keys[j], keys[k]);
    lemma_key_order(keys[j], keys[i], keys[k]);
    lemma_key_order(keys[i], keys[i], keys[i]);
}

/// How two entry keys compare.
fn compare_keys(a: &OperationalEntryKey, b: &OperationalEntryKey) -> (r: RefOrder)
    ensures
        (r == RefOrder::Before) == key_lt(a@, b@),
        (r == RefOrder::Same) == key_same(a@, b@),
        (r == RefOrder::After) == key_lt(b@, a@),
{
    proof {
        lemma_key_order(a@, b@, b@);
        lemma_key_order(b@, a@, a@);
    }
    match compare_refs(a.state_date.as_str(), b.state_date.as_str()) {
        RefOrder::Same => match compare_refs(a.start_time_ref.as_str(), b.start_time_ref.as_str()) {
            RefOrder::Same => compare_refs(a.operational_event_ref.as_str(), b.operational_event_ref.as_str()),
            o => o,
        },
        o => o,
    }
}

proof fn lemma_insert_keeps_order(keys: Seq<EntryKeyView>, s: Seq<usize>, p: int, i: usize)
    requires
        i < keys.len(),
        0 <= p <= s.len(),
        forall|k: int| 0 <= k < s.len() ==> #[trigger] s[k] < i,
        forall|a: int, b: int| 0 <= a < b < s.len() ==> entry_before(keys, #[trigger] s[a] as int, #[trigger] s[b] as int),
        forall|q: int| 0 <= q < p ==> !key_lt(keys[i as int], keys[#[trigger] s[q] as int]),
        p < s.len() ==> key_lt(keys[i as int], keys[s[p] as int]),
    ensures
        forall|a: int, b: int|
            0 <= a < b < s.len() + 1 ==> entry_before(keys, #[trigger] s.insert(p, i)[a] as int, #[trigger] s.insert(p, i)[b] as int),
{
    let t = s.insert(p, i);
    assert forall|a: int, b: int| 0 <= a < b < s.len() + 1 implies entry_before(keys, #[trigger] t[a] as int, #[trigger] t[b] as int) by {
        if b < p {
            assert(t[a] == s[a] && t[b] == s[b]);
        } else if a > p {
            assert(t[a] == s[a - 1] && t[b] == s[b - 1]);
        } else if a < p && b > p {
            assert(t[a] == s[a] && t[b] == s[b - 1]);
        } else if a == p {
            assert(t[b] == s[b - 1]);
            let x = s[b - 1] as int;
            let y = s[p] as int;
            assert(key_lt(keys[i as int], keys[y]));
            lemma_key_order(keys[i as int], keys[y], keys[x]);
            if b - 1 > p {
                assert(entry_before(keys, y, x));
            }
            lemma_entry_order(keys, i as int, y, x);
        } else {
            assert(b == p && t[a] == s[a]);
            let x = s[a] as int;
            assert(!key_lt(keys[i as int], keys[x]));
            lemma_key_order(keys[x], keys[i as int], keys[x]);
        }
    }
}

/// The entry indexes in stable order of state date, start time and event: the
/// order in which a stable sort by those keys leaves the entries.
pub fn sorted_entry_order(keys: &Vec<OperationalEntryKey>) -> (order: Vec<usize>)
    ensures
        sorted_order(key_views(keys@), order@),
{
    let ghost kv = key_views(keys@);
    let mut order: Vec<usize> = Vec::new();
    let mut i: usize = 0;
    while i < keys.len()
        invariant
            i <= keys.len(),
            kv == key_views(keys@),
            order.len() == i,
            forall|k: int| 0 <= k < order.len() ==> #[trigger] order@[k] < i,
            forall|a: int, b: int| 0 <= a < b < order.len() ==> entry_before(kv, #[trigger] order@[a] as int, #[trigger] order@[b] as int),
        decreases keys.len() - i,
    {
        let mut p: usize = 0;
        while p < order.len() && compare_keys(&keys[i], &keys[order[p]]) != RefOrder::Before
            invariant
                p <= order.len(),
                i < keys.len(),
                kv == key_views(keys@),
                forall|k: int| 0 <= k < order.len() ==> #[trigger] order@[k] < i,
                forall|q: int| 0 <= q < p ==> !key_lt(kv[i as int], kv[#[trigger] order@[q] as int]),
            decreases order.len() - p,
        {
            p = p + 1;
        }
        proof {
            lemma_insert_keeps_order(kv, order@, p as int, i);
        }
        let ghost before = order@;
        order.insert(p, i);
        proof {
            assert forall|k: int| 0 <= k < order.len() implies #[trigger] order@[k] < i + 1 by {
                if k < p {
                    assert(order@[k] == before[k]);
                } else if k > p {
                    assert(order@[k] == before[k - 1]);
                }
            }
        }
        i = i + 1;
    }
    order
}


/// Of each run of neighbours in `order` that share an operational event, the
/// first: an entry stays unless the entry just before it names the same event.
pub open spec fn first_of_each_run(keys: Seq<EntryKeyView>, order: Seq<usize>) -> Seq<usize>
    decreases order.len(),
{
    if order.len() == 0 {
        Seq::empty()
    } else {
        let kept = first_of_each_run(keys, order.drop_last());
        if order.len() > 1 && keys[order.last() as int].operational_event_ref == keys[order[order.len() - 2] as int].operational_event_ref {
            kept
        } else {
            kept.push(order.last())
        }
    }
}

/// Drops from `order` each entry whose operational event is the one of the
/// entry just before it, keeping the first of each such run.
pub fn first_entry_of_each_event(keys: &Vec<OperationalEntryKey>, order: &Vec<usize>) -> (kept: Vec<usize>)
    requires
        forall|k: int| 0 <= k < order.len() ==> #[trigger] order@[k] < keys.len(),
    ensures
        kept@ == first_of_each_run(key_views(keys@), order@),
{
    let ghost kv = key_views(keys@);
    let mut kept: Vec<usize> = Vec::new();
    let mut k: usize = 0;
    while k < order.len()
        invariant
            k <= order.len(),
            kv == key_views(keys@),
            forall|q: int| 0 <= q < order.len() ==> #[trigger] order@[q] < keys.len(),
            kept@ == first_of_each_run(kv, order@.subrange(0, k as int)),
        decreases order.len() - k,
    {
        let x = order[k];
        proof {
            let t = order@.subrange(0, k + 1);
            assert(t.drop_last() =~= order@.subrange(0, k as int));
            assert(t.last() == x);
            if k > 0 {
                assert(t[t.len() - 2] == order@[k - 1]);
            }
        }
        if k == 0 || compare_refs(keys[x].operational_event_ref.as_str(), keys[order[k - 1]].operational_event_ref.as_str())
            != RefOrder::Same {
            kept.push(x);
        }
        k = k + 1;
    }
    assert(order@.subrange(0, k as int) =~= order@);
    kept
}

/// Every target that some entry links.
pub open spec fn linked_targets(keys: Seq<EntryKeyView>) -> Set<Seq<char>>
    decreases keys.len(),
{
    if keys.len() == 0 {
        Set::empty()
    } else {
        linked_targets(keys.drop_last()).union(keys.last().target_refs.to_set())
    }
}

/// How many distinct targets the entries link.
pub fn linked_target_count(keys: &Vec<OperationalEntryKey>) -> (n: usize)
    ensures
        n == linked_targets(key_views(keys@)).len(),
{
    let ghost kv = key_views(keys@);
    let mut targets = RefSet::new();
    let mut i: usize = 0;
    while i < keys.len()
        invariant
            i <= keys.len(),
            kv == key_views(keys@),
            targets@.to_set() == linked_targets(kv.subrange(0, i as int)),
        decreases keys.len() - i,
    {
        proof {
            assert(kv.subrange(0, i + 1).drop_last() =~= kv.subrange(0, i as int));
        }
        targets.insert_all(&keys[i].target_refs);
        i = i + 1;
    }
    assert(kv.subrange(0, i as int) =~= kv);
    proof {
        use_type_invariant(&targets);
        crate::refs::lemma_sorted_set_len(targets@);
    }
    targets.len()
}


spec fn lists(s: Seq<usize>, v: int) -> bool {
    exists|a: int| 0 <= a < s.len() && #[trigger] s[a] as int == v
}

proof fn lemma_sorted_order_full(keys: Seq<EntryKeyView>, s: Seq<usize>)
    requires
        sorted_order(keys, s),
    ensures
        forall|v: int| 0 <= v < keys.len() ==> #[trigger] lists(s, v),
        forall|a: int, b: int| 0 <= a < s.len() && 0 <= b < s.len() && a != b ==> #[trigger] s[a] != #[trigger] s[b],
{
    let n = keys.len() as int;
    assert forall|a: int, b: int| 0 <= a < s.len() && 0 <= b < s.len() && a != b implies #[trigger] s[a] != #[trigger] s[b] by {
        lemma_entry_order(keys, s[a] as int, s[b] as int, s[b] as int);
        if a < b {
            assert(entry_before(keys, s[a] as int, s[b] as int));
        } else {
            assert(entry_before(keys, s[b] as int, s[a] as int));
        }
    }
    let si = s.map_values(|x: usize| x as int);
    assert(si.no_duplicates());
    si.unique_seq_to_set();
    vstd::set_lib::lemma_int_range(0, n);
    let range = vstd::set_lib::set_int_range(0, n);
    assert(si.to_set().subset_of(range)) by {
        assert forall|v: int| si.to_set().contains(v) implies range.contains(v) by {
            let a = choose|a: int| 0 <= a < si.len() && si[a] == v;
            assert(s[a] < keys.len());
        }
    }
    vstd::set_lib::lemma_subset_equality(si.to_set(), range);
    assert forall|v: int| 0 <= v < n implies #[trigger] lists(s, v) by {
        assert(range.contains(v));
        assert(si.to_set().contains(v));
        let a = choose|a: int| 0 <= a < si.len() && si[a] == v;
        assert(s[a] as int == v);
    }
}

proof fn lemma_sorted_prefix_equal(keys: Seq<EntryKeyView>, s: Seq<usize>, t: Seq<usize>, k: int)
    requires
        sorted_order(keys, s),
        sorted_order(keys, t),
        0 <= k <= keys.len(),
    ensures
        forall|j: int| 0 <= j < k ==> s[j] == t[j],
    decreases k,
{
    if k > 0 {
        lemma_sorted_prefix_equal(keys, s, t, k - 1);
        let j = k - 1;
        if s[j] != t[j] {
            lemma_sorted_order_full(keys, s);
            lemma_sorted_order_full(keys, t);
            let x = s[j] as int;
            let y = t[j] as int;
            assert(lists(s, y) && lists(t, x));
            let a = choose|a: int| 0 <= a < s.len() && #[trigger] s[a] as int == y;
            let b = choose|b: int| 0 <= b < t.len() && #[trigger] t[b] as int == x;
            if a < j {
                assert(t[a] == s[a]);
            }
            if b < j {
                assert(s[b] == t[b]);
            }
            assert(a > j && b > j);
            assert(entry_before(keys, s[j] as int, s[a] as int));
            assert(entry_before(keys, t[j] as int, t[b] as int));
            lemma_entry_order(keys, x, y, x);
        }
    }
}

/// There is one stable key order of a set of entries: two orders that both
/// list every entry once in stable key order are the same.
pub proof fn lemma_sorted_order_unique(keys: Seq<EntryKeyView>, s: Seq<usize>, t: Seq<usize>)
    requires
        sorted_order(keys, s),
        sorted_order(keys, t),
    ensures
        s == t,
{
    lemma_sorted_prefix_equal(keys, s, t, keys.len() as int);
    assert(s =~= t);
}

/// The operational timeline of a matter workspace: the entries to show, as
/// indexes into the loaded entries, and the number of distinct linked targets.
#[derive(Debug, Clone, PartialEq, Eq)]
pub struct OperationalTimelineOrder {
    pub entries: Vec<usize>,
    pub linked_target_count: usize,
}

/// Orders the loaded operational entries by state date, start time and event,
/// keeping the load order among equal keys, drops each entry whose event is the
/// one of the entry just before it, and counts the distinct targets that all
/// loaded entries link.
pub fn operational_timeline_order(keys: &Vec<OperationalEntryKey>) -> (r: OperationalTimelineOrder)
    ensures
        exists|order: Seq<usize>|
            sorted_order(key_views(keys@), order) && r.entries@ == first_of_each_run(key_views(keys@), order),
        r.linked_target_count == linked_targets(key_views(keys@)).len(),
{
    let order = sorted_entry_order(keys);
    let entries = first_entry_of_each_event(keys, &order);
    OperationalTimelineOrder { entries, linked_target_count: linked_target_count(keys) }
}


/// In a stable key order, state dates never go down; within one state date,
/// start times never go down; within one date and start time, events never go
/// down; and entries with the same date, start time and event keep load order.
pub proof fn lemma_sorted_order_monotone(keys: Seq<EntryKeyView>, s: Seq<usize>)
    requires
        sorted_order(keys, s),
    ensures
        forall|a: int, b: int|
            0 <= a < b < s.len() ==> {
                let x = keys[#[trigger] s[a] as int];
                let y = keys[#[trigger] s[b] as int];
                &&& !ref_lt(y.state_date, x.state_date)
                &&& y.state_date == x.state_date ==> !ref_lt(y.start_time_ref, x.start_time_ref)
                &&& y.state_date == x.state_date && y.start_time_ref == x.start_time_ref ==> !ref_lt(
                    y.operational_event_ref,
                    x.operational_event_ref,
                )
                &&& y.state_date == x.state_date && y.start_time_ref == x.start_time_ref && y.operational_event_ref
                    == x.operational_event_ref ==> s[a] < s[b]
            },
{
    assert forall|a: int, b: int| 0 <= a < b < s.len() implies {
        let x = keys[#[trigger] s[a] as int];
        let y = keys[#[trigger] s[b] as int];
        &&& !ref_lt(y.state_date, x.state_date)
        &&& y.state_date == x.state_date ==> !ref_lt(y.start_time_ref, x.start_time_ref)
        &&& y.state_date == x.state_date && y.start_time_ref == x.start_time_ref ==> !ref_lt(
            y.operational_event_ref,
            x.operational_event_ref,
        )
        &&& y.state_date == x.state_date && y.start_time_ref == x.start_time_ref && y.operational_event_ref
            == x.operational_event_ref ==> s[a] < s[b]
    } by {
        let x = keys[s[a] as int];
        let y = keys[s[b] as int];
        assert(entry_before(keys, s[a] as int, s[b] as int));
        lemma_key_order(x, y, y);
        lemma_key_order(y, x, x);
    }
}

} // verus!
