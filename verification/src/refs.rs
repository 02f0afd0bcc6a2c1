//! Semantic references as text, their order, and sorted reference sets.
//!
//! References are compared the way `String`'s `Ord` compares them: code point
//! by code point, a proper prefix first.  A `RefSet` is the library's sorted,
//! duplicate-free set of references; its iteration order is that order.
use vstd::prelude::*;

verus! {

/// `a` comes strictly before `b`: code point order, a proper prefix first.
pub open spec fn ref_lt(a: Seq<char>, b: Seq<char>) -> bool
    decreases a.len(),
{
    if a.len() == 0 {
        b.len() > 0
    } else if b.len() == 0 {
        false
    } else if a[0] != b[0] {
        (a[0] as int) < (b[0] as int)
    } else {
        ref_lt(a.drop_first(), b.drop_first())
    }
}

/// A sequence of references in strictly increasing order (so without repeats).
pub open spec fn sorted_refs(s: Seq<Seq<char>>) -> bool {
    forall|i: int, j: int| 0 <= i < j < s.len() ==> #[trigger] ref_lt(s[i], s[j])
}

pub proof fn lemma_ref_lt_irreflexive(a: Seq<char>)
    ensures
        !ref_lt(a, a),
    decreases a.len(),
{
    if a.len() > 0 {
        lemma_ref_lt_irreflexive(a.drop_first());
    }
}

pub proof fn lemma_ref_lt_asymmetric(a: Seq<char>, b: Seq<char>)
    ensures
        ref_lt(a, b) ==> !ref_lt(b, a),
    decreases a.len(),
{
    if a.len() > 0 && b.len() > 0 && a[0] == b[0] {
        lemma_ref_lt_asymmetric(a.drop_first(), b.drop_first());
    }
}

pub proof fn lemma_ref_lt_transitive(a: Seq<char>, b: Seq<char>, c: Seq<char>)
    requires
        ref_lt(a, b),
        ref_lt(b, c),
    ensures
        ref_lt(a, c),
    decreases a.len(),
{
    if a.len() > 0 && b.len() > 0 && c.len() > 0 && a[0] == b[0] && b[0] == c[0] {
        lemma_ref_lt_transitive(a.drop_first(), b.drop_first(), c.drop_first());
    }
}

pub proof fn lemma_ref_lt_total(a: Seq<char>, b: Seq<char>)
    ensures
        a == b || ref_lt(a, b) || ref_lt(b, a),
    decreases a.len(),
{
    if a.len() > 0 && b.len() > 0 && a[0] == b[0] {
        lemma_ref_lt_total(a.drop_first(), b.drop_first());
        if a.drop_first() == b.drop_first() {
            assert(a =~= seq![a[0]] + a.drop_first());
            assert(b =~= seq![b[0]] + b.drop_first());
        }
    }
    if a.len() > 0 && b.len() > 0 && a[0] != b[0] {
        assert((a[0] as int) != (b[0] as int));
    }
    if a.len() == 0 && b.len() == 0 {
        assert(a =~= b);
    }
}

/// Comparing two references once their common first `i` characters are known equal.
proof fn lemma_ref_lt_skip(a: Seq<char>, b: Seq<char>, i: int)
    requires
        0 <= i <= a.len(),
        i <= b.len(),
        a.subrange(0, i) == b.subrange(0, i),
    ensures
        ref_lt(a, b) == ref_lt(a.subrange(i, a.len() as int), b.subrange(i, b.len() as int)),
    decreases i,
{
    if i > 0 {
        assert(a[0] == a.subrange(0, i)[0]);
        assert(b[0] == b.subrange(0, i)[0]);
        let a1 = a.drop_first();
        let b1 = b.drop_first();
        assert(a1.subrange(0, i - 1) =~= a.subrange(0, i).drop_first());
        assert(b1.subrange(0, i - 1) =~= b.subrange(0, i).drop_first());
        lemma_ref_lt_skip(a1, b1, i - 1);
        assert(a1.subrange(i - 1, a1.len() as int) =~= a.subrange(i, a.len() as int));
        assert(b1.subrange(i - 1, b1.len() as int) =~= b.subrange(i, b.len() as int));
    } else {
        assert(a.subrange(0, a.len() as int) =~= a);
        assert(b.subrange(0, b.len() as int) =~= b);
    }
}

/// How two references compare.
#[derive(Clone, Copy, Debug, PartialEq, Eq, Structural)]
pub enum RefOrder {
    Before,
    Same,
    After,
}

/// Compares two references in `String` order.
pub fn compare_refs(a: &str, b: &str) -> (r: RefOrder)
    ensures
        (r == RefOrder::Before) == ref_lt(a@, b@),
        (r == RefOrder::Same) == (a@ == b@),
        (r == RefOrder::After) == ref_lt(b@, a@),
{
    proof {
        lemma_ref_lt_total(a@, b@);
        lemma_ref_lt_asymmetric(a@, b@);
        lemma_ref_lt_irreflexive(a@);
    }
    let la = a.unicode_len();
    let lb = b.unicode_len();
    let mut i: usize = 0;
    while i < la && i < lb
        invariant
            la == a@.len(),
            lb == b@.len(),
            i <= la,
            i <= lb,
            a@.subrange(0, i as int) == b@.subrange(0, i as int),
        decreases la - i,
    {
        let ca = a.get_char(i);
        let cb = b.get_char(i);
        if ca != cb {
            proof {
                lemma_ref_lt_skip(a@, b@, i as int);
                let sa = a@.subrange(i as int, a@.len() as int);
                let sb = b@.subrange(i as int, b@.len() as int);
                assert(sa[0] == ca);
                assert(sb[0] == cb);
                lemma_ref_lt_skip(b@, a@, i as int);
                assert(a@[i as int] != b@[i as int]);
            }
            if (ca as u32) < (cb as u32) {
                return RefOrder::Before;
            } else {
                return RefOrder::After;
            }
        }
        proof {
            assert(a@.subrange(0, i + 1) =~= a@.subrange(0, i as int).push(ca));
            assert(b@.subrange(0, i + 1) =~= b@.subrange(0, i as int).push(cb));
        }
        i = i + 1;
    }
    proof {
        lemma_ref_lt_skip(a@, b@, i as int);
        lemma_ref_lt_skip(b@, a@, i as int);
        if la == lb {
            assert(a@ =~= a@.subrange(0, i as int));
            assert(b@ =~= b@.subrange(0, i as int));
        } else if i == la {
            assert(a@.len() != b@.len());
        } else {
            assert(a@.len() != b@.len());
        }
    }
    if la == lb {
        RefOrder::Same
    } else if i == la {
        RefOrder::Before
    } else {
        RefOrder::After
    }
}


/// A sequence sorted and without repeats is fixed by the references it holds.
pub proof fn lemma_sorted_refs_unique(a: Seq<Seq<char>>, b: Seq<Seq<char>>)
    requires
        sorted_refs(a),
        sorted_refs(b),
        a.to_set() == b.to_set(),
    ensures
        a == b,
    decreases a.len(),
{
    if a.len() == 0 {
        if b.len() > 0 {
            assert(b.to_set().contains(b[0]));
            assert(!a.to_set().contains(b[0]));
        }
        assert(a =~= b);
    } else if b.len() == 0 {
        assert(a.to_set().contains(a[0]));
    } else {
        assert(a.to_set().contains(a[0]));
        assert(b.to_set().contains(a[0]));
        assert(b.to_set().contains(b[0]));
        assert(a.to_set().contains(b[0]));
        let ia = choose|k: int| 0 <= k < a.len() && a[k] == b[0];
        let ib = choose|k: int| 0 <= k < b.len() && b[k] == a[0];
        if ia > 0 {
            assert(ref_lt(a[0], a[ia]));
            if ib > 0 {
                assert(ref_lt(b[0], b[ib]));
                lemma_ref_lt_asymmetric(a[0], b[0]);
            }
            lemma_ref_lt_irreflexive(a[0]);
        }
        assert(a[0] == b[0]) by {
            if ia > 0 {
                if ib > 0 {
                    lemma_ref_lt_asymmetric(a[0], b[0]);
                } else {
                    lemma_ref_lt_irreflexive(a[0]);
                }
            }
        }
        let a1 = a.drop_first();
        let b1 = b.drop_first();
        assert(sorted_refs(a1)) by {
            assert forall|i: int, j: int| 0 <= i < j < a1.len() implies #[trigger] ref_lt(a1[i], a1[j]) by {
                assert(ref_lt(a[i + 1], a[j + 1]));
            }
        }
        assert(sorted_refs(b1)) by {
            assert forall|i: int, j: int| 0 <= i < j < b1.len() implies #[trigger] ref_lt(b1[i], b1[j]) by {
                assert(ref_lt(b[i + 1], b[j + 1]));
            }
        }
        assert(a1.to_set() =~= b1.to_set()) by {
            assert forall|x: Seq<char>| a1.to_set().contains(x) implies b1.to_set().contains(x) by {
                let k = choose|k: int| 0 <= k < a1.len() && a1[k] == x;
                assert(ref_lt(a[0], a[k + 1]));
                assert(a.to_set().contains(x));
                assert(b.to_set().contains(x));
                let m = choose|m: int| 0 <= m < b.len() && b[m] == x;
                if m == 0 {
                    lemma_ref_lt_irreflexive(a[0]);
                }
                assert(b1[m - 1] == x);
            }
            assert forall|x: Seq<char>| b1.to_set().contains(x) implies a1.to_set().contains(x) by {
                let k = choose|k: int| 0 <= k < b1.len() && b1[k] == x;
                assert(ref_lt(b[0], b[k + 1]));
                assert(b.to_set().contains(x));
                assert(a.to_set().contains(x));
                let m = choose|m: int| 0 <= m < a.len() && a[m] == x;
                if m == 0 {
                    lemma_ref_lt_irreflexive(b[0]);
                }
                assert(a1[m - 1] == x);
            }
        }
        lemma_sorted_refs_unique(a1, b1);
        assert(a =~= seq![a[0]] + a1);
        assert(b =~= seq![b[0]] + b1);
    }
}

/// The references of `s`, in order and without repeats.
pub open spec fn sorted_enumeration(s: Set<Seq<char>>) -> Seq<Seq<char>> {
    choose|q: Seq<Seq<char>>| sorted_refs(q) && q.to_set() == s
}

pub proof fn lemma_sorted_enumeration(q: Seq<Seq<char>>)
    requires
        sorted_refs(q),
    ensures
        sorted_enumeration(q.to_set()) == q,
{
    let s = q.to_set();
    assert(exists|p: Seq<Seq<char>>| sorted_refs(p) && p.to_set() == s);
    let p = sorted_enumeration(s);
    lemma_sorted_refs_unique(p, q);
}

/// `x` placed into the sorted sequence `q`.
pub open spec fn insert_sorted(q: Seq<Seq<char>>, x: Seq<char>) -> Seq<Seq<char>>
    decreases q.len(),
{
    if q.len() == 0 {
        seq![x]
    } else if q[0] == x {
        q
    } else if ref_lt(x, q[0]) {
        seq![x] + q
    } else {
        seq![q[0]] + insert_sorted(q.drop_first(), x)
    }
}

proof fn lemma_insert_sorted(q: Seq<Seq<char>>, x: Seq<char>)
    requires
        sorted_refs(q),
    ensures
        sorted_refs(insert_sorted(q, x)),
        insert_sorted(q, x).to_set() == q.to_set().insert(x),
    decreases q.len(),
{
    let res = insert_sorted(q, x);
    if q.len() == 0 {
        assert(res.to_set() =~= q.to_set().insert(x)) by {
            assert(res[0] == x);
        }
    } else if q[0] == x {
        assert(q.to_set().contains(x));
        assert(res.to_set() =~= q.to_set().insert(x));
    } else if ref_lt(x, q[0]) {
        assert forall|i: int, j: int| 0 <= i < j < res.len() implies #[trigger] ref_lt(res[i], res[j]) by {
            if i == 0 {
                if j > 1 {
                    assert(ref_lt(q[0], q[j - 1]));
                    lemma_ref_lt_transitive(x, q[0], q[j - 1]);
                }
            } else {
                assert(ref_lt(q[i - 1], q[j - 1]));
            }
        }
        assert(res.to_set() =~= q.to_set().insert(x)) by {
            assert forall|y: Seq<char>| res.to_set().contains(y) implies q.to_set().insert(x).contains(y) by {
                let k = choose|k: int| 0 <= k < res.len() && res[k] == y;
                if k > 0 {
                    assert(q[k - 1] == y);
                }
            }
            assert forall|y: Seq<char>| q.to_set().insert(x).contains(y) implies res.to_set().contains(y) by {
                if y == x {
                    assert(res[0] == y);
                } else {
                    let k = choose|k: int| 0 <= k < q.len() && q[k] == y;
                    assert(res[k + 1] == y);
                }
            }
        }
    } else {
        let t = q.drop_first();
        assert(sorted_refs(t)) by {
            assert forall|i: int, j: int| 0 <= i < j < t.len() implies #[trigger] ref_lt(t[i], t[j]) by {
                assert(ref_lt(q[i + 1], q[j + 1]));
            }
        }
        lemma_insert_sorted(t, x);
        let rt = insert_sorted(t, x);
        lemma_ref_lt_total(x, q[0]);
        assert(ref_lt(q[0], x));
        assert forall|k: int| 0 <= k < rt.len() implies #[trigger] ref_lt(q[0], rt[k]) by {
            assert(rt.to_set().contains(rt[k]));
            assert(t.to_set().insert(x).contains(rt[k]));
            if rt[k] != x {
                let m = choose|m: int| 0 <= m < t.len() && t[m] == rt[k];
                assert(ref_lt(q[0], q[m + 1]));
            }
        }
        assert forall|i: int, j: int| 0 <= i < j < res.len() implies #[trigger] ref_lt(res[i], res[j]) by {
            if i == 0 {
                assert(res[j] == rt[j - 1]);
            } else {
                assert(res[i] == rt[i - 1]);
                assert(res[j] == rt[j - 1]);
            }
        }
        assert(res.to_set() =~= q.to_set().insert(x)) by {
            assert forall|y: Seq<char>| res.to_set().contains(y) implies q.to_set().insert(x).contains(y) by {
                let k = choose|k: int| 0 <= k < res.len() && res[k] == y;
                if k > 0 {
                    assert(rt[k - 1] == y);
                    assert(rt.to_set().contains(y));
                    if y != x {
                        let m = choose|m: int| 0 <= m < t.len() && t[m] == y;
                        assert(q[m + 1] == y);
                    }
                } else {
                    assert(q[0] == y);
                }
            }
            assert forall|y: Seq<char>| q.to_set().insert(x).contains(y) implies res.to_set().contains(y) by {
                if y == q[0] {
                    assert(res[0] == y);
                } else {
                    if y != x {
                        let m = choose|m: int| 0 <= m < q.len() && q[m] == y;
                        assert(m > 0);
                        assert(t[m - 1] == y);
                        assert(t.to_set().contains(y));
                    }
                    assert(rt.to_set().contains(y));
                    let k = choose|k: int| 0 <= k < rt.len() && rt[k] == y;
                    assert(res[k + 1] == y);
                }
            }
        }
    }
}

/// The references of any list can be put in order: a sorted sequence holding
/// exactly them exists, so `sorted_enumeration` of them is that sequence.
pub proof fn lemma_sorted_enumeration_exists(src: Seq<Seq<char>>)
    ensures
        sorted_refs(sorted_enumeration(src.to_set())),
        sorted_enumeration(src.to_set()).to_set() == src.to_set(),
    decreases src.len(),
{
    if src.len() == 0 {
        let e = Seq::<Seq<char>>::empty();
        assert(e.to_set() =~= src.to_set());
        lemma_sorted_enumeration(e);
    } else {
        let init = src.drop_last();
        lemma_sorted_enumeration_exists(init);
        let q = sorted_enumeration(init.to_set());
        lemma_insert_sorted(q, src.last());
        let w = insert_sorted(q, src.last());
        assert(src =~= init.push(src.last()));
        init.lemma_push_to_set_commute(src.last());
        lemma_sorted_enumeration(w);
    }
}

/// Where `x` stands in a sequence (of a sorted sequence: its only place).
pub open spec fn rank_of(s: Seq<Seq<char>>, x: Seq<char>) -> int {
    choose|i: int| 0 <= i < s.len() && s[i] == x
}

pub proof fn lemma_rank_of(s: Seq<Seq<char>>, i: int)
    requires
        sorted_refs(s),
        0 <= i < s.len(),
    ensures
        rank_of(s, s[i]) == i,
{
    let j = rank_of(s, s[i]);
    if j != i {
        if j < i {
            assert(ref_lt(s[j], s[i]));
        } else {
            assert(ref_lt(s[i], s[j]));
        }
        lemma_ref_lt_irreflexive(s[i]);
    }
}

/// A sorted sequence of the references of two lists is no longer than both lists together.
pub proof fn lemma_sorted_len_bound(s: Seq<Seq<char>>, a: Seq<Seq<char>>, b: Seq<Seq<char>>)
    requires
        sorted_refs(s),
        s.to_set() == a.to_set().union(b.to_set()),
    ensures
        s.len() <= a.len() + b.len(),
{
    assert(s.no_duplicates()) by {
        assert forall|i: int, j: int| 0 <= i < s.len() && 0 <= j < s.len() && i != j implies s[i] != s[j] by {
            if i < j {
                assert(ref_lt(s[i], s[j]));
            } else {
                assert(ref_lt(s[j], s[i]));
            }
            lemma_ref_lt_irreflexive(s[i]);
        }
    }
    s.unique_seq_to_set();
    a.lemma_cardinality_of_set();
    b.lemma_cardinality_of_set();
    vstd::seq_lib::seq_to_set_is_finite(a);
    vstd::seq_lib::seq_to_set_is_finite(b);
    vstd::set_lib::lemma_len_union(a.to_set(), b.to_set());
}

/// A copy of a list of references.
pub fn clone_refs(v: &Vec<String>) -> (c: Vec<String>)
    ensures
        c.deep_view() == v.deep_view(),
{
    let mut c: Vec<String> = Vec::new();
    let mut i: usize = 0;
    while i < v.len()
        invariant
            i <= v@.len(),
            c.deep_view() == v.deep_view().subrange(0, i as int),
        decreases v@.len() - i,
    {
        let ghost prev = c.deep_view();
        c.push(v[i].clone());
        assert(c.deep_view() =~= prev.push(v.deep_view()[i as int]));
        assert(c.deep_view() =~= v.deep_view().subrange(0, i + 1));
        i = i + 1;
    }
    assert(v.deep_view().subrange(0, i as int) =~= v.deep_view());
    c
}

/// Whether two lists hold the same references in the same order.
pub fn refs_equal(a: &Vec<String>, b: &Vec<String>) -> (eq: bool)
    ensures
        eq == (a.deep_view() == b.deep_view()),
{
    if a.len() != b.len() {
        assert(a.deep_view().len() != b.deep_view().len());
        return false;
    }
    let mut i: usize = 0;
    while i < a.len()
        invariant
            i <= a@.len(),
            a@.len() == b@.len(),
            a.deep_view().subrange(0, i as int) == b.deep_view().subrange(0, i as int),
        decreases a@.len() - i,
    {
        if a[i] != b[i] {
            assert(a.deep_view()[i as int] != b.deep_view()[i as int]);
            return false;
        }
        assert(a.deep_view().subrange(0, i + 1) =~= a.deep_view().subrange(0, i as int).push(a.deep_view()[i as int]));
        assert(b.deep_view().subrange(0, i + 1) =~= b.deep_view().subrange(0, i as int).push(b.deep_view()[i as int]));
        i = i + 1;
    }
    assert(a.deep_view() =~= a.deep_view().subrange(0, i as int));
    assert(b.deep_view() =~= b.deep_view().subrange(0, i as int));
    true
}

/// A sorted, duplicate-free set of semantic references.
#[derive(Debug, PartialEq, Eq)]
pub struct RefSet {
    refs: Vec<String>,
}

impl View for RefSet {
    type V = Seq<Seq<char>>;

    closed spec fn view(&self) -> Seq<Seq<char>> {
        self.refs.deep_view()
    }
}

impl RefSet {
    /// Every set holds its references in strictly increasing order.
    #[verifier::type_invariant]
    pub open spec fn inv(&self) -> bool {
        sorted_refs(self@)
    }

    pub fn new() -> (s: RefSet)
        ensures
            s@ == Seq::<Seq<char>>::empty(),
    {
        let s = RefSet { refs: Vec::new() };
        assert(s@ =~= Seq::<Seq<char>>::empty());
        s
    }

    pub fn len(&self) -> (n: usize)
        ensures
            n == self@.len(),
    {
        self.refs.len()
    }

    pub fn is_empty(&self) -> (b: bool)
        ensures
            b == (self@.len() == 0),
    {
        self.refs.len() == 0
    }

    pub fn get(&self, i: usize) -> (r: &String)
        requires
            i < self@.len(),
        ensures
            r@ == self@[i as int],
    {
        &self.refs[i]
    }

    /// Whether `r` is in the set.
    pub fn contains(&self, r: &str) -> (b: bool)
        ensures
            b == self@.contains(r@),
    {
        let mut i: usize = 0;
        while i < self.refs.len()
            invariant
                i <= self@.len(),
                self@.len() == self.refs@.len(),
                forall|k: int| 0 <= k < i ==> self@[k] != r@,
            decreases self.refs@.len() - i,
        {
            if compare_refs(self.refs[i].as_str(), r) == RefOrder::Same {
                assert(self@[i as int] == r@);
                return true;
            }
            i = i + 1;
        }
        false
    }

    /// The references, in order.
    pub fn to_vec(&self) -> (v: Vec<String>)
        ensures
            v.deep_view() == self@,
    {
        let mut v: Vec<String> = Vec::new();
        let mut i: usize = 0;
        while i < self.refs.len()
            invariant
                i <= self.refs@.len(),
                self@.len() == self.refs@.len(),
                v.deep_view() == self@.subrange(0, i as int),
            decreases self.refs@.len() - i,
        {
            let ghost prev = v.deep_view();
            v.push(self.refs[i].clone());
            assert(v.deep_view() =~= prev.push(self@[i as int]));
            assert(v.deep_view() =~= self@.subrange(0, i + 1));
            i = i + 1;
        }
        assert(self@.subrange(0, i as int) =~= self@);
        v
    }

    /// The set of the references of `refs`.
    pub fn from_refs(refs: &Vec<String>) -> (s: RefSet)
        ensures
            s@.to_set() == refs.deep_view().to_set(),
    {
        let mut s = RefSet::new();
        s.insert_all(refs);
        assert(s@.to_set() =~= refs.deep_view().to_set());
        s
    }

    /// Adds every reference of `refs`.
    pub fn insert_all(&mut self, refs: &Vec<String>)
        ensures
            final(self)@.to_set() == old(self)@.to_set().union(refs.deep_view().to_set()),
    {
        let ghost start = self@.to_set();
        let mut i: usize = 0;
        while i < refs.len()
            invariant
                i <= refs@.len(),
                self@.to_set() == start.union(refs.deep_view().subrange(0, i as int).to_set()),
            decreases refs@.len() - i,
        {
            let ghost before = self@.to_set();
            self.insert(refs[i].clone());
            proof {
                let d = refs.deep_view();
                assert(d.subrange(0, i + 1) =~= d.subrange(0, i as int).push(d[i as int]));
                d.subrange(0, i as int).lemma_push_to_set_commute(d[i as int]);
                assert(self@.to_set() =~= start.union(d.subrange(0, i + 1).to_set()));
            }
            i = i + 1;
        }
        assert(refs.deep_view().subrange(0, i as int) =~= refs.deep_view());
    }

    /// Adds `r`, keeping the order; nothing changes when `r` is already there.
    pub fn insert(&mut self, r: String)
        ensures
            final(self)@.to_set() == old(self)@.to_set().insert(r@),
    {
        self.place(r);
    }

    /// Adds `r` and says where it stands: `(true, i)` when it was put at place `i`,
    /// `(false, i)` when it already stood at place `i`.
    pub fn place(&mut self, r: String) -> (res: (bool, usize))
        ensures
            final(self)@.to_set() == old(self)@.to_set().insert(r@),
            res.1 <= old(self)@.len(),
            res.0 ==> !old(self)@.contains(r@) && final(self)@ == old(self)@.insert(res.1 as int, r@),
            !res.0 ==> res.1 < old(self)@.len() && old(self)@[res.1 as int] == r@ && final(self)@ == old(self)@,
    {
        proof {
            use_type_invariant(&*self);
        }
        let ghost old_refs = self@;
        let mut i: usize = 0;
        while i < self.refs.len()
            invariant
                i <= self.refs@.len(),
                self@ == old_refs,
                sorted_refs(old_refs),
                forall|k: int| 0 <= k < i ==> #[trigger] ref_lt(old_refs[k], r@),
            ensures
                i <= old_refs.len(),
                self@ == old_refs,
                forall|k: int| 0 <= k < i ==> #[trigger] ref_lt(old_refs[k], r@),
                i < old_refs.len() ==> ref_lt(r@, old_refs[i as int]),
            decreases self.refs@.len() - i,
        {
            let o = compare_refs(self.refs[i].as_str(), r.as_str());
            if o == RefOrder::Same {
                assert(old_refs[i as int] == r@);
                assert(old_refs.to_set().contains(r@));
                assert(old_refs.to_set().insert(r@) =~= old_refs.to_set());
                return (false, i);
            }
            if o == RefOrder::After {
                break;
            }
            i = i + 1;
        }
        let ghost pos = i as int;
        proof {
            if pos < old_refs.len() {
                lemma_ref_lt_asymmetric(old_refs[pos], r@);
            }
            if old_refs.contains(r@) {
                let k = choose|k: int| 0 <= k < old_refs.len() && old_refs[k] == r@;
                if k < pos {
                    lemma_ref_lt_irreflexive(r@);
                } else if k == pos {
                    lemma_ref_lt_irreflexive(r@);
                } else {
                    assert(ref_lt(old_refs[pos], old_refs[k]));
                    lemma_ref_lt_transitive(r@, old_refs[pos], old_refs[k]);
                    lemma_ref_lt_irreflexive(r@);
                }
            }
        }
        let ghost new_refs = old_refs.insert(pos, r@);
        proof {
            assert forall|a: int, b: int| 0 <= a < b < new_refs.len() implies #[trigger] ref_lt(new_refs[a], new_refs[b]) by {
                if b < pos {
                } else if b == pos {
                } else if a == pos {
                    if b - 1 > pos {
                        lemma_ref_lt_transitive(r@, old_refs[pos], old_refs[b - 1]);
                    }
                } else if a < pos {
                    if pos < old_refs.len() {
                        lemma_ref_lt_transitive(old_refs[a], r@, old_refs[pos]);
                        if b - 1 > pos {
                            lemma_ref_lt_transitive(old_refs[a], old_refs[pos], old_refs[b - 1]);
                        }
                    }
                } else {
                }
            }
        }
        let mut refs: Vec<String> = Vec::new();
        std::mem::swap(&mut refs, &mut self.refs);
        let at = i;
        refs.insert(i, r);
        assert(refs.deep_view() =~= new_refs);
        self.refs = refs;
        proof {
            assert(self@ =~= new_refs);
            assert(new_refs.to_set() =~= old_refs.to_set().insert(r@)) by {
                assert forall|x: Seq<char>| new_refs.to_set().contains(x) implies old_refs.to_set().insert(r@).contains(x) by {
                    let k = choose|k: int| 0 <= k < new_refs.len() && new_refs[k] == x;
                    if k < pos {
                        assert(old_refs[k] == x);
                    } else if k > pos {
                        assert(old_refs[k - 1] == x);
                    }
                }
                assert forall|x: Seq<char>| old_refs.to_set().insert(r@).contains(x) implies new_refs.to_set().contains(x) by {
                    if x == r@ {
                        assert(new_refs[pos] == x);
                    } else {
                        let k = choose|k: int| 0 <= k < old_refs.len() && old_refs[k] == x;
                        if k < pos {
                            assert(new_refs[k] == x);
                        } else {
                            assert(new_refs[k + 1] == x);
                        }
                    }
                }
            }
        }
        (true, at)
    }
}

/// The references of both lists, in order and without repeats.
pub fn merged_refs(a: &Vec<String>, b: &Vec<String>) -> (m: Vec<String>)
    ensures
        m.deep_view() == sorted_enumeration(a.deep_view().to_set().union(b.deep_view().to_set())),
{
    let mut set = RefSet::new();
    set.insert_all(a);
    set.insert_all(b);
    proof {
        use_type_invariant(&set);
        lemma_sorted_enumeration(set@);
        assert(set@.to_set() =~= a.deep_view().to_set().union(b.deep_view().to_set()));
    }
    set.to_vec()
}

impl RefSet {
    /// Where `r` stands in the set, if it is there.
    pub fn position(&self, r: &str) -> (p: Option<usize>)
        ensures
            match p {
                Some(i) => i < self@.len() && self@[i as int] == r@ && rank_of(self@, r@) == i,
                None => !self@.contains(r@),
            },
    {
        proof {
            use_type_invariant(self);
        }
        let mut i: usize = 0;
        while i < self.refs.len()
            invariant
                i <= self@.len(),
                self@.len() == self.refs@.len(),
                sorted_refs(self@),
                forall|k: int| 0 <= k < i ==> self@[k] != r@,
            decreases self.refs@.len() - i,
        {
            if compare_refs(self.refs[i].as_str(), r) == RefOrder::Same {
                assert(self@[i as int] == r@);
                proof {
                    lemma_rank_of(self@, i as int);
                }
                return Some(i);
            }
            i = i + 1;
        }
        None
    }

    /// The references of this set that `other` lacks.
    pub fn difference(&self, other: &RefSet) -> (d: RefSet)
        ensures
            d@.to_set() == self@.to_set().difference(other@.to_set()),
    {
        let mut d = RefSet::new();
        let mut i: usize = 0;
        while i < self.len()
            invariant
                i <= self@.len(),
                d@.to_set() == self@.subrange(0, i as int).to_set().difference(other@.to_set()),
            decreases self@.len() - i,
        {
            let r = self.get(i);
            if !other.contains(r.as_str()) {
                d.insert(r.clone());
            }
            proof {
                let q = self@.subrange(0, i as int);
                assert(self@.subrange(0, i + 1) =~= q.push(self@[i as int]));
                q.lemma_push_to_set_commute(self@[i as int]);
                assert(d@.to_set() =~= self@.subrange(0, i + 1).to_set().difference(other@.to_set()));
            }
            i = i + 1;
        }
        assert(self@.subrange(0, i as int) =~= self@);
        d
    }

    /// Whether the two sets hold the same references.
    pub fn same_refs(&self, other: &RefSet) -> (b: bool)
        ensures
            b == (self@.to_set() == other@.to_set()),
    {
        proof {
            use_type_invariant(self);
            use_type_invariant(other);
            if self@.to_set() == other@.to_set() {
                lemma_sorted_refs_unique(self@, other@);
            }
        }
        refs_equal(&self.to_vec(), &other.to_vec())
    }
}

impl Clone for RefSet {
    fn clone(&self) -> (c: Self)
        ensures
            c@ == self@,
    {
        proof {
            use_type_invariant(self);
        }
        RefSet { refs: self.to_vec() }
    }
}

/// A map from semantic references to text, kept in reference order.
#[derive(Debug, PartialEq, Eq)]
pub struct RefMap {
    keys: RefSet,
    vals: Vec<String>,
}

impl View for RefMap {
    type V = Map<Seq<char>, Seq<char>>;

    closed spec fn view(&self) -> Map<Seq<char>, Seq<char>> {
        Map::new(
            |k: Seq<char>| self.keys@.contains(k),
            |k: Seq<char>| self.vals.deep_view()[rank_of(self.keys@, k)],
        )
    }
}

impl RefMap {
    #[verifier::type_invariant]
    closed spec fn inv(&self) -> bool {
        self.keys@.len() == self.vals@.len()
    }

    pub fn new() -> (m: RefMap)
        ensures
            m@ == Map::<Seq<char>, Seq<char>>::empty(),
    {
        let m = RefMap { keys: RefSet::new(), vals: Vec::new() };
        assert(m@ =~= Map::<Seq<char>, Seq<char>>::empty());
        m
    }

    pub fn len(&self) -> (n: usize)
        ensures
            n == self@.dom().len(),
    {
        proof {
            use_type_invariant(self);
            use_type_invariant(&self.keys);
            assert(self@.dom() =~= self.keys@.to_set());
            lemma_sorted_set_len(self.keys@);
        }
        self.keys.len()
    }

    /// The references that have an entry, in order.
    pub fn keys(&self) -> (k: &RefSet)
        ensures
            k@.to_set() == self@.dom(),
    {
        assert(self@.dom() =~= self.keys@.to_set());
        &self.keys
    }

    pub fn get(&self, k: &str) -> (v: Option<&String>)
        ensures
            match v {
                Some(v) => self@.contains_key(k@) && self@[k@] == v@,
                None => !self@.contains_key(k@),
            },
    {
        proof {
            use_type_invariant(self);
        }
        match self.keys.position(k) {
            Some(p) => Some(&self.vals[p]),
            None => None,
        }
    }

    /// Sets the entry of `k` to `v`, replacing any earlier entry.
    pub fn insert(&mut self, k: String, v: String)
        ensures
            final(self)@ == old(self)@.insert(k@, v@),
    {
        proof {
            use_type_invariant(&*self);
        }
        let ghost old_map = self@;
        let ghost old_keys = self.keys@;
        let ghost old_vals = self.vals.deep_view();
        let mut tmp = RefMap::new();
        std::mem::swap(self, &mut tmp);
        let RefMap { mut keys, mut vals } = tmp;
        proof {
            use_type_invariant(&keys);
        }
        let (fresh, p) = keys.place(k);
        if fresh {
            vals.insert(p, v);
        } else {
            vals.set(p, v);
        }
        proof {
            use_type_invariant(&keys);
            let nk = keys@;
            let nv = vals.deep_view();
            assert(nk.len() == nv.len());
            assert forall|x: Seq<char>| nk.contains(x) implies #[trigger] nv[rank_of(nk, x)] == old_map.insert(k@, v@)[x] by {
                let i = choose|i: int| 0 <= i < nk.len() && nk[i] == x;
                lemma_rank_of(nk, i);
                if x == k@ {
                    assert(i == p as int) by {
                        lemma_rank_of(nk, p as int);
                    }
                } else {
                    if fresh {
                        let j = if i < p as int { i } else { i - 1 };
                        assert(old_keys[j] == x);
                        lemma_rank_of(old_keys, j);
                        assert(old_keys.contains(x));
                    } else {
                        assert(old_keys[i] == x);
                        lemma_rank_of(old_keys, i);
                        assert(old_keys.contains(x));
                    }
                }
            }
            assert forall|x: Seq<char>| nk.contains(x) <==> old_map.insert(k@, v@).contains_key(x) by {
                assert(nk.to_set().contains(x) == nk.contains(x));
                assert(old_keys.to_set().contains(x) == old_keys.contains(x));
            }
        }
        let m = RefMap { keys, vals };
        assert(m@ =~= old_map.insert(k@, v@));
        *self = m;
    }
}

impl Clone for RefMap {
    fn clone(&self) -> (c: Self)
        ensures
            c@ == self@,
    {
        proof {
            use_type_invariant(self);
        }
        let keys = self.keys.clone();
        let vals = clone_refs(&self.vals);
        assert(keys@ == self.keys@);
        assert(vals.deep_view().len() == vals@.len());
        let c = RefMap { keys, vals };
        assert(c@ =~= self@);
        c
    }
}

/// A sorted sequence holds as many references as its set.
pub proof fn lemma_sorted_set_len(s: Seq<Seq<char>>)
    requires
        sorted_refs(s),
    ensures
        s.to_set().len() == s.len(),
{
    assert(s.no_duplicates()) by {
        assert forall|i: int, j: int| 0 <= i < s.len() && 0 <= j < s.len() && i != j implies s[i] != s[j] by {
            if i < j {
                assert(ref_lt(s[i], s[j]));
            } else {
                assert(ref_lt(s[j], s[i]));
            }
            lemma_ref_lt_irreflexive(s[i]);
        }
    }
    s.unique_seq_to_set();
}

} // verus!
