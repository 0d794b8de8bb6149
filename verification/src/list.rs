//! Lists of process, thread and file descriptor numbers.

use vstd::prelude::*;

verus! {

/// Whether `a` may stand in front of `b`: ascending, but for the `lead`,
/// which stands in front of everything.
pub open spec fn precedes(lead: Option<i32>, a: i32, b: i32) -> bool {
    lead == Some(a) || (lead != Some(b) && a <= b)
}

pub open spec fn ordered(lead: Option<i32>, s: Seq<i32>) -> bool {
    forall|i: int, j: int| 0 <= i < j < s.len() ==> precedes(lead, #[trigger] s[i], #[trigger] s[j])
}

/// Everything but `x`.
pub open spec fn others(x: i32) -> spec_fn(i32) -> bool {
    |y: i32| y != x
}

/// The list without `x`.
pub open spec fn without(s: Seq<i32>, x: i32) -> Seq<i32> {
    s.filter(others(x))
}

/// There is only one way to put a list in order.
pub proof fn order_is_unique(lead: Option<i32>, s: Seq<i32>, t: Seq<i32>)
    requires
        ordered(lead, s),
        ordered(lead, t),
        s.to_multiset() == t.to_multiset(),
    ensures
        s == t,
{
    let leq = |a: i32, b: i32| precedes(lead, a, b);
    assert(vstd::relations::total_ordering(leq));
    assert(vstd::relations::sorted_by(s, leq));
    assert(vstd::relations::sorted_by(t, leq));
    vstd::seq_lib::lemma_sorted_unique(s, t, leq);
}

/// A filter keeps what it selects, and nothing else.
pub proof fn lemma_filter(s: Seq<i32>, pred: spec_fn(i32) -> bool)
    ensures
        s.filter(pred).len() <= s.len(),
        forall|y: i32| #[trigger] s.filter(pred).contains(y) <==> s.contains(y) && pred(y),
{
    let kept = s.filter(pred);
    s.lemma_filter_len(pred);
    assert forall|y: i32| #[trigger] kept.contains(y) <==> s.contains(y) && pred(y) by {
        if kept.contains(y) {
            s.lemma_filter_contains_rev(pred, y);
            let k = choose|k: int| 0 <= k < kept.len() && kept[k] == y;
            s.lemma_filter_pred(pred, k);
        }
        if s.contains(y) && pred(y) {
            let j = choose|j: int| 0 <= j < s.len() && s[j] == y;
            s.lemma_filter_contains(pred, j);
        }
    }
}

/// A filter keeps the order.
pub proof fn lemma_filter_ordered(lead: Option<i32>, s: Seq<i32>, pred: spec_fn(i32) -> bool)
    requires
        ordered(lead, s),
    ensures
        ordered(lead, s.filter(pred)),
    decreases s.len(),
{
    reveal(Seq::filter);
    if s.len() > 0 {
        let front = s.drop_last();
        lemma_filter_ordered(lead, front, pred);
        lemma_filter(front, pred);
        let before = front.filter(pred);
        assert forall|j: int| 0 <= j < before.len() implies precedes(
            lead,
            #[trigger] before[j],
            s.last(),
        ) by {
            assert(before.contains(before[j]));
            let k = choose|k: int| 0 <= k < front.len() && front[k] == before[j];
            assert(precedes(lead, s[k], s[s.len() - 1]));
        }
    }
}

/// A filter repeats nothing.
pub proof fn lemma_filter_distinct(s: Seq<i32>, pred: spec_fn(i32) -> bool)
    requires
        s.no_duplicates(),
    ensures
        s.filter(pred).no_duplicates(),
    decreases s.len(),
{
    reveal(Seq::filter);
    if s.len() > 0 {
        let front = s.drop_last();
        lemma_filter_distinct(front, pred);
        lemma_filter(front, pred);
        let before = front.filter(pred);
        assert forall|j: int| 0 <= j < before.len() implies #[trigger] before[j] != s.last() by {
            assert(before.contains(before[j]));
            let k = choose|k: int| 0 <= k < front.len() && front[k] == before[j];
            assert(s[k] != s[s.len() - 1]);
        }
    }
}

/// What is left without `x`.
pub proof fn lemma_without(lead: Option<i32>, s: Seq<i32>, x: i32)
    ensures
        s.no_duplicates() ==> without(s, x).no_duplicates(),
        without(s, x).len() <= s.len(),
        forall|y: i32| #[trigger] without(s, x).contains(y) <==> s.contains(y) && y != x,
        ordered(lead, s) ==> ordered(lead, without(s, x)),
{
    lemma_filter(s, others(x));
    if s.no_duplicates() {
        lemma_filter_distinct(s, others(x));
    }
    if ordered(lead, s) {
        lemma_filter_ordered(lead, s, others(x));
    }
}

/// The list, put in order.
pub open spec fn arranged(lead: Option<i32>, s: Seq<i32>) -> Seq<i32> {
    choose|t: Seq<i32>| ordered(lead, t) && t.to_multiset() == s.to_multiset()
}

/// A list in order that holds the same numbers is the list, put in order.
pub proof fn lemma_arranged(lead: Option<i32>, s: Seq<i32>, t: Seq<i32>)
    requires
        ordered(lead, t),
        t.to_multiset() == s.to_multiset(),
    ensures
        t == arranged(lead, s),
        ordered(lead, arranged(lead, s)),
        arranged(lead, s).to_multiset() == s.to_multiset(),
        arranged(lead, s).len() == s.len(),
{
    let u = arranged(lead, s);
    assert(ordered(lead, u) && u.to_multiset() == s.to_multiset());
    order_is_unique(lead, t, u);
    s.to_multiset_ensures();
    u.to_multiset_ensures();
}

/// Every list can be put in order.
pub proof fn lemma_can_be_arranged(lead: Option<i32>, s: Seq<i32>)
    ensures
        ordered(lead, arranged(lead, s)),
        arranged(lead, s).to_multiset() == s.to_multiset(),
        arranged(lead, s).len() == s.len(),
{
    let leq = |a: i32, b: i32| precedes(lead, a, b);
    assert(vstd::relations::total_ordering(leq));
    s.lemma_sort_by_ensures(leq);
    let t = s.sort_by(leq);
    assert forall|i: int, j: int| 0 <= i < j < t.len() implies precedes(
        lead,
        #[trigger] t[i],
        #[trigger] t[j],
    ) by {
        assert(leq(t[i], t[j]));
    }
    lemma_arranged(lead, s, t);
}

fn goes_before(lead: Option<i32>, a: i32, b: i32) -> (r: bool)
    ensures
        r == precedes(lead, a, b),
{
    match lead {
        Some(l) => a == l || (b != l && a <= b),
        None => a <= b,
    }
}

/// The same numbers in order.
pub fn sort(v: &Vec<i32>, lead: Option<i32>) -> (r: Vec<i32>)
    ensures
        ordered(lead, r@),
        r@.to_multiset() == v@.to_multiset(),
        r@ == arranged(lead, v@),
        r@.len() == v@.len(),
{
    let mut r: Vec<i32> = Vec::new();
    let mut i: usize = 0;
    assert(v@.take(0) =~= r@);
    while i < v.len()
        invariant
            i <= v@.len(),
            ordered(lead, r@),
            r@.to_multiset() == v@.take(i as int).to_multiset(),
        decreases v@.len() - i,
    {
        let x: i32 = v[i];
        let mut at: usize = r.len();
        while at > 0 && !goes_before(lead, r[at - 1], x)
            invariant
                at <= r@.len(),
                ordered(lead, r@),
                forall|j: int| at <= j < r@.len() ==> !precedes(lead, #[trigger] r@[j], x),
            decreases at,
        {
            at = at - 1;
        }
        let ghost before = r@;
        proof {
            before.to_multiset_ensures();
            v@.take(i as int).to_multiset_ensures();
            assert(v@.take(i + 1) =~= v@.take(i as int).push(x));
            lemma_insert_multiset(before, at as int, x);
        }
        r.insert(at, x);
        i = i + 1;
        assert(ordered(lead, r@)) by {
            assert forall|a: int, b: int| 0 <= a < b < r@.len() implies precedes(
                lead,
                #[trigger] r@[a],
                #[trigger] r@[b],
            ) by {
                let a0 = if a < at {
                    a
                } else {
                    a - 1
                };
                let b0 = if b < at {
                    b
                } else {
                    b - 1
                };
                if a == at {
                    assert(!precedes(lead, before[b0], x));
                } else if b == at {
                    assert(r@[a] == before[a]);
                    if a < at - 1 {
                        assert(precedes(lead, before[a], before[at - 1]));
                    }
                } else {
                    assert(r@[a] == before[a0] && r@[b] == before[b0]);
                }
            }
        }
    }
    assert(v@.take(i as int) =~= v@);
    proof {
        lemma_arranged(lead, v@, r@);
    }
    r
}

proof fn lemma_insert_multiset(s: Seq<i32>, at: int, x: i32)
    requires
        0 <= at <= s.len(),
    ensures
        s.insert(at, x).to_multiset() == s.to_multiset().insert(x),
{
    s.to_multiset_ensures();
    let front = s.take(at);
    let back = s.skip(at);
    assert(s =~= front + back);
    assert(s.insert(at, x) =~= front.push(x) + back);
    vstd::seq_lib::lemma_multiset_commutative(front, back);
    vstd::seq_lib::lemma_multiset_commutative(front.push(x), back);
    front.to_multiset_ensures();
    assert(front.push(x).to_multiset().add(back.to_multiset()) =~= front.to_multiset().insert(
        x,
    ).add(back.to_multiset()));
    assert(front.to_multiset().insert(x).add(back.to_multiset()) =~= front.to_multiset().add(
        back.to_multiset(),
    ).insert(x));
}

/// Remove every `x`.
pub fn remove_all(v: &mut Vec<i32>, x: i32)
    ensures
        final(v)@ == without(old(v)@, x),
{
    let mut r: Vec<i32> = Vec::new();
    let mut i: usize = 0;
    proof {
        reveal(Seq::filter);
    }
    assert(without(v@.take(0), x) =~= r@);
    while i < v.len()
        invariant
            i <= v@.len(),
            r@ == without(v@.take(i as int), x),
        decreases v@.len() - i,
    {
        proof {
            reveal(Seq::filter);
            assert(v@.take(i + 1).drop_last() =~= v@.take(i as int));
        }
        if v[i] != x {
            r.push(v[i]);
        }
        i = i + 1;
    }
    assert(v@.take(i as int) =~= v@);
    *v = r;
}

/// Whether `x` is among them.
pub fn contains(v: &Vec<i32>, x: i32) -> (r: bool)
    ensures
        r == v@.contains(x),
{
    let mut i: usize = 0;
    while i < v.len()
        invariant
            i <= v@.len(),
            forall|j: int| 0 <= j < i ==> v@[j] != x,
        decreases v@.len() - i,
    {
        if v[i] == x {
            return true;
        }
        i = i + 1;
    }
    false
}

/// A copy of the list.
pub fn copy(v: &[i32]) -> (r: Vec<i32>)
    ensures
        r@ == v@,
{
    let mut r: Vec<i32> = Vec::new();
    let mut i: usize = 0;
    while i < v.len()
        invariant
            i <= v@.len(),
            r@ == v@.take(i as int),
        decreases v@.len() - i,
    {
        r.push(v[i]);
        i = i + 1;
        assert(r@ =~= v@.take(i as int));
    }
    assert(v@.take(i as int) =~= v@);
    r
}

/// Putting a list in order keeps every number as often as it was there.
/// Without a lead the result ascends; a lead comes first, and the rest
/// ascends.
pub proof fn order_ascends_behind_the_lead(lead: Option<i32>, s: Seq<i32>, i: int, j: int)
    requires
        0 <= i < j < s.len(),
    ensures
        ({
            let t = arranged(lead, s);
            &&& t.len() == s.len()
            &&& t.to_multiset() == s.to_multiset()
            &&& lead is None ==> t[i] <= t[j]
            &&& lead matches Some(l) ==> {
                &&& t[j] == l ==> t[i] == l
                &&& t[i] != l ==> t[i] <= t[j]
            }
        }),
{
    lemma_can_be_arranged(lead, s);
    let t = arranged(lead, s);
    assert(precedes(lead, t[i], t[j]));
}

/// Taking a number out of a list takes out every occurrence of it and
/// nothing else, and keeps the order of the rest.
pub proof fn removal_takes_every_occurrence(s: Seq<i32>, t: Seq<i32>, x: i32, y: i32)
    ensures
        without(Seq::empty(), x) == Seq::<i32>::empty(),
        without(s + t, x) == without(s, x) + without(t, x),
        without(seq![y], x) == if y == x {
            Seq::empty()
        } else {
            seq![y]
        },
    decreases t.len(),
{
    reveal(Seq::filter);
    let one = seq![y];
    assert(one.drop_last() =~= Seq::<i32>::empty());
    assert(without(one.drop_last(), x) =~= Seq::<i32>::empty());
    if t.len() == 0 {
        assert(s + t =~= s);
        assert(without(s, x) + without(t, x) =~= without(s, x));
    } else {
        removal_takes_every_occurrence(s, t.drop_last(), x, y);
        assert((s + t).drop_last() =~= s + t.drop_last());
        assert(without(s + t, x) =~= without(s, x) + without(t, x));
    }
}

} // verus!
