use vstd::prelude::*;

verus! {

/// The fan-in barrier of a fan-out: one slot per sub-query, filled as each
/// completes, read out in slot order once all are filled.
pub struct Gather<T> {
    slots: Vec<Option<T>>,
}

impl<T> View for Gather<T> {
    type V = Seq<Option<T>>;

    closed spec fn view(&self) -> Seq<Option<T>> {
        self.slots@
    }
}

/// The slots after results arrive at the positions in `order`, one after another.
pub open spec fn put_all<T>(slots: Seq<Option<T>>, order: Seq<int>, results: Seq<T>) -> Seq<Option<T>>
    decreases order.len(),
{
    if order.len() == 0 {
        slots
    } else {
        put_all(slots, order.drop_last(), results).update(order.last(), Some(results[order.last()]))
    }
}

/// `n` slots, none filled.
pub open spec fn empty_slots<T>(n: nat) -> Seq<Option<T>> {
    Seq::new(n, |i: int| None::<T>)
}

pub open spec fn all_filled<T>(slots: Seq<Option<T>>) -> bool {
    forall|i: int| 0 <= i < slots.len() ==> (#[trigger] slots[i]) is Some
}

impl<T> Gather<T> {
    /// A barrier for `n` sub-queries, none completed.
    pub fn new(n: usize) -> (r: Self)
        ensures
            r@ == empty_slots::<T>(n as nat),
    {
        let mut slots: Vec<Option<T>> = Vec::new();
        let mut i: usize = 0;
        while i < n
            invariant
                i <= n,
                slots@ == Seq::new(i as nat, |k: int| None::<T>),
            decreases n - i,
        {
            slots.push(None);
            i = i + 1;
        }
        assert(slots@ =~= empty_slots::<T>(n as nat));
        Gather { slots }
    }

    /// Records the result of sub-query `i`.
    pub fn put(&mut self, i: usize, v: T)
        requires
            i < old(self)@.len(),
        ensures
            final(self)@ == old(self)@.update(i as int, Some(v)),
    {
        self.slots.set(i, Some(v));
    }

    /// Whether every sub-query has completed.
    pub fn is_complete(&self) -> (r: bool)
        ensures
            r == all_filled(self@),
    {
        let mut i: usize = 0;
        while i < self.slots.len()
            invariant
                i <= self@.len(),
                forall|k: int| 0 <= k < i ==> (#[trigger] self@[k]) is Some,
            decreases self@.len() - i,
        {
            if self.slots[i].is_none() {
                return false;
            }
            i = i + 1;
        }
        true
    }

    /// The results in slot order, once every sub-query has completed.
    pub fn finish(self) -> (r: Option<Vec<T>>)
        ensures
            r is Some <==> all_filled(self@),
            r is Some ==> r->Some_0@.len() == self@.len()
                && forall|i: int| 0 <= i < self@.len() ==> Some(#[trigger] r->Some_0@[i]) == self@[i],
    {
        let ghost all = self@;
        let mut slots = self.slots;
        let mut out: Vec<T> = Vec::new();
        while slots.len() > 0
            invariant
                all == self@,
                out@.len() + slots@.len() == all.len(),
                slots@ == all.subrange(out@.len() as int, all.len() as int),
                forall|i: int| 0 <= i < out@.len() ==> Some(#[trigger] out@[i]) == all[i],
            decreases slots@.len(),
        {
            let ghost at = out@.len() as int;
            match slots.remove(0) {
                Some(v) => {
                    out.push(v);
                    assert(slots@ =~= all.subrange(out@.len() as int, all.len() as int));
                },
                None => {
                    assert(all[at] is None);
                    assert(!all_filled(all));
                    return None;
                },
            }
        }
        assert(all_filled(all)) by {
            assert forall|i: int| 0 <= i < all.len() implies (#[trigger] all[i]) is Some by {
                assert(Some(out@[i]) == all[i]);
            }
        }
        Some(out)
    }
}

/// Results gathered in any completion order come out in input order: once
/// every sub-query `0..n` has completed, however their completions
/// interleaved (and whatever repeats), the slots hold exactly the results,
/// each at its sub-query's position.
pub proof fn lemma_completion_order_irrelevant<T>(n: nat, order: Seq<int>, results: Seq<T>)
    requires
        results.len() == n,
        forall|k: int| 0 <= k < order.len() ==> 0 <= #[trigger] order[k] < n,
        forall|i: int| 0 <= i < n ==> #[trigger] order.contains(i),
    ensures
        put_all(empty_slots::<T>(n), order, results) == Seq::new(n, |i: int| Some(results[i])),
        all_filled(put_all(empty_slots::<T>(n), order, results)),
{
    lemma_put_all_prefix(n, order, results);
    let got = put_all(empty_slots::<T>(n), order, results);
    assert forall|i: int| 0 <= i < n implies got[i] == Some(results[i]) by {
        assert(order.contains(i));
    }
    assert(got =~= Seq::new(n, |i: int| Some(results[i])));
}

proof fn lemma_put_all_prefix<T>(n: nat, order: Seq<int>, results: Seq<T>)
    requires
        results.len() == n,
        forall|k: int| 0 <= k < order.len() ==> 0 <= #[trigger] order[k] < n,
    ensures
        put_all(empty_slots::<T>(n), order, results).len() == n,
        forall|i: int| 0 <= i < n ==> #[trigger] put_all(empty_slots::<T>(n), order, results)[i]
            == if order.contains(i) { Some(results[i]) } else { None },
    decreases order.len(),
{
    if order.len() > 0 {
        let rest = order.drop_last();
        assert forall|k: int| 0 <= k < rest.len() implies 0 <= #[trigger] rest[k] < n by {
            assert(rest[k] == order[k]);
        }
        lemma_put_all_prefix(n, rest, results);
        assert forall|i: int| 0 <= i < n implies order.contains(i) == (rest.contains(i) || order.last() == i) by {
            if order.contains(i) && order.last() != i {
                let k = choose|k: int| 0 <= k < order.len() && order[k] == i;
                assert(rest[k] == i);
            }
            if rest.contains(i) {
                let k = choose|k: int| 0 <= k < rest.len() && rest[k] == i;
                assert(order[k] == i);
            }
            if order.last() == i {
                assert(order[order.len() - 1] == i);
            }
        }
    }
}

/// Pairs each identifier with the result gathered for it, in input order.
pub fn pair_with<T>(ids: &Vec<String>, results: Vec<T>) -> (r: Vec<(String, T)>)
    requires
        ids@.len() == results@.len(),
    ensures
        r@.len() == ids@.len(),
        forall|i: int| 0 <= i < ids@.len() ==> (#[trigger] r@[i]).0@ == ids@[i]@ && r@[i].1 == results@[i],
{
    let ghost all = results@;
    let mut rest = results;
    let mut out: Vec<(String, T)> = Vec::new();
    let mut i: usize = 0;
    while i < ids.len()
        invariant
            i <= ids@.len(),
            ids@.len() == all.len(),
            out@.len() == i,
            rest@ == all.subrange(i as int, all.len() as int),
            forall|k: int| 0 <= k < i ==> (#[trigger] out@[k]).0@ == ids@[k]@ && out@[k].1 == all[k],
        decreases ids@.len() - i,
    {
        let v = rest.remove(0);
        out.push((ids[i].clone(), v));
        i = i + 1;
        assert(rest@ =~= all.subrange(i as int, all.len() as int));
    }
    out
}

} // verus!
