use vstd::prelude::*;

verus! {

/// Paged enumeration of a map's keys. The service is asked for at most
/// `page_size` keys after the last key seen; a page that is empty ends the
/// enumeration. A service that repeats the start key at the head of a page
/// has it dropped.
pub struct Pager {
    pub page_size: usize,
    pub start: Option<Vec<u8>>,
    pub done: bool,
}

pub open spec fn start_view(start: Option<Vec<u8>>) -> Option<Seq<u8>> {
    match start {
        Some(k) => Some(k@),
        None => None,
    }
}

pub open spec fn keys_view(page: Seq<Vec<u8>>) -> Seq<Seq<u8>> {
    Seq::new(page.len(), |i: int| page[i]@)
}

/// The keys of a page that are new: without a repeated start key at its head.
pub open spec fn fresh_keys(start: Option<Seq<u8>>, page: Seq<Seq<u8>>) -> Seq<Seq<u8>> {
    if start is Some && page.len() > 0 && page[0] == start->Some_0 {
        page.drop_first()
    } else {
        page
    }
}

/// What a well-behaved service answers: the keys of `all`, in order, that
/// follow `start` (all of them when there is none), at most `p` of them.
pub open spec fn page_after(all: Seq<Seq<u8>>, start: Option<Seq<u8>>, p: nat) -> Seq<Seq<u8>> {
    let from: int = match start {
        None => 0,
        Some(k) => if all.contains(k) {
            (choose|i: int| 0 <= i < all.len() && #[trigger] all[i] == k) + 1
        } else {
            all.len() as int
        },
    };
    all.subrange(from, if from + p < all.len() { from + p } else { all.len() as int })
}

/// The keys yielded by at most `steps` page requests starting after `start`,
/// each answered by a well-behaved service.
pub open spec fn enumerate(all: Seq<Seq<u8>>, p: nat, start: Option<Seq<u8>>, steps: nat) -> Seq<Seq<u8>>
    decreases steps,
{
    if steps == 0 {
        seq![]
    } else {
        let page = fresh_keys(start, page_after(all, start, p));
        if page.len() == 0 {
            seq![]
        } else {
            page + enumerate(all, p, Some(page.last()), (steps - 1) as nat)
        }
    }
}

fn same_bytes(a: &Vec<u8>, b: &Vec<u8>) -> (r: bool)
    ensures
        r == (a@ == b@),
{
    if a.len() != b.len() {
        return false;
    }
    let mut i: usize = 0;
    while i < a.len()
        invariant
            a@.len() == b@.len(),
            i <= a@.len(),
            forall|k: int| 0 <= k < i ==> a@[k] == b@[k],
        decreases a@.len() - i,
    {
        if a[i] != b[i] {
            return false;
        }
        i = i + 1;
    }
    assert(a@ =~= b@);
    true
}

impl Pager {
    pub fn new(page_size: usize) -> (r: Self)
        requires
            page_size > 0,
        ensures
            r.page_size == page_size,
            r.start is None,
            !r.done,
    {
        Pager { page_size, start: None, done: false }
    }

    /// The next request to make, `(start after, count)`, or none once done.
    pub fn next_request(&self) -> (r: Option<(Option<Vec<u8>>, usize)>)
        ensures
            r is None <==> self.done,
            r is Some ==> start_view(r->Some_0.0) == start_view(self.start) && r->Some_0.1 == self.page_size,
    {
        if self.done {
            None
        } else {
            let start = match &self.start {
                Some(k) => Some(k.clone()),
                None => None,
            };
            Some((start, self.page_size))
        }
    }

    /// Takes the service's answer to the last request and returns the keys
    /// that are new. An empty answer ends the enumeration; otherwise the next
    /// request starts after its last key.
    pub fn on_page(&mut self, page: Vec<Vec<u8>>) -> (r: Vec<Vec<u8>>)
        requires
            !old(self).done,
        ensures
            keys_view(r@) == fresh_keys(start_view(old(self).start), keys_view(page@)),
            final(self).page_size == old(self).page_size,
            final(self).done == (r@.len() == 0),
            r@.len() > 0 ==> start_view(final(self).start) == Some(keys_view(r@).last()),
    {
        let mut page = page;
        let ghost before = keys_view(page@);
        let repeated = match &self.start {
            Some(k) => page.len() > 0 && same_bytes(&page[0], k),
            None => false,
        };
        if repeated {
            page.remove(0);
            assert(keys_view(page@) =~= before.drop_first());
        } else {
            assert(keys_view(page@) =~= before);
        }
        if page.len() == 0 {
            self.done = true;
        } else {
            let last = page[page.len() - 1].clone();
            self.start = Some(last);
        }
        page
    }
}

proof fn lemma_resume(all: Seq<Seq<u8>>, p: nat, c: int, steps: nat)
    requires
        p > 0,
        all.no_duplicates(),
        0 <= c <= all.len(),
        steps >= all.len() - c + 1,
    ensures
        enumerate(all, p, if c == 0 { None } else { Some(all[c - 1]) }, steps) == all.subrange(c, all.len() as int),
    decreases all.len() - c,
{
    let start = if c == 0 { None } else { Some(all[c - 1]) };
    if c > 0 {
        assert(all.contains(all[c - 1]));
        let i = choose|i: int| 0 <= i < all.len() && #[trigger] all[i] == all[c - 1];
        assert(i == c - 1);
    }
    let end = if c + p < all.len() { c + p } else { all.len() as int };
    let raw = page_after(all, start, p);
    assert(raw =~= all.subrange(c, end));
    if c > 0 && raw.len() > 0 {
        assert(raw[0] == all[c]);
        assert(all[c] != all[c - 1]);
    }
    assert(fresh_keys(start, raw) == raw);
    if c < all.len() {
        assert(raw.last() == all[end - 1]);
        lemma_resume(all, p, end, (steps - 1) as nat);
        assert(raw + all.subrange(end, all.len() as int) =~= all.subrange(c, all.len() as int));
    } else {
        assert(all.subrange(c, all.len() as int) =~= Seq::<Seq<u8>>::empty());
    }
}

/// Enumeration is complete: against a service holding the distinct keys
/// `all`, paging from the start with any page size yields every key exactly
/// once, in the service's order, within `all.len() + 1` requests.
pub proof fn lemma_enumeration_complete(all: Seq<Seq<u8>>, p: nat)
    requires
        p > 0,
        all.no_duplicates(),
    ensures
        enumerate(all, p, None, all.len() + 1) == all,
{
    lemma_resume(all, p, 0, all.len() + 1);
    assert(all.subrange(0, all.len() as int) =~= all);
}

} // verus!
