//! The pool's own bookkeeping: how many workers it is built with, the
//! identifier each gets, and the slots that let teardown take every worker
//! handle exactly once, in ascending identifier order.
use vstd::prelude::*;

verus! {

/// Why a pool cannot be built.
#[derive(PartialEq, Eq, Structural, Clone, Copy, Debug)]
pub enum PoolError {
    /// A pool needs at least one worker.
    NoWorkers,
}

/// Accepts a worker count of at least one.
pub fn check_size(size: usize) -> (r: Result<usize, PoolError>)
    ensures
        size == 0 ==> r == Err::<usize, PoolError>(PoolError::NoWorkers),
        size > 0 ==> r == Ok::<usize, PoolError>(size),
{
    if size == 0 {
        Err(PoolError::NoWorkers)
    } else {
        Ok(size)
    }
}

/// The identifiers of a pool of `size` workers: 1 to `size`, ascending.
pub open spec fn ids_spec(size: nat) -> Seq<usize> {
    Seq::new(size, |i: int| (i + 1) as usize)
}

/// Lists the worker identifiers 1 to `size`, in ascending order.
pub fn worker_ids(size: usize) -> (ids: Vec<usize>)
    ensures
        ids@ == ids_spec(size as nat),
{
    let mut ids: Vec<usize> = Vec::with_capacity(size);
    let mut i: usize = 0;
    while i < size
        invariant
            i <= size,
            ids@ == ids_spec(i as nat),
        decreases size - i,
    {
        ids.push(i + 1);
        i = i + 1;
        assert(ids@ =~= ids_spec(i as nat));
    }
    ids
}

/// The slots of a pool freshly built from `handles`: worker `i + 1` holds
/// `handles[i]`.
pub open spec fn fresh_slots<H>(handles: Seq<H>) -> Seq<Option<(usize, H)>> {
    Seq::new(handles.len(), |i: int| Some(((i + 1) as usize, handles[i])))
}

/// The workers still held in `slots`, in slot order.
pub open spec fn held<H>(slots: Seq<Option<(usize, H)>>) -> Seq<(usize, H)>
    decreases slots.len(),
{
    if slots.len() == 0 {
        Seq::empty()
    } else {
        match slots.last() {
            Some(w) => held(slots.drop_last()).push(w),
            None => held(slots.drop_last()),
        }
    }
}

/// Every slot of `slots` emptied.
pub open spec fn emptied<H>(slots: Seq<Option<(usize, H)>>) -> Seq<Option<(usize, H)>> {
    Seq::new(slots.len(), |i: int| None)
}

proof fn lemma_held_all_present<H>(slots: Seq<Option<(usize, H)>>)
    requires
        forall|i: int| 0 <= i < slots.len() ==> slots[i].is_some(),
    ensures
        held(slots) == slots.map_values(|w: Option<(usize, H)>| w.unwrap()),
    decreases slots.len(),
{
    if slots.len() == 0 {
        assert(slots.map_values(|w: Option<(usize, H)>| w.unwrap()) =~= Seq::<(usize, H)>::empty());
    } else {
        lemma_held_all_present(slots.drop_last());
        assert(slots.map_values(|w: Option<(usize, H)>| w.unwrap()) =~= slots.drop_last().map_values(
            |w: Option<(usize, H)>| w.unwrap(),
        ).push(slots.last().unwrap()));
    }
}

proof fn lemma_held_none_present<H>(slots: Seq<Option<(usize, H)>>)
    requires
        forall|i: int| 0 <= i < slots.len() ==> slots[i].is_none(),
    ensures
        held(slots).len() == 0,
    decreases slots.len(),
{
    if slots.len() > 0 {
        lemma_held_none_present(slots.drop_last());
    }
}

/// A pool built from `n >= 1` handles has exactly `n` workers, numbered 1
/// to `n`, each with its own handle; teardown takes every one of them once,
/// in ascending identifier order, and afterwards none is left to take.
pub proof fn lemma_teardown_takes_every_worker<H>(handles: Seq<H>)
    requires
        0 < handles.len() <= usize::MAX,
    ensures
        held(fresh_slots(handles)).len() == handles.len(),
        held(fresh_slots(handles)).map_values(|w: (usize, H)| w.0) == ids_spec(handles.len()),
        forall|i: int| 0 <= i < handles.len() ==> #[trigger] held(fresh_slots(handles))[i].1 == handles[i],
        held(emptied(fresh_slots(handles))).len() == 0,
{
    let slots = fresh_slots(handles);
    lemma_held_all_present(slots);
    lemma_held_none_present(emptied(slots));
    assert(held(slots).map_values(|w: (usize, H)| w.0) =~= ids_spec(handles.len()));
}

/// The workers of a pool, each with its identifier, in slots that are
/// emptied as teardown takes them.
pub struct Workers<H> {
    slots: Vec<Option<(usize, H)>>,
}

impl<H> View for Workers<H> {
    type V = Seq<Option<(usize, H)>>;

    closed spec fn view(&self) -> Seq<Option<(usize, H)>> {
        self.slots@
    }
}

impl<H> Workers<H> {
    /// Holds one handle per worker; `handles[i]` belongs to worker `i + 1`.
    /// A pool without workers is refused by `requires`: see `check_size`.
    pub fn from_handles(handles: Vec<H>) -> (w: Self)
        requires
            handles.len() > 0,
        ensures
            w@ == fresh_slots(handles@),
    {
        let n = handles.len();
        let ghost all = handles@;
        let mut slots: Vec<Option<(usize, H)>> = Vec::with_capacity(n);
        let mut k: usize = 0;
        while k < n
            invariant
                k <= n,
                slots@.len() == k,
                forall|j: int| 0 <= j < k ==> slots@[j].is_none(),
            decreases n - k,
        {
            slots.push(None);
            k = k + 1;
        }
        // Handles come off the back, so the slots fill from the last worker down.
        let mut rest = handles;
        while rest.len() > 0
            invariant
                n == all.len(),
                slots@.len() == n,
                rest@.len() <= n,
                rest@ == all.subrange(0, rest@.len() as int),
                forall|j: int| 0 <= j < rest@.len() ==> slots@[j].is_none(),
                forall|j: int|
                    rest@.len() <= j < n ==> slots@[j] == Some(((j + 1) as usize, all[j])),
            decreases rest@.len(),
        {
            let i = rest.len() - 1;
            let h = rest.pop().unwrap();
            slots.set(i, Some((i + 1, h)));
        }
        assert(slots@ =~= fresh_slots(all));
        Workers { slots }
    }

    /// The number of workers not yet taken by teardown.
    pub fn count(&self) -> (r: usize)
        ensures
            r == held(self@).len(),
    {
        let mut c: usize = 0;
        let mut i: usize = 0;
        while i < self.slots.len()
            invariant
                i <= self.slots@.len(),
                c == held(self.slots@.subrange(0, i as int)).len(),
                c <= i,
            decreases self.slots@.len() - i,
        {
            assert(self.slots@.subrange(0, i + 1).drop_last() =~= self.slots@.subrange(0, i as int));
            if self.slots[i].is_some() {
                c = c + 1;
            }
            i = i + 1;
        }
        assert(self.slots@.subrange(0, self.slots@.len() as int) =~= self.slots@);
        c
    }

    /// Takes every worker still held, in slot order, leaving each slot empty:
    /// each worker is handed out by at most one call.
    pub fn take_all(&mut self) -> (r: Vec<(usize, H)>)
        ensures
            r@ == held(old(self)@),
            final(self)@ == emptied(old(self)@),
    {
        let ghost start = self.slots@;
        let mut out: Vec<(usize, H)> = Vec::new();
        let mut i: usize = 0;
        while i < self.slots.len()
            invariant
                i <= self.slots@.len(),
                self.slots@.len() == start.len(),
                out@ == held(start.subrange(0, i as int)),
                forall|k: int| 0 <= k < i ==> self.slots@[k].is_none(),
                forall|k: int| i <= k < start.len() ==> self.slots@[k] == start[k],
            decreases start.len() - i,
        {
            assert(start.subrange(0, i + 1).drop_last() =~= start.subrange(0, i as int));
            let taken = self.slots[i].take();
            if let Some(w) = taken {
                out.push(w);
            }
            i = i + 1;
        }
        assert(start.subrange(0, start.len() as int) =~= start);
        assert(self.slots@ =~= emptied(start));
        out
    }
}

} // verus!
