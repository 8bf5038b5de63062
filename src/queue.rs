//! The retention queue: snapshot names in the order they were made, with
//! first-in-first-out eviction once a capacity is reached.

use vstd::prelude::*;

verus! {

/// One `add` on the contents `items`: in bounded mode a full queue first gives up
/// its oldest item, which is returned; the new item then goes to the back.
pub open spec fn add_step(items: Seq<String>, maxlen: nat, dontpop: bool, item: String) -> (Seq<
    String,
>, Option<String>) {
    if !dontpop && items.len() == maxlen && items.len() > 0 {
        (items.drop_first().push(item), Some(items[0]))
    } else {
        (items.push(item), None)
    }
}

/// The contents after adding `adds` in order to `items`.
pub open spec fn add_all(items: Seq<String>, maxlen: nat, dontpop: bool, adds: Seq<String>) -> Seq<
    String,
>
    decreases adds.len(),
{
    if adds.len() == 0 {
        items
    } else {
        add_step(add_all(items, maxlen, dontpop, adds.drop_last()), maxlen, dontpop, adds.last()).0
    }
}

/// What the `k`-th of the adds `adds` (counting from 0) gave back.
pub open spec fn evicted_by(
    items: Seq<String>,
    maxlen: nat,
    dontpop: bool,
    adds: Seq<String>,
    k: int,
) -> Option<String> {
    add_step(add_all(items, maxlen, dontpop, adds.take(k)), maxlen, dontpop, adds[k]).1
}

/// Adding the first `k + 1` of `adds` is adding the first `k`, then `adds[k]`.
proof fn lemma_add_all_take(items: Seq<String>, maxlen: nat, dontpop: bool, adds: Seq<String>, k: int)
    requires
        0 <= k < adds.len(),
    ensures
        add_all(items, maxlen, dontpop, adds.take(k + 1)) == add_step(
            add_all(items, maxlen, dontpop, adds.take(k)),
            maxlen,
            dontpop,
            adds[k],
        ).0,
{
    assert(adds.take(k + 1).drop_last() =~= adds.take(k));
}

/// First in, first out: on an empty bounded queue of capacity `maxlen`, the
/// first `maxlen` adds give back nothing, and each later add gives back the name
/// added `maxlen` adds before it; the queue then holds the last `maxlen` names.
pub proof fn lemma_fifo_eviction(maxlen: nat, adds: Seq<String>)
    requires
        maxlen > 0,
    ensures
        forall|k: int|
            0 <= k <= adds.len() ==> #[trigger] add_all(seq![], maxlen, false, adds.take(k))
                == adds.subrange(if k < maxlen { 0 } else { k - maxlen }, k),
        forall|k: int|
            0 <= k < adds.len() ==> #[trigger] evicted_by(seq![], maxlen, false, adds, k) == if k
                < maxlen {
                None
            } else {
                Some(adds[k - maxlen])
            },
{
    lemma_fifo_prefix(maxlen, adds, adds.len() as int);
    assert forall|k: int| 0 <= k < adds.len() implies #[trigger] evicted_by(
        seq![],
        maxlen,
        false,
        adds,
        k,
    ) == if k < maxlen {
        None
    } else {
        Some(adds[k - maxlen])
    } by {
        let lo = if k < maxlen { 0 } else { k - maxlen };
        assert(add_all(seq![], maxlen, false, adds.take(k)) == adds.subrange(lo, k));
    }
}

proof fn lemma_fifo_prefix(maxlen: nat, adds: Seq<String>, n: int)
    requires
        maxlen > 0,
        0 <= n <= adds.len(),
    ensures
        forall|k: int|
            0 <= k <= n ==> #[trigger] add_all(seq![], maxlen, false, adds.take(k)) == adds.subrange(
                if k < maxlen { 0 } else { k - maxlen },
                k,
            ),
    decreases n,
{
    if n == 0 {
        assert(adds.take(0) =~= Seq::<String>::empty());
        assert(adds.subrange(0, 0) =~= Seq::<String>::empty());
    } else {
        lemma_fifo_prefix(maxlen, adds, n - 1);
        let k = n - 1;
        lemma_add_all_take(seq![], maxlen, false, adds, k);
        let lo = if k < maxlen { 0 } else { k - maxlen };
        let prev = add_all(seq![], maxlen, false, adds.take(k));
        assert(prev == adds.subrange(lo, k));
        if k < maxlen {
            assert(prev.push(adds[k]) =~= adds.subrange(0, n));
        } else {
            assert(prev.drop_first().push(adds[k]) =~= adds.subrange(n - maxlen, n));
        }
    }
}

/// In unbounded mode nothing is ever evicted: every add gives back nothing and
/// the queue keeps every name, in order.
pub proof fn lemma_unbounded_never_evicts(items: Seq<String>, maxlen: nat, adds: Seq<String>)
    ensures
        add_all(items, maxlen, true, adds) == items + adds,
        forall|k: int| 0 <= k < adds.len() ==> #[trigger] evicted_by(items, maxlen, true, adds, k) is None,
    decreases adds.len(),
{
    if adds.len() > 0 {
        lemma_unbounded_never_evicts(items, maxlen, adds.drop_last());
        assert((items + adds.drop_last()).push(adds.last()) =~= items + adds);
    }
}

/// In bounded mode a queue of positive capacity that starts within it stays
/// within it after every add.
pub proof fn lemma_capacity_kept(items: Seq<String>, maxlen: nat, adds: Seq<String>)
    requires
        maxlen > 0,
        items.len() <= maxlen,
    ensures
        forall|k: int|
            0 <= k <= adds.len() ==> (#[trigger] add_all(items, maxlen, false, adds.take(k))).len()
                <= maxlen,
    decreases adds.len(),
{
    if adds.len() > 0 {
        let front = adds.drop_last();
        lemma_capacity_kept(items, maxlen, front);
        assert forall|k: int| 0 <= k <= adds.len() implies (#[trigger] add_all(
            items,
            maxlen,
            false,
            adds.take(k),
        )).len() <= maxlen by {
            if k < adds.len() {
                assert(adds.take(k) =~= front.take(k));
            } else {
                assert(adds.take(k) =~= adds);
                assert(front.take(front.len() as int) =~= front);
                assert(add_all(items, maxlen, false, front.take(front.len() as int)).len()
                    <= maxlen);
            }
        }
    } else {
        assert(adds.take(0) =~= adds);
    }
}

/// A queue of snapshot names.
///
/// With `dontpop` unset it keeps at most `maxlen` names, evicting the oldest;
/// with `dontpop` set it keeps every name and `maxlen` only sizes its storage.
#[derive(Debug, PartialEq)]
pub struct Queue {
    queue: Vec<String>,
    maxlen: usize,
    dontpop: bool,
}

impl Queue {
    /// The names held, oldest first.
    pub closed spec fn items(&self) -> Seq<String> {
        self.queue@
    }

    /// The capacity.
    pub closed spec fn capacity(&self) -> nat {
        self.maxlen as nat
    }

    /// Whether eviction is switched off.
    pub closed spec fn unbounded(&self) -> bool {
        self.dontpop
    }

    /// In bounded mode, no more names than the capacity.
    pub open spec fn within_capacity(&self) -> bool {
        !self.unbounded() ==> self.items().len() <= self.capacity()
    }

    /// An empty queue with the configuration `(maxlen, dontpop)`.
    pub fn new(cfg: (usize, bool)) -> (r: Self)
        ensures
            r.items() == Seq::<String>::empty(),
            r.capacity() == cfg.0,
            r.unbounded() == cfg.1,
    {
        Queue { queue: Vec::with_capacity(cfg.0), maxlen: cfg.0, dontpop: cfg.1 }
    }

    /// A queue with the configuration `(maxlen, dontpop)` that holds `queue`
    /// as it stands, oldest first.
    pub fn init_pre(cfg: (usize, bool), queue: Vec<String>) -> (r: Self)
        ensures
            r.items() == queue@,
            r.capacity() == cfg.0,
            r.unbounded() == cfg.1,
    {
        Queue { queue, maxlen: cfg.0, dontpop: cfg.1 }
    }

    /// Number of names held.
    pub fn len(&self) -> (r: usize)
        ensures
            r == self.items().len(),
    {
        self.queue.len()
    }

    /// Appends `item`; in bounded mode, when the queue already holds `maxlen`
    /// names, the oldest is removed first and returned.
    pub fn add(&mut self, item: String) -> (r: Option<String>)
        ensures
            (final(self).items(), r) == add_step(old(self).items(), old(self).capacity(), old(self).unbounded(), item),
            final(self).capacity() == old(self).capacity(),
            final(self).unbounded() == old(self).unbounded(),
            old(self).within_capacity() && old(self).capacity() > 0 ==> final(self).within_capacity(),
    {
        if self.dontpop {
            self.queue.push(item);
            None
        } else {
            let x = if self.is_overflow() {
                self.pop()
            } else {
                None
            };
            self.queue.push(item);
            x
        }
    }

    /// Whether the queue holds `maxlen` names.
    fn is_overflow(&self) -> (r: bool)
        ensures
            r == (self.items().len() == self.capacity()),
    {
        self.queue.len() == self.maxlen
    }

    /// Removes and returns the oldest name, if any.
    fn pop(&mut self) -> (r: Option<String>)
        ensures
            old(self).items().len() == 0 ==> r is None && final(self).items() == old(self).items(),
            old(self).items().len() > 0 ==> r == Some(old(self).items()[0]) && final(self).items()
                == old(self).items().drop_first(),
            final(self).capacity() == old(self).capacity(),
            final(self).unbounded() == old(self).unbounded(),
    {
        if self.queue.len() == 0 {
            None
        } else {
            Some(self.queue.remove(0))
        }
    }
}

} // verus!
