use std::collections::BTreeMap;
use std::collections::VecDeque;
use vstd::prelude::*;

verus! {

broadcast use vstd::std_specs::btree::group_btree_axioms, vstd::laws_cmp::group_laws_cmp;

/// The model of all inboxes: for every channel, the messages waiting on it,
/// oldest first. Every channel has a queue; most are empty.
pub type InboxModel = Map<u32, Seq<Vec<u8>>>;

/// Every channel has a queue in the model.
pub open spec fn is_total(m: InboxModel) -> bool {
    forall|c: u32| #[trigger] m.contains_key(c)
}

/// The model after `data` arrives on `ch`: it joins the back of that queue.
pub open spec fn after_dispatch(m: InboxModel, ch: u32, data: Vec<u8>) -> InboxModel {
    m.insert(ch, m[ch].push(data))
}

/// What a take on `ch` hands out: the oldest message, if there is one.
pub open spec fn taken(m: InboxModel, ch: u32) -> Option<Vec<u8>> {
    if m[ch].len() > 0 { Some(m[ch][0]) } else { None }
}

/// The model after a take on `ch`: the oldest message, if any, has left.
pub open spec fn after_take(m: InboxModel, ch: u32) -> InboxModel {
    if m[ch].len() > 0 { m.insert(ch, m[ch].drop_first()) } else { m }
}

/// The model after `ch` is drained: its queue is empty.
pub open spec fn after_drain(m: InboxModel, ch: u32) -> InboxModel {
    m.insert(ch, Seq::empty())
}

/// The model after `ds` arrive on `ch`, one after the other.
pub open spec fn after_dispatch_all(m: InboxModel, ch: u32, ds: Seq<Vec<u8>>) -> InboxModel
    decreases ds.len(),
{
    if ds.len() == 0 {
        m
    } else {
        after_dispatch(after_dispatch_all(m, ch, ds.drop_last()), ch, ds.last())
    }
}

/// What `n` takes on `ch` in a row hand out, and the model after them.
pub open spec fn take_n(m: InboxModel, ch: u32, n: nat) -> (Seq<Option<Vec<u8>>>, InboxModel)
    decreases n,
{
    if n == 0 {
        (Seq::empty(), m)
    } else {
        let (rs, m2) = take_n(m, ch, (n - 1) as nat);
        (rs.push(taken(m2, ch)), after_take(m2, ch))
    }
}

/// Dispatching `ds` on `ch` appends them to its queue, in order, and leaves
/// every other queue as it was.
pub proof fn lemma_dispatch_all_appends(m: InboxModel, ch: u32, ds: Seq<Vec<u8>>)
    requires
        is_total(m),
    ensures
        is_total(after_dispatch_all(m, ch, ds)),
        after_dispatch_all(m, ch, ds)[ch] == m[ch] + ds,
        forall|c: u32| c != ch ==> #[trigger] after_dispatch_all(m, ch, ds)[c] == m[c],
    decreases ds.len(),
{
    if ds.len() > 0 {
        lemma_dispatch_all_appends(m, ch, ds.drop_last());
        assert(m[ch] + ds.drop_last().push(ds.last()) =~= m[ch] + ds);
    }
}

/// `n` takes in a row on a queue of at least `n` messages hand out its first
/// `n` messages, oldest first, and leave the rest.
pub proof fn lemma_take_n_front(m: InboxModel, ch: u32, n: nat)
    requires
        is_total(m),
        n <= m[ch].len(),
    ensures
        take_n(m, ch, n).0 == m[ch].take(n as int).map_values(|d: Vec<u8>| Some(d)),
        is_total(take_n(m, ch, n).1),
        take_n(m, ch, n).1[ch] == m[ch].skip(n as int),
        forall|c: u32| c != ch ==> #[trigger] take_n(m, ch, n).1[c] == m[c],
    decreases n,
{
    if n > 0 {
        lemma_take_n_front(m, ch, (n - 1) as nat);
        let m2 = take_n(m, ch, (n - 1) as nat).1;
        assert(m2[ch].len() > 0);
        assert(m2[ch].drop_first() =~= m[ch].skip(n as int));
        assert(m[ch].take(n as int).map_values(|d: Vec<u8>| Some(d)) =~= m[ch].take(
            (n - 1) as int,
        ).map_values(|d: Vec<u8>| Some(d)).push(taken(m2, ch)));
    }
}

/// Messages leave a channel in the order they arrived: after `ds` arrive on
/// `ch`, taking as many messages as wait there hands out the ones that were
/// already waiting and then `ds`, in order, and leaves the queue empty, so
/// that one more take hands out nothing.
pub proof fn lemma_fifo(m: InboxModel, ch: u32, ds: Seq<Vec<u8>>)
    requires
        is_total(m),
    ensures
        ({
            let n = m[ch].len() + ds.len();
            let (rs, m2) = take_n(after_dispatch_all(m, ch, ds), ch, n);
            &&& rs == (m[ch] + ds).map_values(|d: Vec<u8>| Some(d))
            &&& m2[ch] == Seq::<Vec<u8>>::empty()
            &&& taken(m2, ch) is None
        }),
{
    let md = after_dispatch_all(m, ch, ds);
    lemma_dispatch_all_appends(m, ch, ds);
    let n = m[ch].len() + ds.len();
    lemma_take_n_front(md, ch, n);
    assert(md[ch].take(n as int) =~= m[ch] + ds);
    assert(md[ch].skip(n as int) =~= Seq::<Vec<u8>>::empty());
}

/// A message dispatched on an empty channel is the next one taken from it,
/// and taking it leaves the inboxes as they were before.
pub proof fn lemma_take_after_dispatch(m: InboxModel, ch: u32, data: Vec<u8>)
    requires
        is_total(m),
        m[ch].len() == 0,
    ensures
        taken(after_dispatch(m, ch, data), ch) == Some(data),
        after_take(after_dispatch(m, ch, data), ch) == m,
{
    assert(m[ch].push(data).drop_first() =~= m[ch]);
    assert(after_take(after_dispatch(m, ch, data), ch) =~= m);
}

/// Dispatching, taking and draining on one channel leave every other
/// channel's queue as it was.
pub proof fn lemma_channels_independent(m: InboxModel, ch: u32, other: u32, data: Vec<u8>)
    requires
        ch != other,
    ensures
        after_dispatch(m, ch, data)[other] == m[other],
        after_take(m, ch)[other] == m[other],
        after_drain(m, ch)[other] == m[other],
{
}

/// Nothing can be taken from a channel that was just drained.
pub proof fn lemma_drain_empties(m: InboxModel, ch: u32)
    ensures
        taken(after_drain(m, ch), ch) is None,
        after_drain(m, ch)[ch] == Seq::<Vec<u8>>::empty(),
{
}

/// Per-channel FIFO queues of byte messages.
pub struct Inboxes {
    queues: BTreeMap<u32, VecDeque<Vec<u8>>>,
}

impl View for Inboxes {
    type V = InboxModel;

    closed spec fn view(&self) -> InboxModel {
        Map::new(
            |c: u32| true,
            |c: u32| if self.queues@.contains_key(c) { self.queues@[c]@ } else { Seq::empty() },
        )
    }
}

impl Inboxes {
    /// The model of every set of inboxes has a queue for every channel.
    pub proof fn lemma_total(&self)
        ensures
            is_total(self@),
    {
    }

    /// No message waits anywhere.
    pub fn new() -> (r: Inboxes)
        ensures
            is_total(r@),
            forall|c: u32| #[trigger] r@[c] == Seq::<Vec<u8>>::empty(),
    {
        Inboxes { queues: BTreeMap::new() }
    }

    /// Appends `data` to the queue of `ch`.
    pub fn dispatch(&mut self, ch: u32, data: Vec<u8>)
        ensures
            final(self)@ == after_dispatch(old(self)@, ch, data),
    {
        let mut q = match self.queues.remove(&ch) {
            Some(q) => q,
            None => VecDeque::new(),
        };
        q.push_back(data);
        self.queues.insert(ch, q);
        assert(self@ =~= after_dispatch(old(self)@, ch, data));
    }

    /// Hands out the oldest message waiting on `ch`, if any.
    pub fn take(&mut self, ch: u32) -> (r: Option<Vec<u8>>)
        ensures
            r == taken(old(self)@, ch),
            final(self)@ == after_take(old(self)@, ch),
    {
        match self.queues.remove(&ch) {
            Some(mut q) => {
                let r = q.pop_front();
                self.queues.insert(ch, q);
                assert(self@ =~= after_take(old(self)@, ch));
                r
            },
            None => {
                assert(self@ =~= old(self)@);
                None
            },
        }
    }

    /// Discards every message waiting on `ch`.
    pub fn drain(&mut self, ch: u32)
        ensures
            final(self)@ == after_drain(old(self)@, ch),
    {
        self.queues.remove(&ch);
        assert(self@ =~= after_drain(old(self)@, ch));
    }
}

} // verus!
