use crate::inbox::{after_dispatch, after_drain, after_take, is_total, taken, InboxModel, Inboxes};
use vstd::multiset::Multiset;
use vstd::prelude::*;

verus! {

/// The model of a runtime: the tasks waiting for the next tick, the tasks
/// spawned since the last round, the clock in milliseconds, and the inboxes.
pub struct RuntimeModel<T> {
    pub tasks: Seq<T>,
    pub spawned: Seq<T>,
    pub clock: u64,
    pub inbox: InboxModel,
}

/// The state of a cooperative runtime over tasks of type `T`. The driver
/// polls the tasks; the runtime decides which of them stay and when a tick ends.
pub struct Runtime<T> {
    tasks: Vec<T>,
    spawned: Vec<T>,
    clock: u64,
    inboxes: Inboxes,
}

/// One round of a tick: the tasks still to be polled, in order, and those
/// polled so far that are still pending.
pub struct Round<T> {
    queue: Vec<T>,
    kept: Vec<T>,
}

/// What the driver does after a round: poll another round, or end the tick
/// and report whether any task is left.
pub enum Step<T> {
    Again(Round<T>),
    Done(bool),
}

/// The clock after `elapsed` milliseconds: it stops at `u64::MAX`.
pub open spec fn advanced(clock: u64, elapsed: u64) -> u64 {
    if clock + elapsed > u64::MAX { u64::MAX } else { (clock + elapsed) as u64 }
}

/// The kept tasks of a round after `task` is settled with poll outcome `pending`.
pub open spec fn settled<T>(kept: Seq<T>, task: T, pending: bool) -> Seq<T> {
    if pending { kept.push(task) } else { kept }
}

/// The kept tasks after polling the tasks of `queue` in order, with the
/// outcomes in `flags`, starting from `kept`.
pub open spec fn settle_all<T>(kept: Seq<T>, queue: Seq<T>, flags: Seq<bool>) -> Seq<T>
    decreases queue.len(),
{
    if queue.len() == 0 {
        kept
    } else {
        settle_all(settled(kept, queue[0], flags[0]), queue.drop_first(), flags.drop_first())
    }
}

/// The tasks of `tasks` whose poll, given by the flag at the same place in
/// `flags`, left them pending, in polling order.
pub open spec fn pending_only<T>(tasks: Seq<T>, flags: Seq<bool>) -> Seq<T>
    decreases tasks.len(),
{
    if tasks.len() == 0 {
        Seq::empty()
    } else {
        let rest = pending_only(tasks.drop_last(), flags.take(tasks.len() - 1));
        if flags[tasks.len() - 1] { rest.push(tasks.last()) } else { rest }
    }
}

/// The tasks of `tasks` whose poll finished them, in polling order.
pub open spec fn finished_only<T>(tasks: Seq<T>, flags: Seq<bool>) -> Seq<T>
    decreases tasks.len(),
{
    if tasks.len() == 0 {
        Seq::empty()
    } else {
        let rest = finished_only(tasks.drop_last(), flags.take(tasks.len() - 1));
        if flags[tasks.len() - 1] { rest } else { rest.push(tasks.last()) }
    }
}

/// A round loses and duplicates no task: the tasks it keeps and the ones
/// it hands back as finished are, together, exactly the tasks it polled.
pub proof fn lemma_round_conserves_tasks<T>(tasks: Seq<T>, flags: Seq<bool>)
    requires
        flags.len() == tasks.len(),
    ensures
        pending_only(tasks, flags).to_multiset().add(finished_only(tasks, flags).to_multiset())
            == tasks.to_multiset(),
        pending_only(tasks, flags).len() + finished_only(tasks, flags).len() == tasks.len(),
    decreases tasks.len(),
{
    broadcast use vstd::seq_lib::group_to_multiset_ensures;

    if tasks.len() > 0 {
        let n = tasks.len() - 1;
        lemma_round_conserves_tasks(tasks.drop_last(), flags.take(n));
        assert(tasks.drop_last().push(tasks.last()) =~= tasks);
        assert(pending_only(tasks, flags).to_multiset().add(finished_only(tasks, flags).to_multiset())
            =~= tasks.to_multiset());
    } else {
        assert(tasks.to_multiset() =~= Multiset::empty());
    }
}

/// Polling every task of a round in order and settling each with its
/// outcome keeps exactly the pending ones, in the order they were polled.
pub proof fn lemma_round_keeps_pending<T>(kept: Seq<T>, queue: Seq<T>, flags: Seq<bool>)
    requires
        flags.len() == queue.len(),
    ensures
        settle_all(kept, queue, flags) == kept + pending_only(queue, flags),
    decreases queue.len(),
{
    if queue.len() > 0 {
        let k2 = settled(kept, queue[0], flags[0]);
        lemma_round_keeps_pending(k2, queue.drop_first(), flags.drop_first());
        lemma_pending_only_front(queue, flags);
        if flags[0] {
            assert(kept.push(queue[0]) + pending_only(queue.drop_first(), flags.drop_first())
                =~= kept + (seq![queue[0]] + pending_only(queue.drop_first(), flags.drop_first())));
        }
    } else {
        assert(kept + Seq::<T>::empty() =~= kept);
    }
}

/// `pending_only` unfolded at the front of the sequence.
proof fn lemma_pending_only_front<T>(queue: Seq<T>, flags: Seq<bool>)
    requires
        flags.len() == queue.len(),
        queue.len() > 0,
    ensures
        pending_only(queue, flags) == if flags[0] {
            seq![queue[0]] + pending_only(queue.drop_first(), flags.drop_first())
        } else {
            pending_only(queue.drop_first(), flags.drop_first())
        },
    decreases queue.len(),
{
    let n = queue.len() - 1;
    let q1 = queue.drop_first();
    let f1 = flags.drop_first();
    if n == 0 {
        assert(q1 =~= Seq::<T>::empty());
        assert(queue.drop_last() =~= Seq::<T>::empty());
        assert(pending_only(queue.drop_last(), flags.take(n)) == Seq::<T>::empty());
        assert(pending_only(q1, f1) == Seq::<T>::empty());
        assert(seq![queue[0]] + Seq::<T>::empty() =~= Seq::<T>::empty().push(queue.last()));
    } else {
        let ql = queue.drop_last();
        let fl = flags.take(n);
        lemma_pending_only_front(ql, fl);
        assert(ql.drop_first() =~= q1.drop_last());
        assert(fl.drop_first() =~= f1.take(n - 1));
        assert(q1.last() == queue.last());
        assert(f1[n - 1] == flags[n]);
        assert(ql[0] == queue[0]);
        assert(fl[0] == flags[0]);
        let inner = pending_only(q1.drop_last(), f1.take(n - 1));
        assert(pending_only(q1, f1) == if f1[n - 1] { inner.push(q1.last()) } else { inner });
        assert(pending_only(ql, fl) == if flags[0] { seq![queue[0]] + inner } else { inner });
        if flags[0] && flags[n] {
            assert((seq![queue[0]] + inner).push(queue.last()) =~= seq![queue[0]] + inner.push(queue.last()));
        }
    }
}

/// The clock never runs backwards, and it advances by exactly the elapsed
/// time unless that would pass `u64::MAX`.
pub proof fn lemma_clock_monotone(clock: u64, elapsed: u64)
    ensures
        advanced(clock, elapsed) >= clock,
        clock + elapsed <= u64::MAX ==> advanced(clock, elapsed) == clock + elapsed,
        clock + elapsed > u64::MAX ==> advanced(clock, elapsed) == u64::MAX,
{
}

impl<T> View for Runtime<T> {
    type V = RuntimeModel<T>;

    closed spec fn view(&self) -> RuntimeModel<T> {
        RuntimeModel {
            tasks: self.tasks@,
            spawned: self.spawned@,
            clock: self.clock,
            inbox: self.inboxes@,
        }
    }
}

impl<T> Round<T> {
    /// The tasks of this round not polled yet, in the order they will be polled.
    pub closed spec fn queue(&self) -> Seq<T> {
        self.queue@
    }

    /// The tasks of this round that were polled and are still pending.
    pub closed spec fn kept(&self) -> Seq<T> {
        self.kept@
    }

    /// Hands out the next task to poll, if any is left in this round.
    pub fn next_task(&mut self) -> (r: Option<T>)
        ensures
            final(self).kept() == old(self).kept(),
            old(self).queue().len() == 0 ==> r is None && final(self).queue() == old(self).queue(),
            old(self).queue().len() > 0 ==> r == Some(old(self).queue()[0])
                && final(self).queue() == old(self).queue().drop_first(),
    {
        if self.queue.len() == 0 {
            None
        } else {
            let t = self.queue.remove(0);
            assert(self.queue@ =~= old(self).queue@.drop_first());
            Some(t)
        }
    }

    /// Records the outcome of polling `task`: a pending task stays for the
    /// next round; a finished one is handed back, for the driver to drop.
    pub fn settle(&mut self, task: T, pending: bool) -> (finished: Option<T>)
        ensures
            final(self).queue() == old(self).queue(),
            final(self).kept() == settled(old(self).kept(), task, pending),
            pending ==> finished is None,
            !pending ==> finished == Some(task),
    {
        if pending {
            self.kept.push(task);
            None
        } else {
            Some(task)
        }
    }
}

impl<T> Runtime<T> {
    /// The inboxes of every runtime have a queue for every channel.
    pub proof fn lemma_inbox_total(&self)
        ensures
            is_total(self@.inbox),
    {
        self.inboxes.lemma_total();
    }

    /// A runtime whose only task is `main`, at clock 0, with empty inboxes.
    pub fn new(main: T) -> (rt: Runtime<T>)
        ensures
            rt@.tasks == seq![main],
            rt@.spawned == Seq::<T>::empty(),
            rt@.clock == 0,
            is_total(rt@.inbox),
            forall|c: u32| #[trigger] rt@.inbox[c] == Seq::<Vec<u8>>::empty(),
    {
        let mut tasks = Vec::new();
        tasks.push(main);
        Runtime { tasks, spawned: Vec::new(), clock: 0, inboxes: Inboxes::new() }
    }

    /// Adds `task`; it is first polled in the round after the current one.
    pub fn spawn(&mut self, task: T)
        ensures
            final(self)@ == (RuntimeModel { spawned: old(self)@.spawned.push(task), ..old(self)@ }),
    {
        self.spawned.push(task);
    }

    /// Queues `data` on `channel`.
    pub fn dispatch(&mut self, channel: u32, data: Vec<u8>)
        ensures
            final(self)@ == (RuntimeModel { inbox: after_dispatch(old(self)@.inbox, channel, data), ..old(self)@ }),
    {
        self.inboxes.dispatch(channel, data);
    }

    /// Takes the oldest message waiting on `channel`, if any.
    pub fn take(&mut self, channel: u32) -> (r: Option<Vec<u8>>)
        ensures
            r == taken(old(self)@.inbox, channel),
            final(self)@ == (RuntimeModel { inbox: after_take(old(self)@.inbox, channel), ..old(self)@ }),
    {
        self.inboxes.take(channel)
    }

    /// Discards every message waiting on `channel`.
    pub fn drain(&mut self, channel: u32)
        ensures
            final(self)@ == (RuntimeModel { inbox: after_drain(old(self)@.inbox, channel), ..old(self)@ }),
    {
        self.inboxes.drain(channel)
    }

    /// The clock, in milliseconds since the runtime started.
    pub fn now(&self) -> (r: u64)
        ensures
            r == self@.clock,
    {
        self.clock
    }

    /// Starts a tick: advances the clock by `elapsed_ms` (stopping at
    /// `u64::MAX`) and hands out the first round, which holds every task.
    pub fn tick(&mut self, elapsed_ms: u64) -> (round: Round<T>)
        ensures
            final(self)@ == (RuntimeModel {
                tasks: Seq::empty(),
                clock: advanced(old(self)@.clock, elapsed_ms),
                ..old(self)@
            }),
            round.queue() == old(self)@.tasks,
            round.kept() == Seq::<T>::empty(),
    {
        self.clock = self.clock.saturating_add(elapsed_ms);
        let mut queue = Vec::new();
        std::mem::swap(&mut queue, &mut self.tasks);
        Round { queue, kept: Vec::new() }
    }

    /// Ends a round. The pending tasks, then any left unpolled, then the
    /// tasks spawned meanwhile become the task list. If tasks were spawned,
    /// another round over that list follows; otherwise the tick ends and
    /// reports whether any task is left.
    pub fn finish_round(&mut self, round: Round<T>) -> (step: Step<T>)
        ensures
            ({
                let next = round.kept() + round.queue() + old(self)@.spawned;
                &&& final(self)@.spawned == Seq::<T>::empty()
                &&& final(self)@.clock == old(self)@.clock
                &&& final(self)@.inbox == old(self)@.inbox
                &&& old(self)@.spawned.len() > 0 ==> {
                    &&& final(self)@.tasks == Seq::<T>::empty()
                    &&& (step matches Step::Again(r) && r.queue() == next && r.kept() == Seq::<T>::empty())
                }
                &&& old(self)@.spawned.len() == 0 ==> {
                    &&& final(self)@.tasks == next
                    &&& step == Step::<T>::Done(next.len() > 0)
                }
            }),
    {
        let Round { queue, kept } = round;
        let mut tasks = kept;
        let mut rest = queue;
        tasks.append(&mut rest);
        let mut spawned = Vec::new();
        std::mem::swap(&mut spawned, &mut self.spawned);
        let admitted = spawned.len() > 0;
        tasks.append(&mut spawned);
        assert(tasks@ =~= round.kept() + round.queue() + old(self)@.spawned);
        if admitted {
            self.tasks = Vec::new();
            Step::Again(Round { queue: tasks, kept: Vec::new() })
        } else {
            let more = tasks.len() > 0;
            self.tasks = tasks;
            Step::Done(more)
        }
    }
}

} // verus!
