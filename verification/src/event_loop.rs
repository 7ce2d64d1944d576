use std::collections::HashMap;
use vstd::prelude::*;

verus! {

broadcast use vstd::std_specs::hash::group_hash_axioms;

/// The token under which the loop's own message channel, and every source
/// that is registered without anybody waiting on it, is known to the poller.
pub const CHANNEL_TOKEN: usize = 0;

/// The abstract state of a [`Registry`]: the next token to hand out, and the
/// waiter parked under each token that has one.
pub struct RegistryView<C> {
    pub next: int,
    pub waiters: Map<usize, C>,
}

impl<C> RegistryView<C> {
    /// Token 0 is reserved for the channel, every parked token was handed
    /// out before (it lies below `next`), and no waiter sits under token 0.
    pub open spec fn wf(self) -> bool {
        &&& 1 <= self.next
        &&& forall|t: usize| #[trigger] self.waiters.contains_key(t) ==> 1 <= t < self.next
    }

    /// State after handing out one token: `next` moves on by one.
    pub open spec fn allocated(self) -> RegistryView<C> {
        RegistryView { next: self.next + 1, waiters: self.waiters }
    }

    /// State after parking `waiter` under `token`.
    pub open spec fn parked(self, token: usize, waiter: C) -> RegistryView<C> {
        RegistryView { next: self.next, waiters: self.waiters.insert(token, waiter) }
    }

    /// What the loop does with a readiness event for `token`.
    pub open spec fn dispatch_result(self, token: usize) -> Dispatch<C> {
        if token == CHANNEL_TOKEN {
            Dispatch::Drain
        } else if self.waiters.contains_key(token) {
            Dispatch::Wake(self.waiters[token])
        } else {
            Dispatch::Stale
        }
    }

    /// State after a readiness event for `token`: a waiter under that token
    /// leaves the table, everything else stays.
    pub open spec fn dispatched(self, token: usize) -> RegistryView<C> {
        if token == CHANNEL_TOKEN {
            self
        } else {
            RegistryView { next: self.next, waiters: self.waiters.remove(token) }
        }
    }
}

/// One operation on the token table, as the event loop performs them.
pub enum LoopOp<C> {
    /// Hand out a fresh token.
    Allocate,
    /// Park a waiter under a token.
    Park(usize, C),
    /// Handle a readiness event for a token.
    Event(usize),
}

impl<C> RegistryView<C> {
    /// State after one operation.
    pub open spec fn step(self, op: LoopOp<C>) -> RegistryView<C> {
        match op {
            LoopOp::Allocate => self.allocated(),
            LoopOp::Park(t, c) => self.parked(t, c),
            LoopOp::Event(t) => self.dispatched(t),
        }
    }

    /// Whether an operation is one the table accepts in this state: a
    /// waiter is parked only under a token handed out before that has no
    /// waiter yet.
    pub open spec fn accepts(self, op: LoopOp<C>) -> bool {
        match op {
            LoopOp::Allocate => true,
            LoopOp::Park(t, c) => 1 <= t < self.next && !self.waiters.contains_key(t),
            LoopOp::Event(t) => true,
        }
    }

    /// State after a sequence of operations.
    pub open spec fn run(self, ops: Seq<LoopOp<C>>) -> RegistryView<C>
        decreases ops.len(),
    {
        if ops.len() == 0 {
            self
        } else {
            self.step(ops[0]).run(ops.drop_first())
        }
    }

    /// Whether every operation of the sequence is accepted where it is applied.
    pub open spec fn accepts_all(self, ops: Seq<LoopOp<C>>) -> bool
        decreases ops.len(),
    {
        ops.len() == 0 || (self.accepts(ops[0]) && self.step(ops[0]).accepts_all(ops.drop_first()))
    }

    /// The tokens handed out by the `Allocate` operations of a sequence, in order.
    pub open spec fn handed_out(self, ops: Seq<LoopOp<C>>) -> Seq<int>
        decreases ops.len(),
    {
        if ops.len() == 0 {
            Seq::empty()
        } else {
            let rest = self.step(ops[0]).handed_out(ops.drop_first());
            if ops[0] is Allocate {
                seq![self.next].add(rest)
            } else {
                rest
            }
        }
    }
}

/// What the loop must do with one readiness event.
#[derive(Debug)]
pub enum Dispatch<C> {
    /// The event is for the message channel: drain it and handle each message.
    Drain,
    /// The event woke this waiter, which has left the table: complete it.
    Wake(C),
    /// Nobody waits under this token any more: ignore the event.
    Stale,
}

/// The token table of the event loop: hands out fresh tokens and keeps, for
/// each token that somebody waits on, the waiter to complete when the
/// poller reports that token ready.
pub struct Registry<C> {
    next: usize,
    done: HashMap<usize, C>,
}

impl<C> View for Registry<C> {
    type V = RegistryView<C>;

    closed spec fn view(&self) -> RegistryView<C> {
        RegistryView { next: self.next as int, waiters: self.done@ }
    }
}

impl<C> Registry<C> {
    /// An empty table whose first token is 1 (token 0 belongs to the channel).
    pub fn new() -> (r: Registry<C>)
        ensures
            r@.wf(),
            r@.next == 1,
            r@.waiters == Map::<usize, C>::empty(),
    {
        Registry { next: 1, done: HashMap::new() }
    }

    /// The token that the next call of [`Registry::allocate`] hands out.
    pub fn next_token(&self) -> (t: usize)
        ensures
            t == self@.next,
    {
        self.next
    }

    /// Whether a waiter is parked under `token`.
    pub fn is_waiting(&self, token: usize) -> (b: bool)
        ensures
            b == self@.waiters.contains_key(token),
    {
        self.done.contains_key(&token)
    }

    /// Hands out a fresh token: the current `next`, which then moves on.
    pub fn allocate(&mut self) -> (t: usize)
        requires
            old(self)@.wf(),
            old(self)@.next < usize::MAX,
        ensures
            t == old(self)@.next,
            final(self)@ == old(self)@.allocated(),
            final(self)@.wf(),
            final(self)@.next == t + 1,
            final(self)@.waiters == old(self)@.waiters,
            t != CHANNEL_TOKEN,
    {
        let t = self.next;
        self.next = self.next + 1;
        t
    }

    /// Parks `waiter` under `token`, a token handed out before that has no
    /// waiter yet, so nobody is displaced: what comes back is always `None`.
    pub fn park(&mut self, token: usize, waiter: C) -> (prev: Option<C>)
        requires
            old(self)@.wf(),
            1 <= token < old(self)@.next,
            !old(self)@.waiters.contains_key(token),
        ensures
            final(self)@ == old(self)@.parked(token, waiter),
            final(self)@.wf(),
            prev is None,
            final(self)@.next == old(self)@.next,
            final(self)@.waiters.contains_key(token),
            final(self)@.waiters[token] == waiter,
            forall|t: usize| t != token ==> #[trigger] final(self)@.waiters.contains_key(t) == old(self)@.waiters.contains_key(t),
            forall|t: usize| t != token && old(self)@.waiters.contains_key(t) ==> #[trigger] final(self)@.waiters[t] == old(self)@.waiters[t],
    {
        let prev = self.done.insert(token, waiter);
        proof {
            assert(self@.waiters == old(self)@.waiters.insert(token, waiter));
        }
        prev
    }

    /// Settles a wait request once its source was (re)registered under
    /// `token`: on success the waiter is parked; on failure nothing is
    /// parked and the waiter is handed back with the error, to be failed.
    pub fn settle<E>(&mut self, token: usize, waiter: C, registered: Result<(), E>) -> (r: Option<(C, E)>)
        requires
            old(self)@.wf(),
            1 <= token < old(self)@.next,
            !old(self)@.waiters.contains_key(token),
        ensures
            final(self)@.wf(),
            match registered {
                Ok(()) => r is None && final(self)@ == old(self)@.parked(token, waiter),
                Err(e) => r == Some((waiter, e)) && final(self)@ == old(self)@,
            },
            final(self)@.next == old(self)@.next,
            registered is Ok ==> final(self)@.waiters == old(self)@.waiters.insert(token, waiter),
            registered is Err ==> final(self)@.waiters == old(self)@.waiters,
    {
        match registered {
            Ok(()) => {
                let _ = self.park(token, waiter);
                None
            },
            Err(e) => Some((waiter, e)),
        }
    }

    /// Handles one readiness event reported for `token`.
    pub fn dispatch(&mut self, token: usize) -> (d: Dispatch<C>)
        requires
            old(self)@.wf(),
        ensures
            d == old(self)@.dispatch_result(token),
            final(self)@ == old(self)@.dispatched(token),
            final(self)@.wf(),
            final(self)@.next == old(self)@.next,
            token == CHANNEL_TOKEN ==> d is Drain && final(self)@.waiters == old(self)@.waiters,
            token != CHANNEL_TOKEN && old(self)@.waiters.contains_key(token) ==> d == Dispatch::Wake(
                old(self)@.waiters[token],
            ) && final(self)@.waiters == old(self)@.waiters.remove(token),
            token != CHANNEL_TOKEN && !old(self)@.waiters.contains_key(token) ==> d is Stale
                && final(self)@.waiters == old(self)@.waiters,
    {
        if token == CHANNEL_TOKEN {
            return Dispatch::Drain;
        }
        match self.done.remove(&token) {
            Some(c) => Dispatch::Wake(c),
            None => Dispatch::Stale,
        }
    }
}

/// Every operation keeps the table well formed: the channel token never has
/// a waiter, and every parked token was handed out before.
pub proof fn lemma_run_keeps_wf<C>(r: RegistryView<C>, ops: Seq<LoopOp<C>>)
    requires
        r.wf(),
        r.accepts_all(ops),
    ensures
        r.run(ops).wf(),
    decreases ops.len(),
{
    if ops.len() > 0 {
        let s = r.step(ops[0]);
        assert(s.wf());
        lemma_run_keeps_wf(s, ops.drop_first());
    }
}

/// The tokens handed out over any sequence of operations are pairwise
/// distinct: they strictly increase, none is the channel token, and each
/// lies below the table's `next` afterwards.
pub proof fn lemma_tokens_distinct<C>(r: RegistryView<C>, ops: Seq<LoopOp<C>>)
    requires
        r.wf(),
    ensures
        forall|i: int, j: int|
            0 <= i < j < r.handed_out(ops).len() ==> r.handed_out(ops)[i] < r.handed_out(ops)[j],
        forall|i: int|
            0 <= i < r.handed_out(ops).len() ==> CHANNEL_TOKEN < r.next <= #[trigger] r.handed_out(ops)[i]
                < r.run(ops).next,
        r.next <= r.run(ops).next,
{
    lemma_tokens_distinct_any(r, ops);
}

/// The same as [`lemma_tokens_distinct`] for any starting `next` of at least 1.
proof fn lemma_tokens_distinct_any<C>(r: RegistryView<C>, ops: Seq<LoopOp<C>>)
    requires
        1 <= r.next,
    ensures
        forall|i: int, j: int|
            0 <= i < j < r.handed_out(ops).len() ==> r.handed_out(ops)[i] < r.handed_out(ops)[j],
        forall|i: int|
            0 <= i < r.handed_out(ops).len() ==> r.next <= #[trigger] r.handed_out(ops)[i] < r.run(ops).next,
        r.next <= r.run(ops).next,
    decreases ops.len(),
{
    if ops.len() > 0 {
        let s = r.step(ops[0]);
        lemma_tokens_distinct_any(s, ops.drop_first());
        let rest = s.handed_out(ops.drop_first());
        if ops[0] is Allocate {
            assert(r.handed_out(ops) == seq![r.next].add(rest));
        } else {
            assert(r.handed_out(ops) == rest);
        }
    }
}

/// A token about to be handed out is never the channel token and has no
/// waiter yet, so parking a waiter under it displaces nobody.
pub proof fn lemma_fresh_token_unclaimed<C>(r: RegistryView<C>, token: usize)
    requires
        r.wf(),
        token == r.next,
    ensures
        token != CHANNEL_TOKEN,
        !r.waiters.contains_key(token),
        !r.allocated().waiters.contains_key(token),
{
}

/// Whether a sequence of operations holds no event for `token`.
pub open spec fn no_event_for<C>(ops: Seq<LoopOp<C>>, token: usize) -> bool {
    forall|i: int| 0 <= i < ops.len() ==> #[trigger] ops[i] != LoopOp::<C>::Event(token)
}

/// Until an event for its token comes, a parked waiter stays parked under
/// that token, whatever else the table accepts in between: events for
/// other tokens do not wake it, and no other waiter can be parked over it.
pub proof fn lemma_waiter_stays<C>(r: RegistryView<C>, token: usize, waiter: C, ops: Seq<LoopOp<C>>)
    requires
        token != CHANNEL_TOKEN,
        r.waiters.contains_key(token),
        r.waiters[token] == waiter,
        r.accepts_all(ops),
        no_event_for(ops, token),
    ensures
        r.run(ops).waiters.contains_key(token),
        r.run(ops).waiters[token] == waiter,
    decreases ops.len(),
{
    if ops.len() > 0 {
        let op = ops[0];
        assert(op != LoopOp::<C>::Event(token));
        let s = r.step(op);
        assert(s.waiters.contains_key(token) && s.waiters[token] == waiter);
        assert forall|i: int| 0 <= i < ops.drop_first().len() implies #[trigger] ops.drop_first()[i]
            != LoopOp::<C>::Event(token) by {
            assert(ops.drop_first()[i] == ops[i + 1]);
        }
        lemma_waiter_stays(s, token, waiter, ops.drop_first());
    }
}

/// A waiter parked under a fresh token is what the next event for that
/// token wakes, whatever the table accepted in between; and after that
/// wake-up the token has no waiter left, so a waiter is woken exactly once.
pub proof fn lemma_parked_waiter_woken_once<C>(r: RegistryView<C>, token: usize, waiter: C, ops: Seq<LoopOp<C>>)
    requires
        r.wf(),
        1 <= token < r.next,
        !r.waiters.contains_key(token),
        r.parked(token, waiter).accepts_all(ops),
        no_event_for(ops, token),
    ensures
        r.parked(token, waiter).run(ops).dispatch_result(token) == Dispatch::Wake(waiter),
        r.parked(token, waiter).run(ops).dispatched(token).dispatch_result(token) is Stale,
{
    lemma_waiter_stays(r.parked(token, waiter), token, waiter, ops);
}

/// An event for the channel token drains the channel and leaves the table
/// as it was.
pub proof fn lemma_channel_event_keeps_table<C>(r: RegistryView<C>)
    requires
        r.wf(),
    ensures
        r.dispatch_result(CHANNEL_TOKEN) is Drain,
        r.dispatched(CHANNEL_TOKEN) == r,
{
}

} // verus!
