use crate::poll::Poll;
use vstd::prelude::*;

verus! {

/// Where a fold stands between two outcomes.
#[derive(Debug)]
pub enum FoldState<T, Fut> {
    /// The fold has finished (or is in the middle of handing an item to the
    /// folding function); polling it now is a misuse.
    Empty,
    /// Ready to take the next item of the stream; holds the accumulator.
    Ready(T),
    /// Waiting on the future that the folding function gave for the last item.
    Processing(Fut),
}

/// One outcome that the driver of a fold hands to the state machine.
pub enum FoldEvent<T, I, E, Fut> {
    /// What polling the stream gave (while the fold was `Ready`).
    Streamed(Poll<Option<I>, E>),
    /// The future that the folding function gave for the last item.
    Started(Fut),
    /// What polling the pending future gave (while the fold was `Processing`).
    Resolved(Poll<T, E>),
}

/// What the driver of a fold must do next.
#[derive(Debug)]
pub enum FoldNext<T, I, E> {
    /// Apply the folding function to this accumulator and item, turn the
    /// result into a future and hand it back as `Started`.
    Apply(T, I),
    /// Poll again: the stream if the fold is `Ready`, the future if it is `Processing`.
    Again,
    /// Return this outcome to the caller of `poll`.
    Return(Poll<T, E>),
}

/// Whether the state machine takes `ev` in state `st`: a stream outcome
/// only while `Ready`, a started future only right after an `Apply`
/// (state `Empty`), a future outcome only while `Processing`.
pub open spec fn fold_accepts<T, I, E, Fut>(st: FoldState<T, Fut>, ev: FoldEvent<T, I, E, Fut>) -> bool {
    match ev {
        FoldEvent::Streamed(_) => st is Ready,
        FoldEvent::Started(_) => st is Empty,
        FoldEvent::Resolved(_) => st is Processing,
    }
}

/// The transition of the fold: next state and what the driver must do.
pub open spec fn fold_step<T, I, E, Fut>(st: FoldState<T, Fut>, ev: FoldEvent<T, I, E, Fut>) -> (
    FoldState<T, Fut>,
    FoldNext<T, I, E>,
) {
    match ev {
        FoldEvent::Streamed(r) => {
            let acc = st->Ready_0;
            match r {
                Poll::Ready(Some(item)) => (FoldState::Empty, FoldNext::Apply(acc, item)),
                Poll::Ready(None) => (FoldState::Empty, FoldNext::Return(Poll::Ready(acc))),
                Poll::Error(e) => (FoldState::Empty, FoldNext::Return(Poll::Error(e))),
                Poll::NotReady => (FoldState::Ready(acc), FoldNext::Return(Poll::NotReady)),
            }
        },
        FoldEvent::Started(fut) => (FoldState::Processing(fut), FoldNext::Again),
        FoldEvent::Resolved(r) => {
            let fut = st->Processing_0;
            match r {
                Poll::Ready(v) => (FoldState::Ready(v), FoldNext::Again),
                Poll::Error(e) => (FoldState::Empty, FoldNext::Return(Poll::Error(e))),
                Poll::NotReady => (FoldState::Processing(fut), FoldNext::Return(Poll::NotReady)),
            }
        },
    }
}

/// A future that folds all the items of a stream into one value: each item
/// is handed, with the accumulator, to the folding function `f`, whose
/// future gives the next accumulator; when the stream ends, the fold
/// resolves to the last accumulator.
pub struct Fold<S, F, Fut, T> {
    /// The stream whose items are folded.
    pub stream: S,
    /// The folding function.
    pub f: F,
    /// Where the fold stands.
    pub state: FoldState<T, Fut>,
}

/// A fold of the stream `s` with the function `f`, starting from `t`.
pub fn new<S, F, Fut, T>(s: S, f: F, t: T) -> (r: Fold<S, F, Fut, T>)
    ensures
        r.stream == s,
        r.f == f,
        r.state == FoldState::<T, Fut>::Ready(t),
{
    Fold { stream: s, f: f, state: FoldState::Ready(t) }
}

/// What scheduling a fold must schedule.
#[derive(Debug, Clone, Copy, PartialEq, Eq, Structural)]
pub enum ScheduleTarget {
    /// The stream, while the fold waits for its next item.
    Stream,
    /// The pending future, while the fold waits for it to resolve.
    Future,
}

impl<S, F, Fut, T> Fold<S, F, Fut, T> {
    /// What to schedule: the stream while the fold is `Ready`, the pending
    /// future while it is `Processing`. A spent fold has nothing to schedule.
    pub fn schedule_target(&self) -> (t: ScheduleTarget)
        requires
            !(self.state is Empty),
        ensures
            self.state is Ready ==> t == ScheduleTarget::Stream,
            self.state is Processing ==> t == ScheduleTarget::Future,
    {
        match self.state {
            FoldState::Ready(_) => ScheduleTarget::Stream,
            FoldState::Processing(_) => ScheduleTarget::Future,
            FoldState::Empty => vstd::pervasive::unreached(),
        }
    }

    /// Takes one outcome in and says what the driver must do next.
    pub fn feed<I, E>(&mut self, ev: FoldEvent<T, I, E, Fut>) -> (next: FoldNext<T, I, E>)
        requires
            fold_accepts(old(self).state, ev),
        ensures
            (final(self).state, next) == fold_step(old(self).state, ev),
            final(self).stream == old(self).stream,
            final(self).f == old(self).f,
            // stream outcomes, while the fold is ready with accumulator `acc`
            forall|acc: T, item: I|
                old(self).state == FoldState::<T, Fut>::Ready(acc) && ev == FoldEvent::<T, I, E, Fut>::Streamed(
                    Poll::Ready(Some(item)),
                ) ==> next == FoldNext::<T, I, E>::Apply(acc, item) && final(self).state is Empty,
            forall|acc: T|
                old(self).state == FoldState::<T, Fut>::Ready(acc) && ev == FoldEvent::<T, I, E, Fut>::Streamed(
                    Poll::Ready(None),
                ) ==> next == FoldNext::<T, I, E>::Return(Poll::Ready(acc)) && final(self).state is Empty,
            forall|acc: T, e: E|
                old(self).state == FoldState::<T, Fut>::Ready(acc) && ev == FoldEvent::<T, I, E, Fut>::Streamed(
                    Poll::Error(e),
                ) ==> next == FoldNext::<T, I, E>::Return(Poll::Error(e)) && final(self).state is Empty,
            ev == FoldEvent::<T, I, E, Fut>::Streamed(Poll::NotReady) ==> next == FoldNext::<T, I, E>::Return(
                Poll::NotReady,
            ) && final(self).state == old(self).state,
            // a started future
            forall|fut: Fut|
                ev == FoldEvent::<T, I, E, Fut>::Started(fut) ==> next == FoldNext::<T, I, E>::Again
                    && final(self).state == FoldState::<T, Fut>::Processing(fut),
            // outcomes of the pending future
            forall|v: T|
                ev == FoldEvent::<T, I, E, Fut>::Resolved(Poll::Ready(v)) ==> next == FoldNext::<T, I, E>::Again
                    && final(self).state == FoldState::<T, Fut>::Ready(v),
            forall|e: E|
                ev == FoldEvent::<T, I, E, Fut>::Resolved(Poll::Error(e)) ==> next == FoldNext::<T, I, E>::Return(
                    Poll::Error(e),
                ) && final(self).state is Empty,
            ev == FoldEvent::<T, I, E, Fut>::Resolved(Poll::NotReady) ==> next == FoldNext::<T, I, E>::Return(
                Poll::NotReady,
            ) && final(self).state == old(self).state,
    {
        match ev {
            FoldEvent::Streamed(r) => {
                let mut st = FoldState::Empty;
                std::mem::swap(&mut st, &mut self.state);
                let acc = match st {
                    FoldState::Ready(acc) => acc,
                    _ => vstd::pervasive::unreached(),
                };
                match r {
                    Poll::Ready(Some(item)) => FoldNext::Apply(acc, item),
                    Poll::Ready(None) => FoldNext::Return(Poll::Ready(acc)),
                    Poll::Error(e) => FoldNext::Return(Poll::Error(e)),
                    Poll::NotReady => {
                        self.state = FoldState::Ready(acc);
                        FoldNext::Return(Poll::NotReady)
                    },
                }
            },
            FoldEvent::Started(fut) => {
                self.state = FoldState::Processing(fut);
                FoldNext::Again
            },
            FoldEvent::Resolved(r) => match r {
                Poll::Ready(v) => {
                    self.state = FoldState::Ready(v);
                    FoldNext::Again
                },
                Poll::Error(e) => {
                    self.state = FoldState::Empty;
                    FoldNext::Return(Poll::Error(e))
                },
                Poll::NotReady => FoldNext::Return(Poll::NotReady),
            },
        }
    }
}

/// State and driver instructions after a sequence of outcomes.
pub open spec fn fold_run<T, I, E, Fut>(st: FoldState<T, Fut>, evs: Seq<FoldEvent<T, I, E, Fut>>) -> (
    FoldState<T, Fut>,
    Seq<FoldNext<T, I, E>>,
)
    decreases evs.len(),
{
    if evs.len() == 0 {
        (st, Seq::empty())
    } else {
        let (s1, n1) = fold_step(st, evs[0]);
        let (s2, ns) = fold_run(s1, evs.drop_first());
        (s2, seq![n1].add(ns))
    }
}

/// Whether the machine takes every outcome of the sequence where it comes.
pub open spec fn fold_run_accepts<T, I, E, Fut>(st: FoldState<T, Fut>, evs: Seq<FoldEvent<T, I, E, Fut>>) -> bool
    decreases evs.len(),
{
    evs.len() == 0 || (fold_accepts(st, evs[0]) && fold_run_accepts(fold_step(st, evs[0]).0, evs.drop_first()))
}

/// The outcomes of folding `items` when each future (`futs[k]`, given for
/// item `k`) resolves at once to `values[k]`.
pub open spec fn items_trace<T, I, E, Fut>(items: Seq<I>, futs: Seq<Fut>, values: Seq<T>) -> Seq<FoldEvent<T, I, E, Fut>>
    decreases items.len(),
{
    if items.len() == 0 || futs.len() == 0 || values.len() == 0 {
        Seq::empty()
    } else {
        seq![
            FoldEvent::Streamed(Poll::Ready(Some(items[0]))),
            FoldEvent::Started(futs[0]),
            FoldEvent::Resolved(Poll::Ready(values[0])),
        ].add(items_trace(items.drop_first(), futs.drop_first(), values.drop_first()))
    }
}

/// The instructions that such a trace produces, starting from accumulator
/// `acc`: the folding function is applied to `(acc, items[0])`, then to
/// `(values[0], items[1])`, and so on.
pub open spec fn items_instructions<T, I, E>(acc: T, items: Seq<I>, values: Seq<T>) -> Seq<FoldNext<T, I, E>>
    decreases items.len(),
{
    if items.len() == 0 || values.len() == 0 {
        Seq::empty()
    } else {
        seq![FoldNext::Apply(acc, items[0]), FoldNext::Again, FoldNext::Again].add(
            items_instructions(values[0], items.drop_first(), values.drop_first()),
        )
    }
}

/// The accumulator after folding: the value the last future resolved to,
/// or the initial one when there was no item.
pub open spec fn last_accumulator<T>(acc: T, values: Seq<T>) -> T {
    if values.len() == 0 {
        acc
    } else {
        values.last()
    }
}

/// Running two sequences one after the other is running their concatenation.
pub proof fn lemma_fold_run_append<T, I, E, Fut>(
    st: FoldState<T, Fut>,
    a: Seq<FoldEvent<T, I, E, Fut>>,
    b: Seq<FoldEvent<T, I, E, Fut>>,
)
    ensures
        fold_run(st, a.add(b)) == (fold_run(fold_run(st, a).0, b).0, fold_run(st, a).1.add(
            fold_run(fold_run(st, a).0, b).1,
        )),
        fold_run_accepts(st, a.add(b)) == (fold_run_accepts(st, a) && fold_run_accepts(
            fold_run(st, a).0,
            b,
        )),
    decreases a.len(),
{
    if a.len() == 0 {
        assert(a.add(b) =~= b);
    } else {
        let s1 = fold_step(st, a[0]).0;
        lemma_fold_run_append(s1, a.drop_first(), b);
        assert(a.add(b).drop_first() =~= a.drop_first().add(b));
        assert(a.add(b)[0] == a[0]);
        let n1 = fold_step(st, a[0]).1;
        let o_a = fold_run(s1, a.drop_first()).1;
        let o_b = fold_run(fold_run(s1, a.drop_first()).0, b).1;
        assert(seq![n1].add(o_a.add(o_b)) =~= seq![n1].add(o_a).add(o_b));
    }
}

/// Folding items whose futures resolve at once, from accumulator `acc`:
/// the machine takes every outcome, applies the folding function to each
/// accumulator and item in turn, and ends `Ready` with the last accumulator.
pub proof fn lemma_items_trace<T, I, E, Fut>(acc: T, items: Seq<I>, futs: Seq<Fut>, values: Seq<T>)
    requires
        items.len() == futs.len(),
        items.len() == values.len(),
    ensures
        fold_run_accepts(FoldState::<T, Fut>::Ready(acc), items_trace::<T, I, E, Fut>(items, futs, values)),
        fold_run(FoldState::<T, Fut>::Ready(acc), items_trace::<T, I, E, Fut>(items, futs, values)) == (
            FoldState::<T, Fut>::Ready(last_accumulator(acc, values)),
            items_instructions::<T, I, E>(acc, items, values),
        ),
    decreases items.len(),
{
    if items.len() > 0 {
        let head: Seq<FoldEvent<T, I, E, Fut>> = seq![
            FoldEvent::Streamed(Poll::Ready(Some(items[0]))),
            FoldEvent::Started(futs[0]),
            FoldEvent::Resolved(Poll::Ready(values[0])),
        ];
        let tail = items_trace::<T, I, E, Fut>(items.drop_first(), futs.drop_first(), values.drop_first());
        lemma_items_trace::<T, I, E, Fut>(values[0], items.drop_first(), futs.drop_first(), values.drop_first());
        lemma_fold_run_append(FoldState::<T, Fut>::Ready(acc), head, tail);
        let st = FoldState::<T, Fut>::Ready(acc);
        let h1 = head.drop_first();
        let h2 = h1.drop_first();
        assert(h2.drop_first().len() == 0);
        assert(head[0] == FoldEvent::<T, I, E, Fut>::Streamed(Poll::Ready(Some(items[0]))));
        assert(h1[0] == FoldEvent::<T, I, E, Fut>::Started(futs[0]));
        assert(h2[0] == FoldEvent::<T, I, E, Fut>::Resolved(Poll::Ready(values[0])));
        assert(fold_run_accepts(FoldState::<T, Fut>::Ready(values[0]), h2.drop_first()));
        assert(fold_run_accepts(FoldState::<T, Fut>::Processing(futs[0]), h2));
        assert(fold_run_accepts(FoldState::<T, Fut>::Empty, h1));
        assert(fold_run(FoldState::<T, Fut>::Ready(values[0]), h2.drop_first()).0 == FoldState::<T, Fut>::Ready(values[0]));
        assert(fold_run(FoldState::<T, Fut>::Processing(futs[0]), h2).0 == FoldState::<T, Fut>::Ready(values[0]));
        assert(fold_run(FoldState::<T, Fut>::Empty, h1).0 == FoldState::<T, Fut>::Ready(values[0]));
        assert(fold_run(st, head).0 == FoldState::<T, Fut>::Ready(values[0]));
        assert(fold_run(st, head).1 =~= seq![FoldNext::Apply(acc, items[0]), FoldNext::Again, FoldNext::Again]);
        assert(fold_run_accepts(st, head));
        if items.len() == 1 {
            assert(values.drop_first().len() == 0);
        } else {
            assert(values.drop_first().last() == values.last());
        }
    }
}

/// The fold's central promise: when the stream yields `items` and then
/// ends, and the future given for each item resolves at once to the next
/// value, the fold hands `(acc, items[0])`, `(values[0], items[1])`, ... to
/// the folding function, resolves to the last accumulator, and is then
/// spent.
pub proof fn lemma_fold_collects<T, I, E, Fut>(acc: T, items: Seq<I>, futs: Seq<Fut>, values: Seq<T>)
    requires
        items.len() == futs.len(),
        items.len() == values.len(),
    ensures
        ({
            let evs = items_trace::<T, I, E, Fut>(items, futs, values).push(FoldEvent::Streamed(Poll::Ready(None)));
            let (st, out) = fold_run(FoldState::<T, Fut>::Ready(acc), evs);
            &&& fold_run_accepts(FoldState::<T, Fut>::Ready(acc), evs)
            &&& st is Empty
            &&& out == items_instructions::<T, I, E>(acc, items, values).push(
                FoldNext::Return(Poll::Ready(last_accumulator(acc, values))),
            )
        }),
{
    let trace = items_trace::<T, I, E, Fut>(items, futs, values);
    let end: Seq<FoldEvent<T, I, E, Fut>> = seq![FoldEvent::Streamed(Poll::Ready(None))];
    lemma_items_trace::<T, I, E, Fut>(acc, items, futs, values);
    lemma_fold_run_append(FoldState::<T, Fut>::Ready(acc), trace, end);
    assert(trace.push(FoldEvent::Streamed(Poll::Ready(None))) =~= trace.add(end));
    let last = FoldState::<T, Fut>::Ready(last_accumulator(acc, values));
    assert(end.drop_first().len() == 0);
    assert(end[0] == FoldEvent::<T, I, E, Fut>::Streamed(Poll::Ready(None)));
    assert(fold_run_accepts(FoldState::<T, Fut>::Empty, end.drop_first()));
    assert(fold_run(FoldState::<T, Fut>::Empty, end.drop_first()).1.len() == 0);
    assert(fold_run_accepts(last, end));
    assert(fold_run(last, end).1 =~= seq![FoldNext::<T, I, E>::Return(Poll::Ready(last_accumulator(acc, values)))]);
    assert(items_instructions::<T, I, E>(acc, items, values).add(fold_run(last, end).1) =~= items_instructions::<T, I, E>(
        acc,
        items,
        values,
    ).push(FoldNext::Return(Poll::Ready(last_accumulator(acc, values)))));
}

/// `n` copies of `a`.
pub open spec fn pauses<A>(a: A, n: nat) -> Seq<A> {
    Seq::new(n, |_i: int| a)
}

/// The outcomes of folding `items` when the stream is not ready `sp[k]`
/// times before giving item `k`, and the future given for item `k`
/// (`futs[k]`) is not ready `fp[k]` times before it resolves to `values[k]`.
pub open spec fn paused_trace<T, I, E, Fut>(
    items: Seq<I>,
    futs: Seq<Fut>,
    values: Seq<T>,
    sp: Seq<nat>,
    fp: Seq<nat>,
) -> Seq<FoldEvent<T, I, E, Fut>>
    decreases items.len(),
{
    if items.len() == 0 || futs.len() == 0 || values.len() == 0 || sp.len() == 0 || fp.len() == 0 {
        Seq::empty()
    } else {
        pauses(FoldEvent::<T, I, E, Fut>::Streamed(Poll::NotReady), sp[0]).add(
            seq![FoldEvent::Streamed(Poll::Ready(Some(items[0]))), FoldEvent::Started(futs[0])],
        ).add(pauses(FoldEvent::<T, I, E, Fut>::Resolved(Poll::NotReady), fp[0])).add(
            seq![FoldEvent::Resolved(Poll::Ready(values[0]))],
        ).add(paused_trace(items.drop_first(), futs.drop_first(), values.drop_first(), sp.drop_first(), fp.drop_first()))
    }
}

/// The instructions such a trace produces from accumulator `acc`: each
/// pause makes `poll` return `NotReady`, and the folding function is
/// applied to `(acc, items[0])`, then `(values[0], items[1])`, and so on.
pub open spec fn paused_instructions<T, I, E>(acc: T, items: Seq<I>, values: Seq<T>, sp: Seq<nat>, fp: Seq<nat>) -> Seq<
    FoldNext<T, I, E>,
>
    decreases items.len(),
{
    if items.len() == 0 || values.len() == 0 || sp.len() == 0 || fp.len() == 0 {
        Seq::empty()
    } else {
        pauses(FoldNext::<T, I, E>::Return(Poll::NotReady), sp[0]).add(
            seq![FoldNext::Apply(acc, items[0]), FoldNext::Again],
        ).add(pauses(FoldNext::<T, I, E>::Return(Poll::NotReady), fp[0])).add(seq![FoldNext::Again]).add(
            paused_instructions(values[0], items.drop_first(), values.drop_first(), sp.drop_first(), fp.drop_first()),
        )
    }
}

/// Any number of `NotReady` outcomes in a row leave the state as it was,
/// each making `poll` return `NotReady`.
pub proof fn lemma_pauses_run<T, I, E, Fut>(st: FoldState<T, Fut>, ev: FoldEvent<T, I, E, Fut>, n: nat)
    requires
        fold_accepts(st, ev),
        ev == FoldEvent::<T, I, E, Fut>::Streamed(Poll::NotReady) || ev == FoldEvent::<T, I, E, Fut>::Resolved(Poll::NotReady),
    ensures
        fold_run(st, pauses(ev, n)) == (st, pauses(FoldNext::<T, I, E>::Return(Poll::NotReady), n)),
        fold_run_accepts(st, pauses(ev, n)),
    decreases n,
{
    if n == 0 {
        assert(pauses(FoldNext::<T, I, E>::Return(Poll::NotReady), n) =~= Seq::empty());
    } else {
        lemma_pauses_run(st, ev, (n - 1) as nat);
        lemma_not_ready_resumes(st, ev, pauses(ev, (n - 1) as nat));
        assert(seq![ev].add(pauses(ev, (n - 1) as nat)) =~= pauses(ev, n));
        assert(seq![FoldNext::<T, I, E>::Return(Poll::NotReady)].add(
            pauses(FoldNext::<T, I, E>::Return(Poll::NotReady), (n - 1) as nat),
        ) =~= pauses(FoldNext::<T, I, E>::Return(Poll::NotReady), n));
    }
}

/// Folding items with pauses anywhere, from accumulator `acc`: the machine
/// takes every outcome, gives the instructions of `paused_instructions`, and
/// ends `Ready` with the last accumulator.
pub proof fn lemma_paused_trace<T, I, E, Fut>(
    acc: T,
    items: Seq<I>,
    futs: Seq<Fut>,
    values: Seq<T>,
    sp: Seq<nat>,
    fp: Seq<nat>,
)
    requires
        items.len() == futs.len(),
        items.len() == values.len(),
        items.len() == sp.len(),
        items.len() == fp.len(),
    ensures
        fold_run_accepts(FoldState::<T, Fut>::Ready(acc), paused_trace::<T, I, E, Fut>(items, futs, values, sp, fp)),
        fold_run(FoldState::<T, Fut>::Ready(acc), paused_trace::<T, I, E, Fut>(items, futs, values, sp, fp)) == (
            FoldState::<T, Fut>::Ready(last_accumulator(acc, values)),
            paused_instructions::<T, I, E>(acc, items, values, sp, fp),
        ),
    decreases items.len(),
{
    if items.len() > 0 {
        let ready = FoldState::<T, Fut>::Ready(acc);
        let busy = FoldState::<T, Fut>::Processing(futs[0]);
        let next = FoldState::<T, Fut>::Ready(values[0]);
        let p1 = pauses(FoldEvent::<T, I, E, Fut>::Streamed(Poll::NotReady), sp[0]);
        let h1: Seq<FoldEvent<T, I, E, Fut>> = seq![FoldEvent::Streamed(Poll::Ready(Some(items[0]))), FoldEvent::Started(futs[0])];
        let p2 = pauses(FoldEvent::<T, I, E, Fut>::Resolved(Poll::NotReady), fp[0]);
        let h2: Seq<FoldEvent<T, I, E, Fut>> = seq![FoldEvent::Resolved(Poll::Ready(values[0]))];
        let tail = paused_trace::<T, I, E, Fut>(
            items.drop_first(),
            futs.drop_first(),
            values.drop_first(),
            sp.drop_first(),
            fp.drop_first(),
        );
        lemma_pauses_run(ready, FoldEvent::<T, I, E, Fut>::Streamed(Poll::NotReady), sp[0]);
        lemma_pauses_run(busy, FoldEvent::<T, I, E, Fut>::Resolved(Poll::NotReady), fp[0]);
        // the item and its future
        assert(h1[0] == FoldEvent::<T, I, E, Fut>::Streamed(Poll::Ready(Some(items[0]))));
        assert(h1.drop_first()[0] == FoldEvent::<T, I, E, Fut>::Started(futs[0]));
        assert(h1.drop_first().drop_first().len() == 0);
        assert(fold_run_accepts(busy, h1.drop_first().drop_first()));
        assert(fold_run(busy, h1.drop_first().drop_first()).1.len() == 0);
        assert(fold_run_accepts(FoldState::<T, Fut>::Empty, h1.drop_first()));
        assert(fold_run_accepts(ready, h1));
        assert(fold_run(FoldState::<T, Fut>::Empty, h1.drop_first()).0 == busy);
        assert(fold_run(FoldState::<T, Fut>::Empty, h1.drop_first()).1 =~= seq![FoldNext::<T, I, E>::Again]);
        assert(fold_run(ready, h1).0 == busy);
        assert(fold_run(ready, h1).1 =~= seq![FoldNext::<T, I, E>::Apply(acc, items[0]), FoldNext::Again]);
        // the resolution
        assert(h2[0] == FoldEvent::<T, I, E, Fut>::Resolved(Poll::Ready(values[0])));
        assert(h2.drop_first().len() == 0);
        assert(fold_run_accepts(next, h2.drop_first()));
        assert(fold_run(next, h2.drop_first()).1.len() == 0);
        assert(fold_run_accepts(busy, h2));
        assert(fold_run(busy, h2).0 == next);
        assert(fold_run(busy, h2).1 =~= seq![FoldNext::<T, I, E>::Again]);
        // put the pieces together
        lemma_fold_run_append(ready, p1, h1);
        lemma_fold_run_append(ready, p1.add(h1), p2);
        lemma_fold_run_append(ready, p1.add(h1).add(p2), h2);
        lemma_fold_run_append(ready, p1.add(h1).add(p2).add(h2), tail);
        lemma_paused_trace::<T, I, E, Fut>(
            values[0],
            items.drop_first(),
            futs.drop_first(),
            values.drop_first(),
            sp.drop_first(),
            fp.drop_first(),
        );
        if items.len() > 1 {
            assert(values.drop_first().last() == values.last());
        }
    }
}

/// Every `poll` outcome among such instructions is `NotReady`.
proof fn lemma_paused_instructions_not_ready<T, I, E>(acc: T, items: Seq<I>, values: Seq<T>, sp: Seq<nat>, fp: Seq<nat>)
    ensures
        forall|i: int|
            0 <= i < paused_instructions::<T, I, E>(acc, items, values, sp, fp).len() && (
            #[trigger] paused_instructions::<T, I, E>(acc, items, values, sp, fp)[i]) is Return
                ==> paused_instructions::<T, I, E>(acc, items, values, sp, fp)[i] == FoldNext::<T, I, E>::Return(Poll::NotReady),
    decreases items.len(),
{
    if items.len() > 0 && values.len() > 0 && sp.len() > 0 && fp.len() > 0 {
        lemma_paused_instructions_not_ready::<T, I, E>(
            values[0],
            items.drop_first(),
            values.drop_first(),
            sp.drop_first(),
            fp.drop_first(),
        );
    }
}

/// The fold's central promise with pauses anywhere: when the stream yields
/// `items` and then ends, being not ready `sp[k]` times before item `k` and
/// `end_pauses` times before its end, and the future given for item `k` is
/// not ready `fp[k]` times before resolving to `values[k]`, then the fold
/// takes every outcome, hands `(acc, items[0])`, `(values[0], items[1])`,
/// ... to the folding function once each and in order, every `poll` before
/// the last returns `NotReady`, the last resolves to the last accumulator,
/// and the fold is then spent.
pub proof fn lemma_fold_collects_with_pauses<T, I, E, Fut>(
    acc: T,
    items: Seq<I>,
    futs: Seq<Fut>,
    values: Seq<T>,
    sp: Seq<nat>,
    fp: Seq<nat>,
    end_pauses: nat,
)
    requires
        items.len() == futs.len(),
        items.len() == values.len(),
        items.len() == sp.len(),
        items.len() == fp.len(),
    ensures
        ({
            let evs = paused_trace::<T, I, E, Fut>(items, futs, values, sp, fp).add(
                pauses(FoldEvent::<T, I, E, Fut>::Streamed(Poll::NotReady), end_pauses),
            ).push(FoldEvent::Streamed(Poll::Ready(None)));
            let (st, out) = fold_run(FoldState::<T, Fut>::Ready(acc), evs);
            &&& fold_run_accepts(FoldState::<T, Fut>::Ready(acc), evs)
            &&& st is Empty
            &&& out == paused_instructions::<T, I, E>(acc, items, values, sp, fp).add(
                pauses(FoldNext::<T, I, E>::Return(Poll::NotReady), end_pauses),
            ).push(FoldNext::Return(Poll::Ready(last_accumulator(acc, values))))
            &&& out.last() == FoldNext::<T, I, E>::Return(Poll::Ready(last_accumulator(acc, values)))
            &&& forall|i: int|
                0 <= i < out.len() - 1 && (#[trigger] out[i]) is Return ==> out[i] == FoldNext::<T, I, E>::Return(
                    Poll::NotReady,
                )
        }),
{
    let trace = paused_trace::<T, I, E, Fut>(items, futs, values, sp, fp);
    let p = pauses(FoldEvent::<T, I, E, Fut>::Streamed(Poll::NotReady), end_pauses);
    let end: Seq<FoldEvent<T, I, E, Fut>> = seq![FoldEvent::Streamed(Poll::Ready(None))];
    let last = FoldState::<T, Fut>::Ready(last_accumulator(acc, values));
    let ins = paused_instructions::<T, I, E>(acc, items, values, sp, fp);
    let nr = pauses(FoldNext::<T, I, E>::Return(Poll::NotReady), end_pauses);
    let fin = FoldNext::<T, I, E>::Return(Poll::Ready(last_accumulator(acc, values)));
    lemma_paused_trace::<T, I, E, Fut>(acc, items, futs, values, sp, fp);
    lemma_pauses_run(last, FoldEvent::<T, I, E, Fut>::Streamed(Poll::NotReady), end_pauses);
    assert(end[0] == FoldEvent::<T, I, E, Fut>::Streamed(Poll::Ready(None)));
    assert(end.drop_first().len() == 0);
    assert(fold_run_accepts(FoldState::<T, Fut>::Empty, end.drop_first()));
    assert(fold_run(FoldState::<T, Fut>::Empty, end.drop_first()).1.len() == 0);
    assert(fold_run_accepts(last, end));
    assert(fold_run(last, end).1 =~= seq![fin]);
    lemma_fold_run_append(FoldState::<T, Fut>::Ready(acc), trace, p);
    lemma_fold_run_append(FoldState::<T, Fut>::Ready(acc), trace.add(p), end);
    assert(trace.add(p).push(FoldEvent::Streamed(Poll::Ready(None))) =~= trace.add(p).add(end));
    let out = ins.add(nr).push(fin);
    assert(ins.add(nr).add(seq![fin]) =~= out);
    lemma_paused_instructions_not_ready::<T, I, E>(acc, items, values, sp, fp);
    assert forall|i: int| 0 <= i < out.len() - 1 && (#[trigger] out[i]) is Return implies out[i]
        == FoldNext::<T, I, E>::Return(Poll::NotReady) by {
        if i < ins.len() {
            assert(out[i] == ins[i]);
        } else {
            assert(out[i] == nr[i - ins.len()]);
        }
    }
}

/// Errors end a fold: whatever the error type, an error from the stream
/// (while the fold is ready) or from the pending future (while it is
/// processing) is what `poll` returns, unchanged, and the fold is spent.
/// Neither is ever taken as the end of the stream, nor as a pause.
pub proof fn lemma_errors_end_fold<T, I, E, Fut>(st: FoldState<T, Fut>, e: E)
    ensures
        st is Ready ==> fold_step(st, FoldEvent::<T, I, E, Fut>::Streamed(Poll::Error(e))) == (
            FoldState::<T, Fut>::Empty,
            FoldNext::<T, I, E>::Return(Poll::Error(e)),
        ),
        st is Processing ==> fold_step(st, FoldEvent::<T, I, E, Fut>::Resolved(Poll::Error(e))) == (
            FoldState::<T, Fut>::Empty,
            FoldNext::<T, I, E>::Return(Poll::Error(e)),
        ),
{
}

/// The end of the stream resolves the fold to its accumulator, and a
/// resolved future becomes the new accumulator; an item is handed on with
/// the accumulator, never returned.
pub proof fn lemma_values_flow<T, I, E, Fut>(acc: T, item: I, v: T, fut: Fut)
    ensures
        fold_step(FoldState::<T, Fut>::Ready(acc), FoldEvent::<T, I, E, Fut>::Streamed(Poll::Ready(None))) == (
            FoldState::<T, Fut>::Empty,
            FoldNext::<T, I, E>::Return(Poll::Ready(acc)),
        ),
        fold_step(FoldState::<T, Fut>::Ready(acc), FoldEvent::<T, I, E, Fut>::Streamed(Poll::Ready(Some(item)))) == (
            FoldState::<T, Fut>::Empty,
            FoldNext::<T, I, E>::Apply(acc, item),
        ),
        fold_step(FoldState::<T, Fut>::Processing(fut), FoldEvent::<T, I, E, Fut>::Resolved(Poll::Ready(v))) == (
            FoldState::<T, Fut>::Ready(v),
            FoldNext::<T, I, E>::Again,
        ),
        fold_step(FoldState::<T, Fut>::Empty, FoldEvent::<T, I, E, Fut>::Started(fut)) == (
            FoldState::<T, Fut>::Processing(fut),
            FoldNext::<T, I, E>::Again,
        ),
{
}

/// A fold that is not ready keeps where it stands: a `NotReady` outcome
/// leaves the state as it was, so the next poll goes on from the same point
/// and every later outcome is taken exactly as without the interruption.
pub proof fn lemma_not_ready_resumes<T, I, E, Fut>(
    st: FoldState<T, Fut>,
    ev: FoldEvent<T, I, E, Fut>,
    rest: Seq<FoldEvent<T, I, E, Fut>>,
)
    requires
        fold_accepts(st, ev),
        ev == FoldEvent::<T, I, E, Fut>::Streamed(Poll::NotReady) || ev == FoldEvent::<T, I, E, Fut>::Resolved(Poll::NotReady),
    ensures
        fold_step(st, ev) == (st, FoldNext::<T, I, E>::Return(Poll::NotReady)),
        fold_run(st, seq![ev].add(rest)) == (fold_run(st, rest).0, seq![FoldNext::<T, I, E>::Return(Poll::NotReady)].add(
            fold_run(st, rest).1,
        )),
        fold_run_accepts(st, seq![ev].add(rest)) == fold_run_accepts(st, rest),
{
    assert(seq![ev].add(rest)[0] == ev);
    assert(seq![ev].add(rest).drop_first() =~= rest);
}

/// A driver that follows the instructions never feeds an outcome the
/// machine does not take: after `Apply` it must start a future (state
/// `Empty`); after `Again` the fold is `Ready` or `Processing` and is
/// polled; and once it returned a value or an error it is spent (`Empty`),
/// so that polling it again is refused.
pub proof fn lemma_fold_protocol<T, I, E, Fut>(st: FoldState<T, Fut>, ev: FoldEvent<T, I, E, Fut>)
    requires
        fold_accepts(st, ev),
    ensures
        fold_step(st, ev).1 is Apply ==> fold_step(st, ev).0 is Empty,
        fold_step(st, ev).1 is Again ==> (fold_step(st, ev).0 is Ready || fold_step(st, ev).0 is Processing),
        fold_step(st, ev).1 == FoldNext::<T, I, E>::Return(Poll::NotReady) ==> fold_step(st, ev).0 == st,
        (fold_step(st, ev).1 is Return && fold_step(st, ev).1 != FoldNext::<T, I, E>::Return(Poll::NotReady))
            ==> fold_step(st, ev).0 is Empty,
{
}

} // verus!
