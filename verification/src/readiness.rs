use crate::event_loop::{Registry, CHANNEL_TOKEN};
use vstd::prelude::*;

verus! {

/// The readiness a source is registered for.
#[derive(Debug, Clone, Copy, PartialEq, Eq, Structural)]
pub enum Interest {
    /// Wake when the source can be read (or a connection accepted).
    Readable,
    /// Wake when the source can be written (or a connection is established).
    Writable,
    /// Known to the poller, but never woken.
    Nothing,
}

/// How the poller reports readiness for a registration.
#[derive(Debug, Clone, Copy, PartialEq, Eq, Structural)]
pub enum Trigger {
    /// Report each change of readiness, for as long as the source stays registered.
    Edge,
    /// Report one change of readiness, then disarm until registered again.
    EdgeOneshot,
    /// Report nothing.
    Silent,
}

/// What to register a source with: the token the poller reports it under,
/// the readiness asked for and how it is reported.
#[derive(Debug, Clone, Copy, PartialEq, Eq, Structural)]
pub struct Registration {
    pub token: usize,
    pub interest: Interest,
    pub trigger: Trigger,
}

/// What one non-blocking attempt gave.
#[derive(Debug)]
pub enum Attempt<T, E> {
    /// It completed with this value.
    Done(T),
    /// It would have blocked: nothing happened.
    WouldBlock,
    /// It failed with this error.
    Failed(E),
}

/// What to do after a non-blocking attempt.
#[derive(Debug)]
pub enum Next<T, R, E> {
    /// The operation is complete with this value.
    Finished(T),
    /// The operation failed with this error.
    Failed(E),
    /// Ask the loop to wake us on this readiness, then try again with this state.
    Park(Interest, R),
}

/// Why a message could not be sent to the loop.
pub enum SendFailure<E> {
    /// Waking the loop failed with this error.
    Io(E),
    /// The loop is gone.
    Disconnected,
}

/// Why the future that the loop awaited did not give a value.
pub enum AwaitFailure<E, P> {
    /// It failed with this error.
    Other(E),
    /// It panicked with this payload.
    Panicked(P),
    /// Its producer went away.
    Canceled,
}

/// A request sent to the loop by a source that needs it.
pub enum Message<C, Src> {
    /// Wake `C` when the source becomes ready as asked.
    Wait(C, Interest, Src),
    /// Make the source known to the poller.
    Register(Src),
}

/// What the loop must do with the poller for one message.
pub enum Plan<C, Src> {
    /// Re-register the source with this registration; then settle the
    /// waiter under its token with the outcome.
    Reregister(C, Src, Registration),
    /// Register the source with this registration.
    Register(Src, Registration),
}

/// How the loop handles one message: a wait takes a fresh token and
/// re-registers its source for the readiness asked for, reported once; a
/// registration makes the source known without waking anybody.
pub fn plan_message<C, Src>(table: &mut Registry<C>, msg: Message<C, Src>) -> (p: Plan<C, Src>)
    requires
        old(table)@.wf(),
        msg is Wait ==> old(table)@.next < usize::MAX,
    ensures
        final(table)@.wf(),
        match msg {
            Message::Wait(c, interest, src) => {
                &&& p == Plan::Reregister(
                    c,
                    src,
                    Registration { token: old(table)@.next as usize, interest, trigger: Trigger::EdgeOneshot },
                )
                &&& final(table)@ == old(table)@.allocated()
                &&& final(table)@.next == old(table)@.next + 1
                &&& final(table)@.waiters == old(table)@.waiters
                &&& !final(table)@.waiters.contains_key(old(table)@.next as usize)
            },
            Message::Register(src) => {
                &&& p == Plan::<C, Src>::Register(
                    src,
                    Registration { token: CHANNEL_TOKEN, interest: Interest::Nothing, trigger: Trigger::Silent },
                )
                &&& final(table)@ == old(table)@
            },
        },
{
    match msg {
        Message::Wait(c, interest, src) => {
            let registration = wait_registration(table, interest);
            Plan::Reregister(c, src, registration)
        },
        Message::Register(src) => Plan::Register(src, passive_registration()),
    }
}

/// How the loop's message channel is registered: under the channel token,
/// for readability, edge triggered and left armed.
pub fn channel_registration() -> (r: Registration)
    ensures
        r.token == CHANNEL_TOKEN,
        r.interest is Readable,
        r.trigger is Edge,
{
    Registration { token: CHANNEL_TOKEN, interest: Interest::Readable, trigger: Trigger::Edge }
}

/// How a source that nobody waits on yet (a listener, an accepted
/// connection) is made known to the poller: under the channel token, asking
/// for nothing, reporting nothing; later waits re-register it.
pub fn passive_registration() -> (r: Registration)
    ensures
        r.token == CHANNEL_TOKEN,
        r.interest is Nothing,
        r.trigger is Silent,
{
    Registration { token: CHANNEL_TOKEN, interest: Interest::Nothing, trigger: Trigger::Silent }
}

/// How a source that somebody waits on is (re)registered: under a fresh
/// token, for the readiness asked for, reported once.
pub fn wait_registration<C>(table: &mut Registry<C>, interest: Interest) -> (r: Registration)
    requires
        old(table)@.wf(),
        old(table)@.next < usize::MAX,
    ensures
        r.token == old(table)@.next,
        r.interest == interest,
        r.trigger is EdgeOneshot,
        final(table)@ == old(table)@.allocated(),
        final(table)@.next == old(table)@.next + 1,
        final(table)@.waiters == old(table)@.waiters,
        final(table)@.wf(),
        !final(table)@.waiters.contains_key(r.token),
{
    let token = table.allocate();
    Registration { token, interest, trigger: Trigger::EdgeOneshot }
}

/// After reading into `room`, the spare room of the buffer `into`: a read of
/// `n` bytes gives back `into` followed by the first `n` bytes of `room`
/// (`n == 0` at end of stream); a read that would block waits for
/// readability and tries again with `into` as it was; an error fails.
pub fn read_next<E>(into: Vec<u8>, room: &[u8], attempt: Attempt<usize, E>) -> (r: Next<Vec<u8>, Vec<u8>, E>)
    requires
        attempt matches Attempt::Done(n) ==> n <= room.len(),
    ensures
        match attempt {
            Attempt::Done(n) => r matches Next::Finished(v) && v@ == into@ + room@.subrange(0, n as int),
            Attempt::WouldBlock => r matches Next::Park(Interest::Readable, v) && v@ == into@,
            Attempt::Failed(e) => r == Next::<Vec<u8>, Vec<u8>, E>::Failed(e),
        },
{
    match attempt {
        Attempt::Done(n) => {
            let mut out = into;
            let mut i: usize = 0;
            while i < n
                invariant
                    n <= room.len(),
                    i <= n,
                    out@ == into@ + room@.subrange(0, i as int),
                decreases n - i,
            {
                out.push(room[i]);
                i = i + 1;
                assert(room@.subrange(0, i as int) == room@.subrange(0, i - 1).push(room@[i - 1]));
            }
            Next::Finished(out)
        },
        Attempt::WouldBlock => Next::Park(Interest::Readable, into),
        Attempt::Failed(e) => Next::Failed(e),
    }
}

/// After writing the bytes of `data` from `offset` on: a write of `n` bytes
/// finishes with the new offset `offset + n` and the data; a write that
/// would block waits for writability and tries again from the same offset;
/// an error fails.
pub fn write_next<E>(offset: usize, data: Vec<u8>, attempt: Attempt<usize, E>) -> (r: Next<(usize, Vec<u8>), (usize, Vec<u8>), E>)
    requires
        offset <= data.len(),
        attempt matches Attempt::Done(n) ==> n <= data.len() - offset,
    ensures
        match attempt {
            Attempt::Done(n) => r matches Next::Finished((o, d)) && o == offset + n && d@ == data@,
            Attempt::WouldBlock => r matches Next::Park(Interest::Writable, (o, d)) && o == offset && d@ == data@,
            Attempt::Failed(e) => r == Next::<(usize, Vec<u8>), (usize, Vec<u8>), E>::Failed(e),
        },
{
    match attempt {
        Attempt::Done(n) => Next::Finished((offset + n, data)),
        Attempt::WouldBlock => Next::Park(Interest::Writable, (offset, data)),
        Attempt::Failed(e) => Next::Failed(e),
    }
}

/// After trying to accept a connection: an accepted connection `s` from
/// address `a` finishes with the message that registers `s` with the loop,
/// to be sent before the connection is handed out (so the loop knows the
/// source before any later wait on it), and the address; an accept that
/// would block waits for readability and tries again; an error fails.
pub fn accept_next<S, A, C, E>(attempt: Attempt<(S, A), E>) -> (r: Next<(Message<C, S>, A), (), E>)
    ensures
        match attempt {
            Attempt::Done((s, a)) => r == Next::<(Message<C, S>, A), (), E>::Finished((Message::Register(s), a)),
            Attempt::WouldBlock => r == Next::<(Message<C, S>, A), (), E>::Park(Interest::Readable, ()),
            Attempt::Failed(e) => r == Next::<(Message<C, S>, A), (), E>::Failed(e),
        },
{
    match attempt {
        Attempt::Done((s, a)) => Next::Finished((Message::Register(s), a)),
        Attempt::WouldBlock => Next::Park(Interest::Readable, ()),
        Attempt::Failed(e) => Next::Failed(e),
    }
}

/// The error that a failed send to the loop becomes. A loop that is gone is
/// a misuse with no such error.
pub fn send_error<E>(failure: SendFailure<E>) -> (e: E)
    requires
        failure is Io,
    ensures
        e == failure->Io_0,
{
    match failure {
        SendFailure::Io(e) => e,
        SendFailure::Disconnected => {
            vstd::pervasive::unreached()
        },
    }
}

/// What awaiting a future gives its caller: its value, or the error it
/// failed with. A panic or a cancellation is no such outcome.
pub fn await_outcome<T, E, P>(r: Result<T, AwaitFailure<E, P>>) -> (o: Result<T, E>)
    requires
        r matches Err(f) ==> f is Other,
    ensures
        match r {
            Ok(v) => o == Ok::<T, E>(v),
            Err(f) => o == Err::<T, E>(f->Other_0),
        },
{
    match r {
        Ok(v) => Ok(v),
        Err(AwaitFailure::Other(e)) => Err(e),
        Err(_) => {
            vstd::pervasive::unreached()
        },
    }
}

} // verus!
