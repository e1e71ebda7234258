//! The bounded result channel between workers and the caller, and the
//! pull-based stream that the caller reads.
//!
//! Workers push each unit's result, or the device error that stopped them, into
//! a channel of fixed capacity, so a slow reader holds them back. The reader
//! pulls with `next`: the first device error is reported once, and from then on,
//! or once every worker has gone and the channel is drained, `next` answers
//! `EndOfStream`.

use crossbeam_channel::{Receiver, RecvError, SendError, Sender};
use vstd::prelude::*;

verus! {

/// crossbeam's sending handle, carried opaquely.
#[verifier::external_type_specification]
#[verifier::external_body]
#[verifier::reject_recursive_types(T)]
pub struct ExSender<T>(Sender<T>);

/// crossbeam's receiving handle, carried opaquely.
#[verifier::external_type_specification]
#[verifier::external_body]
#[verifier::reject_recursive_types(T)]
pub struct ExReceiver<T>(Receiver<T>);

/// The error of a send to a channel whose receivers are gone.
#[verifier::external_type_specification]
#[verifier::external_body]
#[verifier::reject_recursive_types(T)]
pub struct ExSendError<T>(SendError<T>);

/// The error of a receive from an empty channel whose senders are gone.
#[verifier::external_type_specification]
#[verifier::external_body]
pub struct ExRecvError(RecvError);

/// Relies on `crossbeam_channel::bounded`: a channel that holds at most `cap`
/// messages. It panics when `cap` is too large for its slot indices; a bound
/// of 2^30 keeps clear of that with 64-bit indices, and on targets with 32-bit
/// indices no buffer of that many slots can be allocated anyway.
pub assume_specification<T>[ crossbeam_channel::bounded::<T> ](cap: usize) -> (Sender<T>, Receiver<T>)
    requires
        cap <= 0x4000_0000,
;

/// Relies on `Sender::send`: blocks while the channel is full, and fails once
/// every receiver is gone.
pub assume_specification<T>[ Sender::<T>::send ](s: &Sender<T>, msg: T) -> Result<(), SendError<T>>;

/// Relies on `Receiver::recv`: blocks until a message comes, and fails once the
/// channel is empty and every sender is gone.
pub assume_specification<T>[ Receiver::<T>::recv ](r: &Receiver<T>) -> Result<T, RecvError>;

/// Relies on `Sender`'s `Clone`: another handle to the same channel.
pub assume_specification<T>[ <Sender<T> as Clone>::clone ](s: &Sender<T>) -> Sender<T>;

/// The largest capacity a result channel may be given.
pub const MAX_QUEUE_CAPACITY: usize = 0x4000_0000;

/// A failure reported by the accelerator: building, enqueueing or reading a
/// kernel failed.
#[derive(Clone, Debug)]
pub struct DeviceError {
    pub message: String,
}

/// Why `next` gave no value.
#[derive(Clone, Debug)]
pub enum StreamError {
    /// Every worker has gone and all results were read, or an error was
    /// already reported: nothing more will come.
    EndOfStream,
    /// A worker's accelerator command failed.
    Device(DeviceError),
}

/// The reader has dropped the stream: producers stop.
#[derive(Clone, Copy, Debug, PartialEq, Eq)]
pub struct ChannelClosed;

/// What one pull does, from whether the stream had finished and what the
/// channel gave (`None` once it is empty and closed): whether the stream has
/// finished afterwards, and the answer.
pub open spec fn pull_step<T>(finished: bool, received: Option<Result<T, DeviceError>>) -> (
    bool,
    Result<T, StreamError>,
) {
    if finished {
        (true, Err(StreamError::EndOfStream))
    } else {
        match received {
            None => (true, Err(StreamError::EndOfStream)),
            Some(Ok(v)) => (false, Ok(v)),
            Some(Err(e)) => (true, Err(StreamError::Device(e))),
        }
    }
}

/// Whether the stream has finished after the pulls that received `items`, from
/// a stream whose state was `finished`.
pub open spec fn finished_after<T>(finished: bool, items: Seq<Option<Result<T, DeviceError>>>) -> bool
    decreases items.len(),
{
    if items.len() == 0 {
        finished
    } else {
        pull_step(finished_after(finished, items.drop_last()), items.last()).0
    }
}

/// The answer of the last of the pulls that received `items`.
pub open spec fn last_answer<T>(finished: bool, items: Seq<Option<Result<T, DeviceError>>>) -> Result<
    T,
    StreamError,
>
    recommends
        items.len() > 0,
{
    pull_step(finished_after(finished, items.drop_last()), items.last()).1
}

/// Once a pull has answered with an error or the end of the stream, every later
/// pull answers `EndOfStream`, whatever the channel would give: no value comes
/// after the end, and a device error is reported once.
pub proof fn lemma_nothing_after_end<T>(
    finished: bool,
    items: Seq<Option<Result<T, DeviceError>>>,
    i: int,
    j: int,
)
    requires
        0 < i < j <= items.len(),
        last_answer(finished, items.take(i)) is Err,
    ensures
        last_answer(finished, items.take(j)) == Err::<T, StreamError>(StreamError::EndOfStream),
    decreases j - i,
{
    lemma_finished_after_error(finished, items, i);
    lemma_finished_stays(finished, items, i, j - 1);
    assert(items.take(j).drop_last() == items.take(j - 1));
}

/// When the channel gives `e` results and then a device error, a fresh stream
/// answers those `e` results, then the error, once, and from then on
/// `EndOfStream`, whatever follows in the channel.
pub proof fn lemma_results_then_error_once<T>(
    items: Seq<Option<Result<T, DeviceError>>>,
    e: int,
    error: DeviceError,
)
    requires
        0 <= e < items.len(),
        forall|j: int| 0 <= j < e ==> (#[trigger] items[j] matches Some(Ok(_))),
        items[e] == Some(Err::<T, DeviceError>(error)),
    ensures
        forall|j: int| 0 < j <= e ==> (#[trigger] last_answer(false, items.take(j))) is Ok,
        last_answer(false, items.take(e + 1)) == Err::<T, StreamError>(StreamError::Device(error)),
        forall|j: int|
            e + 1 < j <= items.len() ==> #[trigger] last_answer(false, items.take(j)) == Err::<
                T,
                StreamError,
            >(StreamError::EndOfStream),
{
    assert forall|j: int| 0 <= j <= e implies !finished_after(false, #[trigger] items.take(j)) by {
        lemma_open_while_results(items, e, j);
    }
    assert forall|j: int| 0 < j <= e implies (#[trigger] last_answer(false, items.take(j))) is Ok by {
        assert(items.take(j).drop_last() == items.take(j - 1));
        assert(items.take(j).last() == items[j - 1]);
        assert(!finished_after(false, items.take(j - 1)));
    }
    assert(items.take(e + 1).drop_last() == items.take(e));
    assert(items.take(e + 1).last() == items[e]);
    assert(!finished_after(false, items.take(e)));
    assert forall|j: int| e + 1 < j <= items.len() implies #[trigger] last_answer(
        false,
        items.take(j),
    ) == Err::<T, StreamError>(StreamError::EndOfStream) by {
        lemma_nothing_after_end(false, items, e + 1, j);
    }
}

/// A fresh stream stays open while the channel gives only results.
proof fn lemma_open_while_results<T>(items: Seq<Option<Result<T, DeviceError>>>, e: int, j: int)
    requires
        0 <= j <= e <= items.len(),
        forall|i: int| 0 <= i < e ==> (#[trigger] items[i] matches Some(Ok(_))),
    ensures
        !finished_after(false, items.take(j)),
    decreases j,
{
    if j > 0 {
        lemma_open_while_results(items, e, j - 1);
        assert(items.take(j).drop_last() == items.take(j - 1));
        assert(items.take(j).last() == items[j - 1]);
    }
}

/// A pull that answers with an error leaves the stream finished.
proof fn lemma_finished_after_error<T>(
    finished: bool,
    items: Seq<Option<Result<T, DeviceError>>>,
    i: int,
)
    requires
        0 < i <= items.len(),
        last_answer(finished, items.take(i)) is Err,
    ensures
        finished_after(finished, items.take(i)),
{
}

/// A finished stream stays finished.
proof fn lemma_finished_stays<T>(
    finished: bool,
    items: Seq<Option<Result<T, DeviceError>>>,
    i: int,
    j: int,
)
    requires
        0 < i <= j <= items.len(),
        finished_after(finished, items.take(i)),
    ensures
        finished_after(finished, items.take(j)),
    decreases j - i,
{
    if j > i {
        lemma_finished_stays(finished, items, i, j - 1);
        assert(items.take(j).drop_last() == items.take(j - 1));
    }
}

/// The reader's side of a stream, apart from the channel: whether it has
/// finished.
pub struct StreamState {
    finished: bool,
}

impl StreamState {
    /// Whether the stream has finished.
    pub closed spec fn finished(&self) -> bool {
        self.finished
    }

    /// A stream that has not finished.
    pub fn new() -> (r: StreamState)
        ensures
            !r.finished(),
    {
        StreamState { finished: false }
    }

    /// Whether the stream has finished.
    pub fn is_finished(&self) -> (r: bool)
        ensures
            r == self.finished(),
    {
        self.finished
    }

    /// Answers one pull, given what the channel gave: `None` once it is empty
    /// and closed.
    pub fn accept<T>(&mut self, received: Option<Result<T, DeviceError>>) -> (r: Result<
        T,
        StreamError,
    >)
        ensures
            (final(self).finished(), r) == pull_step(old(self).finished(), received),
    {
        if self.finished {
            return Err(StreamError::EndOfStream);
        }
        match received {
            None => {
                self.finished = true;
                Err(StreamError::EndOfStream)
            },
            Some(Ok(v)) => Ok(v),
            Some(Err(e)) => {
                self.finished = true;
                Err(StreamError::Device(e))
            },
        }
    }
}

/// The producers' side of a result channel.
#[verifier::reject_recursive_types(T)]
pub struct ResultSink<T> {
    sender: Sender<Result<T, DeviceError>>,
    capacity: usize,
}

impl<T> Clone for ResultSink<T> {
    fn clone(&self) -> Self {
        ResultSink { sender: self.sender.clone(), capacity: self.capacity }
    }
}

impl<T> ResultSink<T> {
    /// How many results the channel holds before a push waits.
    pub closed spec fn spec_capacity(&self) -> int {
        self.capacity as int
    }

    /// How many results the channel holds before a push waits.
    pub fn capacity(&self) -> (r: usize)
        ensures
            r == self.spec_capacity(),
    {
        self.capacity
    }

    /// Pushes one result, blocking while the channel is full.
    pub fn push(&self, value: T) -> Result<(), ChannelClosed> {
        match self.sender.send(Ok(value)) {
            Ok(()) => Ok(()),
            Err(_) => Err(ChannelClosed),
        }
    }

    /// Pushes the error that stopped a worker.
    pub fn push_error(&self, error: DeviceError) -> Result<(), ChannelClosed> {
        match self.sender.send(Err(error)) {
            Ok(()) => Ok(()),
            Err(_) => Err(ChannelClosed),
        }
    }
}

/// The reader's side of a result channel.
#[verifier::reject_recursive_types(T)]
pub struct ResultStream<T> {
    receiver: Receiver<Result<T, DeviceError>>,
    state: StreamState,
}

impl<T> ResultStream<T> {
    /// Whether the stream has finished.
    pub closed spec fn finished(&self) -> bool {
        self.state.finished()
    }

    /// Pulls the next result, blocking until one comes. Once the stream has
    /// finished, answers `EndOfStream` without waiting on the channel.
    pub fn next(&mut self) -> (r: Result<T, StreamError>)
        ensures
            exists|received: Option<Result<T, DeviceError>>|
                (final(self).finished(), r) == #[trigger] pull_step(old(self).finished(), received),
            old(self).finished() ==> r == Err::<T, StreamError>(StreamError::EndOfStream),
            r is Err <==> final(self).finished(),
    {
        let ghost was = self.finished();
        if self.state.is_finished() {
            let r = self.state.accept(None);
            assert((self.finished(), r) == pull_step(was, None::<Result<T, DeviceError>>));
            return r;
        }
        let received = match self.receiver.recv() {
            Ok(item) => Some(item),
            Err(_) => None,
        };
        let r = self.state.accept(received);
        assert((self.finished(), r) == pull_step(was, received));
        r
    }
}

/// A result channel of the given capacity.
pub fn result_channel<T>(capacity: usize) -> (r: (ResultSink<T>, ResultStream<T>))
    requires
        capacity <= MAX_QUEUE_CAPACITY,
    ensures
        !r.1.finished(),
        r.0.spec_capacity() == capacity,
{
    let (sender, receiver) = crossbeam_channel::bounded(capacity);
    (ResultSink { sender, capacity }, ResultStream { receiver, state: StreamState::new() })
}

/// The channel capacity for units of `unit_size` candidates: ten units' worth
/// of values, at most `MAX_QUEUE_CAPACITY`.
pub fn queue_capacity(unit_size: usize) -> (r: usize)
    ensures
        r == if 10 * unit_size <= MAX_QUEUE_CAPACITY {
            10 * unit_size
        } else {
            MAX_QUEUE_CAPACITY as int
        },
{
    if unit_size <= MAX_QUEUE_CAPACITY / 10 {
        10 * unit_size
    } else {
        MAX_QUEUE_CAPACITY
    }
}

} // verus!
