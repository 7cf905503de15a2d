//! The internal queues between the synchronous side and the async tasks.
//!
//! The queues are those of tokio. Whether a queue takes or gives a message
//! depends on the task at its other end, so no contract says when it does.
//! What this side has done is known, and each end keeps it as its history: every
//! call that it made of the queue, with the answer that came. [`offered`],
//! [`answered`] and [`handed`] say that tokio gave such an answer; only a call of
//! tokio establishes them.

use tokio::sync::{broadcast, mpsc};
use vstd::prelude::*;

use crate::shared::error::AsyncChannelError;

verus! {

/// The sending half of a tokio mpsc queue.
#[verifier::external_type_specification]
#[verifier::external_body]
#[verifier::reject_recursive_types(T)]
pub struct ExMpscSender<T>(tokio::sync::mpsc::Sender<T>);

/// The receiving half of a tokio mpsc queue.
#[verifier::external_type_specification]
#[verifier::external_body]
#[verifier::reject_recursive_types(T)]
pub struct ExMpscReceiver<T>(tokio::sync::mpsc::Receiver<T>);

/// The sending half of a tokio broadcast queue.
#[verifier::external_type_specification]
#[verifier::external_body]
#[verifier::reject_recursive_types(T)]
pub struct ExBroadcastSender<T>(tokio::sync::broadcast::Sender<T>);

/// A receiving half of a tokio broadcast queue.
#[verifier::external_type_specification]
#[verifier::external_body]
#[verifier::reject_recursive_types(T)]
pub struct ExBroadcastReceiver<T>(tokio::sync::broadcast::Receiver<T>);

/// Why a queue did not take a message; the message comes back.
pub enum SendFailure<T> {
    /// The queue is full.
    Full(T),
    /// The receiver is gone.
    Closed(T),
}

/// Why a queue gave no message.
#[derive(Debug, Clone, Copy, PartialEq, Eq)]
pub enum RecvFailure {
    /// The queue is empty.
    Empty,
    /// The queue is empty and every sender is gone.
    Disconnected,
}

/// `tokio::sync::mpsc::channel`: the two halves of a fresh queue with room for
/// `capacity` messages. It panics on a capacity of zero, or of more than an
/// eighth of `usize::MAX`. Of the two halves nothing is claimed.
#[verifier::external_body]
fn mpsc_channel<T>(capacity: usize) -> (r: (mpsc::Sender<T>, mpsc::Receiver<T>))
    requires
        0 < capacity <= usize::MAX / 8,
{
    mpsc::channel(capacity)
}

/// `tokio::sync::broadcast::channel`: the sender and a first listener of a
/// fresh broadcast queue. It panics on a capacity of zero, or of more than half
/// of `usize::MAX`. Of the two halves nothing is claimed.
#[verifier::external_body]
fn broadcast_channel<T: Clone>(capacity: usize) -> (r: (
    broadcast::Sender<T>,
    broadcast::Receiver<T>,
))
    requires
        0 < capacity <= usize::MAX / 2,
{
    broadcast::channel(capacity)
}

/// `sender` and `receiver` are the two halves that one call of tokio gave for a
/// queue with room for `capacity` messages.
pub closed spec fn mpsc_halves<T>(
    capacity: usize,
    sender: mpsc::Sender<T>,
    receiver: mpsc::Receiver<T>,
) -> bool {
    call_ensures(mpsc_channel::<T>, (capacity,), (sender, receiver))
}

/// `sender` and `receiver` are the two halves that one call of tokio gave for a
/// broadcast queue with room for `capacity` values.
pub closed spec fn broadcast_halves<T: Clone>(
    capacity: usize,
    sender: broadcast::Sender<T>,
    receiver: broadcast::Receiver<T>,
) -> bool {
    call_ensures(broadcast_channel::<T>, (capacity,), (sender, receiver))
}

/// What `make` gives for a capacity.
fn make_queue<Q, F: Fn(usize) -> Q>(make: F, capacity: usize) -> (r: Q)
    requires
        call_requires(make, (capacity,)),
    ensures
        call_ensures(make, (capacity,), r),
{
    make(capacity)
}

/// The two halves of a fresh queue with room for `capacity` messages.
pub(crate) fn mpsc_queue<T>(capacity: usize) -> (r: (mpsc::Sender<T>, mpsc::Receiver<T>))
    requires
        0 < capacity <= usize::MAX / 8,
    ensures
        mpsc_halves(capacity, r.0, r.1),
{
    make_queue(mpsc_channel::<T>, capacity)
}

/// The sender and a first listener of a fresh broadcast queue with room for
/// `capacity` values.
pub(crate) fn broadcast_queue<T: Clone>(capacity: usize) -> (r: (
    broadcast::Sender<T>,
    broadcast::Receiver<T>,
))
    requires
        0 < capacity <= usize::MAX / 2,
    ensures
        broadcast_halves(capacity, r.0, r.1),
{
    make_queue(broadcast_channel::<T>, capacity)
}

/// `tokio::sync::mpsc::Sender::try_send`: puts `message` in the queue, or hands
/// it back when the queue is full or its receiver gone. Which of these happens
/// rests on the task that holds the receiver.
#[verifier::external_body]
fn mpsc_try_send<T>(sender: &mpsc::Sender<T>, message: T) -> (r: Result<(), SendFailure<T>>)
    ensures
        r matches Err(SendFailure::Full(m)) ==> m == message,
        r matches Err(SendFailure::Closed(m)) ==> m == message,
{
    match sender.try_send(message) {
        Ok(()) => Ok(()),
        Err(mpsc::error::TrySendError::Full(m)) => Err(SendFailure::Full(m)),
        Err(mpsc::error::TrySendError::Closed(m)) => Err(SendFailure::Closed(m)),
    }
}

/// `tokio::sync::mpsc::Receiver::try_recv`: the next message of the queue, or
/// why there is none now. What comes rests on the tasks that hold the senders,
/// so nothing is claimed of it.
#[verifier::external_body]
fn mpsc_try_recv<T>(receiver: &mut mpsc::Receiver<T>) -> (r: Result<T, RecvFailure>) {
    match receiver.try_recv() {
        Ok(m) => Ok(m),
        Err(mpsc::error::TryRecvError::Empty) => Err(RecvFailure::Empty),
        Err(mpsc::error::TryRecvError::Disconnected) => Err(RecvFailure::Disconnected),
    }
}

/// `tokio::sync::broadcast::Sender::send`: hands `value` to every listener and
/// says how many there are, or hands it back when there is none. Whether there
/// is one rests on the tasks that listen.
#[verifier::external_body]
fn broadcast_send<T>(sender: &broadcast::Sender<T>, value: T) -> (r: Result<usize, T>)
    ensures
        r matches Ok(n) ==> n > 0,
        r matches Err(v) ==> v == value,
{
    match sender.send(value) {
        Ok(n) => Ok(n),
        Err(broadcast::error::SendError(v)) => Err(v),
    }
}

/// `outcome` is what tokio gave when `message` was offered through `sender`.
pub closed spec fn offered<T>(
    sender: mpsc::Sender<T>,
    message: T,
    outcome: Result<(), SendFailure<T>>,
) -> bool {
    call_ensures(mpsc_try_send::<T>, (&sender, message), outcome)
}

/// `outcome` is what tokio gave when `value` was handed to the listeners of
/// `sender`.
pub closed spec fn handed<T>(
    sender: broadcast::Sender<T>,
    value: T,
    outcome: Result<usize, T>,
) -> bool {
    call_ensures(broadcast_send::<T>, (&sender, value), outcome)
}

/// Asks a queue for a message, once. Returns the answer of tokio, and what the call
/// has left of the receiving half.
fn ask<T>(receiver: &mut mpsc::Receiver<T>) -> (r: (
    Result<T, RecvFailure>,
    Ghost<mpsc::Receiver<T>>,
))
    ensures
        exists|half: &mut mpsc::Receiver<T>| #[trigger]
            call_ensures(mpsc_try_recv::<T>, (half,), r.0) && *half == *old(receiver)
                && *final(half) == r.1@,
        r.1@ == *final(receiver),
{
    let answer = call_with(mpsc_try_recv::<T>, &mut *receiver);
    let left: Ghost<mpsc::Receiver<T>> = Ghost(*receiver);
    let r = (answer, left);
    assert(r.0 == answer && r.1@ == left@);
    assert(exists|half: &mut mpsc::Receiver<T>| #[trigger]
        call_ensures(mpsc_try_recv::<T>, (half,), r.0) && *half == *old(receiver)
            && *final(half) == r.1@);
    r
}

/// `answer` is what tokio gave when `receiver` was asked for a message, and `after`
/// is what that one call has left of the half.
pub closed spec fn answered<T>(
    receiver: mpsc::Receiver<T>,
    answer: Result<T, RecvFailure>,
    after: mpsc::Receiver<T>,
) -> bool {
    exists|half: &mut mpsc::Receiver<T>| #[trigger]
        call_ensures(ask::<T>, (half,), (answer, Ghost(after))) && *half == receiver
}

/// What `f` gives for a half of a queue and a message.
fn call_on<S, T, R, F: Fn(&S, T) -> R>(f: F, half: &S, message: T) -> (r: R)
    requires
        call_requires(f, (half, message)),
    ensures
        call_ensures(f, (half, message), r),
{
    f(half, message)
}

/// What `f` gives for a half of a queue that it changes.
fn call_with<S, R, F: Fn(&mut S) -> R>(f: F, half: &mut S) -> (r: R)
    requires
        forall|any: &mut S| #[trigger] call_requires(f, (any,)),
    ensures
        exists|given: &mut S| #[trigger]
            call_ensures(f, (given,), r) && *given == *old(half) && *final(given) == *final(half),
{
    f(half)
}

/// The result that an outcome stands for.
pub open spec fn result_of<T>(outcome: Result<(), SendFailure<T>>) -> Result<
    (),
    AsyncChannelError,
> {
    match outcome {
        Ok(()) => Ok(()),
        Err(SendFailure::Full(_)) => Err(AsyncChannelError::FullQueue),
        Err(SendFailure::Closed(_)) => Err(AsyncChannelError::InternalChannelClosed),
    }
}

/// A message was offered through `sender`, and `r` is what tokio's answer to that
/// comes to.
pub open spec fn queue_answered<T>(
    sender: mpsc::Sender<T>,
    message: T,
    r: Result<(), AsyncChannelError>,
) -> bool {
    exists|outcome: Result<(), SendFailure<T>>| #[trigger]
        offered(sender, message, outcome) && r == result_of(outcome)
}

/// A value was handed to the listeners of `sender`, and tokio said that there is
/// one, or that there is none, as `heard` says.
pub open spec fn listeners_told<T>(sender: broadcast::Sender<T>, value: T, heard: bool) -> bool {
    exists|outcome: Result<usize, T>| #[trigger]
        handed(sender, value, outcome) && heard == (outcome is Ok)
}

/// What was recorded of a queue is what tokio did, in one call each: the two halves of a
/// queue with room for so much, the answer to a message that was offered, that to a value
/// that was handed on, and that to a receiving half that was asked for a message, together
/// with what that call has left of the half.
proof fn law_records_are_calls<T: Clone>()
    ensures
        forall|capacity: usize, sender: mpsc::Sender<T>, receiver: mpsc::Receiver<T>| #[trigger]
            mpsc_halves(capacity, sender, receiver) ==> call_ensures(
                mpsc_channel::<T>,
                (capacity,),
                (sender, receiver),
            ),
        forall|capacity: usize, sender: broadcast::Sender<T>, receiver: broadcast::Receiver<T>|
            #[trigger] broadcast_halves(capacity, sender, receiver) ==> call_ensures(
                broadcast_channel::<T>,
                (capacity,),
                (sender, receiver),
            ),
        forall|sender: mpsc::Sender<T>, message: T, outcome: Result<(), SendFailure<T>>| #[trigger]
            offered(sender, message, outcome) ==> call_ensures(
                mpsc_try_send::<T>,
                (&sender, message),
                outcome,
            ),
        forall|sender: broadcast::Sender<T>, value: T, outcome: Result<usize, T>| #[trigger]
            handed(sender, value, outcome) ==> call_ensures(
                broadcast_send::<T>,
                (&sender, value),
                outcome,
            ),
        forall|
            receiver: mpsc::Receiver<T>,
            answer: Result<T, RecvFailure>,
            after: mpsc::Receiver<T>,
        | #[trigger]
            answered(receiver, answer, after) ==> exists|half: &mut mpsc::Receiver<T>| #[trigger]
                call_ensures(mpsc_try_recv::<T>, (half,), answer) && *half == receiver
                    && *final(half) == after,
{
}

/// The error of a queue that did not take a message.
pub fn send_result<T>(outcome: Result<(), SendFailure<T>>) -> (r: Result<(), AsyncChannelError>)
    ensures
        r == result_of(outcome),
{
    match outcome {
        Ok(()) => Ok(()),
        Err(SendFailure::Full(_)) => Err(AsyncChannelError::FullQueue),
        Err(SendFailure::Closed(_)) => Err(AsyncChannelError::InternalChannelClosed),
    }
}

/// What a queue answered to a message that was offered to it.
#[derive(Debug, Clone, Copy, PartialEq, Eq, Structural)]
pub enum Answer {
    /// It took the message.
    Taken,
    /// It refused the message, for this reason.
    Refused(AsyncChannelError),
}

/// The answer that a result stands for.
pub open spec fn answer_of<T>(r: Result<T, AsyncChannelError>) -> Answer {
    match r {
        Ok(_) => Answer::Taken,
        Err(e) => Answer::Refused(e),
    }
}

/// What was taken from a queue in one go: messages, in order, and why there were
/// no more of them, if the queue was asked for more.
#[verifier::ext_equal]
#[verifier::reject_recursive_types(T)]
pub struct Batch<T> {
    /// The messages.
    pub messages: Seq<T>,
    /// Why there were no more.
    pub end: Option<RecvFailure>,
}

impl<T> Batch<T> {
    /// The answers of the queue, in order.
    pub open spec fn answers(self) -> Seq<Result<T, RecvFailure>> {
        let given = self.messages.map_values(|m: T| Ok::<T, RecvFailure>(m));
        match self.end {
            Some(why) => given.push(Err(why)),
            None => given,
        }
    }

    /// The queue was asked until it had nothing to give, unless there were
    /// `limit` messages before.
    pub open spec fn complete(self, limit: usize) -> bool {
        &&& self.messages.len() <= limit
        &&& self.end is None <==> self.messages.len() == limit
    }
}

/// The sending end of an internal queue.
#[verifier::reject_recursive_types(T)]
pub struct Outbox<T> {
    sender: mpsc::Sender<T>,
    offers: Ghost<Seq<(T, Answer)>>,
}

impl<T> Outbox<T> {
    /// The messages that were offered to the queue through this end, oldest
    /// first, each with the answer that came.
    pub closed spec fn offers(self) -> Seq<(T, Answer)> {
        self.offers@
    }

    /// The sending half of the queue.
    pub closed spec fn half(self) -> mpsc::Sender<T> {
        self.sender
    }

    /// Wraps a sender that has not been used.
    pub fn new(sender: mpsc::Sender<T>) -> (r: Self)
        ensures
            r.half() == sender,
            r.offers() == Seq::<(T, Answer)>::empty(),
    {
        Outbox { sender, offers: Ghost(Seq::empty()) }
    }

    /// Offers a message to the queue, once, and returns the answer.
    pub fn try_send(&mut self, message: T) -> (r: Result<(), AsyncChannelError>)
        ensures
            final(self).half() == old(self).half(),
            queue_answered(old(self).half(), message, r),
            final(self).offers() == old(self).offers().push((message, answer_of(r))),
    {
        let ghost sent = message;
        let outcome = call_on(mpsc_try_send::<T>, &self.sender, message);
        assert(offered(self.half(), sent, outcome));
        let r = send_result(outcome);
        proof {
            self.offers@ = self.offers@.push((sent, answer_of(r)));
        }
        r
    }
}

/// Asked through the first of `halves`, and then each time through what the call
/// before has left, tokio gave `answers`; the last of `halves` is what was left in
/// the end.
pub open spec fn gave<T>(
    halves: Seq<mpsc::Receiver<T>>,
    answers: Seq<Result<T, RecvFailure>>,
) -> bool {
    &&& halves.len() == answers.len() + 1
    &&& forall|i: int|
        0 <= i < answers.len() ==> answered(halves[i], #[trigger] answers[i], halves[i + 1])
}

/// Asked through `first`, and then each time through what the call before has left,
/// tokio gave `answers`, and `last` is what was left in the end.
pub open spec fn only_gave<T>(
    first: mpsc::Receiver<T>,
    answers: Seq<Result<T, RecvFailure>>,
    last: mpsc::Receiver<T>,
) -> bool {
    exists|halves: Seq<mpsc::Receiver<T>>| #[trigger]
        gave(halves, answers) && halves.first() == first && halves.last() == last
}

/// The receiving end of an internal queue.
#[verifier::reject_recursive_types(T)]
pub struct Inbox<T> {
    receiver: mpsc::Receiver<T>,
    half: Ghost<mpsc::Receiver<T>>,
    answers: Ghost<Seq<Result<T, RecvFailure>>>,
}

impl<T> Inbox<T> {
    /// What the queue answered each time that this end asked for a message,
    /// oldest first.
    pub closed spec fn answers(self) -> Seq<Result<T, RecvFailure>> {
        self.answers@
    }

    /// The receiving half of the queue, as it was when this end got it.
    pub closed spec fn half(self) -> mpsc::Receiver<T> {
        self.half@
    }

    /// The receiving half of the queue, as it is now.
    pub closed spec fn current(self) -> mpsc::Receiver<T> {
        self.receiver
    }

    /// The queue was asked once for each of `answers`, in order, and not otherwise:
    /// that is what has turned its half from that of `pre` into that of `self`.
    pub open spec fn asked(self, pre: Self, answers: Seq<Result<T, RecvFailure>>) -> bool {
        only_gave(pre.current(), answers, self.current())
    }

    /// `self` is the end once `messages` were taken from the queue, in order,
    /// until there were `limit` of them or the queue had none to give.
    pub open spec fn drained(self, pre: Self, limit: usize, messages: Seq<T>) -> bool {
        &&& self.half() == pre.half()
        &&& exists|batch: Batch<T>| #[trigger]
            batch.complete(limit) && batch.messages == messages && self.asked(pre, batch.answers())
                && self.answers() == pre.answers() + batch.answers()
    }

    /// Wraps a receiver that has not been used.
    pub fn new(receiver: mpsc::Receiver<T>) -> (r: Self)
        ensures
            r.half() == receiver,
            r.current() == receiver,
            r.answers() == Seq::<Result<T, RecvFailure>>::empty(),
    {
        let ghost half = receiver;
        Inbox { receiver, half: Ghost(half), answers: Ghost(Seq::empty()) }
    }

    /// Asks the queue for the next message, once, and returns the answer.
    pub fn try_recv(&mut self) -> (r: Result<T, RecvFailure>)
        ensures
            final(self).half() == old(self).half(),
            answered(old(self).current(), r, final(self).current()),
            final(self).answers() == old(self).answers().push(r),
    {
        let (r, left) = call_with(ask::<T>, &mut self.receiver);
        proof {
            self.answers@ = self.answers@.push(r);
        }
        r
    }

    /// Takes messages until the queue gives none, and `limit` at most.
    pub fn drain(&mut self, limit: usize) -> (r: Vec<T>)
        ensures
            final(self).drained(*old(self), limit, r@),
    {
        let mut messages: Vec<T> = Vec::new();
        let ghost mut batch: Batch<T> = Batch { messages: Seq::empty(), end: None };
        let ghost mut halves: Seq<mpsc::Receiver<T>> = seq![self.current()];
        assert(self.answers() =~= old(self).answers() + batch.answers());
        while messages.len() < limit
            invariant
                messages@.len() <= limit,
                batch == (Batch { messages: messages@, end: None }),
                self.half() == old(self).half(),
                gave(halves, batch.answers()),
                halves.first() == old(self).current(),
                halves.last() == self.current(),
                self.answers() == old(self).answers() + batch.answers(),
            decreases limit - messages@.len(),
        {
            let ghost before = batch;
            let answer = self.try_recv();
            proof {
                let longer = before.answers().push(answer);
                let earlier = halves;
                halves = earlier.push(self.current());
                assert forall|i: int| 0 <= i < longer.len() implies answered(
                    halves[i],
                    #[trigger] longer[i],
                    halves[i + 1],
                ) by {
                    if i < before.answers().len() {
                        assert(longer[i] == before.answers()[i]);
                    }
                }
            }
            match answer {
                Ok(m) => {
                    messages.push(m);
                    proof {
                        batch = Batch { messages: messages@, end: None };
                        assert(batch.answers() =~= before.answers().push(Ok(m)));
                        assert(self.answers() =~= old(self).answers() + batch.answers());
                    }
                },
                Err(why) => {
                    proof {
                        batch = Batch { messages: messages@, end: Some(why) };
                        assert(batch.answers() =~= before.answers().push(Err(why)));
                        assert(self.answers() =~= old(self).answers() + batch.answers());
                        assert(gave(halves, batch.answers()));
                        assert(batch.complete(limit));
                    }
                    return messages;
                },
            }
        }
        assert(batch.complete(limit));
        messages
    }
}

/// The sending end of a broadcast to every listener of a connection or endpoint.
#[verifier::reject_recursive_types(T)]
pub struct Broadcaster<T> {
    sender: broadcast::Sender<T>,
    calls: Ghost<Seq<(T, bool)>>,
}

impl<T> Broadcaster<T> {
    /// The values that were handed to the listeners, oldest first, each with
    /// whether there was one.
    pub closed spec fn calls(self) -> Seq<(T, bool)> {
        self.calls@
    }

    /// The sending half of the queue.
    pub closed spec fn half(self) -> broadcast::Sender<T> {
        self.sender
    }

    /// Wraps a sender that has not been used.
    pub fn new(sender: broadcast::Sender<T>) -> (r: Self)
        ensures
            r.half() == sender,
            r.calls() == Seq::<(T, bool)>::empty(),
    {
        Broadcaster { sender, calls: Ghost(Seq::empty()) }
    }

    /// Hands a value to every listener, once; `false` when there is none.
    pub fn send(&mut self, value: T) -> (r: bool)
        ensures
            final(self).half() == old(self).half(),
            listeners_told(old(self).half(), value, r),
            final(self).calls() == old(self).calls().push((value, r)),
    {
        let ghost sent = value;
        let outcome = call_on(broadcast_send::<T>, &self.sender, value);
        assert(handed(self.half(), sent, outcome));
        let r = match outcome {
            Ok(_) => true,
            Err(_) => false,
        };
        proof {
            self.calls@ = self.calls@.push((sent, r));
        }
        r
    }
}

} // verus!
