//! The transport's decisions: the outer frame that carries every value on the
//! stream, the hello frame, the fan-out of one shared buffer to every remote's
//! queue, and the retry policy of a remote's worker.
use vstd::prelude::*;

use std::sync::Arc;
use std::sync::mpsc::Sender;

use crate::codec::{enc_message, enc_str, enc_u16, message_ok, parse_u16, str_fits, str_ok, write_str};
use crate::model::Message;

verus! {

/// Consecutive failed connects after which a worker waits out the penalty window.
pub const RETRY_FAILURES: u64 = 5;

/// The penalty window, in milliseconds, counted from the start of a failure streak.
pub const RETRY_WINDOW_MS: u64 = 10_000;

/// The largest payload an outer frame can carry.
pub const MAX_FRAME_PAYLOAD: usize = 0xFFFF;

/// The outer frame: a 16-bit big-endian length, then the payload.
pub open spec fn framed(payload: Seq<u8>) -> Seq<u8> {
    enc_u16(payload.len() as u16) + payload
}

/// Reading one outer frame at `p`: its payload and the position after it.
pub open spec fn parse_frame(s: Seq<u8>, p: int) -> Option<(Seq<u8>, int)> {
    match parse_u16(s, p) {
        Some((n, q)) => if q + n <= s.len() {
            Some((s.subrange(q, q + n), q + n))
        } else {
            None
        },
        None => None,
    }
}

/// Wraps `payload` in an outer frame.
pub fn frame(payload: &[u8]) -> (r: Vec<u8>)
    requires
        payload@.len() <= MAX_FRAME_PAYLOAD,
    ensures
        r@ == framed(payload@),
{
    let mut r: Vec<u8> = Vec::with_capacity(payload.len() + 2);
    r.push((payload.len() as u16 >> 8u16) as u8);
    r.push(payload.len() as u8);
    let mut i: usize = 0;
    while i < payload.len()
        invariant
            i <= payload@.len(),
            payload@.len() <= MAX_FRAME_PAYLOAD,
            r@ == enc_u16(payload@.len() as u16) + payload@.subrange(0, i as int),
        decreases payload@.len() - i,
    {
        r.push(payload[i]);
        i += 1;
        assert(payload@.subrange(0, i as int) =~= payload@.subrange(0, i - 1) + seq![payload@[i - 1]]);
    }
    assert(payload@.subrange(0, i as int) =~= payload@);
    r
}

/// Reads one outer frame at `pos`.
pub fn read_frame(input: &[u8], pos: usize) -> (r: Option<(Vec<u8>, usize)>)
    ensures
        match r {
            Some((v, q)) => parse_frame(input@, pos as int) == Some((v@, q as int)),
            None => parse_frame(input@, pos as int) is None,
        },
{
    let (n, q) = crate::codec::read_u16(input, pos)?;
    if (n as usize) <= input.len() - q {
        let payload = vstd::slice::slice_to_vec(vstd::slice::slice_subrange(input, q, q + n as usize));
        Some((payload, q + n as usize))
    } else {
        None
    }
}

/// A frame gives back its payload, whatever follows it on the stream.
pub proof fn lemma_frame_round_trip(payload: Seq<u8>, rest: Seq<u8>)
    requires
        payload.len() <= MAX_FRAME_PAYLOAD,
    ensures
        parse_frame(framed(payload) + rest, 0) == Some((payload, framed(payload).len() as int)),
{
    let s = framed(payload) + rest;
    let n = payload.len() as u16;
    assert(s[0] == enc_u16(n)[0] && s[1] == enc_u16(n)[1]);
    assert((((n >> 8u16) as u8) as u16) << 8u16 | ((n as u8) as u16) == n) by (bit_vector);
    assert(s.subrange(2, 2 + payload.len() as int) =~= payload);
}

/// The hello frame: the identity, encoded as a string, in an outer frame;
/// `None` where the identity is too long for either.
pub fn hello_frame(ident: &String) -> (r: Option<Vec<u8>>)
    ensures
        r is Some <==> str_ok(ident@) && enc_str(ident@).len() <= MAX_FRAME_PAYLOAD,
        r matches Some(f) ==> f@ == framed(enc_str(ident@)),
{
    if !str_fits(ident) {
        return None;
    }
    let mut body: Vec<u8> = Vec::new();
    write_str(&mut body, ident);
    if body.len() > MAX_FRAME_PAYLOAD {
        return None;
    }
    Some(frame(body.as_slice()))
}

/// The sending half of a worker's queue, from std.
#[verifier::external_type_specification]
#[verifier::external_body]
#[verifier::reject_recursive_types(T)]
pub struct ExSender<T>(Sender<T>);

/// Relies on std::sync::mpsc::Sender::send: it hands the buffer to the
/// receiving worker's queue without blocking, or fails when that worker is gone.
#[verifier::external_body]
fn enqueue(sender: &Sender<Arc<Vec<u8>>>, buffer: Arc<Vec<u8>>) -> bool {
    sender.send(buffer).is_ok()
}

/// The producer's side of the fan-out: one queue per remote worker.
pub struct Client {
    senders: Vec<Sender<Arc<Vec<u8>>>>,
}

impl Client {
    /// A client over the queues of its remote workers.
    pub fn new(senders: Vec<Sender<Arc<Vec<u8>>>>) -> (r: Client)
        ensures
            r.workers() == senders@.len(),
    {
        Client { senders }
    }

    /// The number of remote workers.
    pub closed spec fn workers(&self) -> nat {
        self.senders@.len()
    }

    /// The number of remote workers.
    pub fn len(&self) -> (r: usize)
        ensures
            r == self.workers(),
    {
        self.senders.len()
    }

    /// Encodes `object` once, frames it once and hands the one buffer to every
    /// worker; false, with nothing sent, where the message cannot be written or
    /// its encoding does not fit a frame.
    pub fn send(&self, object: &Message) -> (r: bool)
        ensures
            r == (message_ok(object@) && enc_message(object@).len() <= MAX_FRAME_PAYLOAD),
    {
        let mut buffer: Vec<u8> = Vec::new();
        if !object.encode(&mut buffer) {
            return false;
        }
        if buffer.len() > MAX_FRAME_PAYLOAD {
            return false;
        }
        self.send_frame(&buffer);
        true
    }

    /// Frames `bytes` once and hands the one shared buffer to every worker's
    /// queue; a worker that is gone is skipped.
    pub fn send_frame(&self, bytes: &Vec<u8>)
        requires
            bytes@.len() <= MAX_FRAME_PAYLOAD,
    {
        let message = Arc::new(frame(bytes.as_slice()));
        let mut i: usize = 0;
        while i < self.senders.len()
            invariant
                i <= self.senders@.len(),
            decreases self.senders@.len() - i,
        {
            enqueue(&self.senders[i], message.clone());
            i += 1;
        }
    }
}

/// A worker's record of its current streak of failed connects.
#[derive(Clone, Copy, Debug, PartialEq, Eq, Structural)]
pub struct Backoff {
    /// Failed connects in the current streak.
    pub failures: u64,
    /// When the current penalty window began, in milliseconds.
    pub since: u64,
    /// Failures after which a connect waits out the window.
    pub threshold: u64,
    /// The penalty window, in milliseconds.
    pub window: u64,
}

/// When the current penalty window ends, in milliseconds (saturating).
pub open spec fn window_end(b: Backoff) -> int {
    if b.since + b.window <= u64::MAX {
        b.since + b.window
    } else {
        u64::MAX as int
    }
}

/// How long to wait before a connect at `now`: past the threshold, until the
/// window has ended.
pub open spec fn delay_before(b: Backoff, now: u64) -> u64 {
    if b.failures >= b.threshold && now < window_end(b) {
        (window_end(b) - now) as u64
    } else {
        0
    }
}

/// The record once a connect at `now` has waited out its delay: past the
/// threshold, each connect opens a new window.
pub open spec fn after_wait(b: Backoff, now: u64) -> Backoff {
    if b.failures >= b.threshold {
        Backoff { since: (now + delay_before(b, now)) as u64, ..b }
    } else {
        b
    }
}

/// The record once a connect has failed.
pub open spec fn after_failure(b: Backoff) -> Backoff {
    Backoff { failures: if b.failures < u64::MAX { (b.failures + 1) as u64 } else { b.failures }, ..b }
}

/// A streak of failed connects at the given times, from a fresh record.
pub open spec fn failed_streak(b: Backoff, times: Seq<u64>) -> Backoff
    decreases times.len(),
{
    if times.len() == 0 {
        b
    } else {
        after_failure(after_wait(failed_streak(b, times.drop_last()), times.last()))
    }
}

impl Backoff {
    /// A fresh record at `now`, with the default policy.
    pub fn new(now: u64) -> (r: Backoff)
        ensures
            r == (Backoff { failures: 0, since: now, threshold: RETRY_FAILURES, window: RETRY_WINDOW_MS }),
    {
        Backoff { failures: 0, since: now, threshold: RETRY_FAILURES, window: RETRY_WINDOW_MS }
    }

    /// A fresh record at `now` with a policy of its own.
    pub fn with_policy(now: u64, threshold: u64, window: u64) -> (r: Backoff)
        ensures
            r == (Backoff { failures: 0, since: now, threshold, window }),
    {
        Backoff { failures: 0, since: now, threshold, window }
    }

    /// Before a connect at `now`: returns how long to wait, and records that
    /// the wait was made.
    pub fn before_attempt(&mut self, now: u64) -> (r: u64)
        ensures
            r == delay_before(*old(self), now),
            *final(self) == after_wait(*old(self), now),
    {
        let end = self.since.saturating_add(self.window);
        let delay = if self.failures >= self.threshold && now < end {
            end - now
        } else {
            0
        };
        if self.failures >= self.threshold {
            self.since = now + delay;
        }
        delay
    }

    /// Records a failed connect.
    pub fn record_failure(&mut self)
        ensures
            *final(self) == after_failure(*old(self)),
    {
        if self.failures < u64::MAX {
            self.failures = self.failures + 1;
        }
    }
}

/// Below the threshold nothing waits, and the window stays where the streak began.
proof fn lemma_streak_below(b: Backoff, times: Seq<u64>)
    requires
        b.failures == 0,
        times.len() <= b.threshold,
    ensures
        failed_streak(b, times) == (Backoff { failures: times.len() as u64, ..b }),
        forall|i: int| 0 <= i < times.len() ==> delay_before(#[trigger] failed_streak(b, times.subrange(0, i)), times[i]) == 0,
    decreases times.len(),
{
    if times.len() > 0 {
        let init = times.drop_last();
        lemma_streak_below(b, init);
        assert forall|i: int| 0 <= i < times.len() implies delay_before(#[trigger] failed_streak(b, times.subrange(0, i)), times[i]) == 0 by {
            if i < init.len() {
                assert(times.subrange(0, i) =~= init.subrange(0, i));
                assert(init[i] == times[i]);
            } else {
                assert(times.subrange(0, i) =~= init);
            }
        }
    }
}

/// After a full streak of failed connects that began at `b.since`, the next
/// connect waits until the window has passed since the streak began (or until
/// the end of time, where that lies beyond it), however soon it is tried; the
/// connects of the streak itself did not wait.
pub proof fn lemma_penalty_window(b: Backoff, times: Seq<u64>, now: u64)
    requires
        b.failures == 0,
        times.len() == b.threshold,
    ensures
        now + delay_before(failed_streak(b, times), now) >= window_end(b),
        forall|i: int| 0 <= i < times.len() ==> delay_before(#[trigger] failed_streak(b, times.subrange(0, i)), times[i]) == 0,
{
    lemma_streak_below(b, times);
}

/// Where a worker's session stands.
#[derive(Clone, Copy, Debug, PartialEq, Eq, Structural)]
pub enum Phase {
    /// Opening a stream to the remote.
    Connecting,
    /// Sending the hello frame on a fresh stream.
    Greeting,
    /// Passing queued frames on.
    Streaming,
}

/// What happened since the worker's last step.
pub enum Event {
    /// The worker has just begun.
    Start,
    /// A connect succeeded.
    Connected,
    /// A connect failed.
    ConnectFailed,
    /// The last write succeeded.
    Wrote,
    /// The last write failed.
    WriteFailed,
    /// A frame came off the queue.
    Received(Arc<Vec<u8>>),
    /// The queue was closed by the producer.
    Closed,
}

/// What the worker is to do next.
#[derive(Clone, Copy, Debug, PartialEq, Eq, Structural)]
pub enum Action {
    /// Connect after waiting this many milliseconds.
    Connect(u64),
    /// Write the hello frame.
    SendHello,
    /// Write the frame the session holds.
    SendPending,
    /// Take the next frame off the queue.
    Receive,
    /// Stop: the queue is closed, or the event did not fit the phase.
    Stop,
}

/// The mathematical value of an `Event`.
pub enum EventV {
    Start,
    Connected,
    ConnectFailed,
    Wrote,
    WriteFailed,
    Received(Seq<u8>),
    Closed,
}

impl View for Event {
    type V = EventV;

    open spec fn view(&self) -> EventV {
        match self {
            Event::Start => EventV::Start,
            Event::Connected => EventV::Connected,
            Event::ConnectFailed => EventV::ConnectFailed,
            Event::Wrote => EventV::Wrote,
            Event::WriteFailed => EventV::WriteFailed,
            Event::Received(f) => EventV::Received((**f)@),
            Event::Closed => EventV::Closed,
        }
    }
}

/// The mathematical value of a `Session`.
pub struct SessionV {
    pub phase: Phase,
    pub backoff: Backoff,
    /// The frame taken off the queue and not yet written.
    pub pending: Option<Seq<u8>>,
}

/// One step of a worker's session.
/// - A connect waits as the backoff says; a failed one counts toward it.
/// - A fresh stream gets the hello frame first, then any frame whose write
///   failed on the last stream, then the queue in order.
/// - A failed write starts a new streak of connects and keeps the frame.
pub open spec fn session_step(s: SessionV, e: EventV, now: u64) -> (SessionV, Action) {
    match (s.phase, e) {
        (Phase::Connecting, EventV::Start) => (
            SessionV { backoff: after_wait(s.backoff, now), ..s },
            Action::Connect(delay_before(s.backoff, now)),
        ),
        (Phase::Connecting, EventV::ConnectFailed) => {
            let b = after_failure(s.backoff);
            (SessionV { backoff: after_wait(b, now), ..s }, Action::Connect(delay_before(b, now)))
        },
        (Phase::Connecting, EventV::Connected) => (
            SessionV { phase: Phase::Greeting, ..s },
            Action::SendHello,
        ),
        (Phase::Greeting, EventV::Wrote) => (
            SessionV { phase: Phase::Streaming, ..s },
            if s.pending is Some {
                Action::SendPending
            } else {
                Action::Receive
            },
        ),
        (Phase::Streaming, EventV::Wrote) => (
            SessionV { pending: None, ..s },
            Action::Receive,
        ),
        (Phase::Streaming, EventV::Received(f)) => (
            SessionV { pending: Some(f), ..s },
            Action::SendPending,
        ),
        (Phase::Streaming, EventV::Closed) => (s, Action::Stop),
        (Phase::Greeting, EventV::WriteFailed) | (Phase::Streaming, EventV::WriteFailed) => {
            let b = Backoff { failures: 0, since: now, ..s.backoff };
            (
                SessionV { phase: Phase::Connecting, backoff: after_wait(b, now), ..s },
                Action::Connect(delay_before(b, now)),
            )
        },
        _ => (s, Action::Stop),
    }
}

/// A worker's session with one remote.
pub struct Session {
    phase: Phase,
    backoff: Backoff,
    pending: Option<Arc<Vec<u8>>>,
}

impl View for Session {
    type V = SessionV;

    closed spec fn view(&self) -> SessionV {
        SessionV {
            phase: self.phase,
            backoff: self.backoff,
            pending: match &self.pending {
                Some(f) => Some((**f)@),
                None => None,
            },
        }
    }
}

impl Session {
    /// A session about to connect, with `backoff` as its retry record.
    pub fn new(backoff: Backoff) -> (r: Session)
        ensures
            r@ == (SessionV { phase: Phase::Connecting, backoff, pending: None }),
    {
        Session { phase: Phase::Connecting, backoff, pending: None }
    }

    /// The frame the session holds, to be written on `SendPending`.
    pub fn pending_frame(&self) -> (r: Option<&Arc<Vec<u8>>>)
        ensures
            match r {
                Some(f) => self@.pending == Some((**f)@),
                None => self@.pending is None,
            },
    {
        match &self.pending {
            Some(f) => Some(f),
            None => None,
        }
    }

    /// Takes in what happened and decides what to do next.
    pub fn step(&mut self, event: Event, now: u64) -> (r: Action)
        ensures
            (final(self)@, r) == session_step(old(self)@, event@, now),
    {
        match (self.phase, event) {
            (Phase::Connecting, Event::Start) => Action::Connect(self.backoff.before_attempt(now)),
            (Phase::Connecting, Event::ConnectFailed) => {
                self.backoff.record_failure();
                Action::Connect(self.backoff.before_attempt(now))
            },
            (Phase::Connecting, Event::Connected) => {
                self.phase = Phase::Greeting;
                Action::SendHello
            },
            (Phase::Greeting, Event::Wrote) => {
                self.phase = Phase::Streaming;
                if self.pending.is_some() {
                    Action::SendPending
                } else {
                    Action::Receive
                }
            },
            (Phase::Streaming, Event::Wrote) => {
                self.pending = None;
                Action::Receive
            },
            (Phase::Streaming, Event::Received(f)) => {
                self.pending = Some(f);
                Action::SendPending
            },
            (Phase::Streaming, Event::Closed) => Action::Stop,
            (Phase::Greeting, Event::WriteFailed) | (Phase::Streaming, Event::WriteFailed) => {
                self.phase = Phase::Connecting;
                self.backoff = Backoff { failures: 0, since: now, ..self.backoff };
                Action::Connect(self.backoff.before_attempt(now))
            },
            _ => Action::Stop,
        }
    }
}

} // verus!
