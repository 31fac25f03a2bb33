//! Forwarding of samples to a client: throttling and queueing.
//!
//! Times are in nanoseconds of a clock that does not go back.
use std::collections::VecDeque;
use vstd::prelude::*;
use crate::backend::Sample;
use crate::subscription::SubParams;

verus! {

/// The samples of one subscription on their way to the client.
pub struct Forwarder {
    queue: VecDeque<Sample>,
    last_sent: Option<u64>,
}

/// A forwarder as mathematics.
#[verifier::ext_equal]
pub ghost struct ForwarderModel {
    pub queue: Seq<Sample>,
    pub last_sent: Option<u64>,
}

impl View for Forwarder {
    type V = ForwarderModel;

    closed spec fn view(&self) -> ForwarderModel {
        ForwarderModel { queue: self.queue@, last_sent: self.last_sent }
    }
}

/// What a forwarder waits for.
#[derive(Debug, Clone, Copy, PartialEq, Eq, Structural)]
pub enum Wait {
    /// The next sample.
    Sample,
    /// The next sample, but not beyond the given time.
    SampleUntil(u128),
}

/// The least time between samples.
pub open spec fn throttle(p: SubParams) -> nat {
    p.throttle_rate as nat * 1_000_000
}

/// Whether samples wait in the queue.
pub open spec fn draining(f: ForwarderModel, p: SubParams) -> bool {
    p.queue_length > 0 && f.queue.len() > 0
}

/// What a forwarder waits for at the time `now`.
pub open spec fn waits(f: ForwarderModel, p: SubParams, now: u64) -> Wait {
    if draining(f, p) {
        Wait::SampleUntil(
            match f.last_sent {
                Some(t) => (t + throttle(p)) as u128,
                None => now as u128,
            },
        )
    } else {
        Wait::Sample
    }
}

/// A queue with a further sample; the oldest one goes where the queue is full.
pub open spec fn bounded_push(queue: Seq<Sample>, s: Sample, maxlen: nat) -> Seq<Sample> {
    if queue.len() >= maxlen && queue.len() > 0 {
        queue.drop_first().push(s)
    } else {
        queue.push(s)
    }
}

/// Whether enough time has passed since the last sample was sent.
pub open spec fn ready(f: ForwarderModel, p: SubParams, now: u64) -> bool {
    match f.last_sent {
        Some(t) => (if now >= t {
            now - t
        } else {
            0
        }) >= throttle(p),
        None => true,
    }
}

/// The forwarder after a sample came in, and whether the sample is sent at once.
pub open spec fn took(f: ForwarderModel, p: SubParams, s: Sample, now: u64) -> (
    ForwarderModel,
    Option<Sample>,
) {
    let queued = ForwarderModel {
        queue: bounded_push(f.queue, s, p.queue_length as nat),
        ..f
    };
    let sent = ForwarderModel { last_sent: Some(now), ..f };
    if draining(f, p) {
        (queued, None)
    } else if p.throttle_rate == 0 {
        (sent, Some(s))
    } else if p.queue_length > 0 {
        (queued, None)
    } else if ready(f, p, now) {
        (sent, Some(s))
    } else {
        (f, None)
    }
}

/// The forwarder after the time for the next sample has come, and the sample that is
/// sent.
pub open spec fn released(f: ForwarderModel, now: u64) -> (ForwarderModel, Option<Sample>) {
    if f.queue.len() > 0 {
        (
            ForwarderModel { queue: f.queue.drop_first(), last_sent: Some(now) },
            Some(f.queue[0]),
        )
    } else {
        (f, None)
    }
}

/// Appends a sample to a queue of bounded length.
pub fn push_bounded(queue: &mut VecDeque<Sample>, s: Sample, maxlen: usize)
    ensures
        final(queue)@ == bounded_push(old(queue)@, s, maxlen as nat),
{
    if queue.len() >= maxlen {
        let dropped = queue.pop_front();
    }
    queue.push_back(s);
    assert(queue@ =~= bounded_push(old(queue)@, s, maxlen as nat));
}

impl Forwarder {
    /// A forwarder without samples.
    pub fn new() -> (r: Self)
        ensures
            r@ == (ForwarderModel { queue: Seq::empty(), last_sent: None }),
    {
        Forwarder { queue: VecDeque::new(), last_sent: None }
    }

    /// What to wait for next.
    pub fn wait(&self, p: &SubParams, now: u64) -> (r: Wait)
        ensures
            r == waits(self@, *p, now),
    {
        if p.queue_length > 0 && self.queue.len() > 0 {
            let next_at: u128 = match self.last_sent {
                Some(t) => t as u128 + p.throttle_rate as u128 * 1_000_000,
                None => now as u128,
            };
            Wait::SampleUntil(next_at)
        } else {
            Wait::Sample
        }
    }

    /// Takes a sample in: the sample to send at once, if it is to be sent.
    pub fn on_sample(&mut self, p: &SubParams, s: Sample, now: u64) -> (r: Option<Sample>)
        ensures
            (final(self)@, r) == took(old(self)@, *p, s, now),
    {
        if p.queue_length > 0 && self.queue.len() > 0 {
            push_bounded(&mut self.queue, s, p.queue_length);
            None
        } else if p.throttle_rate == 0 {
            self.last_sent = Some(now);
            Some(s)
        } else if p.queue_length > 0 {
            push_bounded(&mut self.queue, s, p.queue_length);
            None
        } else {
            let ready = match self.last_sent {
                Some(t) => {
                    let passed: u64 = if now >= t {
                        now - t
                    } else {
                        0
                    };
                    passed as u128 >= p.throttle_rate as u128 * 1_000_000
                },
                None => true,
            };
            if ready {
                self.last_sent = Some(now);
                Some(s)
            } else {
                None
            }
        }
    }

    /// Takes the oldest sample out of the queue, when its time has come.
    pub fn on_timer(&mut self, now: u64) -> (r: Option<Sample>)
        ensures
            (final(self)@, r) == released(old(self)@, now),
    {
        match self.queue.pop_front() {
            Some(s) => {
                self.last_sent = Some(now);
                assert(self.queue@ =~= old(self)@.queue.drop_first());
                Some(s)
            },
            None => None,
        }
    }
}

/// A queue that is not longer than its bound stays so.
pub proof fn queue_stays_bounded(f: ForwarderModel, p: SubParams, s: Sample, now: u64)
    requires
        f.queue.len() <= p.queue_length,
    ensures
        took(f, p, s, now).0.queue.len() <= p.queue_length,
        released(f, now).0.queue.len() <= p.queue_length,
{
}

/// What a bounded queue holds is the last that came in, in the order in which it came.
pub proof fn queue_holds_the_latest(queue: Seq<Sample>, s: Sample, maxlen: nat)
    requires
        0 < maxlen,
        queue.len() <= maxlen,
    ensures
        ({
            let all = queue.push(s);
            let n = bounded_push(queue, s, maxlen).len();
            n <= all.len() && bounded_push(queue, s, maxlen) == all.skip(all.len() - n)
        }),
{
    let all = queue.push(s);
    if queue.len() >= maxlen {
        assert(all.skip(1) =~= queue.drop_first().push(s));
    } else {
        assert(all.skip(0) =~= all);
    }
}

/// Without a queue a sample is sent only when at least the throttle time has passed
/// since the last one that was sent.
pub proof fn throttled_samples_are_spaced(
    f: ForwarderModel,
    p: SubParams,
    s: Sample,
    now: u64,
    last: u64,
)
    requires
        p.throttle_rate > 0,
        p.queue_length == 0,
        f.last_sent == Some(last),
        took(f, p, s, now).1 is Some,
    ensures
        now - last >= throttle(p),
        took(f, p, s, now).0.last_sent == Some(now),
{
    assert(throttle(p) > 0);
}

/// A queue is drained no earlier than the throttle time after the last sample that was
/// sent.
pub proof fn queued_samples_are_spaced(f: ForwarderModel, p: SubParams, now: u64, last: u64)
    requires
        draining(f, p),
        f.last_sent == Some(last),
    ensures
        waits(f, p, now) matches Wait::SampleUntil(t) && t - last == throttle(p),
{
    assert(throttle(p) <= u64::MAX * 1_000_000);
}

/// Without a throttle rate and with an empty queue every sample is sent at once.
pub proof fn unthrottled_samples_pass(f: ForwarderModel, p: SubParams, s: Sample, now: u64)
    requires
        p.throttle_rate == 0,
        f.queue.len() == 0,
    ensures
        took(f, p, s, now) == (ForwarderModel { last_sent: Some(now), ..f }, Some(s)),
{
}

/// Without a queue a sample is sent exactly when it is the first, or when at least the
/// throttle rate in milliseconds has passed since the last one that was sent; else it is
/// dropped and nothing changes.
pub proof fn sample_is_sent_when_its_time_has_come(
    f: ForwarderModel,
    p: SubParams,
    s: Sample,
    now: u64,
)
    requires
        p.queue_length == 0,
        f.last_sent matches Some(last) ==> last <= now,
    ensures
        ({
            let (g, sent) = took(f, p, s, now);
            let due = match f.last_sent {
                Some(last) => now - last >= p.throttle_rate * 1_000_000,
                None => true,
            };
            &&& g.queue == f.queue
            &&& due ==> sent == Some(s) && g.last_sent == Some(now)
            &&& !due ==> sent is None && g == f
        }),
{
    if p.throttle_rate == 0 {
        assert(p.throttle_rate * 1_000_000 == 0);
    }
}

/// With a queue and a throttle rate no sample is sent at once: it comes last in the queue,
/// and none is dropped as long as the queue has room.
pub proof fn queued_sample_comes_last(f: ForwarderModel, p: SubParams, s: Sample, now: u64)
    requires
        p.queue_length > 0,
        p.throttle_rate > 0 || f.queue.len() > 0,
    ensures
        ({
            let (g, sent) = took(f, p, s, now);
            &&& sent is None
            &&& g.last_sent == f.last_sent
            &&& g.queue.len() > 0 && g.queue.last() == s
            &&& f.queue.len() < p.queue_length ==> g.queue == f.queue.push(s)
        }),
{
}

/// Samples leave the queue in the order in which they came, each at its time: the next one
/// is the throttle rate in milliseconds after the last one that was sent.
pub proof fn oldest_sample_leaves_first(f: ForwarderModel, p: SubParams, now: u64)
    requires
        f.queue.len() > 0,
    ensures
        released(f, now).1 == Some(f.queue[0]),
        released(f, now).0.queue == f.queue.skip(1),
        released(f, now).0.last_sent == Some(now),
        p.queue_length > 0 ==> (waits(f, p, now) matches Wait::SampleUntil(t) && t == (
        match f.last_sent {
            Some(last) => last + p.throttle_rate * 1_000_000,
            None => now as int,
        })),
{
    assert(f.queue.drop_first() =~= f.queue.skip(1));
    assert(p.throttle_rate * 1_000_000 <= u64::MAX * 1_000_000);
}

} // verus!
