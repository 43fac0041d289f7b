//! The broadcast scheduler: turns domain events into encoded frames and
//! releases them at a bounded rate, at most two per one-second window,
//! oldest first. Frames over the limit wait for a later window; the limiter
//! never drops one, and it sets no bound on how many may wait.
use vstd::prelude::*;
use std::collections::VecDeque;
use crate::envelope::{MessageError, encode_result, send_message};

verus! {

/// Most frames released in one window.
pub const MAX_MESSAGES_PER_WINDOW: usize = 2;

/// Length of a window, in milliseconds.
pub const WINDOW_MS: u64 = 1000;

/// A state update from one of the producers.
#[derive(Debug)]
pub enum StateMessage {
    /// The track now playing.
    TrackData(String),
    WeatherData(String),
    /// A trading-profit tick.
    XtbData(String),
    /// A heartbeat.
    Ping,
}

/// The source tag under which an event is broadcast.
pub open spec fn source_tag(m: StateMessage) -> Seq<char> {
    match m {
        StateMessage::TrackData(_) => "Spotify"@,
        StateMessage::WeatherData(_) => "Weather"@,
        StateMessage::XtbData(_) => "XTB"@,
        StateMessage::Ping => "PING"@,
    }
}

/// The payload text of an event.
pub open spec fn message_text(m: StateMessage) -> Seq<char> {
    match m {
        StateMessage::TrackData(t) => t@,
        StateMessage::WeatherData(t) => t@,
        StateMessage::XtbData(t) => t@,
        StateMessage::Ping => "HEARTBEAT"@,
    }
}

/// Encodes an event as the envelope of its source tag and text.
pub fn encode_state(m: &StateMessage) -> (r: Result<Vec<u8>, MessageError>)
    ensures
        match (r, encode_result(source_tag(*m), message_text(*m))) {
            (Ok(v), Ok(b)) => v@ == b,
            (Err(e), Err(f)) => e == f,
            _ => false,
        },
{
    match m {
        StateMessage::TrackData(t) => send_message("Spotify", t.as_str()),
        StateMessage::WeatherData(t) => send_message("Weather", t.as_str()),
        StateMessage::XtbData(t) => send_message("XTB", t.as_str()),
        StateMessage::Ping => send_message("PING", "HEARTBEAT"),
    }
}

/// How many frames a flush at `now` releases, with `n` frames waiting and
/// the last release at `last`: none before a full window has passed, else
/// up to the per-window maximum.
pub open spec fn flush_size(n: nat, last: int, now: int) -> nat {
    if n > 0 && now >= last + WINDOW_MS {
        if n < MAX_MESSAGES_PER_WINDOW {
            n
        } else {
            MAX_MESSAGES_PER_WINDOW as nat
        }
    } else {
        0
    }
}

/// When the last release happened, after a flush at `now` released `k` frames.
pub open spec fn last_after(last: int, now: int, k: nat) -> int {
    if k > 0 {
        now
    } else {
        last
    }
}

pub open spec fn frames_of(v: Seq<Vec<u8>>) -> Seq<Seq<u8>> {
    v.map_values(|f: Vec<u8>| f@)
}

/// Frames waiting for their window, and the time of the last release.
pub struct Scheduler {
    batch: VecDeque<Vec<u8>>,
    last_flush_ms: u64,
}

impl Scheduler {
    /// The frames waiting to be released, oldest first.
    pub closed spec fn pending(&self) -> Seq<Seq<u8>> {
        frames_of(self.batch@)
    }

    /// When frames were last released, in milliseconds.
    pub closed spec fn last_flush(&self) -> int {
        self.last_flush_ms as int
    }

    /// A scheduler with nothing waiting whose first window starts at `now_ms`.
    pub fn new(now_ms: u64) -> (r: Scheduler)
        ensures
            r.pending() == Seq::<Seq<u8>>::empty(),
            r.last_flush() == now_ms,
    {
        let r = Scheduler { batch: VecDeque::new(), last_flush_ms: now_ms };
        assert(r.pending() =~= Seq::<Seq<u8>>::empty());
        r
    }

    /// Number of frames waiting.
    pub fn pending_len(&self) -> (n: usize)
        ensures
            n == self.pending().len(),
    {
        self.batch.len()
    }

    /// Encodes `m` and appends the frame to the waiting ones. An event that
    /// cannot be encoded is dropped and its error returned.
    pub fn enqueue(&mut self, m: &StateMessage) -> (r: Result<(), MessageError>)
        ensures
            final(self).last_flush() == old(self).last_flush(),
            match encode_result(source_tag(*m), message_text(*m)) {
                Ok(b) => r is Ok && final(self).pending() == old(self).pending().push(b),
                Err(e) => r == Err::<(), MessageError>(e) && final(self).pending() == old(
                    self,
                ).pending(),
            },
    {
        match encode_state(m) {
            Ok(frame) => {
                let ghost before = self.batch@;
                self.batch.push_back(frame);
                assert(frames_of(self.batch@) =~= frames_of(before).push(frame@));
                Ok(())
            },
            Err(e) => Err(e),
        }
    }

    /// Releases the frames due at `now_ms`: nothing before a full window has
    /// passed since the last release, else the oldest waiting frames, up to
    /// the per-window maximum.
    pub fn flush_due(&mut self, now_ms: u64) -> (r: Vec<Vec<u8>>)
        ensures
            ({
                let k = flush_size(old(self).pending().len(), old(self).last_flush(), now_ms as int);
                &&& frames_of(r@) == old(self).pending().take(k as int)
                &&& final(self).pending() == old(self).pending().skip(k as int)
                &&& final(self).last_flush() == last_after(old(self).last_flush(), now_ms as int, k)
            }),
    {
        let ghost before = self.batch@;
        let ghost k = flush_size(frames_of(before).len(), self.last_flush_ms as int, now_ms as int);
        let mut out: Vec<Vec<u8>> = Vec::new();
        if now_ms >= self.last_flush_ms && now_ms - self.last_flush_ms >= WINDOW_MS
            && self.batch.len() > 0 {
            while out.len() < MAX_MESSAGES_PER_WINDOW && self.batch.len() > 0
                invariant
                    out@.len() <= MAX_MESSAGES_PER_WINDOW,
                    out@.len() <= before.len(),
                    out@ == before.take(out@.len() as int),
                    self.batch@ == before.skip(out@.len() as int),
                decreases self.batch@.len(),
            {
                match self.batch.pop_front() {
                    Some(f) => {
                        out.push(f);
                        assert(out@ =~= before.take(out@.len() as int));
                        assert(self.batch@ =~= before.skip(out@.len() as int));
                    },
                    None => {},
                }
            }
            self.last_flush_ms = now_ms;
            assert(out@.len() == k);
        } else {
            assert(before.take(0) =~= Seq::<Vec<u8>>::empty());
            assert(before.skip(0) =~= before);
        }
        assert(frames_of(out@) =~= frames_of(before).take(k as int));
        assert(frames_of(self.batch@) =~= frames_of(before).skip(k as int));
        out
    }

    /// Handles one event arriving at `now_ms`: it is encoded and queued,
    /// then whatever is due is released.
    pub fn on_event(&mut self, m: &StateMessage, now_ms: u64) -> (r: Vec<Vec<u8>>)
        ensures
            ({
                let queued = match encode_result(source_tag(*m), message_text(*m)) {
                    Ok(b) => old(self).pending().push(b),
                    Err(_) => old(self).pending(),
                };
                let k = flush_size(queued.len(), old(self).last_flush(), now_ms as int);
                &&& frames_of(r@) == queued.take(k as int)
                &&& final(self).pending() == queued.skip(k as int)
                &&& final(self).last_flush() == last_after(old(self).last_flush(), now_ms as int, k)
            }),
    {
        let _ = self.enqueue(m);
        self.flush_due(now_ms)
    }
}

/// Frames released by flushes at `times`, in order, starting from `pending`
/// with the last release at `last`.
pub open spec fn released(pending: Seq<Seq<u8>>, last: int, times: Seq<int>) -> Seq<Seq<u8>>
    decreases times.len(),
{
    if times.len() == 0 {
        Seq::empty()
    } else {
        let k = flush_size(pending.len(), last, times[0]);
        pending.take(k as int) + released(
            pending.skip(k as int),
            last_after(last, times[0], k),
            times.drop_first(),
        )
    }
}

/// Frames still waiting after flushes at `times`.
pub open spec fn left_after(pending: Seq<Seq<u8>>, last: int, times: Seq<int>) -> Seq<Seq<u8>>
    decreases times.len(),
{
    if times.len() == 0 {
        pending
    } else {
        let k = flush_size(pending.len(), last, times[0]);
        left_after(pending.skip(k as int), last_after(last, times[0], k), times.drop_first())
    }
}

/// Flushes at `times` that come one full window after another, the first a
/// full window after `last`.
pub open spec fn spaced(last: int, times: Seq<int>) -> bool {
    &&& times.len() > 0 ==> times[0] >= last + WINDOW_MS
    &&& forall|i: int| 0 <= i < times.len() - 1 ==> #[trigger] times[i + 1] >= times[i] + WINDOW_MS
}

/// A flush releases at most two frames, and two flushes that both release
/// frames are at least one window apart, whatever arrived in between: no
/// one-second window sees more than two frames.
pub proof fn lemma_rate_limit(n1: nat, n2: nat, last: int, t1: int, t2: int)
    ensures
        ({
            let k1 = flush_size(n1, last, t1);
            let k2 = flush_size(n2, last_after(last, t1, k1), t2);
            &&& k1 <= MAX_MESSAGES_PER_WINDOW
            &&& k2 <= MAX_MESSAGES_PER_WINDOW
            &&& (k1 > 0 && k2 > 0 ==> t2 >= t1 + WINDOW_MS)
        }),
{
}

/// The limiter loses nothing: what the flushes released, followed by what
/// still waits, is exactly what was waiting, in the same order.
pub proof fn lemma_no_loss(pending: Seq<Seq<u8>>, last: int, times: Seq<int>)
    ensures
        released(pending, last, times) + left_after(pending, last, times) == pending,
    decreases times.len(),
{
    if times.len() > 0 {
        let k = flush_size(pending.len(), last, times[0]);
        let rest = pending.skip(k as int);
        let last2 = last_after(last, times[0], k);
        lemma_no_loss(rest, last2, times.drop_first());
        assert(pending.take(k as int) + rest =~= pending);
        assert(released(pending, last, times) + left_after(pending, last, times) =~= pending.take(
            k as int,
        ) + (released(rest, last2, times.drop_first()) + left_after(
            rest,
            last2,
            times.drop_first(),
        )));
    }
}

/// Given enough time, a burst drains: flushes one window apart release all
/// of `pending` after at most half as many flushes as frames, rounded up.
pub proof fn lemma_burst_drains(pending: Seq<Seq<u8>>, last: int, times: Seq<int>)
    requires
        spaced(last, times),
        pending.len() <= MAX_MESSAGES_PER_WINDOW * times.len(),
    ensures
        left_after(pending, last, times) == Seq::<Seq<u8>>::empty(),
        released(pending, last, times) == pending,
    decreases times.len(),
{
    lemma_no_loss(pending, last, times);
    if times.len() == 0 {
        assert(pending =~= Seq::<Seq<u8>>::empty());
    } else {
        let k = flush_size(pending.len(), last, times[0]);
        let rest = pending.skip(k as int);
        let last2 = last_after(last, times[0], k);
        let later = times.drop_first();
        assert(spaced(last2, later)) by {
            if later.len() > 0 {
                assert(later[0] == times[1]);
                assert(times[1] >= times[0] + WINDOW_MS);
            }
            assert forall|i: int| 0 <= i < later.len() - 1 implies #[trigger] later[i + 1]
                >= later[i] + WINDOW_MS by {
                assert(later[i + 1] == times[i + 2]);
                assert(later[i] == times[i + 1]);
            }
        }
        lemma_burst_drains(rest, last2, later);
        assert(released(pending, last, times) + Seq::<Seq<u8>>::empty() =~= released(
            pending,
            last,
            times,
        ));
    }
}

} // verus!
